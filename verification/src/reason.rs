//! Why a task is not collectible, in words.
use vstd::prelude::*;
use vstd::string::*;
use crate::task::{Residency, TaskId, TaskModel, TaskStorage};

verus! {

/// `reason` if it applies, as a list.
pub open spec fn if_so(applies: bool, reason: Seq<char>) -> Seq<Seq<char>> {
    if applies {
        seq![reason]
    } else {
        seq![]
    }
}

/// One reason for each test of `gc_maybe_collectible` that a persistent task fails.
pub open spec fn reasons(m: TaskModel) -> Seq<Seq<char>> {
    if_so(m.residency != Residency::Restored, "not restored"@) + if_so(m.deleted, "deleted"@)
        + if_so(m.parent_count > 0, "persistent parents"@) + if_so(
        m.transient_ref_count > 0,
        "transient references"@,
    ) + if_so(m.active, "active"@) + if_so(m.in_progress, "in progress"@) + if_so(
        !m.uppers.is_empty(),
        "upper edges"@,
    )
}

/// The parts with a comma and a space between them.
pub open spec fn joined(parts: Seq<Seq<char>>) -> Seq<char>
    decreases parts.len(),
{
    if parts.len() == 0 {
        Seq::empty()
    } else if parts.len() == 1 {
        parts[0]
    } else {
        joined(parts.drop_last()) + ", "@ + parts.last()
    }
}

/// What the parts say.
pub open spec fn texts(parts: Seq<&'static str>) -> Seq<Seq<char>> {
    parts.map_values(|p: &'static str| p@)
}

/// Adds `reason` to the parts if it applies.
fn note(parts: &mut Vec<&'static str>, applies: bool, reason: &'static str)
    ensures
        texts(final(parts)@) == texts(old(parts)@) + if_so(applies, reason@),
{
    if applies {
        parts.push(reason);
    }
    assert(texts(parts@) =~= texts(old(parts)@) + if_so(applies, reason@));
}

/// Joins the parts with a comma and a space between them.
fn join(parts: &Vec<&'static str>) -> (text: String)
    ensures
        text@ == joined(texts(parts@)),
{
    let mut text = String::new();
    let mut i: usize = 0;
    let ghost all = texts(parts@);
    while i < parts.len()
        invariant
            i <= parts@.len(),
            all == texts(parts@),
            text@ == joined(all.take(i as int)),
        decreases parts@.len() - i,
    {
        if i > 0 {
            text.append(", ");
        }
        text.append(parts[i]);
        proof {
            let next = all.take(i + 1);
            assert(next.drop_last() =~= all.take(i as int));
            assert(next.last() == parts@[i as int]@);
            if i == 0 {
                assert(text@ =~= next[0]);
            } else {
                assert(text@ =~= joined(next));
            }
        }
        i = i + 1;
    }
    assert(all.take(i as int) =~= all);
    text
}

impl TaskStorage {
    /// Why the task is not collectible, one reason for each test that it fails, or `None` if it is.
    /// Whether its id is transient is for the caller to see.
    pub fn gc_uncollectible_reason(&self) -> (reason: Option<String>)
        ensures
            reason is None <==> reasons(self@).len() == 0,
            reason matches Some(text) ==> text@ == joined(reasons(self@)),
    {
        let mut parts: Vec<&'static str> = Vec::new();
        assert(texts(parts@) =~= seq![]);
        note(&mut parts, self.residency != Residency::Restored, "not restored");
        note(&mut parts, self.deleted, "deleted");
        note(&mut parts, self.parent_count > 0, "persistent parents");
        note(&mut parts, self.transient_ref_count > 0, "transient references");
        note(&mut parts, self.active, "active");
        note(&mut parts, self.in_progress, "in progress");
        note(&mut parts, !self.uppers.is_empty(), "upper edges");
        proof {
            let first = if_so(self@.residency != Residency::Restored, "not restored"@);
            assert(Seq::<Seq<char>>::empty() + first =~= first);
        }
        if parts.len() == 0 {
            None
        } else {
            Some(join(&parts))
        }
    }
}

/// A persistent task has no reason against it exactly when the scan takes it.
pub proof fn law_no_reason_means_collectible(task: TaskId, m: TaskModel)
    requires
        !crate::task::transient(task),
    ensures
        reasons(m).len() == 0 <==> m.residency == Residency::Restored && crate::task::collectible(
            task,
            m,
        ),
{
}

/// Each test that a task fails is named, and nothing else is: a reason is given exactly when what it
/// says of the task is so.
pub proof fn law_reasons_name_the_failing_tests(m: TaskModel)
    ensures
        reasons(m).contains("not restored"@) <==> m.residency == Residency::Disk || m.residency
            == Residency::Retained,
        reasons(m).contains("deleted"@) <==> m.deleted,
        reasons(m).contains("persistent parents"@) <==> m.parent_count > 0,
        reasons(m).contains("transient references"@) <==> m.transient_ref_count > 0,
        reasons(m).contains("active"@) <==> m.active,
        reasons(m).contains("in progress"@) <==> m.in_progress,
        reasons(m).contains("upper edges"@) <==> exists|u: TaskId| m.uppers.contains(u),
        forall|r: Seq<char>| #[trigger]
            reasons(m).contains(r) ==> r == "not restored"@ || r == "deleted"@ || r
                == "persistent parents"@ || r == "transient references"@ || r == "active"@ || r
                == "in progress"@ || r == "upper edges"@,
        reasons(m).no_duplicates(),
{
    reveal_strlit("not restored");
    reveal_strlit("deleted");
    reveal_strlit("persistent parents");
    reveal_strlit("transient references");
    reveal_strlit("active");
    reveal_strlit("in progress");
    reveal_strlit("upper edges");
    assert("not restored"@.len() == 12);
    assert("deleted"@.len() == 7);
    assert("persistent parents"@.len() == 18);
    assert("transient references"@.len() == 20);
    assert("active"@.len() == 6);
    assert("in progress"@.len() == 11 && "upper edges"@.len() == 11);
    assert("in progress"@[0] == 'i' && "upper edges"@[0] == 'u');
    let a1 = if_so(m.residency != Residency::Restored, "not restored"@);
    let a2 = a1 + if_so(m.deleted, "deleted"@);
    let a3 = a2 + if_so(m.parent_count > 0, "persistent parents"@);
    let a4 = a3 + if_so(m.transient_ref_count > 0, "transient references"@);
    let a5 = a4 + if_so(m.active, "active"@);
    let a6 = a5 + if_so(m.in_progress, "in progress"@);
    lemma_one_more(Seq::empty(), m.residency != Residency::Restored, "not restored"@);
    assert(Seq::<Seq<char>>::empty() + a1 =~= a1);
    lemma_one_more(a1, m.deleted, "deleted"@);
    lemma_one_more(a2, m.parent_count > 0, "persistent parents"@);
    lemma_one_more(a3, m.transient_ref_count > 0, "transient references"@);
    lemma_one_more(a4, m.active, "active"@);
    lemma_one_more(a5, m.in_progress, "in progress"@);
    lemma_one_more(a6, !m.uppers.is_empty(), "upper edges"@);
    assert(reasons(m) == a6 + if_so(!m.uppers.is_empty(), "upper edges"@));
}

/// What a list holds once a reason was added to it, if it applies.
proof fn lemma_one_more(parts: Seq<Seq<char>>, applies: bool, reason: Seq<char>)
    ensures
        forall|r: Seq<char>| #[trigger]
            (parts + if_so(applies, reason)).contains(r) <==> parts.contains(r) || (applies && r
                == reason),
        parts.no_duplicates() && !parts.contains(reason) ==> (parts + if_so(
            applies,
            reason,
        )).no_duplicates(),
{
    let all = parts + if_so(applies, reason);
    if applies {
        assert(all =~= parts.push(reason));
        crate::vec_set::lemma_push_contains(parts, reason);
    } else {
        assert(all =~= parts);
    }
}

/// The text of several reasons: one is the text itself, and each further one follows behind a comma and
/// a space.
pub proof fn law_reasons_are_joined_by_commas(parts: Seq<Seq<char>>, r: Seq<char>)
    ensures
        joined(seq![r]) == r,
        parts.len() > 0 ==> joined(parts.push(r)) == joined(parts) + seq![',', ' '] + r,
        joined(Seq::empty()) == Seq::<char>::empty(),
{
    reveal_strlit(", ");
    assert(", "@ =~= seq![',', ' ']);
    assert(parts.push(r).drop_last() =~= parts);
}

} // verus!
