//! Lazy sources and deferred modules: what is built only once its path is revealed.
//!
//! A module reached through a dynamic import is added to the module graph, but its own references
//! are not expanded until its source path is revealed. Likewise a `*.lazy.*` file reads as empty
//! until then. Revealing a path is for the [`Session`]: there is one registry in it, which all callers
//! share; a new session has nothing revealed, and nothing is persisted.
use vstd::prelude::*;
use vstd::std_specs::cmp::PartialEqSpec;
use indexmap::IndexSet;
use rustc_hash::FxBuildHasher;
use crate::path::{
    file_name, has_part, joined_path, law_part_stands_between, law_path_is_directory_and_name,
    lemma_sibling_appends, name_has_part, parent, sibling,
    FileContent, FileSystemPath,
};

verus! {

/// `indexmap::IndexSet`: a hash set that keeps its items in the order of their insertion.
#[verifier::external_type_specification]
#[verifier::external_body]
#[verifier::reject_recursive_types(T)]
#[verifier::reject_recursive_types(S)]
pub struct ExIndexSet<T, S>(IndexSet<T, S>);

/// `rustc_hash::FxBuildHasher`: makes hashers that are the same in every process.
#[verifier::external_type_specification]
#[verifier::external_body]
pub struct ExFxBuildHasher(FxBuildHasher);

/// The texts that an `IndexSet` of strings holds.
pub uninterp spec fn members(set: IndexSet<String, FxBuildHasher>) -> Set<Seq<char>>;

/// `IndexSet::with_hasher` makes a set that holds nothing.
#[verifier::external_body]
fn new_index_set() -> (set: IndexSet<String, FxBuildHasher>)
    ensures
        members(set) == Set::<Seq<char>>::empty(),
{
    IndexSet::with_hasher(FxBuildHasher)
}

/// `IndexSet::insert` adds a value, and says whether the set did not hold an equal one before.
#[verifier::external_body]
fn insert_into_index_set(set: &mut IndexSet<String, FxBuildHasher>, value: String) -> (added: bool)
    ensures
        members(*final(set)) == members(*old(set)).insert(value@),
        added == !members(*old(set)).contains(value@),
{
    set.insert(value)
}

/// `IndexSet::contains` says whether the set holds a value equal to `value`.
#[verifier::external_body]
fn index_set_contains(set: &IndexSet<String, FxBuildHasher>, value: &String) -> (b: bool)
    ensures
        b == members(*set).contains(value@),
{
    set.contains(value)
}

/// The revealed source paths. Runtime-only, never persisted.
#[derive(Debug)]
pub struct LazyRevealRegistry {
    revealed: IndexSet<String, FxBuildHasher>,
}

impl View for LazyRevealRegistry {
    type V = Set<Seq<char>>;

    closed spec fn view(&self) -> Set<Seq<char>> {
        members(self.revealed)
    }
}

/// Any two registries are equal: what is revealed is state, and no part of a registry's identity.
impl PartialEq for LazyRevealRegistry {
    fn eq(&self, _other: &Self) -> (b: bool) {
        true
    }
}

impl vstd::std_specs::cmp::PartialEqSpecImpl for LazyRevealRegistry {
    open spec fn obeys_eq_spec() -> bool {
        true
    }

    open spec fn eq_spec(&self, _other: &Self) -> bool {
        true
    }
}

impl Eq for LazyRevealRegistry {

}

/// What lasts from the start of a process to its end: the one registry that all callers share.
#[derive(Debug)]
pub struct Session {
    registry: LazyRevealRegistry,
}

impl View for Session {
    type V = Set<Seq<char>>;

    closed spec fn view(&self) -> Set<Seq<char>> {
        self.registry@
    }
}

impl Session {
    /// A session that starts: nothing is revealed.
    pub fn start() -> (session: Self)
        ensures
            session@ == Set::<Seq<char>>::empty(),
    {
        Session { registry: LazyRevealRegistry { revealed: new_index_set() } }
    }

    /// The registry of the session, to be read.
    pub fn registry(&self) -> (registry: &LazyRevealRegistry)
        ensures
            registry@ == self@,
    {
        &self.registry
    }
}

impl LazyRevealRegistry {
    /// The singleton: the registry of the session, so that all callers share the same state. What is
    /// revealed through one handle is revealed to every other.
    pub fn get(session: &mut Session) -> (registry: &mut LazyRevealRegistry)
        ensures
            registry@ == old(session)@,
            final(session)@ == final(registry)@,
    {
        &mut session.registry
    }

    /// Whether `path` has been revealed.
    pub fn is_revealed(&self, path: &String) -> (b: bool)
        ensures
            b == self@.contains(path@),
    {
        index_set_contains(&self.revealed, path)
    }

    /// Reveals `path`, and says whether that changed anything. If it did, whatever was computed from
    /// the registry has to be computed again.
    pub fn reveal_path(&mut self, path: String) -> (changed: bool)
        ensures
            final(self)@ == old(self)@.insert(path@),
            changed == (final(self)@ != old(self)@),
            changed == !old(self)@.contains(path@),
    {
        let changed = insert_into_index_set(&mut self.revealed, path);
        proof {
            if !changed {
                assert(self@ =~= old(self)@);
            }
        }
        changed
    }
}

/// Reveals a path in the registry that the session shares.
pub fn reveal_path(session: &mut Session, path: String) -> (changed: bool)
    ensures
        final(session)@ == old(session)@.insert(path@),
        changed == (final(session)@ != old(session)@),
        changed == !old(session)@.contains(path@),
{
    LazyRevealRegistry::get(session).reveal_path(path)
}

/// Whether a path is that of a lazy source: a `*.lazy.*` file.
pub open spec fn lazy_path(p: Seq<char>) -> bool {
    has_part(file_name(p), ".lazy."@)
}

/// Whether the source at `p` is held back: a lazy one that is not revealed.
pub open spec fn source_deferred(p: Seq<char>, revealed: Set<Seq<char>>) -> bool {
    lazy_path(p) && !revealed.contains(p)
}

/// Whether a path is that of a lazy source: a `*.lazy.*` file.
pub fn is_lazy_path(path: &str) -> (b: bool)
    ensures
        b == lazy_path(path@),
{
    name_has_part(path, ".lazy.")
}

/// The path of the marker file that reveals the source at `path`: next to it, with `.reveal` behind
/// its name.
pub fn reveal_marker(path: &FileSystemPath) -> (marker: String)
    ensures
        marker@ == joined_path(parent(path.path@), file_name(path.path@) + ".reveal"@),
{
    sibling(path.path.as_str(), ".reveal")
}

/// Whether the module at `path` is deferred, `marked` being whether its marker file is there.
pub open spec fn module_deferred(p: Seq<char>, revealed: Set<Seq<char>>, marked: bool) -> bool {
    !revealed.contains(p) && !marked
}

/// Whether a module reached through a dynamic import is still deferred, that is, not revealed.
/// `path` is where its source is and `marker` is what was read at its [`reveal_marker`]. The module
/// is revealed if the registry has its path, or if the marker file is there, whatever it holds.
pub fn is_module_deferred(
    session: &Session,
    path: &FileSystemPath,
    marker: &FileContent,
) -> (deferred: bool)
    ensures
        deferred == module_deferred(path.path@, session@, marker@ is Some),
        marker is Content ==> !deferred,
        session@.contains(path.path@) ==> !deferred,
        marker is NotFound && !session@.contains(path.path@) ==> deferred,
{
    let by_state = session.registry().is_revealed(&path.path);
    let by_marker = match marker {
        FileContent::NotFound => false,
        FileContent::Content(_) => true,
    };
    !(by_state || by_marker)
}

/// Whatever is revealed further on, what was revealed once is neither held back nor deferred for the
/// rest of the session.
pub proof fn law_reveal_is_for_the_session(
    p: Seq<char>,
    revealed: Set<Seq<char>>,
    later: Seq<Seq<char>>,
    marked: bool,
)
    ensures
        !source_deferred(p, all_revealed(revealed.insert(p), later)),
        !module_deferred(p, all_revealed(revealed.insert(p), later), marked),
    decreases later.len(),
{
    if later.len() > 0 {
        law_reveal_is_for_the_session(p, revealed, later.drop_last(), marked);
    }
}

/// What is revealed after `paths` were revealed, one after the other.
pub open spec fn all_revealed(revealed: Set<Seq<char>>, paths: Seq<Seq<char>>) -> Set<Seq<char>>
    decreases paths.len(),
{
    if paths.len() == 0 {
        revealed
    } else {
        all_revealed(revealed, paths.drop_last()).insert(paths.last())
    }
}

/// The order in which paths are revealed does not matter, nor how often: what is revealed in the end
/// is what was before, and the paths.
pub proof fn law_reveals_add_up(revealed: Set<Seq<char>>, paths: Seq<Seq<char>>)
    ensures
        all_revealed(revealed, paths) == revealed.union(paths.to_set()),
    decreases paths.len(),
{
    if paths.len() == 0 {
        assert(all_revealed(revealed, paths) =~= revealed.union(paths.to_set()));
    } else {
        let front = paths.drop_last();
        law_reveals_add_up(revealed, front);
        assert forall|q: Seq<char>|
            revealed.union(paths.to_set()).contains(q) == revealed.union(front.to_set()).insert(
                paths.last(),
            ).contains(q) by {
            if paths.contains(q) && q != paths.last() {
                let i = choose|i: int| 0 <= i < paths.len() && paths[i] == q;
                assert(front[i] == q);
            }
            if front.contains(q) {
                let i = choose|i: int| 0 <= i < front.len() && front[i] == q;
                assert(paths[i] == q);
            }
            assert(paths[paths.len() - 1] == paths.last());
        }
        assert(all_revealed(revealed, paths) =~= revealed.union(paths.to_set()));
    }
}

/// In a session exactly those paths are revealed that were revealed since it started, through whatever
/// handle.
pub proof fn law_revealed_in_this_session(paths: Seq<Seq<char>>, p: Seq<char>)
    ensures
        all_revealed(Set::empty(), paths).contains(p) == paths.contains(p),
{
    law_reveals_add_up(Set::empty(), paths);
}

/// Revealing a path changes nothing for the other sources and modules.
pub proof fn law_reveal_is_for_its_path(
    p: Seq<char>,
    q: Seq<char>,
    revealed: Set<Seq<char>>,
    marked: bool,
)
    requires
        q != p,
    ensures
        source_deferred(q, revealed.insert(p)) == source_deferred(q, revealed),
        module_deferred(q, revealed.insert(p), marked) == module_deferred(q, revealed, marked),
{
}

/// In a fresh session every lazy source is held back, and every module without a marker is deferred.
pub proof fn law_fresh_session_defers(p: Seq<char>)
    ensures
        source_deferred(p, Set::empty()) == lazy_path(p),
        module_deferred(p, Set::empty(), false),
{
}

/// The marker of a path is the path with `.reveal` behind it.
pub proof fn law_marker_is_next_to_its_source(p: Seq<char>)
    requires
        p.len() > 0 ==> p[0] != '/',
    ensures
        joined_path(parent(p), file_name(p) + ".reveal"@) == p + ".reveal"@,
{
    lemma_sibling_appends(p, ".reveal"@);
}

/// A module is revealed by its marker, whatever its path is and whatever else is revealed; it is
/// revealed by the registry, marker or not; and it is deferred as long as neither reveals it.
pub proof fn law_module_is_revealed_by_state_or_marker(
    p: Seq<char>,
    revealed: Set<Seq<char>>,
    marked: bool,
)
    ensures
        marked ==> !module_deferred(p, revealed, marked),
        revealed.contains(p) ==> !module_deferred(p, revealed, marked),
        !module_deferred(p, revealed.insert(p), marked),
        !marked && !revealed.contains(p) ==> module_deferred(p, revealed, marked),
{
}

/// A path is lazy exactly when its name is something, then `.lazy.`, then something, whatever the two
/// are and whatever directory it is in. What the directories are called does not matter.
pub proof fn law_lazy_paths_by_name(d: Seq<char>, n: Seq<char>)
    requires
        forall|i: int| 0 <= i < n.len() ==> n[i] != '/',
    ensures
        lazy_path(n) <==> exists|a: Seq<char>, b: Seq<char>|
            n == #[trigger] (a + ".lazy."@ + b),
        lazy_path(d + seq!['/'] + n) <==> exists|a: Seq<char>, b: Seq<char>|
            n == #[trigger] (a + ".lazy."@ + b),
{
    reveal_strlit(".lazy.");
    law_path_is_directory_and_name(d, n);
    law_part_stands_between(n, ".lazy."@);
}

/// Whatever stands before and behind it, `.lazy.` in the name makes a path lazy.
pub proof fn law_lazy_in_the_name(d: Seq<char>, a: Seq<char>, b: Seq<char>)
    requires
        forall|i: int| 0 <= i < a.len() ==> a[i] != '/',
        forall|i: int| 0 <= i < b.len() ==> b[i] != '/',
    ensures
        lazy_path(a + ".lazy."@ + b),
        lazy_path(d + seq!['/'] + (a + ".lazy."@ + b)),
{
    reveal_strlit(".lazy.");
    let n = a + ".lazy."@ + b;
    assert forall|i: int| 0 <= i < n.len() implies n[i] != '/' by {}
    law_lazy_paths_by_name(d, n);
}

/// A source is held back as long as its path is lazy and not revealed, and only then: revealing its own
/// path lets it go, revealing another one does nothing to it, and a path that is not lazy is never
/// held back.
pub proof fn law_source_is_held_back_until_revealed(
    p: Seq<char>,
    q: Seq<char>,
    revealed: Set<Seq<char>>,
)
    ensures
        lazy_path(p) && !revealed.contains(p) ==> source_deferred(p, revealed),
        !lazy_path(p) ==> !source_deferred(p, revealed),
        !source_deferred(p, revealed.insert(p)),
        q != p ==> source_deferred(p, revealed.insert(q)) == source_deferred(p, revealed),
{
}

/// Any two registries are equal, whatever is revealed in them.
pub proof fn law_registries_are_equal(a: LazyRevealRegistry, b: LazyRevealRegistry)
    ensures
        a.eq_spec(&b),
{
}

} // verus!
