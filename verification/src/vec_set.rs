//! A small set kept in insertion order.
use vstd::prelude::*;

verus! {

/// Values that can be told apart by running code.
pub trait Comparable: Copy + Sized {
    /// Whether the two values are one and the same.
    fn same(&self, other: &Self) -> (b: bool)
        ensures
            b == (*self == *other),
    ;
}

/// A set of values in the order in which they came in; nothing occurs twice.
pub struct VecSet<T: Comparable> {
    items: Vec<T>,
}

impl<T: Comparable> View for VecSet<T> {
    type V = Set<T>;

    closed spec fn view(&self) -> Set<T> {
        self.items@.to_set()
    }
}

impl<T: Comparable> VecSet<T> {
    /// Nothing occurs twice.
    pub closed spec fn wf(&self) -> bool {
        self.items@.no_duplicates()
    }

    pub fn new() -> (s: Self)
        ensures
            s.wf(),
            s@ == Set::<T>::empty(),
    {
        let s = VecSet { items: Vec::new() };
        assert(s@ =~= Set::<T>::empty());
        s
    }

    fn position(&self, value: T) -> (r: Option<usize>)
        ensures
            match r {
                Some(i) => i < self.items@.len() && self.items@[i as int] == value,
                None => !self.items@.contains(value),
            },
    {
        let mut i: usize = 0;
        while i < self.items.len()
            invariant
                i <= self.items@.len(),
                forall|j: int| 0 <= j < i ==> self.items@[j] != value,
            decreases self.items@.len() - i,
        {
            if self.items[i].same(&value) {
                return Some(i);
            }
            i = i + 1;
        }
        None
    }

    pub fn contains(&self, value: T) -> (b: bool)
        ensures
            b == self@.contains(value),
    {
        self.position(value).is_some()
    }

    /// Adds `value`; says whether it was new.
    pub fn insert(&mut self, value: T) -> (fresh: bool)
        requires
            old(self).wf(),
        ensures
            final(self).wf(),
            final(self)@ == old(self)@.insert(value),
            fresh == !old(self)@.contains(value),
    {
        let ghost before = self.items@;
        if self.contains(value) {
            assert(self@ =~= self@.insert(value));
            return false;
        }
        self.items.push(value);
        proof {
            assert(before.push(value)[before.len() as int] == value);
            assert forall|x: T| #[trigger] self@.contains(x) == before.to_set().insert(value).contains(x) by {
                if before.contains(x) {
                    let k = choose|k: int| 0 <= k < before.len() && before[k] == x;
                    assert(before.push(value)[k] == x);
                }
            }
            assert(self@ =~= before.to_set().insert(value));
        }
        true
    }

    /// Takes `value` out; says whether it was there.
    pub fn remove(&mut self, value: T) -> (found: bool)
        requires
            old(self).wf(),
        ensures
            final(self).wf(),
            final(self)@ == old(self)@.remove(value),
            found == old(self)@.contains(value),
    {
        let ghost before = self.items@;
        match self.position(value) {
            None => {
                assert(self@ =~= self@.remove(value));
                false
            },
            Some(i) => {
                self.items.remove(i);
                proof {
                    let after = self.items@;
                    assert forall|x: T| #[trigger] self@.contains(x) == before.to_set().remove(value).contains(x) by {
                        if before.contains(x) && x != value {
                            let k = choose|k: int| 0 <= k < before.len() && before[k] == x;
                            if k < i {
                                assert(after[k] == x);
                            } else {
                                assert(after[k - 1] == x);
                            }
                        }
                        if after.contains(x) {
                            let k = choose|k: int| 0 <= k < after.len() && after[k] == x;
                            if k < i {
                                assert(before[k] == x);
                            } else {
                                assert(before[k + 1] == x);
                            }
                        }
                    }
                    assert(self@ =~= before.to_set().remove(value));
                }
                true
            },
        }
    }

    /// The members, each of them once.
    pub fn members(&self) -> (v: &Vec<T>)
        requires
            self.wf(),
        ensures
            v@.no_duplicates(),
            v@.to_set() == self@,
    {
        &self.items
    }
}

/// What a sequence holds with one more element.
pub proof fn lemma_push_contains<T>(s: Seq<T>, a: T)
    ensures
        forall|x: T| #[trigger] s.push(a).contains(x) == (s.contains(x) || x == a),
{
    assert forall|x: T| #[trigger] s.push(a).contains(x) == (s.contains(x) || x == a) by {
        if s.contains(x) {
            let i = choose|i: int| 0 <= i < s.len() && s[i] == x;
            assert(s.push(a)[i] == x);
        }
        assert(s.push(a)[s.len() as int] == a);
        if s.push(a).contains(x) && x != a {
            let i = choose|i: int| 0 <= i < s.push(a).len() && s.push(a)[i] == x;
            assert(s[i] == x);
        }
    }
}

/// The set of a sequence with one more element.
pub proof fn lemma_push_set<T>(s: Seq<T>, a: T)
    ensures
        s.push(a).to_set() =~= s.to_set().insert(a),
{
    lemma_push_contains(s, a);
}

} // verus!
