//! Vector-backed key-value stores keyed by integer identities: the explicit
//! state that replaces the host's ambient keyed storage. One store maps an
//! identity to a record, the other to a list of records.

use vstd::prelude::*;

use crate::assoc::assoc_lookup;
use crate::assoc::assoc_unique;
use crate::assoc::lemma_assoc_lookup_index;
use crate::assoc::lemma_assoc_lookup_none;
use crate::assoc::lemma_assoc_push;
use crate::assoc::lemma_assoc_update;

verus! {

/// A copy of a vector of plain records.
fn copy_list<T: Copy>(v: &Vec<T>) -> (r: Vec<T>)
    ensures
        r@ == v@,
{
    let n = v.len();
    let mut r: Vec<T> = Vec::new();
    let mut i: usize = 0;
    proof {
        assert(r@ =~= v@.subrange(0, 0));
    }
    while i < n
        invariant
            n == v@.len(),
            0 <= i <= n,
            r@ == v@.subrange(0, i as int),
        decreases n - i,
    {
        r.push(v[i]);
        proof {
            assert(r@ =~= v@.subrange(0, i + 1 as int));
        }
        i += 1;
    }
    proof {
        assert(r@ =~= v@);
    }
    r
}

/// A store of one record per identity.
pub struct IdValueStore<V> {
    entries: Vec<(u64, V)>,
}

impl<V: Copy> IdValueStore<V> {
    /// No identity is bound twice.
    pub closed spec fn wf(&self) -> bool {
        assoc_unique(self.entries@)
    }

    /// The record bound to `id`, if any.
    pub closed spec fn spec_get(&self, id: u64) -> Option<V> {
        assoc_lookup(self.entries@, id)
    }

    /// An empty store.
    pub fn new() -> (r: Self)
        ensures
            r.wf(),
            forall|id: u64| #[trigger] r.spec_get(id) is None,
    {
        let r = IdValueStore { entries: Vec::new() };
        proof {
            assert forall|id: u64| #[trigger] r.spec_get(id) is None by {
                lemma_assoc_lookup_none(r.entries@, id);
            }
        }
        r
    }

    /// The record bound to `id`, if any.
    #[verifier::loop_isolation(false)]
    pub fn get(&self, id: u64) -> (r: Option<V>)
        requires
            self.wf(),
        ensures
            r == self.spec_get(id),
    {
        let n = self.entries.len();
        let mut i: usize = 0;
        while i < n
            invariant
                0 <= i <= n,
                forall|j: int| 0 <= j < i ==> (#[trigger] self.entries@[j]).0 != id,
            decreases n - i,
        {
            if self.entries[i].0 == id {
                proof {
                    lemma_assoc_lookup_index(self.entries@, i as int);
                }
                return Some(self.entries[i].1);
            }
            i += 1;
        }
        proof {
            lemma_assoc_lookup_none(self.entries@, id);
        }
        None
    }

    /// Whether a record is bound to `id`.
    pub fn contains(&self, id: u64) -> (r: bool)
        requires
            self.wf(),
        ensures
            r == (self.spec_get(id) is Some),
    {
        self.get(id).is_some()
    }

    /// Binds `id` to `value`, overwriting any previous record; every other
    /// binding is untouched.
    #[verifier::loop_isolation(false)]
    pub fn set(&mut self, id: u64, value: V)
        requires
            old(self).wf(),
        ensures
            final(self).wf(),
            final(self).spec_get(id) == Some(value),
            forall|id2: u64|
                id2 != id ==> #[trigger] final(self).spec_get(id2) == old(self).spec_get(id2),
    {
        let n = self.entries.len();
        let mut i: usize = 0;
        while i < n
            invariant
                *self == *old(self),
                n == self.entries@.len(),
                0 <= i <= n,
                forall|j: int| 0 <= j < i ==> (#[trigger] self.entries@[j]).0 != id,
            decreases n - i,
        {
            if self.entries[i].0 == id {
                proof {
                    lemma_assoc_update(self.entries@, i as int, value);
                }
                self.entries[i] = (id, value);
                return;
            }
            i += 1;
        }
        proof {
            lemma_assoc_lookup_none(self.entries@, id);
            lemma_assoc_push(self.entries@, id, value);
        }
        self.entries.push((id, value));
    }
}

/// A store of one list of records per identity; an identity without a bound
/// list stands for the empty list.
pub struct IdListStore<T> {
    entries: Vec<(u64, Vec<T>)>,
}

impl<T: Copy> IdListStore<T> {
    /// No identity is bound twice.
    pub closed spec fn wf(&self) -> bool {
        assoc_unique(self.entries@)
    }

    /// The list bound to `id`; empty when none is bound.
    pub closed spec fn spec_get(&self, id: u64) -> Seq<T> {
        match assoc_lookup(self.entries@, id) {
            Some(v) => v@,
            None => Seq::empty(),
        }
    }

    /// An empty store.
    pub fn new() -> (r: Self)
        ensures
            r.wf(),
            forall|id: u64| #[trigger] r.spec_get(id) == Seq::<T>::empty(),
    {
        let r = IdListStore { entries: Vec::new() };
        proof {
            assert forall|id: u64| #[trigger] r.spec_get(id) == Seq::<T>::empty() by {
                lemma_assoc_lookup_none(r.entries@, id);
            }
        }
        r
    }

    /// A copy of the list bound to `id`, empty when none is bound.
    #[verifier::loop_isolation(false)]
    pub fn get(&self, id: u64) -> (r: Vec<T>)
        requires
            self.wf(),
        ensures
            r@ == self.spec_get(id),
    {
        let n = self.entries.len();
        let mut i: usize = 0;
        while i < n
            invariant
                0 <= i <= n,
                forall|j: int| 0 <= j < i ==> (#[trigger] self.entries@[j]).0 != id,
            decreases n - i,
        {
            if self.entries[i].0 == id {
                proof {
                    lemma_assoc_lookup_index(self.entries@, i as int);
                }
                return copy_list(&self.entries[i].1);
            }
            i += 1;
        }
        proof {
            lemma_assoc_lookup_none(self.entries@, id);
        }
        Vec::new()
    }

    /// Binds `id` to `list`, replacing any previous list; every other binding
    /// is untouched.
    #[verifier::loop_isolation(false)]
    pub fn set(&mut self, id: u64, list: Vec<T>)
        requires
            old(self).wf(),
        ensures
            final(self).wf(),
            final(self).spec_get(id) == list@,
            forall|id2: u64|
                id2 != id ==> #[trigger] final(self).spec_get(id2) == old(self).spec_get(id2),
    {
        let n = self.entries.len();
        let mut i: usize = 0;
        while i < n
            invariant
                *self == *old(self),
                n == self.entries@.len(),
                0 <= i <= n,
                forall|j: int| 0 <= j < i ==> (#[trigger] self.entries@[j]).0 != id,
            decreases n - i,
        {
            if self.entries[i].0 == id {
                proof {
                    lemma_assoc_update(self.entries@, i as int, list);
                }
                self.entries[i] = (id, list);
                return;
            }
            i += 1;
        }
        proof {
            lemma_assoc_lookup_none(self.entries@, id);
            lemma_assoc_push(self.entries@, id, list);
        }
        self.entries.push((id, list));
    }
}

} // verus!
