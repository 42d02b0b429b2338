//! A slab of values addressed by small integer handles. Freed handles are
//! reused, lowest first.

use vstd::prelude::*;

verus! {

/// The number of full slots in `slots`.
pub open spec fn full_count<T>(slots: Seq<Option<T>>) -> nat
    decreases slots.len(),
{
    if slots.len() == 0 {
        0
    } else {
        full_count(slots.drop_last()) + if slots.last() is Some { 1nat } else { 0nat }
    }
}

/// Replacing one slot changes the number of full slots by what the slot held and
/// what replaces it.
pub proof fn lemma_full_count_update<T>(s: Seq<Option<T>>, i: int, v: Option<T>)
    requires
        0 <= i < s.len(),
    ensures
        full_count(s.update(i, v)) + (if s[i] is Some { 1int } else { 0int })
            == full_count(s) + (if v is Some { 1int } else { 0int }),
    decreases s.len(),
{
    let s2 = s.update(i, v);
    if i == s.len() - 1 {
        assert(s2.drop_last() =~= s.drop_last());
    } else {
        assert(s2.drop_last() =~= s.drop_last().update(i, v));
        lemma_full_count_update(s.drop_last(), i, v);
    }
}

/// An index into a [`HandleTable`].
#[derive(PartialEq, Eq, Copy, Clone, Hash, Debug, Structural)]
pub struct Handle {
    pub val: usize,
}

/// A table of slots. `push` fills the lowest empty slot, or appends a new one when
/// every slot is full; `remove` empties a slot and makes it available again.
pub struct HandleTable<T> {
    slots: Vec<Option<T>>,
    num_active: usize,
    /// The indices of the empty slots, in no particular order.
    free_ids: Vec<usize>,
}

impl<T> HandleTable<T> {
    /// The contents of the slots, in index order.
    pub closed spec fn slots(&self) -> Seq<Option<T>> {
        self.slots@
    }

    /// The count that `len` reports.
    pub closed spec fn active(&self) -> nat {
        self.num_active as nat
    }

    /// Whether slot `i` exists and holds a value.
    pub open spec fn occupied(&self, i: int) -> bool {
        0 <= i < self.slots().len() && self.slots()[i] is Some
    }

    /// Whether slot `i` exists and is empty.
    pub open spec fn vacant(&self, i: int) -> bool {
        Self::vacant_in(self.slots(), i)
    }

    /// Whether slot `i` of `slots` exists and is empty.
    pub open spec fn vacant_in(slots: Seq<Option<T>>, i: int) -> bool {
        0 <= i < slots.len() && slots[i] is None
    }

    /// Whether some slot is empty.
    pub open spec fn has_vacancy(&self) -> bool {
        exists|i: int| self.vacant(i)
    }

    /// The free list records exactly the empty slots, each once, and the count
    /// that `len` reports is the number of full slots.
    pub closed spec fn wf(&self) -> bool {
        &&& Self::free_list_exact(self.slots@, self.free_ids@)
        &&& self.num_active == full_count(self.slots@)
    }

    /// In a well-formed table, the count that `len` reports is the number of full
    /// slots.
    pub proof fn lemma_active_counts_full_slots(&self)
        requires
            self.wf(),
        ensures
            self.active() == full_count(self.slots()),
    {
    }

    spec fn free_list_exact(slots: Seq<Option<T>>, free: Seq<usize>) -> bool {
        &&& free.no_duplicates()
        &&& forall|k: int| 0 <= k < free.len() ==> #[trigger] Self::vacant_in(slots, free[k] as int)
        &&& forall|i: int| #[trigger] Self::vacant_in(slots, i) ==> free.contains(i as usize)
    }

    pub fn new() -> (t: HandleTable<T>)
        ensures
            t.wf(),
            t.slots() == Seq::<Option<T>>::empty(),
            t.active() == 0,
    {
        HandleTable { slots: Vec::new(), num_active: 0, free_ids: Vec::new() }
    }

    /// Empties the slot of `handle` and returns what it held. The handle becomes
    /// available for reuse if the slot was full; removing from an empty slot
    /// changes nothing and returns `None`.
    pub fn remove(&mut self, handle: Handle) -> (result: Option<T>)
        requires
            old(self).wf(),
            handle.val < old(self).slots().len(),
        ensures
            final(self).wf(),
            result == old(self).slots()[handle.val as int],
            final(self).slots() == old(self).slots().update(handle.val as int, None),
            final(self).active() == if result is Some { old(self).active() - 1 } else { old(self).active() as int },
    {
        let mut result: Option<T> = None;
        proof {
            lemma_full_count_update(self.slots@, handle.val as int, None);
        }
        self.slots.set_and_swap(handle.val, &mut result);
        if result.is_some() {
            proof {
                assert(!self.free_ids@.contains(handle.val)) by {
                    if self.free_ids@.contains(handle.val) {
                        let k = choose|k: int| 0 <= k < self.free_ids@.len() && self.free_ids@[k] == handle.val;
                        assert(old(self).vacant(old(self).free_ids@[k] as int));
                    }
                }
            }
            self.free_ids.push(handle.val);
            self.num_active = self.num_active - 1;
        }
        proof {
            assert forall|k: int| 0 <= k < self.free_ids@.len() implies #[trigger] Self::vacant_in(self.slots@, self.free_ids@[k] as int) by {
                if k < old(self).free_ids@.len() {
                    assert(old(self).vacant(old(self).free_ids@[k] as int));
                }
            }
            assert forall|i: int| #[trigger] Self::vacant_in(self.slots@, i) implies self.free_ids@.contains(i as usize) by {
                if i != handle.val {
                    assert(old(self).vacant(i));
                    let k = choose|k: int| 0 <= k < old(self).free_ids@.len() && old(self).free_ids@[k] == i as usize;
                    assert(self.free_ids@[k] == i as usize);
                } else if result.is_some() {
                    assert(self.free_ids@[self.free_ids@.len() - 1] == handle.val);
                } else {
                    assert(old(self).vacant(i));
                }
            }
        }
        result
    }

    /// Stores `val` in the lowest empty slot, or in a new slot at the end when none
    /// is empty, and returns its handle.
    pub fn push(&mut self, val: T) -> (h: Handle)
        requires
            old(self).wf(),
            old(self).active() < usize::MAX,
            old(self).slots().len() < usize::MAX,
        ensures
            final(self).wf(),
            final(self).active() == old(self).active() + 1,
            old(self).has_vacancy() ==> {
                &&& old(self).vacant(h.val as int)
                &&& forall|i: int| old(self).vacant(i) ==> h.val <= i
                &&& final(self).slots() == old(self).slots().update(h.val as int, Some(val))
            },
            !old(self).has_vacancy() ==> {
                &&& h.val == old(self).slots().len()
                &&& final(self).slots() == old(self).slots().push(Some(val))
            },
    {
        self.num_active = self.num_active + 1;
        let n = self.free_ids.len();
        let ghost s0 = self.slots@;
        if n == 0 {
            proof {
                assert(!old(self).has_vacancy()) by {
                    if old(self).has_vacancy() {
                        let i = choose|i: int| old(self).vacant(i);
                        assert(old(self).free_ids@.contains(i as usize));
                    }
                }
            }
            self.slots.push(Some(val));
            let h = Handle { val: self.slots.len() - 1 };
            proof {
                assert(self.slots@.drop_last() =~= s0);
                assert forall|i: int| #[trigger] Self::vacant_in(self.slots@, i) implies self.free_ids@.contains(i as usize) by {
                    if i < old(self).slots().len() {
                        assert(old(self).vacant(i));
                    }
                }
            }
            h
        } else {
            // Find the position of the smallest free index.
            let mut best: usize = 0;
            let mut k: usize = 1;
            while k < n
                invariant
                    n == self.free_ids@.len(),
                    0 < n,
                    best < n,
                    1 <= k <= n,
                    forall|j: int| 0 <= j < k ==> self.free_ids@[best as int] <= #[trigger] self.free_ids@[j],
                decreases n - k,
            {
                if self.free_ids[k] < self.free_ids[best] {
                    best = k;
                }
                k = k + 1;
            }
            let ghost old_free = self.free_ids@;
            let id = self.free_ids.swap_remove(best);
            proof {
                assert(old(self).vacant(id as int)) by {
                    assert(old(self).vacant(old_free[best as int] as int));
                }
                assert forall|i: int| old(self).vacant(i) implies id <= i by {
                    let j = choose|j: int| 0 <= j < old_free.len() && old_free[j] == i as usize;
                    assert(old_free[best as int] <= old_free[j]);
                }
                assert(old(self).has_vacancy());
            }
            proof {
                lemma_full_count_update(s0, id as int, Some(val));
            }
            self.slots.set(id, Some(val));
            proof {
                let last = (old_free.len() - 1) as int;
                assert forall|a: int, b: int| 0 <= a < b < self.free_ids@.len() implies self.free_ids@[a] != self.free_ids@[b] by {
                    if a == best as int {
                        assert(old_free[last] != old_free[b]);
                    } else if b == best as int {
                        assert(old_free[a] != old_free[last]);
                    } else {
                        assert(old_free[a] != old_free[b]);
                    }
                }
                assert forall|j: int| 0 <= j < self.free_ids@.len() implies #[trigger] Self::vacant_in(self.slots@, self.free_ids@[j] as int) by {
                    if j == best as int {
                        assert(old(self).vacant(old_free[last] as int));
                        assert(old_free[last] != old_free[best as int]);
                    } else {
                        assert(old(self).vacant(old_free[j] as int));
                        assert(old_free[j] != old_free[best as int]);
                    }
                }
                assert forall|i: int| #[trigger] Self::vacant_in(self.slots@, i) implies self.free_ids@.contains(i as usize) by {
                    assert(i != id as int);
                    assert(old(self).vacant(i));
                    let j = choose|j: int| 0 <= j < old_free.len() && old_free[j] == i as usize;
                    if j == last {
                        assert(self.free_ids@[best as int] == i as usize);
                    } else {
                        assert(j != best as int);
                        assert(self.free_ids@[j] == i as usize);
                    }
                }
            }
            Handle { val: id }
        }
    }

    /// The number of currently active handles.
    pub fn len(&self) -> (n: usize)
        ensures
            n == self.active(),
    {
        self.num_active
    }

    /// Whether `handle` names a full slot.
    pub fn is_occupied(&self, handle: Handle) -> (b: bool)
        ensures
            b == self.occupied(handle.val as int),
    {
        handle.val < self.slots.len() && self.slots[handle.val].is_some()
    }

    /// The number of slots, full or empty.
    pub fn capacity(&self) -> (n: usize)
        ensures
            n == self.slots().len(),
    {
        self.slots.len()
    }

    /// Mutable access to the value in the slot of `handle`.
    pub fn get_mut(&mut self, handle: Handle) -> (r: &mut T)
        requires
            old(self).wf(),
            old(self).occupied(handle.val as int),
        ensures
            Some(*r) == old(self).slots()[handle.val as int],
            final(self).slots() == old(self).slots().update(handle.val as int, Some(*final(r))),
            final(self).active() == old(self).active(),
            final(self).wf(),
    {
        proof {
            let s = self.slots@;
            let f = self.free_ids@;
            assert forall|v: T| #[trigger] Self::free_list_exact(s.update(handle.val as int, Some(v)), f)
                && full_count(s.update(handle.val as int, Some(v))) == full_count(s) by {
                lemma_full_count_update(s, handle.val as int, Some(v));
                let s2 = s.update(handle.val as int, Some(v));
                assert forall|k: int| 0 <= k < f.len() implies #[trigger] Self::vacant_in(s2, f[k] as int) by {
                    assert(Self::vacant_in(s, f[k] as int));
                }
                assert forall|i: int| #[trigger] Self::vacant_in(s2, i) implies f.contains(i as usize) by {
                    assert(Self::vacant_in(s, i));
                }
            }
        }
        self.slots[handle.val].as_mut().unwrap()
    }

    /// The value in the slot of `handle`.
    pub fn get(&self, handle: Handle) -> (r: &T)
        requires
            self.occupied(handle.val as int),
        ensures
            Some(*r) == self.slots()[handle.val as int],
    {
        self.slots[handle.val].as_ref().unwrap()
    }
}

/// Removing an entry from a table whose slots are all full leaves the removed slot
/// the only empty one; so the next `push`, which fills the lowest empty slot, gets
/// the removed handle back.
pub proof fn law_removed_handle_is_reused<T>(slots: Seq<Option<T>>, h: int)
    requires
        forall|i: int| 0 <= i < slots.len() ==> #[trigger] slots[i] is Some,
        0 <= h < slots.len(),
    ensures
        HandleTable::<T>::vacant_in(slots.update(h, None), h),
        forall|i: int| #[trigger] HandleTable::<T>::vacant_in(slots.update(h, None), i) ==> i == h,
{
    assert forall|i: int| #[trigger] HandleTable::<T>::vacant_in(slots.update(h, None), i) implies i == h by {
        if i != h {
            assert(slots[i] is Some);
        }
    }
}

} // verus!
