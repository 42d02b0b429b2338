//! Shared mutable state: a cell whose contents keep an invariant, a cell that may
//! hold anything, and the count of an `Rc`'s holders.

use vstd::prelude::*;
use std::cell::Cell;
use std::rc::Rc;

verus! {

/// `std::cell::Cell`, declared so that a `GuardedCell` can hold one. Its contents
/// are hidden from the specifications.
#[verifier::external_type_specification]
#[verifier::external_body]
#[verifier::reject_recursive_types(T)]
pub struct ExCell<T: ?Sized>(Cell<T>);

/// `Cell::new` builds a cell holding `value`. Nothing is stated of it: what a cell
/// holds is described by the `GuardedCell` around it.
pub assume_specification<T>[ Cell::<T>::new ](value: T) -> Cell<T>;

/// A `std::cell::Cell` that can be written through a shared reference and whose
/// every stored value satisfies `inv()`. Unlike vstd's cells, it drops what it
/// holds when it is dropped.
#[verifier::reject_recursive_types(T)]
pub struct GuardedCell<T> {
    cell: Cell<T>,
    inv: Ghost<spec_fn(T) -> bool>,
}

impl<T> GuardedCell<T> {
    /// What the cell may hold.
    pub closed spec fn inv(&self) -> spec_fn(T) -> bool {
        self.inv@
    }

    pub fn new(value: T, inv: Ghost<spec_fn(T) -> bool>) -> (c: GuardedCell<T>)
        requires
            inv@(value),
        ensures
            c.inv() == inv@,
    {
        GuardedCell { cell: Cell::new(value), inv }
    }

    /// Calls `Cell::replace`, which stores `value` and returns the value the cell
    /// held. The cell is private to this type, whose only writers are `new` and
    /// `replace`, and both require `inv()` of what they store; so what comes back
    /// satisfies `inv()` too. That is what the contract states.
    #[verifier::external_body]
    pub fn replace(&self, value: T) -> (old: T)
        requires
            (self.inv())(value),
        ensures
            (self.inv())(old),
    {
        self.cell.replace(value)
    }
}

/// The predicate of a cell that accepts every value.
pub open spec fn anything<T>() -> spec_fn(T) -> bool {
    |x: T| true
}

/// A cell that can be written through a shared reference and may hold any value.
/// Nothing is known of what it holds.
#[verifier::reject_recursive_types(T)]
pub struct FreeCell<T> {
    cell: GuardedCell<T>,
}

impl<T> FreeCell<T> {
    #[verifier::type_invariant]
    spec fn accepts_anything(self) -> bool {
        self.cell.inv() == anything::<T>()
    }

    pub fn new(value: T) -> FreeCell<T> {
        FreeCell { cell: GuardedCell::new(value, Ghost(anything::<T>())) }
    }

    /// Stores `value` and returns what the cell held.
    pub fn replace(&self, value: T) -> T {
        proof {
            use_type_invariant(self);
        }
        self.cell.replace(value)
    }
}

/// Calls `Rc::clone`, which makes another pointer to the same allocation; the
/// contract states that the new `Rc` holds the same value as `rc`.
#[verifier::external_body]
pub fn share<T>(rc: &Rc<T>) -> (r: Rc<T>)
    ensures
        r == *rc,
{
    Rc::clone(rc)
}

/// Calls `Rc::strong_count`: the number of `Rc`s that share the allocation,
/// `rc` included. The count changes as other holders are dropped, so only that
/// it counts `rc` itself is stated.
#[verifier::external_body]
pub fn strong_count<T>(rc: &Rc<T>) -> (n: usize)
    ensures
        n >= 1,
{
    Rc::strong_count(rc)
}

} // verus!
