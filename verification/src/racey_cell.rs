//! A cell that owns one value and hands out references to it.
use vstd::prelude::*;

verus! {

/// Holds one value. Reading takes a shared borrow of the cell and writing an
/// exclusive one, so that no two mutable references to the value can alias.
pub struct RacyCell<T>(T);

impl<T> RacyCell<T> {
    /// The value held.
    pub closed spec fn value(&self) -> T {
        self.0
    }

    pub fn new(value: T) -> (c: Self)
        ensures
            c.value() == value,
    {
        RacyCell(value)
    }

    /// A shared reference to the inner value.
    pub fn get_ref(&self) -> (r: &T)
        ensures
            *r == self.value(),
    {
        &self.0
    }

    /// A mutable reference to the inner value: what is written through it is what
    /// the cell holds afterwards.
    pub fn get_ref_mut(&mut self) -> (r: &mut T)
        ensures
            *r == old(self).value(),
            final(self).value() == *final(r),
    {
        &mut self.0
    }
}

} // verus!
