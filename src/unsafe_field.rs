//! The wrapper that rewritten fields hold.
use vstd::prelude::*;

verus! {

/// A single value whose access the holder treats as able to break the
/// invariants of the enclosing record.
pub struct UnsafeField<T> {
    value: T,
}

impl<T> View for UnsafeField<T> {
    type V = T;

    /// The wrapped value.
    closed spec fn view(&self) -> T {
        self.value
    }
}

impl<T> UnsafeField<T> {
    /// Wraps `value`.
    pub fn new(value: T) -> (r: Self)
        ensures
            r@ == value,
    {
        UnsafeField { value }
    }

    /// Borrows the wrapped value.
    pub fn get(&self) -> (r: &T)
        ensures
            *r == self@,
    {
        &self.value
    }

    /// Borrows the wrapped value mutably.
    pub fn get_mut(&mut self) -> (r: &mut T)
        ensures
            *r == old(self)@,
            final(self)@ == *final(r),
    {
        &mut self.value
    }

    /// Replaces the wrapped value.
    pub fn set(&mut self, value: T)
        ensures
            final(self)@ == value,
    {
        self.value = value;
    }

    /// A clone of the wrapped value.
    pub fn get_clone(&self) -> (r: T)
        where
            T: Clone,
        ensures
            call_ensures(T::clone, (&self@,), r),
    {
        self.value.clone()
    }
}

} // verus!
