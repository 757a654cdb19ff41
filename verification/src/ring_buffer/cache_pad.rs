//! A wrapper that marks a value as one that lives on a cache line of its own.

use vstd::prelude::*;

verus! {

/// A value that different threads write next to others.
#[derive(Debug)]
pub struct CachePadded<T>(pub T);

impl<T> CachePadded<T> {
    pub fn new(val: T) -> (r: CachePadded<T>)
        ensures
            r.0 == val,
    {
        CachePadded(val)
    }

    /// The value.
    pub fn get(&self) -> (r: &T)
        ensures
            *r == self.0,
    {
        &self.0
    }

    /// The value, for changing it.
    pub fn get_mut(&mut self) -> (r: &mut T)
        ensures
            *r == old(self).0,
            final(self).0 == *final(r),
    {
        &mut self.0
    }
}

} // verus!
