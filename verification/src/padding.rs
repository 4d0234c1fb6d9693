//! Cache-line padding to keep independently updated state apart.
use vstd::prelude::*;

verus! {

/// Wraps a value together with a full cache line of padding (eight `u64`
/// words, 64 bytes), so that a padded value takes at least a cache line and
/// two padded values never share one: the hot write index of a tracker
/// keeps its own line. The second field is the padding and carries no data.
#[derive(Debug, Default)]
pub struct CachePadded<T>(pub T, pub [u64; 8]);

impl<T> CachePadded<T> {
    /// Creates a new padded cell holding `value`.
    pub fn new(value: T) -> (cell: Self)
        ensures
            cell.0 == value,
    {
        CachePadded(value, [0u64; 8])
    }

    /// The wrapped value.
    pub fn get(&self) -> (value: &T)
        ensures
            *value == self.0,
    {
        &self.0
    }
}

impl<T> core::ops::Deref for CachePadded<T> {
    type Target = T;

    fn deref(&self) -> (value: &T)
        ensures
            *value == self.0,
    {
        &self.0
    }
}

} // verus!
