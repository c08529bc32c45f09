//! Identifiers for chart elements.

use vstd::prelude::*;

verus! {

/// A numeric identifier for an element of the visualization.
#[derive(Debug, Clone, Copy, PartialEq, Eq, Structural, PartialOrd, Ord, Hash)]
pub struct Id(pub u64);

impl Id {
    /// The next fresh identifier: takes the counter's value and advances
    /// it.
    pub fn next(counter: &mut u64) -> (r: Id)
        requires
            *old(counter) < u64::MAX,
        ensures
            r == (Id(*old(counter))),
            *final(counter) == *old(counter) + 1,
    {
        let id = Id(*counter);
        *counter = *counter + 1;
        id
    }
}

} // verus!
