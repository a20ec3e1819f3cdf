//! Virtual time.
use vstd::prelude::*;

verus! {

/// A point in virtual time, in nanoseconds from a fixed origin.
#[derive(Debug, Clone, Copy, PartialEq, Eq, Hash, Structural)]
pub struct Instant {
    pub nanos: u128,
}

impl Instant {
    /// The nanoseconds from `earlier` to this instant, or none if `earlier` is
    /// the later one.
    pub open spec fn spec_since(self, earlier: Instant) -> int {
        if self.nanos >= earlier.nanos {
            self.nanos - earlier.nanos
        } else {
            0
        }
    }

    /// Returns the nanoseconds from `earlier` to this instant, or zero if
    /// `earlier` is the later one.
    pub fn since(&self, earlier: Instant) -> (nanos: u128)
        ensures
            nanos == self.spec_since(earlier),
    {
        if self.nanos >= earlier.nanos {
            self.nanos - earlier.nanos
        } else {
            0
        }
    }
}

} // verus!
