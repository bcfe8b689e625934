//! Points in time, counted from the Unix epoch.

use vstd::prelude::*;

verus! {

/// A time as whole seconds since the Unix epoch and the nanoseconds beyond them.
#[derive(Clone, Copy, Debug, PartialEq, Eq, Structural)]
pub struct Timestamp {
    pub secs: u64,
    pub nanos: u32,
}

impl Timestamp {
    /// The time in nanoseconds since the epoch.
    pub open spec fn total_nanos(self) -> nat {
        self.secs as nat * 1_000_000_000 + self.nanos as nat
    }

    /// This time is the other one or later.
    pub open spec fn not_before(self, other: Timestamp) -> bool {
        self.total_nanos() >= other.total_nanos()
    }

    /// Whether this time is the other one or later.
    pub fn is_not_before(&self, other: &Timestamp) -> (r: bool)
        ensures
            r == self.not_before(*other),
    {
        let mine: u128 = self.secs as u128 * 1_000_000_000 + self.nanos as u128;
        let theirs: u128 = other.secs as u128 * 1_000_000_000 + other.nanos as u128;
        mine >= theirs
    }
}

} // verus!
