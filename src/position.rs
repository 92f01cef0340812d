//! Offsets within a track, and their fixed-width textual form.

use vstd::prelude::*;

verus! {

/// Nanoseconds in one second.
pub const NANOS_PER_SEC: u32 = 1_000_000_000;

/// A non-negative offset from the start of a track, as whole seconds plus a
/// sub-second part in nanoseconds.
#[derive(Clone, Copy, Debug, PartialEq, Eq, Hash, Structural)]
pub struct Position {
    pub secs: u64,
    pub nanos: u32,
}

impl Position {
    /// The sub-second part is below one second.
    pub open spec fn wf(self) -> bool {
        self.nanos < NANOS_PER_SEC
    }

    /// The offset in nanoseconds.
    pub open spec fn total_nanos(self) -> int {
        self.secs * 1_000_000_000 + self.nanos
    }

    /// Order of positions: earlier first.
    pub open spec fn le(self, other: Position) -> bool {
        self.secs < other.secs || (self.secs == other.secs && self.nanos <= other.nanos)
    }

    /// The position `secs` whole seconds in.
    pub fn from_secs(secs: u64) -> (r: Position)
        ensures
            r.secs == secs,
            r.nanos == 0,
            r.wf(),
    {
        Position { secs, nanos: 0 }
    }

    /// Compares two positions, earlier first.
    pub fn compare(&self, other: &Position) -> (r: core::cmp::Ordering)
        ensures
            r == core::cmp::Ordering::Less <==> !other.le(*self),
            r == core::cmp::Ordering::Greater <==> !self.le(*other),
            r == core::cmp::Ordering::Equal <==> self == other,
    {
        if self.secs < other.secs {
            core::cmp::Ordering::Less
        } else if self.secs > other.secs {
            core::cmp::Ordering::Greater
        } else if self.nanos < other.nanos {
            core::cmp::Ordering::Less
        } else if self.nanos > other.nanos {
            core::cmp::Ordering::Greater
        } else {
            core::cmp::Ordering::Equal
        }
    }
}

} // verus!
