//! Spans of time and points in time, as counts of nanoseconds.

use vstd::prelude::*;

verus! {

/// The longest span: all the seconds and nanoseconds that fit beside each
/// other in 64 and 32 bits.
pub const MAX_NANOS: u128 = 18446744073709551615999999999;

/// A span of time.
#[derive(Debug, Clone, Copy, PartialEq, Eq, PartialOrd, Ord)]
pub struct Duration {
    nanos: u128,
}

impl View for Duration {
    type V = nat;

    closed spec fn view(&self) -> nat {
        self.nanos as nat
    }
}

impl Duration {
    #[verifier::type_invariant]
    spec fn fits(self) -> bool {
        self.nanos <= MAX_NANOS
    }

    pub fn from_secs(secs: u64) -> (r: Duration)
        ensures
            r@ == secs * 1_000_000_000,
    {
        Duration { nanos: secs as u128 * 1_000_000_000 }
    }

    pub fn from_millis(millis: u64) -> (r: Duration)
        ensures
            r@ == millis * 1_000_000,
    {
        Duration { nanos: millis as u128 * 1_000_000 }
    }

    /// A span of whole seconds and the nanoseconds that are left over.
    pub fn from_parts(secs: u64, nanos: u32) -> (r: Duration)
        requires
            nanos < 1_000_000_000,
        ensures
            r@ == secs * 1_000_000_000 + nanos,
    {
        Duration { nanos: secs as u128 * 1_000_000_000 + nanos as u128 }
    }

    /// The whole seconds.
    pub fn as_secs(&self) -> (r: u64)
        ensures
            r == self@ / 1_000_000_000,
    {
        proof {
            use_type_invariant(self);
        }
        (self.nanos / 1_000_000_000) as u64
    }

    /// The nanoseconds that are left over when the whole seconds are taken
    /// out.
    pub fn subsec_nanos(&self) -> (r: u32)
        ensures
            r == self@ % 1_000_000_000,
    {
        (self.nanos % 1_000_000_000) as u32
    }

    /// Whether this span is shorter than another.
    pub fn shorter_than(&self, other: &Duration) -> (r: bool)
        ensures
            r == (self@ < other@),
    {
        self.nanos < other.nanos
    }

    /// Twice this span, but no more than `limit`.
    pub fn doubled_up_to(&self, limit: Duration) -> (r: Duration)
        ensures
            r@ == if 2 * self@ <= limit@ { 2 * self@ } else { limit@ },
    {
        proof {
            use_type_invariant(self);
            use_type_invariant(&limit);
        }
        let twice: u128 = self.nanos * 2;
        if twice <= limit.nanos {
            Duration { nanos: twice }
        } else {
            limit
        }
    }
}

/// A point in time, counted from an origin that is the same for all points
/// a program makes.
#[derive(Debug, Clone, Copy, PartialEq, Eq, PartialOrd, Ord)]
pub struct Instant {
    nanos: u128,
}

impl View for Instant {
    type V = nat;

    closed spec fn view(&self) -> nat {
        self.nanos as nat
    }
}

impl Instant {
    #[verifier::type_invariant]
    spec fn fits(self) -> bool {
        self.nanos <= MAX_NANOS
    }

    /// The point that lies a span after the origin.
    pub fn since_origin(span: Duration) -> (r: Instant)
        ensures
            r@ == span@,
    {
        proof {
            use_type_invariant(&span);
        }
        Instant { nanos: span.nanos }
    }

    /// The point a span later, unless it cannot be represented.
    pub fn checked_add(self, span: Duration) -> (r: Option<Instant>)
        ensures
            r matches Some(later) ==> later@ == self@ + span@,
            r is None <==> self@ + span@ > MAX_NANOS,
    {
        proof {
            use_type_invariant(&self);
            use_type_invariant(&span);
        }
        let nanos: u128 = self.nanos + span.nanos;
        if nanos > MAX_NANOS {
            None
        } else {
            Some(Instant { nanos })
        }
    }

    /// The span since an earlier point, or nothing at all if it is in fact
    /// later.
    pub fn saturating_duration_since(&self, earlier: Instant) -> (r: Duration)
        ensures
            r@ == if self@ >= earlier@ { (self@ - earlier@) as nat } else { 0 },
    {
        proof {
            use_type_invariant(self);
        }
        if self.nanos >= earlier.nanos {
            Duration { nanos: self.nanos - earlier.nanos }
        } else {
            Duration { nanos: 0 }
        }
    }

    /// Whether this point comes before another.
    pub fn before(&self, other: Instant) -> (r: bool)
        ensures
            r == (self@ < other@),
    {
        self.nanos < other.nanos
    }
}

} // verus!
