use vstd::prelude::*;

verus! {

/// Nanoseconds in one second.
pub const NANOS_PER_SEC: u128 = 1000000000;

/// Largest number of nanoseconds a delay can hold: `u64::MAX` seconds plus
/// 999 999 999 nanoseconds, the range of `std::time::Duration`.
pub const MAX_NANOS: u128 = 18446744073709551615999999999;

/// A non-negative span of time, counted in nanoseconds.
#[derive(Clone, Copy, Debug, PartialEq, Eq, Structural, PartialOrd, Ord, Hash)]
pub struct Delay {
    nanos: u128,
}

impl View for Delay {
    type V = nat;

    closed spec fn view(&self) -> nat {
        self.nanos as nat
    }
}

impl Delay {
    #[verifier::type_invariant]
    closed spec fn in_range(self) -> bool {
        self.nanos <= MAX_NANOS
    }

    pub fn zero() -> (r: Delay)
        ensures
            r@ == 0,
    {
        Delay { nanos: 0 }
    }

    /// The longest delay, the same as `std::time::Duration::MAX`.
    pub fn max() -> (r: Delay)
        ensures
            r@ == MAX_NANOS,
    {
        Delay { nanos: MAX_NANOS }
    }

    pub fn from_nanos_u128(nanos: u128) -> (r: Delay)
        requires
            nanos <= MAX_NANOS,
        ensures
            r@ == nanos,
    {
        Delay { nanos }
    }

    pub fn from_nanos(nanos: u64) -> (r: Delay)
        ensures
            r@ == nanos,
    {
        Delay { nanos: nanos as u128 }
    }

    pub fn from_micros(micros: u64) -> (r: Delay)
        ensures
            r@ == micros * 1000,
    {
        Delay { nanos: micros as u128 * 1000 }
    }

    pub fn from_millis(millis: u64) -> (r: Delay)
        ensures
            r@ == millis * 1000000,
    {
        Delay { nanos: millis as u128 * 1000000 }
    }

    pub fn from_secs(secs: u64) -> (r: Delay)
        ensures
            r@ == secs * NANOS_PER_SEC,
    {
        Delay { nanos: secs as u128 * NANOS_PER_SEC }
    }

    /// A delay of `secs` seconds and `nanos` nanoseconds, as `Duration::new`
    /// builds it; `nanos` must stay below one second.
    pub fn new(secs: u64, nanos: u32) -> (r: Delay)
        requires
            nanos < NANOS_PER_SEC,
        ensures
            r@ == secs * NANOS_PER_SEC + nanos,
    {
        Delay { nanos: secs as u128 * NANOS_PER_SEC + nanos as u128 }
    }

    /// The sum of two delays, held at the longest delay.
    pub fn saturating_add(&self, other: Delay) -> (r: Delay)
        ensures
            r@ == if self@ + other@ <= MAX_NANOS {
                self@ + other@
            } else {
                MAX_NANOS as nat
            },
    {
        proof {
            use_type_invariant(self);
            use_type_invariant(&other);
        }
        if self.nanos <= MAX_NANOS - other.nanos {
            Delay { nanos: self.nanos + other.nanos }
        } else {
            Delay { nanos: MAX_NANOS }
        }
    }

    pub fn as_nanos(&self) -> (r: u128)
        ensures
            r == self@,
            r <= MAX_NANOS,
    {
        proof {
            use_type_invariant(self);
        }
        self.nanos
    }

    /// Whole seconds.
    pub fn as_secs(&self) -> (r: u64)
        ensures
            r == self@ / (NANOS_PER_SEC as nat),
    {
        proof {
            use_type_invariant(self);
        }
        (self.nanos / NANOS_PER_SEC) as u64
    }

    /// Nanoseconds past the whole seconds.
    pub fn subsec_nanos(&self) -> (r: u32)
        ensures
            r == self@ % (NANOS_PER_SEC as nat),
    {
        (self.nanos % NANOS_PER_SEC) as u32
    }
}

} // verus!

verus! {

/// A closed range of delays, both bounds included.
#[derive(Clone, Copy, Debug, PartialEq, Eq, Structural)]
pub struct DelayRange {
    pub start: Delay,
    pub end: Delay,
}

impl DelayRange {
    pub fn new(start: Delay, end: Delay) -> (r: DelayRange)
        ensures
            r.start == start,
            r.end == end,
    {
        DelayRange { start, end }
    }

    pub fn contains(&self, d: &Delay) -> (r: bool)
        ensures
            r == (self.start@ <= d@ <= self.end@),
    {
        self.start.as_nanos() <= d.as_nanos() && d.as_nanos() <= self.end.as_nanos()
    }
}

} // verus!
