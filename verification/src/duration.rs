//! Spans of time.

use vstd::prelude::*;

verus! {

/// The nanoseconds in a second.
pub const NANOS_PER_SEC: u64 = 1_000_000_000;

/// A span of time in whole nanoseconds, at most `u64::MAX` seconds and
/// 999,999,999 nanoseconds.
#[derive(Clone, Copy, Debug, PartialEq, Eq, Structural)]
pub struct Duration {
    nanos: u128,
}

/// The longest duration, in nanoseconds.
pub open spec fn longest() -> nat {
    u64::MAX as nat * 1_000_000_000 + 999_999_999
}

impl View for Duration {
    type V = nat;

    /// The nanoseconds in the duration.
    closed spec fn view(&self) -> nat {
        self.nanos as nat
    }
}

impl Duration {
    #[verifier::type_invariant]
    spec fn well_formed(self) -> bool {
        self.nanos <= longest()
    }

    /// The duration of no time at all.
    pub fn zero() -> (d: Self)
        ensures
            d@ == 0,
    {
        Duration { nanos: 0 }
    }

    /// A duration of whole nanoseconds.
    pub fn from_nanos(nanos: u64) -> (d: Self)
        ensures
            d@ == nanos,
    {
        Duration { nanos: nanos as u128 }
    }

    /// A duration of whole milliseconds.
    pub fn from_millis(millis: u64) -> (d: Self)
        ensures
            d@ == millis * 1_000_000,
    {
        Duration { nanos: millis as u128 * 1_000_000 }
    }

    /// A duration of whole seconds.
    pub fn from_secs(secs: u64) -> (d: Self)
        ensures
            d@ == secs * NANOS_PER_SEC,
    {
        Duration { nanos: secs as u128 * 1_000_000_000 }
    }

    /// A duration of whole minutes, if they are not too many.
    pub fn from_mins(mins: u64) -> (d: Self)
        requires
            mins * 60 <= u64::MAX,
        ensures
            d@ == mins * 60 * NANOS_PER_SEC,
    {
        Duration::from_secs(mins * 60)
    }

    /// A duration of seconds and a part of a second in nanoseconds, if it is not
    /// too long.
    pub fn from_parts(secs: u64, nanos: u32) -> (d: Option<Self>)
        ensures
            d is Some <==> secs * NANOS_PER_SEC + nanos <= longest(),
            d matches Some(d) ==> d@ == secs * NANOS_PER_SEC + nanos,
    {
        let nanos: u128 = secs as u128 * 1_000_000_000 + nanos as u128;
        if nanos <= u64::MAX as u128 * 1_000_000_000 + 999_999_999 {
            Some(Duration { nanos })
        } else {
            None
        }
    }

    /// The nanoseconds in the duration.
    pub fn as_nanos(self) -> (nanos: u128)
        ensures
            nanos == self@,
            self@ <= longest(),
    {
        proof {
            use_type_invariant(&self);
        }
        self.nanos
    }

    /// The whole seconds in the duration.
    pub fn as_secs(self) -> (secs: u64)
        ensures
            secs == self@ / NANOS_PER_SEC as nat,
    {
        proof {
            use_type_invariant(&self);
        }
        (self.nanos / 1_000_000_000) as u64
    }

    /// The part of the duration that is less than a second, in nanoseconds.
    pub fn subsec_nanos(self) -> (nanos: u32)
        ensures
            nanos == self@ % NANOS_PER_SEC as nat,
    {
        (self.nanos % 1_000_000_000) as u32
    }

    /// The sum of two durations, if it is not too long.
    pub fn checked_add(self, other: Self) -> (sum: Option<Self>)
        ensures
            sum is Some <==> self@ + other@ <= longest(),
            sum matches Some(sum) ==> sum@ == self@ + other@,
    {
        proof {
            use_type_invariant(&self);
            use_type_invariant(&other);
        }
        let nanos: u128 = self.nanos + other.nanos;
        if nanos <= u64::MAX as u128 * 1_000_000_000 + 999_999_999 {
            Some(Duration { nanos })
        } else {
            None
        }
    }

    /// The time from `other` to `self`, unless `other` is longer.
    pub fn checked_sub(self, other: Self) -> (difference: Option<Self>)
        ensures
            difference is Some <==> other@ <= self@,
            difference matches Some(difference) ==> difference@ == self@ - other@,
    {
        proof {
            use_type_invariant(&self);
        }
        if other.nanos <= self.nanos {
            Some(Duration { nanos: self.nanos - other.nanos })
        } else {
            None
        }
    }

    /// The duration repeated `count` times, if that is not too long.
    pub fn checked_mul(self, count: u32) -> (product: Option<Self>)
        ensures
            product is Some <==> self@ * count <= longest(),
            product matches Some(product) ==> product@ == self@ * count,
    {
        proof {
            use_type_invariant(&self);
            assert(self.nanos * count <= longest() * u32::MAX) by (nonlinear_arith)
                requires
                    self.nanos <= longest(),
                    count <= u32::MAX,
            ;
        }
        let nanos: u128 = self.nanos * count as u128;
        if nanos <= u64::MAX as u128 * 1_000_000_000 + 999_999_999 {
            Some(Duration { nanos })
        } else {
            None
        }
    }

    /// The `count`-th part of the duration, rounded down, unless `count` is zero.
    pub fn checked_div(self, count: u32) -> (quotient: Option<Self>)
        ensures
            quotient is Some <==> count != 0,
            quotient matches Some(quotient) ==> quotient@ == self@ / count as nat,
    {
        proof {
            use_type_invariant(&self);
        }
        if count == 0 {
            None
        } else {
            let nanos: u128 = self.nanos / count as u128;
            proof {
                vstd::arithmetic::div_mod::lemma_div_is_ordered_by_denominator(
                    self.nanos as int,
                    1,
                    count as int,
                );
            }
            Some(Duration { nanos })
        }
    }
}

/// The longest duration is as many seconds as 64 bits count and all nanoseconds of
/// another.
pub proof fn law_longest()
    ensures
        longest() == 18_446_744_073_709_551_615_999_999_999,
{
}

} // verus!
