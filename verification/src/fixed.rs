//! Unsigned decimal fixed-point numbers.
//!
//! Every real-valued quantity of the marketplace (prices, usages, budgets,
//! ratings, virtual time) is a [`Fixed`]: a count of billionths. Arithmetic
//! never fails: a result too large to represent is capped at the largest
//! representable value, a difference below zero is zero, and quotients and
//! roots are rounded down.

use vstd::prelude::*;

verus! {

/// Raw units in one whole.
pub const SCALE: u64 = 1_000_000_000;

/// The largest raw value.
pub const RAW_MAX: u64 = 0xffff_ffff_ffff_ffff;

/// `x` brought into the representable range.
pub open spec fn capped(x: int) -> int {
    if x < 0 {
        0
    } else if x > RAW_MAX {
        RAW_MAX as int
    } else {
        x
    }
}

/// `r` is the integer square root of `x`.
pub open spec fn is_root(r: int, x: int) -> bool {
    0 <= r && r * r <= x && x < (r + 1) * (r + 1)
}

/// The integer square root of `x`, for `x >= 0`.
pub open spec fn root(x: int) -> int {
    choose|r: int| is_root(r, x)
}

/// A number with a square root has only one.
pub proof fn lemma_root_unique(r1: int, r2: int, x: int)
    requires
        is_root(r1, x),
        is_root(r2, x),
    ensures
        r1 == r2,
{
    if r1 < r2 {
        assert((r1 + 1) * (r1 + 1) <= r2 * r2) by (nonlinear_arith)
            requires
                0 <= r1,
                r1 + 1 <= r2,
        ;
    } else if r2 < r1 {
        assert((r2 + 1) * (r2 + 1) <= r1 * r1) by (nonlinear_arith)
            requires
                0 <= r2,
                r2 + 1 <= r1,
        ;
    }
}

/// Whatever satisfies `is_root` is `root`.
pub proof fn lemma_root_is(r: int, x: int)
    requires
        is_root(r, x),
    ensures
        root(x) == r,
{
    lemma_root_unique(r, root(x), x);
}

/// A non-negative number of billionths.
#[derive(Clone, Copy, Debug, PartialEq, Eq, PartialOrd, Ord, Hash, Structural)]
pub struct Fixed {
    pub raw: u64,
}

impl Fixed {
    /// The sum, capped.
    pub open spec fn plus_spec(self, other: Fixed) -> Fixed {
        Fixed { raw: capped(self.raw + other.raw) as u64 }
    }

    /// The difference, or zero where `other` is the larger.
    pub open spec fn minus_spec(self, other: Fixed) -> Fixed {
        Fixed { raw: capped(self.raw - other.raw) as u64 }
    }

    /// The product, rounded down and capped.
    pub open spec fn times_spec(self, other: Fixed) -> Fixed {
        Fixed { raw: capped((self.raw * other.raw) / (SCALE as int)) as u64 }
    }

    /// The quotient, rounded down and capped; the largest value where `other` is zero.
    pub open spec fn over_spec(self, other: Fixed) -> Fixed {
        if other.raw == 0 {
            Fixed { raw: RAW_MAX }
        } else {
            Fixed { raw: capped((self.raw * SCALE) / (other.raw as int)) as u64 }
        }
    }

    /// The square root, rounded down.
    pub open spec fn sqrt_spec(self) -> Fixed {
        Fixed { raw: root(self.raw * SCALE) as u64 }
    }

    /// One of `parts` equal parts, rounded down; the largest value where
    /// `parts` is zero.
    pub open spec fn split_spec(self, parts: u64) -> Fixed {
        if parts == 0 {
            Fixed { raw: RAW_MAX }
        } else {
            Fixed { raw: (self.raw / parts) as u64 }
        }
    }

    /// The smaller of the two.
    pub open spec fn min_spec(self, other: Fixed) -> Fixed {
        if other.raw < self.raw {
            other
        } else {
            self
        }
    }

    /// `units` wholes, capped.
    pub open spec fn from_int_spec(units: u64) -> Fixed {
        Fixed { raw: capped(units * SCALE) as u64 }
    }

    /// `numerator / denominator`, rounded down and capped; the largest value
    /// where `denominator` is zero.
    pub open spec fn ratio_spec(numerator: u64, denominator: u64) -> Fixed {
        if denominator == 0 {
            Fixed { raw: RAW_MAX }
        } else {
            Fixed { raw: capped((numerator * SCALE) / (denominator as int)) as u64 }
        }
    }

    pub fn from_raw(raw: u64) -> (r: Fixed)
        ensures
            r.raw == raw,
    {
        Fixed { raw }
    }

    pub fn raw(self) -> (r: u64)
        ensures
            r == self.raw,
    {
        self.raw
    }

    pub fn zero() -> (r: Fixed)
        ensures
            r.raw == 0,
    {
        Fixed { raw: 0 }
    }

    pub fn one() -> (r: Fixed)
        ensures
            r.raw == SCALE,
    {
        Fixed { raw: SCALE }
    }

    pub fn max_value() -> (r: Fixed)
        ensures
            r.raw == RAW_MAX,
    {
        Fixed { raw: RAW_MAX }
    }

    pub fn from_int(units: u64) -> (r: Fixed)
        ensures
            r == Self::from_int_spec(units),
    {
        Self::ratio(units, 1)
    }

    pub fn ratio(numerator: u64, denominator: u64) -> (r: Fixed)
        ensures
            r == Self::ratio_spec(numerator, denominator),
    {
        if denominator == 0 {
            return Fixed { raw: RAW_MAX };
        }
        assert(numerator * SCALE <= 0xffff_ffff_ffff_ffff * 1_000_000_000) by (nonlinear_arith)
            requires
                numerator <= 0xffff_ffff_ffff_ffff,
                SCALE == 1_000_000_000,
        ;
        let wide: u128 = (numerator as u128) * (SCALE as u128);
        let q: u128 = wide / (denominator as u128);
        if q > RAW_MAX as u128 {
            Fixed { raw: RAW_MAX }
        } else {
            Fixed { raw: q as u64 }
        }
    }

    pub fn plus(self, other: Fixed) -> (r: Fixed)
        ensures
            r == self.plus_spec(other),
    {
        let wide: u128 = self.raw as u128 + other.raw as u128;
        if wide > RAW_MAX as u128 {
            Fixed { raw: RAW_MAX }
        } else {
            Fixed { raw: wide as u64 }
        }
    }

    pub fn minus(self, other: Fixed) -> (r: Fixed)
        ensures
            r == self.minus_spec(other),
    {
        if self.raw >= other.raw {
            Fixed { raw: self.raw - other.raw }
        } else {
            Fixed { raw: 0 }
        }
    }

    pub fn times(self, other: Fixed) -> (r: Fixed)
        ensures
            r == self.times_spec(other),
    {
        assert(self.raw * other.raw <= 0xffff_ffff_ffff_ffff * 0xffff_ffff_ffff_ffff)
            by (nonlinear_arith)
            requires
                self.raw <= 0xffff_ffff_ffff_ffff,
                other.raw <= 0xffff_ffff_ffff_ffff,
        ;
        let wide: u128 = (self.raw as u128) * (other.raw as u128);
        let q: u128 = wide / (SCALE as u128);
        if q > RAW_MAX as u128 {
            Fixed { raw: RAW_MAX }
        } else {
            Fixed { raw: q as u64 }
        }
    }

    pub fn over(self, other: Fixed) -> (r: Fixed)
        ensures
            r == self.over_spec(other),
    {
        Self::ratio_of(self.raw, other.raw)
    }

    fn ratio_of(a: u64, b: u64) -> (r: Fixed)
        ensures
            r == (Fixed { raw: a }).over_spec(Fixed { raw: b }),
    {
        if b == 0 {
            return Fixed { raw: RAW_MAX };
        }
        assert(a * SCALE <= 0xffff_ffff_ffff_ffff * 1_000_000_000) by (nonlinear_arith)
            requires
                a <= 0xffff_ffff_ffff_ffff,
                SCALE == 1_000_000_000,
        ;
        let wide: u128 = (a as u128) * (SCALE as u128);
        let q: u128 = wide / (b as u128);
        if q > RAW_MAX as u128 {
            Fixed { raw: RAW_MAX }
        } else {
            Fixed { raw: q as u64 }
        }
    }

    pub fn sqrt(self) -> (r: Fixed)
        ensures
            r == self.sqrt_spec(),
            is_root(r.raw as int, self.raw * SCALE),
    {
        assert(self.raw * SCALE <= 0xffff_ffff_ffff_ffff * 1_000_000_000) by (nonlinear_arith)
            requires
                self.raw <= 0xffff_ffff_ffff_ffff,
                SCALE == 1_000_000_000,
        ;
        let x: u128 = (self.raw as u128) * (SCALE as u128);
        let mut lo: u128 = 0;
        let mut hi: u128 = 0x1_0000_0000_0000;
        assert(x < 0x1_0000_0000_0000u128 * 0x1_0000_0000_0000u128);
        while hi - lo > 1
            invariant
                lo < hi <= 0x1_0000_0000_0000,
                lo * lo <= x,
                x < hi * hi,
            decreases hi - lo,
        {
            let mid: u128 = lo + (hi - lo) / 2;
            assert(mid * mid <= 0x1_0000_0000_0000 * 0x1_0000_0000_0000) by (nonlinear_arith)
                requires
                    mid <= 0x1_0000_0000_0000,
            ;
            if mid * mid <= x {
                lo = mid;
            } else {
                hi = mid;
            }
        }
        proof {
            assert(hi == lo + 1);
            assert(is_root(lo as int, x as int));
            lemma_root_is(lo as int, x as int);
        }
        Fixed { raw: lo as u64 }
    }

    pub fn split(self, parts: u64) -> (r: Fixed)
        ensures
            r == self.split_spec(parts),
    {
        if parts == 0 {
            Fixed { raw: RAW_MAX }
        } else {
            Fixed { raw: self.raw / parts }
        }
    }

    pub fn min(self, other: Fixed) -> (r: Fixed)
        ensures
            r == self.min_spec(other),
    {
        if other.raw < self.raw {
            other
        } else {
            self
        }
    }

    pub fn is_zero(self) -> (r: bool)
        ensures
            r == (self.raw == 0),
    {
        self.raw == 0
    }
}

} // verus!
