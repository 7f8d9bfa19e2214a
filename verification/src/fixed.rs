//! Fixed-point arithmetic with six decimal digits of fraction.
//!
//! A [`Fixed`] stores a number as `raw` millionths: the number `x` is held as
//! `raw == x * 1_000_000`, truncated.  Every operation states its result
//! exactly over the raw integers, so the whole training pipeline built on top
//! of it has a precise arithmetic meaning.

use vstd::prelude::*;

verus! {

/// Raw units per whole number: a `Fixed` counts millionths.
pub const SCALE: i64 = 1_000_000;

/// Largest raw magnitude a `Fixed` may hold (one quintillion millionths,
/// i.e. numbers up to a trillion in absolute value).  The bound keeps every
/// intermediate product of two in-range numbers inside `i128`.
pub const MAX_RAW: i64 = 1_000_000_000_000_000_000;

/// A fixed-point number: `raw` millionths.
#[derive(Clone, Copy, PartialEq, Eq, Structural, Debug)]
pub struct Fixed {
    pub raw: i64,
}

/// Truncating division (rounding toward zero), defined for `d != 0`.
/// This is the rounding Rust's integer division performs.
pub open spec fn tdiv(n: int, d: int) -> int
    recommends
        d != 0,
{
    if n == 0 {
        0
    } else if n > 0 && d > 0 {
        n / d
    } else if n < 0 && d < 0 {
        (n * -1) / (d * -1)
    } else if n < 0 {
        ((n * -1) / d) * -1
    } else {
        (n / (d * -1)) * -1
    }
}

/// Range check: a raw value is representable exactly when its magnitude is at
/// most [`MAX_RAW`].
pub open spec fn chk(v: int) -> Option<int> {
    if -(MAX_RAW as int) <= v <= MAX_RAW as int {
        Some(v)
    } else {
        None
    }
}

/// Raw-level sum of two numbers, `None` when the result leaves the range.
pub open spec fn add_raw(a: int, b: int) -> Option<int> {
    chk(a + b)
}

/// Raw-level difference, `None` when the result leaves the range.
pub open spec fn sub_raw(a: int, b: int) -> Option<int> {
    chk(a - b)
}

/// Raw-level product: the exact product carries a double scale factor, so it
/// is divided (truncating) by [`SCALE`] once.
pub open spec fn mul_raw(a: int, b: int) -> Option<int> {
    chk(tdiv(a * b, SCALE as int))
}

/// Raw-level quotient: the dividend is widened by [`SCALE`] so the quotient
/// keeps the fraction digits.
pub open spec fn div_raw(a: int, b: int) -> Option<int>
    recommends
        b != 0,
{
    chk(tdiv(a * (SCALE as int), b))
}

impl Fixed {
    /// The representation invariant: the raw magnitude is bounded.
    pub open spec fn valid(self) -> bool {
        -MAX_RAW <= self.raw <= MAX_RAW
    }

    /// The number zero.
    pub fn zero() -> (r: Fixed)
        ensures
            r.raw == 0,
            r.valid(),
    {
        Fixed { raw: 0 }
    }

    /// Builds a number from a count of millionths, refusing out-of-range input.
    pub fn from_micros(raw: i64) -> (r: Option<Fixed>)
        ensures
            match r {
                Some(f) => f.raw == raw && f.valid(),
                None => !(-MAX_RAW <= raw <= MAX_RAW),
            },
    {
        if -MAX_RAW <= raw && raw <= MAX_RAW {
            Some(Fixed { raw })
        } else {
            None
        }
    }

    /// Builds a whole number, refusing input whose scaled value is out of range.
    pub fn from_int(v: i64) -> (r: Option<Fixed>)
        ensures
            r == chk_fixed(v * (SCALE as int)),
    {
        let wide: i128 = (v as i128) * (SCALE as i128);
        if -(MAX_RAW as i128) <= wide && wide <= MAX_RAW as i128 {
            Some(Fixed { raw: wide as i64 })
        } else {
            None
        }
    }

    /// Checked addition.
    pub fn try_add(self, other: Fixed) -> (r: Option<Fixed>)
        requires
            self.valid(),
            other.valid(),
        ensures
            r == chk_fixed(self.raw + other.raw),
    {
        let s: i64 = self.raw + other.raw;
        if -MAX_RAW <= s && s <= MAX_RAW {
            Some(Fixed { raw: s })
        } else {
            None
        }
    }

    /// Checked subtraction.
    pub fn try_sub(self, other: Fixed) -> (r: Option<Fixed>)
        requires
            self.valid(),
            other.valid(),
        ensures
            r == chk_fixed(self.raw - other.raw),
    {
        let s: i64 = self.raw - other.raw;
        if -MAX_RAW <= s && s <= MAX_RAW {
            Some(Fixed { raw: s })
        } else {
            None
        }
    }

    /// Absolute value.
    pub fn abs(self) -> (r: Fixed)
        requires
            self.valid(),
        ensures
            r.valid(),
            r.raw == if self.raw >= 0 { self.raw as int } else { -(self.raw as int) },
    {
        if self.raw >= 0 {
            self
        } else {
            Fixed { raw: -self.raw }
        }
    }

    /// Strict comparison by value.
    pub fn lt(self, other: Fixed) -> (r: bool)
        ensures
            r == (self.raw < other.raw),
    {
        self.raw < other.raw
    }
}

/// Magnitude of a raw value.
pub open spec fn abs_of(v: int) -> int {
    if v >= 0 {
        v
    } else {
        -v
    }
}

/// `r` is the integer square root of `n`: the largest integer whose square
/// does not exceed `n`.
pub open spec fn is_sqrt(r: int, n: int) -> bool {
    &&& 0 <= r
    &&& r * r <= n
    &&& n < (r + 1) * (r + 1)
}

/// The integer square root is unique.
pub proof fn lemma_is_sqrt_unique(a: int, b: int, n: int)
    by (nonlinear_arith)
    requires
        is_sqrt(a, n),
        is_sqrt(b, n),
    ensures
        a == b,
{
}

/// The integer square root of `n`, as a definite value (meaningful whenever
/// some integer square root exists, which [`Fixed::sqrt`] witnesses).
pub open spec fn sqrt_of(n: int) -> int {
    choose|r: int| is_sqrt(r, n)
}

/// Any witness of [`is_sqrt`] equals [`sqrt_of`].
pub proof fn lemma_sqrt_of(r: int, n: int)
    requires
        is_sqrt(r, n),
    ensures
        sqrt_of(n) == r,
{
    assert(is_sqrt(sqrt_of(n), n)) by {
        assert(exists|x: int| is_sqrt(x, n)) by {
            assert(is_sqrt(r, n));
        }
    }
    lemma_is_sqrt_unique(sqrt_of(n), r, n);
}

/// Wraps an in-range raw value as a `Fixed`; propagates `None`.
pub open spec fn lift(v: Option<int>) -> Option<Fixed> {
    match v {
        Some(w) => Some(Fixed { raw: w as i64 }),
        None => None,
    }
}

/// Range check producing a `Fixed`, the `Option<Fixed>` face of [`chk`].
pub open spec fn chk_fixed(v: int) -> Option<Fixed> {
    lift(chk(v))
}

/// Bounds the magnitude of a product from the bounds of its factors.
pub proof fn lemma_mul_abs_bound(a: int, b: int, bound_a: int, bound_b: int)
    by (nonlinear_arith)
    requires
        -bound_a <= a <= bound_a,
        -bound_b <= b <= bound_b,
    ensures
        -(bound_a * bound_b) <= a * b <= bound_a * bound_b,
{
}

/// Truncating division never grows the magnitude; with a positive divisor it
/// keeps the sign of the dividend.
pub proof fn lemma_tdiv_bounds(n: int, d: int)
    requires
        d != 0,
    ensures
        -(if n >= 0 { n } else { n * -1 }) <= tdiv(n, d) <= (if n >= 0 { n } else { n * -1 }),
        d >= 1 && n >= 0 ==> 0 <= tdiv(n, d),
        d >= 1 && n <= 0 ==> tdiv(n, d) <= 0,
{
    let nn = if n >= 0 { n } else { n * -1 };
    let dd = if d >= 1 { d } else { d * -1 };
    if nn > 0 {
        vstd::arithmetic::div_mod::lemma_div_pos_is_pos(nn, dd);
        vstd::arithmetic::div_mod::lemma_div_nonincreasing(nn, dd);
    }
}

/// A quotient is bounded by `m` whenever the dividend is bounded by `d * m`.
pub proof fn lemma_tdiv_quotient_bound(n: int, d: int, m: int)
    requires
        d >= 1,
        m >= 0,
        -(d * m) <= n <= d * m,
    ensures
        -m <= tdiv(n, d) <= m,
{
    vstd::arithmetic::div_mod::lemma_div_by_multiple(m, d);
    assert(m * d == d * m) by (nonlinear_arith);
    if n > 0 {
        vstd::arithmetic::div_mod::lemma_div_is_ordered(n, d * m, d);
        vstd::arithmetic::div_mod::lemma_div_pos_is_pos(n, d);
    } else if n < 0 {
        vstd::arithmetic::div_mod::lemma_div_is_ordered(n * -1, d * m, d);
        vstd::arithmetic::div_mod::lemma_div_pos_is_pos(n * -1, d);
    }
}

/// Division is exact on multiples of the divisor.
pub proof fn lemma_tdiv_exact(k: int, d: int)
    requires
        d >= 1,
    ensures
        tdiv(k * d, d) == k,
{
    if k > 0 {
        assert(k * d > 0) by (nonlinear_arith)
            requires
                k > 0 && d > 0,
        ;
        vstd::arithmetic::div_mod::lemma_div_multiples_vanish(k, d);
        assert(k * d == d * k) by (nonlinear_arith);
    } else if k < 0 {
        assert(k * d < 0 && (k * d) * -1 == d * (k * -1)) by (nonlinear_arith)
            requires
                k < 0 && d > 0,
        ;
        vstd::arithmetic::div_mod::lemma_div_multiples_vanish(k * -1, d);
    } else {
        assert(k * d == 0) by (nonlinear_arith)
            requires
                k == 0,
        ;
    }
}

impl Fixed {
    /// Checked multiplication: the exact product, truncated to the scale.
    pub fn try_mul(self, other: Fixed) -> (r: Option<Fixed>)
        requires
            self.valid(),
            other.valid(),
        ensures
            r == chk_fixed(tdiv(self.raw * other.raw, SCALE as int)),
    {
        proof {
            lemma_mul_abs_bound(self.raw as int, other.raw as int, MAX_RAW as int, MAX_RAW as int);
        }
        let p: i128 = (self.raw as i128) * (other.raw as i128);
        proof {
            lemma_tdiv_bounds(p as int, SCALE as int);
        }
        let q: i128 = match p.checked_div(SCALE as i128) {
            Some(q) => q,
            None => {
                proof {
                    assert(false);
                }
                0
            },
        };
        if -(MAX_RAW as i128) <= q && q <= MAX_RAW as i128 {
            Some(Fixed { raw: q as i64 })
        } else {
            None
        }
    }

    /// Square root, truncated to the scale: the result is the largest number
    /// whose square (at raw precision) does not exceed the argument.
    pub fn sqrt(self) -> (r: Fixed)
        requires
            self.valid(),
            self.raw >= 0,
        ensures
            r.valid(),
            is_sqrt(r.raw as int, self.raw * (SCALE as int)),
    {
        let x: u128 = (self.raw as u128) * (SCALE as u128);
        let mut lo: u128 = 0;
        let mut hi: u128 = 1_000_000_000_001;
        proof {
            assert(x < hi * hi) by (nonlinear_arith)
                requires
                    x <= 1_000_000_000_000_000_000_000_000 && hi == 1_000_000_000_001,
            ;
        }
        while lo + 1 < hi
            invariant
                lo < hi,
                hi <= 1_000_000_000_001,
                lo * lo <= x,
                x < hi * hi,
            decreases hi - lo,
        {
            let mid: u128 = lo + (hi - lo) / 2;
            proof {
                assert(lo < mid < hi) by (nonlinear_arith)
                    requires
                        mid == lo + (hi - lo) / 2 && lo + 1 < hi,
                ;
                assert(mid * mid < 0x10000000000000000000000000000) by (nonlinear_arith)
                    requires
                        mid <= 1_000_000_000_001,
                ;
            }
            if mid * mid <= x {
                lo = mid;
            } else {
                hi = mid;
            }
        }
        Fixed { raw: lo as i64 }
    }

    /// Checked division: the dividend is widened by the scale, the quotient
    /// truncated.
    pub fn try_div(self, other: Fixed) -> (r: Option<Fixed>)
        requires
            self.valid(),
            other.valid(),
            other.raw != 0,
        ensures
            r == chk_fixed(tdiv(self.raw * (SCALE as int), other.raw as int)),
    {
        proof {
            lemma_mul_abs_bound(self.raw as int, SCALE as int, MAX_RAW as int, SCALE as int);
        }
        let n: i128 = (self.raw as i128) * (SCALE as i128);
        proof {
            lemma_tdiv_bounds(n as int, other.raw as int);
        }
        let q: i128 = match n.checked_div(other.raw as i128) {
            Some(q) => q,
            None => {
                proof {
                    assert(false);
                }
                0
            },
        };
        if -(MAX_RAW as i128) <= q && q <= MAX_RAW as i128 {
            Some(Fixed { raw: q as i64 })
        } else {
            None
        }
    }
}

} // verus!
