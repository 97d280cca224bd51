//! Exact rational numbers with a positive denominator, and the arithmetic
//! lemmas the rest of the crate needs to keep products inside machine bounds.

use vstd::prelude::*;

verus! {

/// Bounds a product of two bounded factors.
pub proof fn lemma_mul_bound(a: int, b: int, m: int, n: int)
    by (nonlinear_arith)
    requires
        -m <= a <= m,
        -n <= b <= n,
        0 <= m,
        0 <= n,
    ensures
        -(m * n) <= a * b <= m * n,
{
}

/// The smaller of two integers.
pub open spec fn min2(a: int, b: int) -> int {
    if a <= b {
        a
    } else {
        b
    }
}

/// The larger of two integers.
pub open spec fn max2(a: int, b: int) -> int {
    if a >= b {
        a
    } else {
        b
    }
}

/// `v` clamped to the interval `[lo, hi]`.
pub open spec fn clamp_int(v: int, lo: int, hi: int) -> int {
    if v < lo {
        lo
    } else if v > hi {
        hi
    } else {
        v
    }
}

/// Floor division (Euclidean division by a positive divisor).
pub fn floor_div(a: i128, b: i128) -> (q: i128)
    requires
        b > 0,
        a > i128::MIN,
    ensures
        q == a as int / b as int,
{
    let q0 = a / b;
    let r0 = a % b;
    proof {
        let ai = a as int;
        let bi = b as int;
        if a < 0 {
            vstd::arithmetic::div_mod::lemma_fundamental_div_mod(-ai, bi);
            let m = (-ai) / bi;
            let s = (-ai) % bi;
            vstd::arithmetic::div_mod::lemma_mod_bound(-ai, bi);
            if s == 0 {
                assert(ai == (-m) * bi + 0) by (nonlinear_arith)
                    requires -ai == bi * m + s && s == 0;
                vstd::arithmetic::div_mod::lemma_fundamental_div_mod_converse(ai, bi, -m, 0);
            } else {
                assert(ai == (-m - 1) * bi + (bi - s)) by (nonlinear_arith)
                    requires -ai == bi * m + s;
                vstd::arithmetic::div_mod::lemma_fundamental_div_mod_converse(
                    ai, bi, -m - 1, bi - s);
            }
        }
    }
    if r0 < 0 {
        q0 - 1
    } else {
        q0
    }
}

/// Floor midpoint of two ordered coordinates.
pub fn midpoint(a: i64, b: i64) -> (r: i64)
    requires
        a <= b,
    ensures
        r == (a + b) / 2,
        a <= r <= b,
{
    let s = floor_div(a as i128 + b as i128, 2);
    proof {
        vstd::arithmetic::div_mod::lemma_fundamental_div_mod(a + b, 2);
        vstd::arithmetic::div_mod::lemma_mod_bound(a + b, 2);
    }
    s as i64
}

/// A quotient by a positive divisor is bounded by any slope bound on the
/// dividend.
pub proof fn lemma_div_range(a: int, b: int, m: int)
    requires
        b > 0,
        m >= 0,
        -(m * b) <= a <= m * b,
    ensures
        -m <= a / b <= m,
{
    vstd::arithmetic::div_mod::lemma_fundamental_div_mod(a, b);
    vstd::arithmetic::div_mod::lemma_mod_bound(a, b);
    assert(-m <= a / b <= m) by (nonlinear_arith)
        requires
            a == b * (a / b) + a % b,
            0 <= a % b < b,
            b > 0,
            m >= 0,
            -(m * b) <= a <= m * b;
}

/// An exact rational number `num / den`. The denominator is kept
/// strictly positive, so ordering is given by cross-multiplication.
#[derive(Clone, Copy, PartialEq, Eq, Structural, Debug)]
pub struct Ratio {
    pub num: i128,
    pub den: i128,
}

impl Ratio {
    /// A well-formed ratio has a strictly positive denominator.
    pub open spec fn wf(self) -> bool {
        self.den > 0
    }

    /// The value of `self`, compared against the rational `n / d` (`d > 0`):
    /// `self == n / d`.
    pub open spec fn is(self, n: int, d: int) -> bool {
        self.num * d == n * self.den
    }

    /// `self < other`, by cross-multiplication (both well-formed).
    pub open spec fn lt_spec(self, other: Ratio) -> bool {
        self.num * other.den < other.num * self.den
    }

    /// `self <= other`, by cross-multiplication (both well-formed).
    pub open spec fn le_spec(self, other: Ratio) -> bool {
        self.num * other.den <= other.num * self.den
    }

    /// `0 <= self <= 1`.
    pub open spec fn in_unit_interval(self) -> bool {
        0 <= self.num <= self.den
    }

    /// Builds the ratio `num / den`, flipping signs so the stored
    /// denominator is positive.
    pub fn new(num: i128, den: i128) -> (r: Ratio)
        requires
            den != 0,
            -0x7fff_ffff_ffff_ffff_ffff_ffff_ffff_ffff <= num,
            -0x7fff_ffff_ffff_ffff_ffff_ffff_ffff_ffff <= den,
        ensures
            r.wf(),
            r.num * den == num * r.den,
    {
        if den > 0 {
            Ratio { num, den }
        } else {
            proof {
                assert((-num) * den == num * (-den)) by (nonlinear_arith);
            }
            Ratio { num: -num, den: -den }
        }
    }

    /// Exact comparison `self < other`.
    pub fn lt(self, other: Ratio) -> (r: bool)
        requires
            self.wf(),
            other.wf(),
            -0x4000_0000_0000_0000_0000_0000_0000_0000 <= self.num * other.den
                <= 0x4000_0000_0000_0000_0000_0000_0000_0000,
            -0x4000_0000_0000_0000_0000_0000_0000_0000 <= other.num * self.den
                <= 0x4000_0000_0000_0000_0000_0000_0000_0000,
        ensures
            r == self.lt_spec(other),
    {
        self.num * other.den < other.num * self.den
    }

    /// Exact comparison `self <= other`.
    pub fn le(self, other: Ratio) -> (r: bool)
        requires
            self.wf(),
            other.wf(),
            -0x4000_0000_0000_0000_0000_0000_0000_0000 <= self.num * other.den
                <= 0x4000_0000_0000_0000_0000_0000_0000_0000,
            -0x4000_0000_0000_0000_0000_0000_0000_0000 <= other.num * self.den
                <= 0x4000_0000_0000_0000_0000_0000_0000_0000,
        ensures
            r == self.le_spec(other),
    {
        self.num * other.den <= other.num * self.den
    }
}

} // verus!
