//! Fixed-point scalar arithmetic.
//!
//! Every real quantity in this crate lives on a binary grid: a [`Fix`] holds
//! `bits` and denotes the real number `bits / 2^32`. All operations are exact
//! integer computations (products and quotients round toward negative
//! infinity), so each one carries a complete mathematical contract.

use vstd::prelude::*;

verus! {

use vstd::arithmetic::div_mod::lemma_div_multiples_vanish;
use vstd::arithmetic::div_mod::lemma_div_is_ordered;
use vstd::arithmetic::div_mod::lemma_div_is_ordered_by_denominator;

/// Number of grid steps per real unit: the grid spacing is 2^-32.
pub const FIX_ONE: i64 = 4294967296;

/// One half, on the grid.
pub const FIX_HALF: i64 = 2147483648;

/// A scalar on the 2^-32 grid: `bits` counts grid steps.
#[derive(Clone, Copy, Debug, PartialEq, Eq, Structural)]
pub struct Fix {
    pub bits: i64,
}

impl View for Fix {
    type V = int;

    open spec fn view(&self) -> int {
        self.bits as int
    }
}

/// Magnitude of an integer.
pub open spec fn iabs(x: int) -> int {
    if x < 0 {
        -x
    } else {
        x
    }
}

/// The grid product: the mathematical product `a * b / 2^32`, rounded toward
/// negative infinity.
pub open spec fn fmul(a: int, b: int) -> int {
    (a * b) / (FIX_ONE as int)
}

/// The grid quotient: the mathematical quotient `a / b` expressed on the grid,
/// rounded toward negative infinity.
pub open spec fn fdiv(a: int, b: int) -> int {
    (a * FIX_ONE) / b
}

/// `r` is the integer square root of `q`.
pub open spec fn is_isqrt(q: int, r: int) -> bool {
    0 <= r && r * r <= q && q < (r + 1) * (r + 1)
}

/// The integer square root (floor of the real square root).
pub open spec fn isqrt(q: int) -> int {
    choose|r: int| is_isqrt(q, r)
}

/// The integer square root is unique.
pub proof fn lemma_isqrt_unique(q: int, r: int)
    requires
        is_isqrt(q, r),
    ensures
        isqrt(q) == r,
{
    assert(exists|x: int| is_isqrt(q, x));
    let w = isqrt(q);
    assert(is_isqrt(q, w));
    if w < r {
        assert((w + 1) * (w + 1) <= r * r) by (nonlinear_arith)
            requires
                0 <= w,
                w < r,
        ;
    }
    if r < w {
        assert((r + 1) * (r + 1) <= w * w) by (nonlinear_arith)
            requires
                0 <= r,
                r < w,
        ;
    }
}

/// Every non-negative integer has an integer square root.
pub proof fn lemma_isqrt_exists(q: int)
    requires
        q >= 0,
    ensures
        is_isqrt(q, isqrt(q)),
        0 <= isqrt(q),
    decreases q,
{
    if q == 0 {
        assert(is_isqrt(0, 0));
        assert(exists|x: int| is_isqrt(q, x));
    } else {
        lemma_isqrt_exists(q - 1);
        let r0 = isqrt(q - 1);
        if (r0 + 1) * (r0 + 1) <= q {
            assert((r0 + 1) * (r0 + 1) < (r0 + 2) * (r0 + 2)) by (nonlinear_arith)
                requires
                    0 <= r0,
            ;
            assert(is_isqrt(q, r0 + 1));
        } else {
            assert(is_isqrt(q, r0));
        }
        assert(exists|x: int| is_isqrt(q, x));
    }
}

/// A product of bounded factors is bounded.
pub proof fn lemma_mul_abs_le(a: int, b: int, ca: int, cb: int)
    requires
        iabs(a) <= ca,
        iabs(b) <= cb,
    ensures
        iabs(a * b) <= ca * cb,
{
    assert(iabs(a * b) <= ca * cb) by (nonlinear_arith)
        requires
            iabs(a) <= ca,
            iabs(b) <= cb,
    ;
}

/// A grid product of bounded factors is bounded: if `|a * b| <= c` then
/// `|fmul(a, b)|` is at most `c / 2^32`, up to the one step lost to rounding.
pub proof fn lemma_fmul_abs_le(a: int, b: int, c: int)
    requires
        iabs(a * b) <= c,
    ensures
        -(c / (FIX_ONE as int)) - 1 <= fmul(a, b) <= c / (FIX_ONE as int),
{
    let f = FIX_ONE as int;
    lemma_div_is_ordered(a * b, c, f);
    lemma_div_is_ordered(-c, a * b, f);
    assert((-c) / f >= -(c / f) - 1) by {
        vstd::arithmetic::div_mod::lemma_fundamental_div_mod(c, f);
        vstd::arithmetic::div_mod::lemma_fundamental_div_mod(-c, f);
    };
}

/// A grid product of factors with known magnitude bounds is bounded by the
/// quotient of the bounds' product.
pub proof fn lemma_fmul_range(a: int, b: int, ca: int, cb: int)
    requires
        iabs(a) <= ca,
        iabs(b) <= cb,
    ensures
        -((ca * cb) / (FIX_ONE as int)) - 1 <= fmul(a, b) <= (ca * cb) / (FIX_ONE as int),
{
    lemma_mul_abs_le(a, b, ca, cb);
    lemma_fmul_abs_le(a, b, ca * cb);
}

/// A grid quotient by a divisor of at least one unit has magnitude no more
/// than the dividend's, up to the one step lost to rounding.
pub proof fn lemma_fdiv_abs_le(a: int, s: int)
    requires
        FIX_ONE as int <= s,
    ensures
        -iabs(a) - 1 <= fdiv(a, s) <= iabs(a),
        a >= 0 ==> 0 <= fdiv(a, s) <= a,
{
    let f = FIX_ONE as int;
    let m = iabs(a);
    lemma_mul_abs_le(a, f, m, f);
    lemma_div_is_ordered(a * f, m * f, s);
    lemma_div_is_ordered(-(m * f), a * f, s);
    lemma_div_is_ordered_by_denominator(m * f, f, s);
    lemma_div_multiples_vanish(m, f);
    assert(m * f == f * m) by (nonlinear_arith);
    let q1 = (m * f) / s;
    let r1 = (m * f) % s;
    let q2 = (-(m * f)) / s;
    let r2 = (-(m * f)) % s;
    vstd::arithmetic::div_mod::lemma_fundamental_div_mod(m * f, s);
    vstd::arithmetic::div_mod::lemma_fundamental_div_mod(-(m * f), s);
    assert(q2 >= -q1 - 1) by (nonlinear_arith)
        requires
            m * f == s * q1 + r1,
            -(m * f) == s * q2 + r2,
            0 <= r1 < s,
            0 <= r2 < s,
            1 <= s,
    ;
    if a >= 0 {
        vstd::arithmetic::div_mod::lemma_div_pos_is_pos(a * f, s);
    }
}

/// Multiplying by one on the grid is exact.
pub proof fn lemma_fmul_one(a: int)
    ensures
        fmul(a, FIX_ONE as int) == a,
        fmul(FIX_ONE as int, a) == a,
        fmul(a, -(FIX_ONE as int)) == -a,
        fmul(-(FIX_ONE as int), a) == -a,
        fmul(a, 0) == 0,
        fmul(0, a) == 0,
{
    let f = FIX_ONE as int;
    lemma_div_multiples_vanish(a, f);
    assert(a * f == f * a) by (nonlinear_arith);
    assert(a * (-f) == f * (-a) && (-f) * a == f * (-a)) by (nonlinear_arith);
    lemma_div_multiples_vanish(-a, f);
    assert(0 * a == 0) by (nonlinear_arith);
}

impl Fix {
    /// The scalar with the given grid step count.
    pub fn from_bits(bits: i64) -> (r: Fix)
        ensures
            r@ == bits,
    {
        Fix { bits }
    }

    pub fn zero() -> (r: Fix)
        ensures
            r@ == 0,
    {
        Fix { bits: 0 }
    }

    pub fn one() -> (r: Fix)
        ensures
            r@ == FIX_ONE,
    {
        Fix { bits: FIX_ONE }
    }

    pub fn half() -> (r: Fix)
        ensures
            r@ == FIX_HALF,
    {
        Fix { bits: FIX_HALF }
    }

    pub fn add(self, o: Fix) -> (r: Fix)
        requires
            i64::MIN <= self@ + o@ <= i64::MAX,
        ensures
            r@ == self@ + o@,
    {
        Fix { bits: self.bits + o.bits }
    }

    pub fn sub(self, o: Fix) -> (r: Fix)
        requires
            i64::MIN <= self@ - o@ <= i64::MAX,
        ensures
            r@ == self@ - o@,
    {
        Fix { bits: self.bits - o.bits }
    }

    pub fn neg(self) -> (r: Fix)
        requires
            self@ != i64::MIN,
        ensures
            r@ == -self@,
    {
        Fix { bits: -self.bits }
    }

    /// Magnitude.
    pub fn abs(self) -> (r: Fix)
        requires
            self@ != i64::MIN,
        ensures
            r@ == iabs(self@),
    {
        if self.bits < 0 {
            Fix { bits: -self.bits }
        } else {
            self
        }
    }

    /// Grid product, rounded toward negative infinity.
    pub fn mul(self, o: Fix) -> (r: Fix)
        requires
            i64::MIN <= fmul(self@, o@) <= i64::MAX,
        ensures
            r@ == fmul(self@, o@),
    {
        let a: i128 = self.bits as i128;
        let b: i128 = o.bits as i128;
        proof {
            lemma_mul_abs_le(self@, o@, 0x8000000000000000, 0x8000000000000000);
        }
        let p: i128 = a * b;
        let q: i128 = match p.checked_div_euclid(FIX_ONE as i128) {
            Some(q) => q,
            None => {
                proof {
                    assert(false);
                }
                0
            },
        };
        Fix { bits: q as i64 }
    }

    /// Grid quotient, rounded toward negative infinity. The divisor must be
    /// positive.
    pub fn div(self, o: Fix) -> (r: Fix)
        requires
            o@ > 0,
            i64::MIN <= fdiv(self@, o@) <= i64::MAX,
        ensures
            r@ == fdiv(self@, o@),
    {
        let a: i128 = (self.bits as i128) * (FIX_ONE as i128);
        let q: i128 = match a.checked_div_euclid(o.bits as i128) {
            Some(q) => q,
            None => {
                proof {
                    assert(false);
                }
                0
            },
        };
        Fix { bits: q as i64 }
    }

    /// Mathematical (Euclidean) remainder: always in `[0, n)` for positive
    /// `n`, matching the modulo the periodic estimators need.
    pub fn modulo(self, n: Fix) -> (r: Fix)
        requires
            n@ > 0,
        ensures
            r@ == self@ % n@,
            0 <= r@ < n@,
    {
        let q: i128 = match (self.bits as i128).checked_rem_euclid(n.bits as i128) {
            Some(q) => q,
            None => {
                proof {
                    assert(false);
                }
                0
            },
        };
        Fix { bits: q as i64 }
    }

    /// Square root on the grid, rounded down: the result is the integer
    /// square root of `self * 2^32`, never above the real square root.
    pub fn sqrt(self) -> (r: Fix)
        requires
            self@ >= 0,
        ensures
            r@ == isqrt(self@ * FIX_ONE),
            is_isqrt(self@ * FIX_ONE, r@),
            0 <= r@,
    {
        let q: u128 = (self.bits as u128) * (FIX_ONE as u128);
        let r: u64 = isqrt_u128(q);
        proof {
            assert(r <= 0x1000000000000u64) by (nonlinear_arith)
                requires
                    is_isqrt(q as int, r as int),
                    q <= 0x800000000000000000000000u128,
            ;
            lemma_isqrt_unique(q as int, r as int);
        }
        Fix { bits: r as i64 }
    }

    /// Quantize a value in grid units to an 8-bit channel, as a saturating
    /// truncation toward zero: negative values give 0, values of 255 whole
    /// units or more give 255.
    pub fn to_u8_sat(self) -> (r: u8)
        ensures
            r as int == sat_u8(self@),
    {
        if self.bits < 0 {
            0
        } else {
            let q: u64 = (self.bits as u64) / (FIX_ONE as u64);
            if q > 255 {
                255
            } else {
                q as u8
            }
        }
    }
}

/// Saturating quantization of a grid value to an 8-bit channel.
pub open spec fn sat_u8(x: int) -> int {
    if x < 0 {
        0
    } else if x / (FIX_ONE as int) > 255 {
        255
    } else {
        x / (FIX_ONE as int)
    }
}

/// Integer square root of a wide unsigned value, by bisection.
pub fn isqrt_u128(q: u128) -> (r: u64)
    requires
        q < 0x40000000000000000000000000000000u128,
    ensures
        is_isqrt(q as int, r as int),
        r as int == isqrt(q as int),
{
    let mut lo: u64 = 0;
    let mut hi: u64 = 0x8000000000000000;
    while lo < hi
        invariant
            lo <= hi <= 0x8000000000000000u64,
            (lo as int) * (lo as int) <= q as int,
            (q as int) < ((hi as int) + 1) * ((hi as int) + 1),
        decreases hi - lo,
    {
        let mid: u64 = lo + (hi - lo + 1) / 2;
        proof {
            lemma_mul_abs_le(mid as int, mid as int, 0x8000000000000000, 0x8000000000000000);
        }
        let m: u128 = (mid as u128) * (mid as u128);
        if m <= q {
            lo = mid;
        } else {
            hi = mid - 1;
        }
    }
    proof {
        lemma_isqrt_unique(q as int, lo as int);
    }
    lo
}

} // verus!
