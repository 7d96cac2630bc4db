//! 3D points and vectors on the fixed-point grid.
//!
//! An immutable value type: every operation returns a new value. Lengths are
//! computed from the exact sum of squared grid steps, so `length` is the floor
//! of the real Euclidean length — never above it, which is exactly the
//! lower-bound property the sphere tracer relies on.

use vstd::prelude::*;

verus! {

use crate::fix::{Fix, FIX_ONE, fmul, fdiv, iabs, isqrt, is_isqrt, isqrt_u128};
use crate::fix::lemma_mul_abs_le;
use vstd::arithmetic::div_mod::lemma_div_is_ordered;

/// A point (or vector) in space; each coordinate counts grid steps of 2^-32.
#[derive(Clone, Copy, Debug, PartialEq, Eq, Structural)]
pub struct Point {
    pub x: Fix,
    pub y: Fix,
    pub z: Fix,
}

impl View for Point {
    type V = (int, int, int);

    open spec fn view(&self) -> (int, int, int) {
        (self.x@, self.y@, self.z@)
    }
}

/// All three coordinates have magnitude at most `b`.
pub open spec fn in_cube(p: (int, int, int), b: int) -> bool {
    iabs(p.0) <= b && iabs(p.1) <= b && iabs(p.2) <= b
}

/// Exact sum of squared coordinates (in squared grid steps).
pub open spec fn sqsum(p: (int, int, int)) -> int {
    p.0 * p.0 + p.1 * p.1 + p.2 * p.2
}

/// Grid dot product.
pub open spec fn vdot(a: (int, int, int), b: (int, int, int)) -> int {
    fmul(a.0, b.0) + fmul(a.1, b.1) + fmul(a.2, b.2)
}

/// Grid cross product.
pub open spec fn vcross(a: (int, int, int), b: (int, int, int)) -> (int, int, int) {
    (
        fmul(a.1, b.2) - fmul(a.2, b.1),
        fmul(a.2, b.0) - fmul(a.0, b.2),
        fmul(a.0, b.1) - fmul(a.1, b.0),
    )
}

/// The normalized direction of `p`: each coordinate divided by the floor
/// length. Meaningful only for `sqsum(p) > 0`.
pub open spec fn vnorm(p: (int, int, int)) -> (int, int, int) {
    let l = isqrt(sqsum(p));
    (fdiv(p.0, l), fdiv(p.1, l), fdiv(p.2, l))
}

/// A square is non-negative, and bounded coordinates give a bounded square sum.
pub proof fn lemma_sqsum_bounds(p: (int, int, int), b: int)
    requires
        in_cube(p, b),
        0 <= b,
    ensures
        0 <= sqsum(p) <= 3 * b * b,
        0 <= p.0 * p.0 <= sqsum(p),
        0 <= p.1 * p.1 <= sqsum(p),
        0 <= p.2 * p.2 <= sqsum(p),
{
    assert(0 <= p.0 * p.0 <= b * b && 0 <= p.1 * p.1 <= b * b && 0 <= p.2 * p.2 <= b * b
        && p.0 * p.0 + p.1 * p.1 + p.2 * p.2 <= 3 * b * b) by (nonlinear_arith)
        requires
            in_cube(p, b),
            0 <= b,
    ;
}

/// Each coordinate's magnitude is at most the floor length.
pub proof fn lemma_coord_le_isqrt(x: int, q: int, l: int)
    requires
        x * x <= q,
        is_isqrt(q, l),
    ensures
        iabs(x) <= l,
{
    assert(iabs(x) <= l) by (nonlinear_arith)
        requires
            x * x <= q,
            0 <= l,
            q < (l + 1) * (l + 1),
    ;
}

/// Dividing a coordinate no longer than the length by the length gives a
/// coordinate of magnitude at most one unit.
pub proof fn lemma_fdiv_unit(x: int, l: int)
    requires
        0 < l,
        iabs(x) <= l,
    ensures
        -(FIX_ONE as int) <= fdiv(x, l) <= FIX_ONE as int,
{
    let f = FIX_ONE as int;
    assert(x * f <= l * f && -(l * f) <= x * f) by (nonlinear_arith)
        requires
            iabs(x) <= l,
            0 < f,
    ;
    lemma_div_is_ordered(x * f, l * f, l);
    lemma_div_is_ordered(-(l * f), x * f, l);
    vstd::arithmetic::div_mod::lemma_div_multiples_vanish(f, l);
    vstd::arithmetic::div_mod::lemma_div_multiples_vanish(-f, l);
    assert(l * f == f * l && -(l * f) == l * (-f) && l * (-f) == (-f) * l) by (nonlinear_arith);
}

impl Point {
    pub fn new(x: Fix, y: Fix, z: Fix) -> (r: Point)
        ensures
            r@ == (x@, y@, z@),
    {
        Point { x, y, z }
    }

    pub fn zero() -> (r: Point)
        ensures
            r@ == (0int, 0int, 0int),
    {
        Point { x: Fix { bits: 0 }, y: Fix { bits: 0 }, z: Fix { bits: 0 } }
    }

    pub fn add(self, o: Point) -> (r: Point)
        requires
            i64::MIN <= self@.0 + o@.0 <= i64::MAX,
            i64::MIN <= self@.1 + o@.1 <= i64::MAX,
            i64::MIN <= self@.2 + o@.2 <= i64::MAX,
        ensures
            r@ == (self@.0 + o@.0, self@.1 + o@.1, self@.2 + o@.2),
    {
        Point { x: self.x.add(o.x), y: self.y.add(o.y), z: self.z.add(o.z) }
    }

    pub fn sub(self, o: Point) -> (r: Point)
        requires
            i64::MIN <= self@.0 - o@.0 <= i64::MAX,
            i64::MIN <= self@.1 - o@.1 <= i64::MAX,
            i64::MIN <= self@.2 - o@.2 <= i64::MAX,
        ensures
            r@ == (self@.0 - o@.0, self@.1 - o@.1, self@.2 - o@.2),
    {
        Point { x: self.x.sub(o.x), y: self.y.sub(o.y), z: self.z.sub(o.z) }
    }

    /// Add the same scalar to every coordinate.
    pub fn add_scalar(self, v: Fix) -> (r: Point)
        requires
            i64::MIN <= self@.0 + v@ <= i64::MAX,
            i64::MIN <= self@.1 + v@ <= i64::MAX,
            i64::MIN <= self@.2 + v@ <= i64::MAX,
        ensures
            r@ == (self@.0 + v@, self@.1 + v@, self@.2 + v@),
    {
        Point { x: self.x.add(v), y: self.y.add(v), z: self.z.add(v) }
    }

    /// Component-wise product.
    pub fn mul(self, o: Point) -> (r: Point)
        requires
            i64::MIN <= fmul(self@.0, o@.0) <= i64::MAX,
            i64::MIN <= fmul(self@.1, o@.1) <= i64::MAX,
            i64::MIN <= fmul(self@.2, o@.2) <= i64::MAX,
        ensures
            r@ == (fmul(self@.0, o@.0), fmul(self@.1, o@.1), fmul(self@.2, o@.2)),
    {
        Point { x: self.x.mul(o.x), y: self.y.mul(o.y), z: self.z.mul(o.z) }
    }

    /// Scale every coordinate by `v`.
    pub fn mul_scalar(self, v: Fix) -> (r: Point)
        requires
            i64::MIN <= fmul(self@.0, v@) <= i64::MAX,
            i64::MIN <= fmul(self@.1, v@) <= i64::MAX,
            i64::MIN <= fmul(self@.2, v@) <= i64::MAX,
        ensures
            r@ == (fmul(self@.0, v@), fmul(self@.1, v@), fmul(self@.2, v@)),
    {
        Point { x: self.x.mul(v), y: self.y.mul(v), z: self.z.mul(v) }
    }

    /// Component-wise magnitude.
    pub fn abs(self) -> (r: Point)
        requires
            self@.0 != i64::MIN,
            self@.1 != i64::MIN,
            self@.2 != i64::MIN,
        ensures
            r@ == (iabs(self@.0), iabs(self@.1), iabs(self@.2)),
    {
        Point { x: self.x.abs(), y: self.y.abs(), z: self.z.abs() }
    }

    /// Component-wise mathematical modulo: each coordinate lands in `[0, n)`.
    pub fn modulo(self, n: Fix) -> (r: Point)
        requires
            n@ > 0,
        ensures
            r@ == (self@.0 % n@, self@.1 % n@, self@.2 % n@),
            in_cube(r@, n@ - 1),
    {
        Point { x: self.x.modulo(n), y: self.y.modulo(n), z: self.z.modulo(n) }
    }

    pub fn dot(self, o: Point) -> (r: Fix)
        requires
            in_cube(self@, 0x400000000000),
            in_cube(o@, 0x400000000000),
        ensures
            r@ == vdot(self@, o@),
    {
        proof {
            lemma_mul_abs_le(self@.0, o@.0, 0x400000000000, 0x400000000000);
            lemma_mul_abs_le(self@.1, o@.1, 0x400000000000, 0x400000000000);
            lemma_mul_abs_le(self@.2, o@.2, 0x400000000000, 0x400000000000);
            crate::fix::lemma_fmul_abs_le(self@.0, o@.0, 0x1000000000000000000000000);
            crate::fix::lemma_fmul_abs_le(self@.1, o@.1, 0x1000000000000000000000000);
            crate::fix::lemma_fmul_abs_le(self@.2, o@.2, 0x1000000000000000000000000);
        }
        self.x.mul(o.x).add(self.y.mul(o.y)).add(self.z.mul(o.z))
    }

    pub fn cross(self, o: Point) -> (r: Point)
        requires
            in_cube(self@, 0x400000000000),
            in_cube(o@, 0x400000000000),
        ensures
            r@ == vcross(self@, o@),
    {
        proof {
            lemma_mul_abs_le(self@.1, o@.2, 0x400000000000, 0x400000000000);
            lemma_mul_abs_le(self@.2, o@.1, 0x400000000000, 0x400000000000);
            lemma_mul_abs_le(self@.2, o@.0, 0x400000000000, 0x400000000000);
            lemma_mul_abs_le(self@.0, o@.2, 0x400000000000, 0x400000000000);
            lemma_mul_abs_le(self@.0, o@.1, 0x400000000000, 0x400000000000);
            lemma_mul_abs_le(self@.1, o@.0, 0x400000000000, 0x400000000000);
            crate::fix::lemma_fmul_abs_le(self@.1, o@.2, 0x1000000000000000000000000);
            crate::fix::lemma_fmul_abs_le(self@.2, o@.1, 0x1000000000000000000000000);
            crate::fix::lemma_fmul_abs_le(self@.2, o@.0, 0x1000000000000000000000000);
            crate::fix::lemma_fmul_abs_le(self@.0, o@.2, 0x1000000000000000000000000);
            crate::fix::lemma_fmul_abs_le(self@.0, o@.1, 0x1000000000000000000000000);
            crate::fix::lemma_fmul_abs_le(self@.1, o@.0, 0x1000000000000000000000000);
        }
        Point {
            x: self.y.mul(o.z).sub(self.z.mul(o.y)),
            y: self.z.mul(o.x).sub(self.x.mul(o.z)),
            z: self.x.mul(o.y).sub(self.y.mul(o.x)),
        }
    }

    /// Exact sum of squared coordinates, in squared grid steps.
    pub fn sqsum_wide(self) -> (r: u128)
        requires
            in_cube(self@, 0x4000000000000000),
        ensures
            r as int == sqsum(self@),
    {
        proof {
            lemma_sqsum_bounds(self@, 0x4000000000000000);
        }
        let xx: i128 = (self.x.bits as i128) * (self.x.bits as i128);
        let yy: i128 = (self.y.bits as i128) * (self.y.bits as i128);
        let zz: i128 = (self.z.bits as i128) * (self.z.bits as i128);
        (xx as u128) + (yy as u128) + (zz as u128)
    }

    /// Floor of the real Euclidean length.
    pub fn length(self) -> (r: Fix)
        requires
            in_cube(self@, 0x4000000000000000),
        ensures
            r@ == isqrt(sqsum(self@)),
            is_isqrt(sqsum(self@), r@),
            0 <= r@,
    {
        proof {
            lemma_sqsum_bounds(self@, 0x4000000000000000);
        }
        let q: u128 = self.sqsum_wide();
        let r: u64 = isqrt_u128(q);
        proof {
            assert((r as int) * (r as int) <= q as int);
            assert(r < 0x8000000000000000u64) by (nonlinear_arith)
                requires
                    (r as int) * (r as int) <= q as int,
                    (q as int) < 0x40000000000000000000000000000000,
            ;
        }
        Fix { bits: r as i64 }
    }

    /// Distance between two points: the floor length of their difference.
    pub fn distance(self, o: Point) -> (r: Fix)
        requires
            in_cube(self@, 0x2000000000000000),
            in_cube(o@, 0x2000000000000000),
        ensures
            r@ == isqrt(sqsum((o@.0 - self@.0, o@.1 - self@.1, o@.2 - self@.2))),
            0 <= r@,
    {
        let v = o.sub(self);
        v.length()
    }

    /// Direction of `self` as a vector of length (close to) one unit. The
    /// zero vector is the one undefined input.
    pub fn normalize(self) -> (r: Point)
        requires
            in_cube(self@, 0x4000000000000000),
            sqsum(self@) > 0,
        ensures
            r@ == vnorm(self@),
            in_cube(r@, FIX_ONE as int),
    {
        proof {
            lemma_sqsum_bounds(self@, 0x4000000000000000);
        }
        let l = self.length();
        proof {
            assert(l@ > 0) by (nonlinear_arith)
                requires
                    is_isqrt(sqsum(self@), l@),
                    sqsum(self@) > 0,
            ;
            lemma_coord_le_isqrt(self@.0, sqsum(self@), l@);
            lemma_coord_le_isqrt(self@.1, sqsum(self@), l@);
            lemma_coord_le_isqrt(self@.2, sqsum(self@), l@);
            lemma_fdiv_unit(self@.0, l@);
            lemma_fdiv_unit(self@.1, l@);
            lemma_fdiv_unit(self@.2, l@);
        }
        Point { x: self.x.div(l), y: self.y.div(l), z: self.z.div(l) }
    }
}

/// One coordinate of a normalized vector, squared: within the rounding of one
/// floor division of the exact ratio.
proof fn lemma_norm_coord_sq(x: int, l: int)
    requires
        1 <= l,
        iabs(x) <= l,
    ensures
        fdiv(x, l) * fdiv(x, l) * (l * l) <= (FIX_ONE as int) * (FIX_ONE as int) * (x * x) + l * (
        iabs(x) * (2 * FIX_ONE as int)) + l * l,
        fdiv(x, l) * fdiv(x, l) * (l * l) >= (FIX_ONE as int) * (FIX_ONE as int) * (x * x) - l * (
        iabs(x) * (2 * FIX_ONE as int)),
{
    let f = FIX_ONE as int;
    let q = (x * f) / l;
    let r = (x * f) % l;
    vstd::arithmetic::div_mod::lemma_fundamental_div_mod(x * f, l);
    assert(q * q * (l * l) <= f * f * (x * x) + l * (iabs(x) * (2 * f)) + l * l && q * q * (l * l)
        >= f * f * (x * x) - l * (iabs(x) * (2 * f))) by (nonlinear_arith)
        requires
            x * f == l * q + r,
            0 <= r < l,
            1 <= l,
            0 < f,
            iabs(x) <= l,
    ;
}

/// Law: a normalized non-zero vector has unit length within a few grid steps:
/// its squared length is at least `one^2 - 6*one`, and exceeds
/// `one^2 + 6*one + 3` by at most `2*one^2` divided by the vector's own floor
/// length (the tolerance shrinks as the gradient grows).
#[verifier::rlimit(50)]
pub proof fn lemma_vnorm_unit(v: (int, int, int))
    requires
        sqsum(v) > 0,
    ensures
        sqsum(vnorm(v)) >= (FIX_ONE as int) * (FIX_ONE as int) - 6 * (FIX_ONE as int),
        (sqsum(vnorm(v)) - ((FIX_ONE as int) * (FIX_ONE as int) + 6 * (FIX_ONE as int) + 3))
            * isqrt(sqsum(v)) <= 2 * (FIX_ONE as int) * (FIX_ONE as int),
{
    let f = FIX_ONE as int;
    let s = sqsum(v);
    crate::fix::lemma_isqrt_exists(s);
    let l = isqrt(s);
    assert(l >= 1) by (nonlinear_arith)
        requires
            0 <= l,
            s < (l + 1) * (l + 1),
            s > 0,
    ;
    assert(v.0 * v.0 <= s && v.1 * v.1 <= s && v.2 * v.2 <= s) by (nonlinear_arith)
        requires
            s == v.0 * v.0 + v.1 * v.1 + v.2 * v.2,
    ;
    lemma_coord_le_isqrt(v.0, s, l);
    lemma_coord_le_isqrt(v.1, s, l);
    lemma_coord_le_isqrt(v.2, s, l);
    lemma_norm_coord_sq(v.0, l);
    lemma_norm_coord_sq(v.1, l);
    lemma_norm_coord_sq(v.2, l);
    let n = vnorm(v);
    let t = sqsum(n);
    let ll = l * l;
    vstd::arithmetic::mul::lemma_mul_is_distributive_add_other_way(
        ll,
        n.0 * n.0 + n.1 * n.1,
        n.2 * n.2,
    );
    vstd::arithmetic::mul::lemma_mul_is_distributive_add_other_way(ll, n.0 * n.0, n.1 * n.1);
    assert(t * ll == n.0 * n.0 * ll + n.1 * n.1 * ll + n.2 * n.2 * ll);
    assert(l * (iabs(v.0) * (2 * f)) <= 2 * f * ll && l * (iabs(v.1) * (2 * f)) <= 2 * f * ll
        && l * (iabs(v.2) * (2 * f)) <= 2 * f * ll) by (nonlinear_arith)
        requires
            iabs(v.0) <= l,
            iabs(v.1) <= l,
            iabs(v.2) <= l,
            0 <= iabs(v.0),
            0 <= iabs(v.1),
            0 <= iabs(v.2),
            ll == l * l,
            1 <= l,
            0 < f,
    ;
    assert((l + 1) * (l + 1) == ll + 2 * l + 1) by (nonlinear_arith)
        requires
            ll == l * l,
    ;
    assert(t * ll <= f * f * s + 3 * (2 * f * ll) + 3 * ll);
    assert(t * ll >= f * f * s - 3 * (2 * f * ll));
    assert(t * ll <= f * f * ll + f * f * (2 * l) + 3 * (2 * f * ll) + 3 * ll);
    assert(t * ll >= f * f * ll - 3 * (2 * f * ll));
    assert(t >= f * f - 6 * f) by (nonlinear_arith)
        requires
            t * ll >= f * f * ll - 3 * (2 * f * ll),
            ll == l * l,
            1 <= l,
            0 < f,
    ;
    assert((t - (f * f + 6 * f + 3)) * l <= 2 * f * f) by (nonlinear_arith)
        requires
            t * ll <= f * f * ll + f * f * (2 * l) + 3 * (2 * f * ll) + 3 * ll,
            ll == l * l,
            1 <= l,
            0 < f,
    ;
}

} // verus!
