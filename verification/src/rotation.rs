//! Rigid rotation by Euler angles, as a precomputed 3x3 transform.
//!
//! An angle enters the library only through its sine and cosine, given as grid
//! scalars (computing them from a raw angle is the surrounding driver's job).
//! [`Rotation::new`] mirrors the intrinsic Euler composition: the first angle
//! turns about the z axis, the second about the y axis, the third about the x
//! axis.

use vstd::prelude::*;

verus! {

use crate::fix::{Fix, FIX_ONE, fmul, iabs};
use crate::fix::{lemma_mul_abs_le, lemma_fmul_abs_le, lemma_fmul_one};
use crate::point::{Point, in_cube};
use vstd::arithmetic::div_mod::lemma_div_is_ordered;
use vstd::arithmetic::div_mod::lemma_div_multiples_vanish;

/// The sine and cosine of one angle, on the grid.
#[derive(Clone, Copy, Debug, PartialEq, Eq, Structural)]
pub struct SinCos {
    pub s: Fix,
    pub c: Fix,
}

/// A sine/cosine pair is valid when both lie in `[-1, 1]`.
pub open spec fn sincos_wf(sc: SinCos) -> bool {
    iabs(sc.s@) <= FIX_ONE as int && iabs(sc.c@) <= FIX_ONE as int
}

/// The pair of the zero angle.
pub open spec fn sincos_id(sc: SinCos) -> bool {
    sc.s@ == 0 && sc.c@ == FIX_ONE as int
}

/// A quarter turn, in either direction: sine and cosine are exact on the grid.
pub open spec fn sincos_quarter(sc: SinCos) -> bool {
    (sc.s@ == 0 && iabs(sc.c@) == FIX_ONE as int) || (sc.c@ == 0 && iabs(sc.s@) == FIX_ONE
        as int)
}

impl SinCos {
    pub fn new(s: Fix, c: Fix) -> (r: SinCos)
        requires
            iabs(s@) <= FIX_ONE as int,
            iabs(c@) <= FIX_ONE as int,
        ensures
            r.s == s,
            r.c == c,
            sincos_wf(r),
    {
        SinCos { s, c }
    }

    /// The zero angle.
    pub fn identity() -> (r: SinCos)
        ensures
            sincos_id(r),
            sincos_wf(r),
    {
        SinCos { s: Fix { bits: 0 }, c: Fix { bits: FIX_ONE } }
    }
}

/// A 3x3 rotation transform with grid-scalar entries, row by row.
#[derive(Clone, Copy, Debug, PartialEq, Eq, Structural)]
pub struct Rotation {
    pub m00: Fix,
    pub m01: Fix,
    pub m02: Fix,
    pub m10: Fix,
    pub m11: Fix,
    pub m12: Fix,
    pub m20: Fix,
    pub m21: Fix,
    pub m22: Fix,
}

/// Every entry of a well-formed transform has magnitude at most 3 units
/// (entries built from valid sine/cosine pairs stay well below this).
pub open spec fn rot_wf(m: Rotation) -> bool {
    &&& iabs(m.m00@) <= 3 * (FIX_ONE as int)
    &&& iabs(m.m01@) <= 3 * (FIX_ONE as int)
    &&& iabs(m.m02@) <= 3 * (FIX_ONE as int)
    &&& iabs(m.m10@) <= 3 * (FIX_ONE as int)
    &&& iabs(m.m11@) <= 3 * (FIX_ONE as int)
    &&& iabs(m.m12@) <= 3 * (FIX_ONE as int)
    &&& iabs(m.m20@) <= 3 * (FIX_ONE as int)
    &&& iabs(m.m21@) <= 3 * (FIX_ONE as int)
    &&& iabs(m.m22@) <= 3 * (FIX_ONE as int)
}

/// The transform is the intrinsic Euler composition of the three given
/// sine/cosine pairs.
pub open spec fn is_rot_from(m: Rotation, a: SinCos, b: SinCos, g: SinCos) -> bool {
    &&& m.m00@ == fmul(a.c@, b.c@)
    &&& m.m01@ == fmul(fmul(a.c@, b.s@), g.s@) - fmul(a.s@, g.c@)
    &&& m.m02@ == fmul(fmul(a.c@, b.s@), g.c@) + fmul(a.s@, g.s@)
    &&& m.m10@ == fmul(a.s@, b.c@)
    &&& m.m11@ == fmul(fmul(a.s@, b.s@), g.s@) + fmul(a.c@, g.c@)
    &&& m.m12@ == fmul(fmul(a.s@, b.s@), g.c@) - fmul(a.c@, g.s@)
    &&& m.m20@ == -b.s@
    &&& m.m21@ == fmul(b.c@, g.s@)
    &&& m.m22@ == fmul(b.c@, g.c@)
}

/// The identity transform: ones on the diagonal.
pub open spec fn rot_id() -> Rotation {
    Rotation {
        m00: Fix { bits: FIX_ONE },
        m01: Fix { bits: 0 },
        m02: Fix { bits: 0 },
        m10: Fix { bits: 0 },
        m11: Fix { bits: FIX_ONE },
        m12: Fix { bits: 0 },
        m20: Fix { bits: 0 },
        m21: Fix { bits: 0 },
        m22: Fix { bits: FIX_ONE },
    }
}

/// The transform applied to a point, row by row.
pub open spec fn rot_apply(m: Rotation, p: (int, int, int)) -> (int, int, int) {
    (
        fmul(m.m00@, p.0) + fmul(m.m01@, p.1) + fmul(m.m02@, p.2),
        fmul(m.m10@, p.0) + fmul(m.m11@, p.1) + fmul(m.m12@, p.2),
        fmul(m.m20@, p.0) + fmul(m.m21@, p.1) + fmul(m.m22@, p.2),
    )
}

/// A product of a valid sine/cosine-derived factor with a sine or cosine
/// stays within one unit and one rounding step.
fn unit_mul(a: Fix, b: Fix) -> (r: Fix)
    requires
        iabs(a@) <= FIX_ONE as int + 1,
        iabs(b@) <= FIX_ONE as int,
    ensures
        r@ == fmul(a@, b@),
        iabs(r@) <= FIX_ONE as int + 1,
{
    proof {
        let f = FIX_ONE as int;
        lemma_mul_abs_le(a@, b@, f + 1, f);
        lemma_div_is_ordered(a@ * b@, (f + 1) * f, f);
        lemma_div_is_ordered(-((f + 1) * f), a@ * b@, f);
        lemma_div_multiples_vanish(f + 1, f);
        lemma_div_multiples_vanish(-(f + 1), f);
        assert((f + 1) * f == f * (f + 1) && -((f + 1) * f) == f * (-(f + 1)))
            by (nonlinear_arith);
    }
    a.mul(b)
}

impl Rotation {
    /// Build the transform for the Euler angles whose sine/cosine pairs are
    /// `a` (about z), `b` (about y) and `g` (about x).
    pub fn new(a: SinCos, b: SinCos, g: SinCos) -> (r: Rotation)
        requires
            sincos_wf(a),
            sincos_wf(b),
            sincos_wf(g),
        ensures
            is_rot_from(r, a, b, g),
            rot_wf(r),
    {
        let m00 = unit_mul(a.c, b.c);
        let m01 = unit_mul(unit_mul(a.c, b.s), g.s).sub(unit_mul(a.s, g.c));
        let m02 = unit_mul(unit_mul(a.c, b.s), g.c).add(unit_mul(a.s, g.s));
        let m10 = unit_mul(a.s, b.c);
        let m11 = unit_mul(unit_mul(a.s, b.s), g.s).add(unit_mul(a.c, g.c));
        let m12 = unit_mul(unit_mul(a.s, b.s), g.c).sub(unit_mul(a.c, g.s));
        let m20 = b.s.neg();
        let m21 = unit_mul(b.c, g.s);
        let m22 = unit_mul(b.c, g.c);
        Rotation { m00, m01, m02, m10, m11, m12, m20, m21, m22 }
    }

    /// The transform of the zero angles: leaves every point unchanged.
    pub fn identity() -> (r: Rotation)
        ensures
            r == rot_id(),
            rot_wf(r),
            forall|p: (int, int, int)| rot_apply(r, p) == p,
    {
        let one = Fix { bits: FIX_ONE };
        let zero = Fix { bits: 0 };
        let r = Rotation {
            m00: one,
            m01: zero,
            m02: zero,
            m10: zero,
            m11: one,
            m12: zero,
            m20: zero,
            m21: zero,
            m22: one,
        };
        proof {
            assert forall|p: (int, int, int)| rot_apply(r, p) == p by {
                lemma_fmul_one(p.0);
                lemma_fmul_one(p.1);
                lemma_fmul_one(p.2);
            };
        }
        r
    }
}

/// One row entry applied to a coordinate scales its magnitude by at most 3
/// (plus one rounding step).
proof fn lemma_rot_term_bound(m: int, x: int)
    requires
        iabs(m) <= 3 * (FIX_ONE as int),
    ensures
        iabs(fmul(m, x)) <= 3 * iabs(x) + 1,
{
    let f = FIX_ONE as int;
    lemma_mul_abs_le(m, x, 3 * f, iabs(x));
    lemma_fmul_abs_le(m, x, (3 * f) * iabs(x));
    assert((3 * f) * iabs(x) == f * (3 * iabs(x))) by (nonlinear_arith);
    lemma_div_multiples_vanish(3 * iabs(x), f);
}

impl Point {
    /// Apply a rotation transform. Each output coordinate is bounded by three
    /// times the input's coordinate magnitudes, plus rounding.
    pub fn rotate(self, m: &Rotation) -> (r: Point)
        requires
            rot_wf(*m),
            in_cube(self@, 0x100000000000000),
        ensures
            r@ == rot_apply(*m, self@),
            iabs(r@.0) <= 3 * (iabs(self@.0) + iabs(self@.1) + iabs(self@.2)) + 3,
            iabs(r@.1) <= 3 * (iabs(self@.0) + iabs(self@.1) + iabs(self@.2)) + 3,
            iabs(r@.2) <= 3 * (iabs(self@.0) + iabs(self@.1) + iabs(self@.2)) + 3,
    {
        proof {
            lemma_rot_term_bound(m.m00@, self@.0);
            lemma_rot_term_bound(m.m01@, self@.1);
            lemma_rot_term_bound(m.m02@, self@.2);
            lemma_rot_term_bound(m.m10@, self@.0);
            lemma_rot_term_bound(m.m11@, self@.1);
            lemma_rot_term_bound(m.m12@, self@.2);
            lemma_rot_term_bound(m.m20@, self@.0);
            lemma_rot_term_bound(m.m21@, self@.1);
            lemma_rot_term_bound(m.m22@, self@.2);
        }
        Point {
            x: m.m00.mul(self.x).add(m.m01.mul(self.y)).add(m.m02.mul(self.z)),
            y: m.m10.mul(self.x).add(m.m11.mul(self.y)).add(m.m12.mul(self.z)),
            z: m.m20.mul(self.x).add(m.m21.mul(self.y)).add(m.m22.mul(self.z)),
        }
    }
}

/// Law: a quarter turn about the z axis followed by the opposite quarter turn
/// returns every point exactly (the sine and cosine of a quarter turn are
/// exact on the grid, so no rounding occurs).
pub proof fn lemma_round_trip_z(p: (int, int, int), m1: Rotation, m2: Rotation, sc: SinCos, inv: SinCos, i: SinCos, j: SinCos)
    requires
        sincos_quarter(sc),
        inv.s@ == -sc.s@,
        inv.c@ == sc.c@,
        sincos_id(i),
        sincos_id(j),
        is_rot_from(m1, sc, i, j),
        is_rot_from(m2, inv, i, j),
    ensures
        rot_apply(m2, rot_apply(m1, p)) == p,
{
    lemma_fmul_one(sc.s@);
    lemma_fmul_one(sc.c@);
    lemma_fmul_one(-sc.s@);
    lemma_fmul_one(p.0);
    lemma_fmul_one(p.1);
    lemma_fmul_one(p.2);
    lemma_fmul_one(-p.0);
    lemma_fmul_one(-p.1);
    lemma_fmul_one(-p.2);
    lemma_fmul_one(0);
}

/// Law: a quarter turn about the y axis followed by the opposite quarter turn
/// returns every point exactly.
pub proof fn lemma_round_trip_y(p: (int, int, int), m1: Rotation, m2: Rotation, sc: SinCos, inv: SinCos, i: SinCos, j: SinCos)
    requires
        sincos_quarter(sc),
        inv.s@ == -sc.s@,
        inv.c@ == sc.c@,
        sincos_id(i),
        sincos_id(j),
        is_rot_from(m1, i, sc, j),
        is_rot_from(m2, i, inv, j),
    ensures
        rot_apply(m2, rot_apply(m1, p)) == p,
{
    lemma_fmul_one(sc.s@);
    lemma_fmul_one(sc.c@);
    lemma_fmul_one(-sc.s@);
    lemma_fmul_one(p.0);
    lemma_fmul_one(p.1);
    lemma_fmul_one(p.2);
    lemma_fmul_one(-p.0);
    lemma_fmul_one(-p.1);
    lemma_fmul_one(-p.2);
    lemma_fmul_one(0);
}

/// Law: a quarter turn about the x axis followed by the opposite quarter turn
/// returns every point exactly.
pub proof fn lemma_round_trip_x(p: (int, int, int), m1: Rotation, m2: Rotation, sc: SinCos, inv: SinCos, i: SinCos, j: SinCos)
    requires
        sincos_quarter(sc),
        inv.s@ == -sc.s@,
        inv.c@ == sc.c@,
        sincos_id(i),
        sincos_id(j),
        is_rot_from(m1, i, j, sc),
        is_rot_from(m2, i, j, inv),
    ensures
        rot_apply(m2, rot_apply(m1, p)) == p,
{
    lemma_fmul_one(sc.s@);
    lemma_fmul_one(sc.c@);
    lemma_fmul_one(-sc.s@);
    lemma_fmul_one(p.0);
    lemma_fmul_one(p.1);
    lemma_fmul_one(p.2);
    lemma_fmul_one(-p.0);
    lemma_fmul_one(-p.1);
    lemma_fmul_one(-p.2);
    lemma_fmul_one(0);
}

} // verus!
