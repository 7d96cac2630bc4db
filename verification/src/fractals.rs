//! The distance-estimator set: interchangeable fractal variants.
//!
//! Each variant is a pure lower-bound distance estimator together with the
//! camera and tracing constants of its scene. The renderer depends only on the
//! [`Fractal`] interface, never on a concrete variant.

use vstd::prelude::*;

verus! {

use crate::fix::{Fix, FIX_ONE, FIX_HALF, fmul, fdiv, iabs, isqrt, lemma_isqrt_exists};
use crate::fix::{lemma_mul_abs_le, lemma_fmul_abs_le, lemma_fdiv_abs_le};
use crate::point::{Point, in_cube, sqsum, lemma_sqsum_bounds};
use crate::rotation::{Rotation, rot_wf, rot_apply, rot_id};
use vstd::arithmetic::div_mod::lemma_mod_add_multiples_vanish;
use vstd::arithmetic::div_mod::lemma_div_is_ordered_by_denominator;
use vstd::arithmetic::power2::{pow2, lemma_pow2_unfold, lemma_pow2_strictly_increases, lemma2_to64};

/// Coordinate window inside which every estimator is evaluated (16384 units —
/// far beyond any scene's far plane).
pub const WINDOW: i64 = 0x400000000000;

/// Bound on every estimator's magnitude inside the window.
pub const DE_BOUND: i64 = 0x2000000000000000;

/// Bound on camera coordinates (4096 units).
pub const CAM_CAP: i64 = 0x100000000000;

/// Bound on a scene's far plane (4096 units).
pub const MAXD_CAP: i64 = 0x100000000000;

/// The point lies in the evaluation window.
pub open spec fn in_window(p: (int, int, int)) -> bool {
    in_cube(p, WINDOW as int)
}

/// The color scheme applied uniformly to one render pass.
#[derive(Clone, Copy, Debug, PartialEq, Eq, Structural)]
pub enum ColorType {
    /// Gamma-corrected diffuse light replicated across the channels; misses
    /// get a distance-shaded gray background.
    Grayscale,
    /// The hit distance spread over the channels as a 24-bit value; misses get
    /// no background contribution.
    Distance,
    /// The surface normal mapped to the channels, scaled by the light; misses
    /// get a distance-shaded gray background.
    Normal,
}

/// A fractal variant: a pure distance estimator plus its scene constants.
///
/// `estimate_distance` must be a lower bound on the distance to the variant's
/// surface (on the fixed-point grid, square roots round down, so the exact
/// contracts below inherit that property from the real-valued geometry).
pub trait Fractal: Sized {
    /// The variant's construction invariant.
    spec fn wf(&self) -> bool;

    /// The value `estimate_distance` returns, as a function of the point.
    spec fn de_spec(&self, p: (int, int, int)) -> int;

    spec fn cam_pos_spec(&self) -> (int, int, int);

    spec fn cam_dest_spec(&self) -> (int, int, int);

    spec fn min_dist_spec(&self) -> int;

    spec fn max_dist_spec(&self) -> int;

    spec fn max_steps_spec(&self) -> int;

    /// Lower-bound distance from `p` to the variant's surface; negative
    /// inside the surface, and never below minus one unit (a surface's inside
    /// is at most one unit deep in every variant).
    fn estimate_distance(&self, p: Point) -> (d: Fix)
        requires
            self.wf(),
            in_window(p@),
        ensures
            d@ == self.de_spec(p@),
            iabs(d@) <= DE_BOUND as int,
            d@ >= -(FIX_ONE as int),
    ;

    /// Where this variant's scene places the camera.
    fn camera_pos(&self) -> (r: Point)
        requires
            self.wf(),
        ensures
            r@ == self.cam_pos_spec(),
            in_cube(r@, CAM_CAP as int),
    ;

    /// What the camera looks at (the origin unless the variant says
    /// otherwise).
    fn camera_dest(&self) -> (r: Point)
        requires
            self.wf(),
        ensures
            r@ == self.cam_dest_spec(),
            in_cube(r@, CAM_CAP as int),
    ;

    /// Step threshold under which the tracer reports a hit.
    fn min_dist(&self) -> (r: Fix)
        requires
            self.wf(),
        ensures
            r@ == self.min_dist_spec(),
            0 < r@ <= FIX_ONE as int,
    ;

    /// Far plane: accumulated distance beyond which the tracer reports a miss.
    fn max_dist(&self) -> (r: Fix)
        requires
            self.wf(),
        ensures
            r@ == self.max_dist_spec(),
            FIX_ONE as int <= r@ <= MAXD_CAP as int,
    ;

    /// Step budget of the tracer.
    fn max_steps(&self) -> (r: u32)
        requires
            self.wf(),
        ensures
            r as int == self.max_steps_spec(),
            1 <= r <= 4096,
    ;
}

/// Default lattice sphere radius: 0.15, rounded to the grid.
pub const SPHERES_RADIUS_DEFAULT: i64 = 644245094;

/// An infinite lattice of spheres of radius `radius`, centered at the
/// half-integer offsets of each unit cell.
pub struct Spheres {
    pub radius: Fix,
}

/// The lattice estimator: the point folded into the unit cell, recentered on
/// the cell's sphere, its floor length, minus the radius.
pub open spec fn spheres_de(radius: int, p: (int, int, int)) -> int {
    let f = FIX_ONE as int;
    let cx = p.0 % f - FIX_HALF as int;
    let cy = p.1 % f - FIX_HALF as int;
    let cz = p.2 % f - FIX_HALF as int;
    isqrt(sqsum((cx, cy, cz))) - radius
}

impl Spheres {
    pub fn new(radius: Fix) -> (r: Spheres)
        requires
            0 < radius@ <= FIX_ONE as int,
        ensures
            r.radius == radius,
            r.wf(),
    {
        Spheres { radius }
    }
}

impl Default for Spheres {
    /// The lattice with the default radius of 0.15 units.
    fn default() -> (r: Spheres)
        ensures
            r.radius@ == SPHERES_RADIUS_DEFAULT as int,
            r.wf(),
    {
        Spheres { radius: Fix { bits: SPHERES_RADIUS_DEFAULT } }
    }
}

impl Fractal for Spheres {
    open spec fn wf(&self) -> bool {
        0 < self.radius@ <= FIX_ONE as int
    }

    open spec fn de_spec(&self, p: (int, int, int)) -> int {
        spheres_de(self.radius@, p)
    }

    open spec fn cam_pos_spec(&self) -> (int, int, int) {
        (3 * FIX_ONE as int, 4 * FIX_ONE as int, -4 * FIX_ONE as int)
    }

    open spec fn cam_dest_spec(&self) -> (int, int, int) {
        (0, 0, 0)
    }

    open spec fn min_dist_spec(&self) -> int {
        4294967
    }

    open spec fn max_dist_spec(&self) -> int {
        100 * FIX_ONE as int
    }

    open spec fn max_steps_spec(&self) -> int {
        200
    }

    fn estimate_distance(&self, p: Point) -> (d: Fix) {
        let cell = p.modulo(Fix { bits: FIX_ONE });
        let centered = cell.add_scalar(Fix { bits: -FIX_HALF });
        let len = centered.length();
        proof {
            lemma_sqsum_bounds(centered@, FIX_HALF as int);
            assert(len@ * len@ <= 3 * (FIX_HALF as int) * (FIX_HALF as int));
            assert(len@ <= 2 * FIX_ONE as int) by (nonlinear_arith)
                requires
                    0 <= len@,
                    len@ * len@ <= 3 * (FIX_HALF as int) * (FIX_HALF as int),
            ;
        }
        len.sub(self.radius)
    }

    fn camera_pos(&self) -> (r: Point) {
        Point {
            x: Fix { bits: 3 * FIX_ONE },
            y: Fix { bits: 4 * FIX_ONE },
            z: Fix { bits: -4 * FIX_ONE },
        }
    }

    fn camera_dest(&self) -> (r: Point) {
        Point::zero()
    }

    fn min_dist(&self) -> (r: Fix) {
        Fix { bits: 4294967 }
    }

    fn max_dist(&self) -> (r: Fix) {
        Fix { bits: 100 * FIX_ONE }
    }

    fn max_steps(&self) -> (r: u32) {
        200
    }
}

/// Law: the lattice estimator never goes below the negated radius — inside a
/// sphere it is negative, but only within the sphere's own cell.
pub proof fn lemma_spheres_lower_bound(s: Spheres, p: (int, int, int))
    requires
        s.wf(),
    ensures
        s.de_spec(p) >= -s.radius@,
{
    let f = FIX_ONE as int;
    let c = (p.0 % f - FIX_HALF as int, p.1 % f - FIX_HALF as int, p.2 % f - FIX_HALF as int);
    lemma_sqsum_bounds(c, FIX_HALF as int);
    lemma_isqrt_exists(sqsum(c));
}

/// Law: the lattice estimator is periodic with period one unit along each
/// axis.
pub proof fn lemma_spheres_periodic(s: Spheres, p: (int, int, int))
    requires
        s.wf(),
    ensures
        s.de_spec((p.0 + FIX_ONE as int, p.1, p.2)) == s.de_spec(p),
        s.de_spec((p.0, p.1 + FIX_ONE as int, p.2)) == s.de_spec(p),
        s.de_spec((p.0, p.1, p.2 + FIX_ONE as int)) == s.de_spec(p),
{
    let f = FIX_ONE as int;
    lemma_mod_add_multiples_vanish(p.0, f);
    lemma_mod_add_multiples_vanish(p.1, f);
    lemma_mod_add_multiples_vanish(p.2, f);
}

/// Working window of the folding iteration: once a coordinate leaves it, the
/// point has escaped far beyond every scene's far plane and iteration stops
/// (the estimate is then already a far miss).
pub const IFS_ESCAPE: i64 = 0x10000000000000;

/// How a negative coordinate-pair sum is folded back.
#[derive(Clone, Copy, Debug, PartialEq, Eq, Structural)]
pub enum FoldPolicy {
    /// Negate both coordinates, then exchange them.
    InvertSwap,
    /// Take both coordinates' magnitudes in place.
    Absolute,
}

/// The larger of two integers.
pub open spec fn imax(a: int, b: int) -> int {
    if a < b {
        b
    } else {
        a
    }
}

/// The largest coordinate magnitude.
pub open spec fn vrad(p: (int, int, int)) -> int {
    imax(iabs(p.0), imax(iabs(p.1), iabs(p.2)))
}

/// One fold applied to a coordinate pair whose sum is negative: the result
/// pair replaces the inputs in order.
pub open spec fn fold_pair(pol: FoldPolicy, a: int, b: int) -> (int, int) {
    match pol {
        FoldPolicy::InvertSwap => (-b, -a),
        FoldPolicy::Absolute => (iabs(a), iabs(b)),
    }
}

/// The three successive pair folds of one iteration: `(x, y)`, then `(x, z)`,
/// then `(z, y)`, each applied only while the pair's sum is negative.
pub open spec fn fold3(pol: FoldPolicy, v: (int, int, int)) -> (int, int, int) {
    let pxy = if v.0 + v.1 < 0 {
        fold_pair(pol, v.0, v.1)
    } else {
        (v.0, v.1)
    };
    let pxz = if pxy.0 + v.2 < 0 {
        fold_pair(pol, pxy.0, v.2)
    } else {
        (pxy.0, v.2)
    };
    let pzy = if pxy.1 + pxz.1 < 0 {
        fold_pair(pol, pxz.1, pxy.1)
    } else {
        (pxz.1, pxy.1)
    };
    (pxz.0, pzy.1, pzy.0)
}

/// The three pair folds of one iteration, on a point. Folding never grows a
/// coordinate's magnitude.
pub fn fold_point(pol: FoldPolicy, v: Point) -> (r: Point)
    requires
        in_cube(v@, 0x1000000000000000),
    ensures
        r@ == fold3(pol, v@),
        vrad(r@) <= vrad(v@),
{
    let mut x = v.x;
    let mut y = v.y;
    let mut z = v.z;
    if x.bits + y.bits < 0 {
        match pol {
            FoldPolicy::InvertSwap => {
                let t = x;
                x = y.neg();
                y = t.neg();
            },
            FoldPolicy::Absolute => {
                x = x.abs();
                y = y.abs();
            },
        }
    }
    if x.bits + z.bits < 0 {
        match pol {
            FoldPolicy::InvertSwap => {
                let t = x;
                x = z.neg();
                z = t.neg();
            },
            FoldPolicy::Absolute => {
                x = x.abs();
                z = z.abs();
            },
        }
    }
    if y.bits + z.bits < 0 {
        match pol {
            FoldPolicy::InvertSwap => {
                let t = z;
                z = y.neg();
                y = t.neg();
            },
            FoldPolicy::Absolute => {
                z = z.abs();
                y = y.abs();
            },
        }
    }
    Point { x, y, z }
}

/// One iteration of the folded IFS: rotate, fold, rotate again, then scale by
/// 2 and translate by the unit offset.
pub open spec fn ifs_step(r1: Rotation, r2: Rotation, pol: FoldPolicy, z: (int, int, int)) -> (
    int,
    int,
    int,
) {
    let a = rot_apply(r1, z);
    let b = fold3(pol, a);
    let c = rot_apply(r2, b);
    let f = FIX_ONE as int;
    (2 * c.0 - f, 2 * c.1 - f, 2 * c.2 - f)
}

/// The point has left the folding iteration's working window.
pub open spec fn ifs_escaped(z: (int, int, int)) -> bool {
    vrad(z) > IFS_ESCAPE as int
}

/// Iterate [`ifs_step`] until the fuel runs out or the point escapes; returns
/// the final point and the number of iterations performed.
pub open spec fn ifs_run(
    r1: Rotation,
    r2: Rotation,
    pol: FoldPolicy,
    z: (int, int, int),
    fuel: nat,
) -> ((int, int, int), nat)
    decreases fuel,
{
    if fuel == 0 || ifs_escaped(z) {
        (z, 0)
    } else {
        let rec = ifs_run(r1, r2, pol, ifs_step(r1, r2, pol, z), (fuel - 1) as nat);
        (rec.0, (rec.1 + 1) as nat)
    }
}

/// The folded-IFS estimator: the iterated point's floor length, scaled back by
/// the accumulated factor 2^iterations.
pub open spec fn ifs_de(r1: Rotation, r2: Rotation, pol: FoldPolicy, p: (int, int, int)) -> int {
    let r = ifs_run(r1, r2, pol, p, 10);
    isqrt(sqsum(r.0)) / (pow2(r.1) as int)
}

/// Unfolding one iteration of [`ifs_run`].
proof fn lemma_ifs_run_step(r1: Rotation, r2: Rotation, pol: FoldPolicy, z: (int, int, int), fuel: nat)
    requires
        fuel >= 1,
        !ifs_escaped(z),
    ensures
        ifs_run(r1, r2, pol, z, fuel).0 == ifs_run(
            r1,
            r2,
            pol,
            ifs_step(r1, r2, pol, z),
            (fuel - 1) as nat,
        ).0,
        ifs_run(r1, r2, pol, z, fuel).1 == ifs_run(
            r1,
            r2,
            pol,
            ifs_step(r1, r2, pol, z),
            (fuel - 1) as nat,
        ).1 + 1,
{
}

/// One iteration of the folded IFS, on a point inside the working window.
#[verifier::rlimit(100)]
fn ifs_step_exec(r1: &Rotation, r2: &Rotation, pol: FoldPolicy, z: Point) -> (r: Point)
    requires
        rot_wf(*r1),
        rot_wf(*r2),
        vrad(z@) <= IFS_ESCAPE as int,
    ensures
        r@ == ifs_step(*r1, *r2, pol, z@),
        in_cube(r@, 0x2000000000000000),
{
    proof {
        assert(iabs(z@.0) <= IFS_ESCAPE as int && iabs(z@.1) <= IFS_ESCAPE as int && iabs(z@.2)
            <= IFS_ESCAPE as int);
    }
    let a = z.rotate(r1);
    proof {
        assert(in_cube(a@, 0x90000000000003));
        assert(vrad(a@) <= 0x90000000000003);
    }
    let b = fold_point(pol, a);
    proof {
        assert(in_cube(b@, 0x90000000000003));
    }
    let c = b.rotate(r2);
    proof {
        assert(in_cube(c@, 0x51000000000001e));
    }
    c.add(c).add_scalar(Fix { bits: -FIX_ONE })
}

/// The shared iterate-fold-scale skeleton of the folded-IFS estimators; each
/// variant supplies its rotations and its fold policy.
#[verifier::rlimit(50)]
pub fn fold_ifs_distance(r1: &Rotation, r2: &Rotation, pol: FoldPolicy, p: Point) -> (d: Fix)
    requires
        rot_wf(*r1),
        rot_wf(*r2),
        in_window(p@),
    ensures
        d@ == ifs_de(*r1, *r2, pol, p@),
        0 <= d@ <= DE_BOUND as int,
{
    let mut z = p;
    let mut n: u32 = 0;
    let mut pw: u64 = 1;
    proof {
        lemma2_to64();
    }
    while n < 10
        invariant
            n <= 10,
            pw as int == pow2(n as nat),
            1 <= pw <= 1024,
            in_cube(z@, 0x2000000000000000),
            rot_wf(*r1),
            rot_wf(*r2),
            in_window(p@),
            n == 0 ==> z@ == p@,
            n >= 1 ==> pw >= 2,
            ifs_run(*r1, *r2, pol, p@, 10).0 == ifs_run(*r1, *r2, pol, z@, (10 - n) as nat).0,
            ifs_run(*r1, *r2, pol, p@, 10).1 == n + ifs_run(*r1, *r2, pol, z@, (10 - n) as nat).1,
        ensures
            in_cube(z@, 0x2000000000000000),
            ifs_run(*r1, *r2, pol, p@, 10).0 == z@,
            ifs_run(*r1, *r2, pol, p@, 10).1 == n,
            pw as int == pow2(n as nat),
            1 <= n <= 10,
            2 <= pw <= 1024,
        decreases 10 - n,
    {
        if z.x.bits > IFS_ESCAPE || z.x.bits < -IFS_ESCAPE || z.y.bits > IFS_ESCAPE
            || z.y.bits < -IFS_ESCAPE || z.z.bits > IFS_ESCAPE || z.z.bits < -IFS_ESCAPE {
            proof {
                assert(ifs_escaped(z@));
                assert(n >= 1);
            }
            break ;
        }
        let next = ifs_step_exec(r1, r2, pol, z);
        proof {
            assert(!ifs_escaped(z@));
            lemma_ifs_run_step(*r1, *r2, pol, z@, (10 - n) as nat);
            lemma2_to64();
            lemma_pow2_unfold((n + 1) as nat);
            if n + 1 < 10 {
                lemma_pow2_strictly_increases((n + 1) as nat, 10);
            }
        }
        z = next;
        n = n + 1;
        pw = pw * 2;
    }
    let l = z.length();
    proof {
        lemma_sqsum_bounds(z@, 0x2000000000000000);
        assert(l@ < 0x4000000000000000) by (nonlinear_arith)
            requires
                0 <= l@,
                l@ * l@ <= sqsum(z@),
                sqsum(z@) <= 3 * 0x2000000000000000 * 0x2000000000000000,
        ;
        lemma_div_is_ordered_by_denominator(l@, 2, pw as int);
    }
    let q: u64 = (l.bits as u64) / pw;
    Fix { bits: q as i64 }
}

/// A folded-tetrahedron IFS with the invert-and-swap policy and two optional
/// rotations (the identity transform for none).
pub struct Tetrahedron {
    pub rot1: Rotation,
    pub rot2: Rotation,
}

impl Tetrahedron {
    pub fn new(rotate1: Rotation, rotate2: Rotation) -> (r: Tetrahedron)
        requires
            rot_wf(rotate1),
            rot_wf(rotate2),
        ensures
            r.rot1 == rotate1,
            r.rot2 == rotate2,
            r.wf(),
    {
        Tetrahedron { rot1: rotate1, rot2: rotate2 }
    }
}

impl Default for Tetrahedron {
    /// The unrotated tetrahedron.
    fn default() -> (r: Tetrahedron)
        ensures
            r.rot1 == rot_id(),
            r.rot2 == rot_id(),
            r.wf(),
    {
        Tetrahedron { rot1: Rotation::identity(), rot2: Rotation::identity() }
    }
}

impl Fractal for Tetrahedron {
    open spec fn wf(&self) -> bool {
        rot_wf(self.rot1) && rot_wf(self.rot2)
    }

    open spec fn de_spec(&self, p: (int, int, int)) -> int {
        ifs_de(self.rot1, self.rot2, FoldPolicy::InvertSwap, p)
    }

    open spec fn cam_pos_spec(&self) -> (int, int, int) {
        (6871947674, -3435973837, -9019431322)
    }

    open spec fn cam_dest_spec(&self) -> (int, int, int) {
        (0, -644245094, 0)
    }

    open spec fn min_dist_spec(&self) -> int {
        8589935
    }

    open spec fn max_dist_spec(&self) -> int {
        1000 * FIX_ONE as int
    }

    open spec fn max_steps_spec(&self) -> int {
        1000
    }

    fn estimate_distance(&self, p: Point) -> (d: Fix) {
        fold_ifs_distance(&self.rot1, &self.rot2, FoldPolicy::InvertSwap, p)
    }

    fn camera_pos(&self) -> (r: Point) {
        Point {
            x: Fix { bits: 6871947674 },
            y: Fix { bits: -3435973837 },
            z: Fix { bits: -9019431322 },
        }
    }

    fn camera_dest(&self) -> (r: Point) {
        Point { x: Fix { bits: 0 }, y: Fix { bits: -644245094 }, z: Fix { bits: 0 } }
    }

    fn min_dist(&self) -> (r: Fix) {
        Fix { bits: 8589935 }
    }

    fn max_dist(&self) -> (r: Fix) {
        Fix { bits: 1000 * FIX_ONE }
    }

    fn max_steps(&self) -> (r: u32) {
        1000
    }
}

/// A folded-triangle IFS with the in-place absolute-value policy and no
/// rotation.
pub struct TrianglesWithFold {}

impl TrianglesWithFold {
    pub fn new() -> (r: TrianglesWithFold)
        ensures
            r.wf(),
    {
        TrianglesWithFold {  }
    }
}

impl Default for TrianglesWithFold {
    fn default() -> (r: TrianglesWithFold)
        ensures
            r.wf(),
    {
        TrianglesWithFold {  }
    }
}

impl Fractal for TrianglesWithFold {
    open spec fn wf(&self) -> bool {
        true
    }

    open spec fn de_spec(&self, p: (int, int, int)) -> int {
        ifs_de(rot_id(), rot_id(), FoldPolicy::Absolute, p)
    }

    open spec fn cam_pos_spec(&self) -> (int, int, int) {
        (-2 * FIX_ONE as int, -2 * FIX_ONE as int, -5 * FIX_ONE as int)
    }

    open spec fn cam_dest_spec(&self) -> (int, int, int) {
        (0, 0, 0)
    }

    open spec fn min_dist_spec(&self) -> int {
        4294967
    }

    open spec fn max_dist_spec(&self) -> int {
        1000 * FIX_ONE as int
    }

    open spec fn max_steps_spec(&self) -> int {
        200
    }

    fn estimate_distance(&self, p: Point) -> (d: Fix) {
        let id = Rotation::identity();
        fold_ifs_distance(&id, &id, FoldPolicy::Absolute, p)
    }

    fn camera_pos(&self) -> (r: Point) {
        Point {
            x: Fix { bits: -2 * FIX_ONE },
            y: Fix { bits: -2 * FIX_ONE },
            z: Fix { bits: -5 * FIX_ONE },
        }
    }

    fn camera_dest(&self) -> (r: Point) {
        Point::zero()
    }

    fn min_dist(&self) -> (r: Fix) {
        Fix { bits: 4294967 }
    }

    fn max_dist(&self) -> (r: Fix) {
        Fix { bits: 1000 * FIX_ONE }
    }

    fn max_steps(&self) -> (r: u32) {
        200
    }
}

/// The four tetrahedral attractor vertices on the unit cube's diagonals.
pub open spec fn tri_vertices() -> (
    (int, int, int),
    (int, int, int),
    (int, int, int),
    (int, int, int),
) {
    let f = FIX_ONE as int;
    ((f, f, f), (-f, -f, f), (f, -f, -f), (-f, f, -f))
}

/// Squared distance between two points, in squared grid steps.
pub open spec fn sqdist(z: (int, int, int), a: (int, int, int)) -> int {
    sqsum((z.0 - a.0, z.1 - a.1, z.2 - a.2))
}

/// The vertex nearest to `z`: a later vertex replaces the running choice only
/// when strictly closer, mirroring comparison in declaration order.
pub open spec fn tri_nearest(z: (int, int, int)) -> (int, int, int) {
    let v = tri_vertices();
    let c2 = if sqdist(z, v.1) < sqdist(z, v.0) {
        v.1
    } else {
        v.0
    };
    let d2 = if sqdist(z, v.1) < sqdist(z, v.0) {
        sqdist(z, v.1)
    } else {
        sqdist(z, v.0)
    };
    let c3 = if sqdist(z, v.2) < d2 {
        v.2
    } else {
        c2
    };
    let d3 = if sqdist(z, v.2) < d2 {
        sqdist(z, v.2)
    } else {
        d2
    };
    if sqdist(z, v.3) < d3 {
        v.3
    } else {
        c3
    }
}

/// One nearest-vertex iteration: map the point toward its nearest vertex by
/// the fixed scale of 2.
pub open spec fn tri_step(z: (int, int, int)) -> (int, int, int) {
    let c = tri_nearest(z);
    (2 * z.0 - c.0, 2 * z.1 - c.1, 2 * z.2 - c.2)
}

/// The nearest-vertex iteration, `n` times.
pub open spec fn tri_iter(z: (int, int, int), n: nat) -> (int, int, int)
    decreases n,
{
    if n == 0 {
        z
    } else {
        tri_step(tri_iter(z, (n - 1) as nat))
    }
}

/// The nearest-vertex estimator: the iterated point's floor length, scaled
/// back by 2^15.
pub open spec fn tri_de(p: (int, int, int)) -> int {
    isqrt(sqsum(tri_iter(p, 15))) / 32768
}

/// Squared distance between two points, exactly.
fn sqdist_exec(z: Point, a: Point) -> (r: u128)
    requires
        in_cube(z@, 0x2000000000000000),
        in_cube(a@, 0x2000000000000000),
    ensures
        r as int == sqdist(z@, a@),
{
    let v = z.sub(a);
    v.sqsum_wide()
}

/// A nearest-vertex tetrahedral IFS: fixed vertices, scale 2, 15 iterations
/// (distances compare by their squares, which orders them exactly as the real
/// lengths do).
pub struct Triangles {}

impl Triangles {
    pub fn new() -> (r: Triangles)
        ensures
            r.wf(),
    {
        Triangles {  }
    }
}

impl Default for Triangles {
    fn default() -> (r: Triangles)
        ensures
            r.wf(),
    {
        Triangles {  }
    }
}

impl Fractal for Triangles {
    open spec fn wf(&self) -> bool {
        true
    }

    open spec fn de_spec(&self, p: (int, int, int)) -> int {
        tri_de(p)
    }

    open spec fn cam_pos_spec(&self) -> (int, int, int) {
        (-2 * FIX_ONE as int, -2 * FIX_ONE as int, -5 * FIX_ONE as int)
    }

    open spec fn cam_dest_spec(&self) -> (int, int, int) {
        (0, 0, 0)
    }

    open spec fn min_dist_spec(&self) -> int {
        4294967
    }

    open spec fn max_dist_spec(&self) -> int {
        1000 * FIX_ONE as int
    }

    open spec fn max_steps_spec(&self) -> int {
        200
    }

    #[verifier::rlimit(50)]
    fn estimate_distance(&self, p: Point) -> (d: Fix) {
        let v1 = Point {
            x: Fix { bits: FIX_ONE },
            y: Fix { bits: FIX_ONE },
            z: Fix { bits: FIX_ONE },
        };
        let v2 = Point {
            x: Fix { bits: -FIX_ONE },
            y: Fix { bits: -FIX_ONE },
            z: Fix { bits: FIX_ONE },
        };
        let v3 = Point {
            x: Fix { bits: FIX_ONE },
            y: Fix { bits: -FIX_ONE },
            z: Fix { bits: -FIX_ONE },
        };
        let v4 = Point {
            x: Fix { bits: -FIX_ONE },
            y: Fix { bits: FIX_ONE },
            z: Fix { bits: -FIX_ONE },
        };
        let mut z = p;
        let mut n: u32 = 0;
        proof {
            lemma2_to64();
        }
        while n < 15
            invariant
                n <= 15,
                in_window(p@),
                v1@ == tri_vertices().0,
                v2@ == tri_vertices().1,
                v3@ == tri_vertices().2,
                v4@ == tri_vertices().3,
                z@ == tri_iter(p@, n as nat),
                in_cube(z@, pow2(n as nat) * ((WINDOW + FIX_ONE) as int) - FIX_ONE as int),
            decreases 15 - n,
        {
            proof {
                lemma2_to64();
                vstd::arithmetic::power2::lemma_pow2_pos(n as nat);
                if n < 14 {
                    lemma_pow2_strictly_increases(n as nat, 14);
                }
                vstd::arithmetic::mul::lemma_mul_inequality(
                    pow2(n as nat) as int,
                    16384,
                    (WINDOW + FIX_ONE) as int,
                );
                assert(pow2(n as nat) * ((WINDOW + FIX_ONE) as int) <= 16384 * ((WINDOW + FIX_ONE)
                    as int));
                assert(in_cube(z@, 0x2000000000000000));
            }
            let d1 = sqdist_exec(z, v1);
            let d2 = sqdist_exec(z, v2);
            let d3 = sqdist_exec(z, v3);
            let d4 = sqdist_exec(z, v4);
            let mut c = v1;
            let mut best = d1;
            if d2 < best {
                c = v2;
                best = d2;
            }
            if d3 < best {
                c = v3;
                best = d3;
            }
            if d4 < best {
                c = v4;
            }
            proof {
                assert(c@ == tri_nearest(z@));
                lemma_pow2_unfold((n + 1) as nat);
                assert(pow2((n + 1) as nat) * ((WINDOW + FIX_ONE) as int) == 2 * (pow2(n as nat)
                    * ((WINDOW + FIX_ONE) as int))) by (nonlinear_arith)
                    requires
                        pow2((n + 1) as nat) == 2 * pow2(n as nat),
                ;
            }
            z = z.add(z).sub(c);
            n = n + 1;
        }
        proof {
            lemma2_to64();
        }
        let l = z.length();
        proof {
            lemma_sqsum_bounds(z@, 0x4000000000000000);
            assert(l@ < 0x8000000000000000) by (nonlinear_arith)
                requires
                    0 <= l@,
                    l@ * l@ <= sqsum(z@),
                    sqsum(z@) <= 3 * 0x4000000000000000 * 0x4000000000000000,
            ;
        }
        let q: u64 = (l.bits as u64) / 32768;
        Fix { bits: q as i64 }
    }

    fn camera_pos(&self) -> (r: Point) {
        Point {
            x: Fix { bits: -2 * FIX_ONE },
            y: Fix { bits: -2 * FIX_ONE },
            z: Fix { bits: -5 * FIX_ONE },
        }
    }

    fn camera_dest(&self) -> (r: Point) {
        Point::zero()
    }

    fn min_dist(&self) -> (r: Fix) {
        Fix { bits: 4294967 }
    }

    fn max_dist(&self) -> (r: Fix) {
        Fix { bits: 1000 * FIX_ONE }
    }

    fn max_steps(&self) -> (r: u32) {
        200
    }
}

/// Squared-length bailout of the cube iteration: 100000 square units on the
/// grid (in squared grid steps).
pub const CUBE_BAILOUT_SQ: u128 = 1844674407370955161600000;

/// A folded-cube (Menger-style) IFS: component magnitudes sorted descending, a
/// box fold of the z coordinate, anisotropic scale-and-translate, with a
/// squared-length bailout. The translate constants are fixed at construction.
pub struct Cube {
    pub rot1: Rotation,
    pub rot2: Rotation,
    pub c: Point,
    pub scale: Fix,
    pub fold_w: Fix,
    pub tx: Fix,
    pub ty: Fix,
}

/// One cube iteration: rotate, take magnitudes, sort them descending by three
/// conditional swaps, fold z around the box half-width, rotate again, then
/// scale anisotropically.
pub open spec fn cube_step(q: Cube, z: (int, int, int)) -> (int, int, int) {
    let a = rot_apply(q.rot1, z);
    let b = (iabs(a.0), iabs(a.1), iabs(a.2));
    let b1 = if b.0 - b.1 < 0 {
        (b.1, b.0, b.2)
    } else {
        b
    };
    let b2 = if b1.0 - b1.2 < 0 {
        (b1.2, b1.1, b1.0)
    } else {
        b1
    };
    let b3 = if b2.1 - b2.2 < 0 {
        (b2.0, b2.2, b2.1)
    } else {
        b2
    };
    let zz = -iabs(b3.2 - q.fold_w@) + q.fold_w@;
    let c2 = rot_apply(q.rot2, (b3.0, b3.1, zz));
    (fmul(q.scale@, c2.0) - q.tx@, fmul(q.scale@, c2.1) - q.ty@, fmul(q.scale@, c2.2))
}

/// Iterate [`cube_step`] until the fuel runs out or the squared length
/// reaches the bailout; returns the final point and the iteration count.
pub open spec fn cube_run(q: Cube, z: (int, int, int), fuel: nat) -> ((int, int, int), nat)
    decreases fuel,
{
    if fuel == 0 || sqsum(z) >= CUBE_BAILOUT_SQ as int {
        (z, 0)
    } else {
        let rec = cube_run(q, cube_step(q, z), (fuel - 1) as nat);
        (rec.0, (rec.1 + 1) as nat)
    }
}

/// The scale factor accumulated over `k` iterations, on the grid.
pub open spec fn cube_pow(s: int, k: nat) -> int
    decreases k,
{
    if k == 0 {
        FIX_ONE as int
    } else {
        fmul(cube_pow(s, (k - 1) as nat), s)
    }
}

/// Powers of eight on the grid: the worst-case growth of [`cube_pow`].
pub open spec fn pow8f(n: nat) -> int
    decreases n,
{
    if n == 0 {
        FIX_ONE as int
    } else {
        8 * pow8f((n - 1) as nat)
    }
}

proof fn lemma_pow8f_pos(n: nat)
    ensures
        pow8f(n) >= FIX_ONE as int,
    decreases n,
{
    if n > 0 {
        lemma_pow8f_pos((n - 1) as nat);
    }
}

proof fn lemma_pow8f_mono(n: nat, m: nat)
    requires
        n <= m,
    ensures
        pow8f(n) <= pow8f(m),
    decreases m,
{
    if n < m {
        lemma_pow8f_mono(n, (m - 1) as nat);
        lemma_pow8f_pos((m - 1) as nat);
    }
}

/// The cube estimator: the iterated point's floor length, divided by the
/// accumulated scale factor.
pub open spec fn cube_de(q: Cube, p: (int, int, int)) -> int {
    let r = cube_run(q, p, 10);
    fdiv(isqrt(sqsum(r.0)), cube_pow(q.scale@, r.1))
}

/// Unfolding one iteration of [`cube_run`].
proof fn lemma_cube_run_step(q: Cube, z: (int, int, int), fuel: nat)
    requires
        fuel >= 1,
        sqsum(z) < CUBE_BAILOUT_SQ as int,
    ensures
        cube_run(q, z, fuel).0 == cube_run(q, cube_step(q, z), (fuel - 1) as nat).0,
        cube_run(q, z, fuel).1 == cube_run(q, cube_step(q, z), (fuel - 1) as nat).1 + 1,
{
}

/// A scale factor between one and eight units grows a non-negative value by a
/// factor between one and eight.
proof fn lemma_fmul_scale_growth(a: int, s: int)
    requires
        0 <= a,
        FIX_ONE as int <= s <= 8 * FIX_ONE as int,
    ensures
        a <= fmul(a, s) <= 8 * a,
{
    let f = FIX_ONE as int;
    assert(a * f <= a * s <= a * (8 * f) && a * (8 * f) == f * (8 * a) && a * f == f * a)
        by (nonlinear_arith)
        requires
            0 <= a,
            f <= s <= 8 * f,
    ;
    vstd::arithmetic::div_mod::lemma_div_is_ordered(a * f, a * s, f);
    vstd::arithmetic::div_mod::lemma_div_is_ordered(a * s, a * (8 * f), f);
    vstd::arithmetic::div_mod::lemma_div_multiples_vanish(a, f);
    vstd::arithmetic::div_mod::lemma_div_multiples_vanish(8 * a, f);
}

/// One cube iteration, on a point below the bailout.
#[verifier::rlimit(100)]
fn cube_step_exec(q: &Cube, z: Point) -> (r: Point)
    requires
        q.wf(),
        in_cube(z@, 0x20000000000),
    ensures
        r@ == cube_step(*q, z@),
        in_cube(r@, 0x40000000000000),
{
    let a = z.rotate(&q.rot1);
    proof {
        assert(in_cube(a@, 0x200000000000));
    }
    let b = a.abs();
    let mut bx = b.x;
    let mut by = b.y;
    let mut bz = b.z;
    if bx.bits < by.bits {
        let t = bx;
        bx = by;
        by = t;
    }
    if bx.bits < bz.bits {
        let t = bx;
        bx = bz;
        bz = t;
    }
    if by.bits < bz.bits {
        let t = bz;
        bz = by;
        by = t;
    }
    let zz = bz.sub(q.fold_w).abs().neg().add(q.fold_w);
    let folded = Point { x: bx, y: by, z: zz };
    proof {
        assert(in_cube(folded@, 0x400000000000));
    }
    let c2 = folded.rotate(&q.rot2);
    proof {
        assert(in_cube(c2@, 0x2400000000003));
        lemma_mul_abs_le(q.scale@, c2@.0, 0x800000000, 0x2400000000003);
        lemma_mul_abs_le(q.scale@, c2@.1, 0x800000000, 0x2400000000003);
        lemma_mul_abs_le(q.scale@, c2@.2, 0x800000000, 0x2400000000003);
        lemma_fmul_abs_le(q.scale@, c2@.0, 0x800000000int * 0x2400000000003);
        lemma_fmul_abs_le(q.scale@, c2@.1, 0x800000000int * 0x2400000000003);
        lemma_fmul_abs_le(q.scale@, c2@.2, 0x800000000int * 0x2400000000003);
    }
    Point {
        x: q.scale.mul(c2.x).sub(q.tx),
        y: q.scale.mul(c2.y).sub(q.ty),
        z: q.scale.mul(c2.z),
    }
}

impl Cube {
    /// Build a cube variant: the box half-width and the two translate
    /// constants are derived from `c` and `scale` once, here.
    pub fn new(rotate1: Rotation, rotate2: Rotation, c: Point, scale: Fix) -> (r: Cube)
        requires
            rot_wf(rotate1),
            rot_wf(rotate2),
            in_cube(c@, 8 * FIX_ONE as int),
            FIX_ONE as int <= scale@ <= 8 * FIX_ONE as int,
        ensures
            r.rot1 == rotate1,
            r.rot2 == rotate2,
            r.c == c,
            r.scale == scale,
            r.wf(),
    {
        let sm1 = scale.sub(Fix { bits: FIX_ONE });
        proof {
            lemma_mul_abs_le(FIX_HALF as int, c@.2, FIX_HALF as int, 8 * FIX_ONE as int);
            lemma_fmul_abs_le(
                FIX_HALF as int,
                c@.2,
                (FIX_HALF as int) * (8 * FIX_ONE as int),
            );
        }
        let hw = Fix { bits: FIX_HALF }.mul(c.z);
        proof {
            lemma_mul_abs_le(hw@, sm1@, 4 * FIX_ONE as int + 1, 7 * FIX_ONE as int);
            lemma_fmul_abs_le(hw@, sm1@, (4 * FIX_ONE as int + 1) * (7 * FIX_ONE
                as int));
        }
        let hw2 = hw.mul(sm1);
        proof {
            lemma_fdiv_abs_le(hw2@, scale@);
        }
        let fold_w = hw2.div(scale);
        proof {
            lemma_mul_abs_le(c@.0, sm1@, 8 * FIX_ONE as int, 7 * FIX_ONE as int);
            lemma_mul_abs_le(c@.1, sm1@, 8 * FIX_ONE as int, 7 * FIX_ONE as int);
            lemma_fmul_abs_le(c@.0, sm1@, (8 * FIX_ONE as int) * (7 * FIX_ONE as int));
            lemma_fmul_abs_le(c@.1, sm1@, (8 * FIX_ONE as int) * (7 * FIX_ONE as int));
        }
        let tx = c.x.mul(sm1);
        let ty = c.y.mul(sm1);
        Cube { rot1: rotate1, rot2: rotate2, c, scale, fold_w, tx, ty }
    }
}

impl Default for Cube {
    /// The unrotated cube with unit shape constants and scale 3.
    fn default() -> (r: Cube)
        ensures
            r.wf(),
            r.c@ == (FIX_ONE as int, FIX_ONE as int, FIX_ONE as int),
            r.scale@ == 3 * FIX_ONE as int,
    {
        let one = Point { x: Fix { bits: FIX_ONE }, y: Fix { bits: FIX_ONE }, z: Fix { bits: FIX_ONE } };
        Cube::new(Rotation::identity(), Rotation::identity(), one, Fix { bits: 3 * FIX_ONE })
    }
}

impl Fractal for Cube {
    open spec fn wf(&self) -> bool {
        &&& rot_wf(self.rot1)
        &&& rot_wf(self.rot2)
        &&& in_cube(self.c@, 8 * FIX_ONE as int)
        &&& FIX_ONE as int <= self.scale@ <= 8 * FIX_ONE as int
        &&& self.fold_w@ == fdiv(
            fmul(fmul(FIX_HALF as int, self.c@.2), self.scale@ - FIX_ONE as int),
            self.scale@,
        )
        &&& self.tx@ == fmul(self.c@.0, self.scale@ - FIX_ONE as int)
        &&& self.ty@ == fmul(self.c@.1, self.scale@ - FIX_ONE as int)
        &&& iabs(self.fold_w@) <= 64 * FIX_ONE as int
        &&& iabs(self.tx@) <= 64 * FIX_ONE as int
        &&& iabs(self.ty@) <= 64 * FIX_ONE as int
    }

    open spec fn de_spec(&self, p: (int, int, int)) -> int {
        cube_de(*self, p)
    }

    open spec fn cam_pos_spec(&self) -> (int, int, int) {
        (-7730941133, -7730941133, -11596411699)
    }

    open spec fn cam_dest_spec(&self) -> (int, int, int) {
        (0, 1288490189, 0)
    }

    open spec fn min_dist_spec(&self) -> int {
        4294967
    }

    open spec fn max_dist_spec(&self) -> int {
        1000 * FIX_ONE as int
    }

    open spec fn max_steps_spec(&self) -> int {
        1000
    }

    #[verifier::rlimit(50)]
    fn estimate_distance(&self, p: Point) -> (d: Fix) {
        let mut z = p;
        let mut sq: u128 = z.sqsum_wide();
        let mut n: u32 = 0;
        let mut pw = Fix { bits: FIX_ONE };
        while n < 10
            invariant
                n <= 10,
                self.wf(),
                in_window(p@),
                sq as int == sqsum(z@),
                in_cube(z@, 0x40000000000000),
                pw@ == cube_pow(self.scale@, n as nat),
                FIX_ONE as int <= pw@ <= pow8f(n as nat),
                cube_run(*self, p@, 10).0 == cube_run(*self, z@, (10 - n) as nat).0,
                cube_run(*self, p@, 10).1 == n + cube_run(*self, z@, (10 - n) as nat).1,
            ensures
                sq as int == sqsum(z@),
                in_cube(z@, 0x40000000000000),
                pw@ == cube_pow(self.scale@, n as nat),
                FIX_ONE as int <= pw@,
                cube_run(*self, p@, 10).0 == z@,
                cube_run(*self, p@, 10).1 == n,
            decreases 10 - n,
        {
            if sq >= CUBE_BAILOUT_SQ {
                break ;
            }
            proof {
                lemma_sqsum_bounds(z@, 0x40000000000000);
                assert(iabs(z@.0) <= 0x20000000000 && iabs(z@.1) <= 0x20000000000 && iabs(z@.2)
                    <= 0x20000000000) by (nonlinear_arith)
                    requires
                        z@.0 * z@.0 <= sqsum(z@),
                        z@.1 * z@.1 <= sqsum(z@),
                        z@.2 * z@.2 <= sqsum(z@),
                        sqsum(z@) < CUBE_BAILOUT_SQ as int,
                ;
                lemma_cube_run_step(*self, z@, (10 - n) as nat);
                lemma_fmul_scale_growth(pw@, self.scale@);
                lemma_pow8f_mono((n + 1) as nat, 10);
                reveal_with_fuel(pow8f, 11);
                assert(pow8f(10) == 0x4000000000000000);
            }
            let next = cube_step_exec(self, z);
            let npw = pw.mul(self.scale);
            z = next;
            sq = z.sqsum_wide();
            n = n + 1;
            pw = npw;
        }
        let l = z.length();
        proof {
            lemma_sqsum_bounds(z@, 0x40000000000000);
            assert(l@ < 0x100000000000000) by (nonlinear_arith)
                requires
                    0 <= l@,
                    l@ * l@ <= sqsum(z@),
                    sqsum(z@) <= 3 * 0x40000000000000 * 0x40000000000000,
            ;
            lemma_fdiv_abs_le(l@, pw@);
        }
        l.div(pw)
    }

    fn camera_pos(&self) -> (r: Point) {
        Point {
            x: Fix { bits: -7730941133 },
            y: Fix { bits: -7730941133 },
            z: Fix { bits: -11596411699 },
        }
    }

    fn camera_dest(&self) -> (r: Point) {
        Point { x: Fix { bits: 0 }, y: Fix { bits: 1288490189 }, z: Fix { bits: 0 } }
    }

    fn min_dist(&self) -> (r: Fix) {
        Fix { bits: 4294967 }
    }

    fn max_dist(&self) -> (r: Fix) {
        Fix { bits: 1000 * FIX_ONE }
    }

    fn max_steps(&self) -> (r: u32) {
        1000
    }
}

/// Law: the folded-IFS estimator is non-negative everywhere.
pub proof fn lemma_ifs_de_nonneg(r1: Rotation, r2: Rotation, pol: FoldPolicy, p: (int, int, int))
    ensures
        ifs_de(r1, r2, pol, p) >= 0,
{
    let r = ifs_run(r1, r2, pol, p, 10);
    lemma_sqsum_nonneg(r.0);
    lemma_isqrt_exists(sqsum(r.0));
    vstd::arithmetic::power2::lemma_pow2_pos(r.1);
    vstd::arithmetic::div_mod::lemma_div_pos_is_pos(isqrt(sqsum(r.0)), pow2(r.1) as int);
}

/// Law: the nearest-vertex estimator is non-negative everywhere.
pub proof fn lemma_tri_de_nonneg(p: (int, int, int))
    ensures
        tri_de(p) >= 0,
{
    let z = tri_iter(p, 15);
    lemma_sqsum_nonneg(z);
    lemma_isqrt_exists(sqsum(z));
    vstd::arithmetic::div_mod::lemma_div_pos_is_pos(isqrt(sqsum(z)), 32768);
}

/// Law: the cube estimator is non-negative for every well-formed variant.
pub proof fn lemma_cube_de_nonneg(q: Cube, p: (int, int, int))
    requires
        q.wf(),
    ensures
        cube_de(q, p) >= 0,
{
    let r = cube_run(q, p, 10);
    lemma_sqsum_nonneg(r.0);
    lemma_isqrt_exists(sqsum(r.0));
    lemma_cube_pow_pos(q.scale@, r.1);
    vstd::arithmetic::mul::lemma_mul_nonnegative(isqrt(sqsum(r.0)), FIX_ONE as int);
    vstd::arithmetic::div_mod::lemma_div_pos_is_pos(
        isqrt(sqsum(r.0)) * FIX_ONE,
        cube_pow(q.scale@, r.1),
    );
}

/// The accumulated scale factor stays at least one unit.
proof fn lemma_cube_pow_pos(s: int, k: nat)
    requires
        FIX_ONE as int <= s <= 8 * FIX_ONE as int,
    ensures
        cube_pow(s, k) >= FIX_ONE as int,
    decreases k,
{
    if k > 0 {
        lemma_cube_pow_pos(s, (k - 1) as nat);
        lemma_fmul_scale_growth(cube_pow(s, (k - 1) as nat), s);
    }
}

/// A sum of squares is non-negative.
proof fn lemma_sqsum_nonneg(p: (int, int, int))
    ensures
        sqsum(p) >= 0,
{
    assert(p.0 * p.0 >= 0 && p.1 * p.1 >= 0 && p.2 * p.2 >= 0) by (nonlinear_arith);
}

} // verus!
