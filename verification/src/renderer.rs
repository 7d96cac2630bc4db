//! The sphere tracer and the camera.
//!
//! Both depend only on the [`Fractal`] interface. The tracer accumulates the
//! estimator's returned value as its step size, so it never steps farther than
//! the estimator allows.

use vstd::prelude::*;

verus! {

use crate::fix::{Fix, FIX_ONE, FIX_HALF, fmul, fdiv};
use crate::fix::{lemma_fmul_range, lemma_fdiv_abs_le};
use crate::point::{Point, in_cube, sqsum, vnorm, vcross};
use crate::fractals::{Fractal, ColorType, DE_BOUND, CAM_CAP, MAXD_CAP};
use crate::shading::{Rgb8, color_spec, get_color, background_spec};

/// The camera-ray direction for a screen coordinate `uv`: an orthonormal-ish
/// basis from the world up direction and the look direction, then the
/// normalized sum `right * uv.x + up * uv.y + forward * zoom`. A camera whose
/// look direction is degenerate (zero, or parallel to world up) is an
/// unsupported configuration: the nearest defined direction is returned
/// instead of propagating an undefined normalization.
pub open spec fn camera_dir(uv: (int, int), pos: (int, int, int), dest: (int, int, int), zoom: int) -> (
    int,
    int,
    int,
) {
    let fv = (dest.0 - pos.0, dest.1 - pos.1, dest.2 - pos.2);
    if sqsum(fv) == 0 {
        (0, 0, FIX_ONE as int)
    } else {
        let fw = vnorm(fv);
        let r0 = vcross((0, FIX_ONE as int, 0), fw);
        if sqsum(r0) == 0 {
            fw
        } else {
            let rw = vnorm(r0);
            let u = vcross(fw, rw);
            let c = (pos.0 + fmul(fw.0, zoom), pos.1 + fmul(fw.1, zoom), pos.2 + fmul(fw.2, zoom));
            let i = (
                c.0 + fmul(rw.0, uv.0) + fmul(u.0, uv.1),
                c.1 + fmul(rw.1, uv.0) + fmul(u.1, uv.1),
                c.2 + fmul(rw.2, uv.0) + fmul(u.2, uv.1),
            );
            let d = (i.0 - pos.0, i.1 - pos.1, i.2 - pos.2);
            if sqsum(d) == 0 {
                (0, 0, FIX_ONE as int)
            } else {
                vnorm(d)
            }
        }
    }
}

/// Build the camera ray direction for screen coordinate `uv` (carried in the
/// x and y coordinates of a point), camera position `p`, look-at `l` and zoom.
#[verifier::rlimit(50)]
pub fn get_camera_ray_dir(uv: Point, p: Point, l: Point, zoom: Fix) -> (r: Point)
    requires
        in_cube(uv@, 0x4000000000000),
        in_cube(p@, CAM_CAP as int),
        in_cube(l@, CAM_CAP as int),
        0 < zoom@ <= 8 * FIX_ONE as int,
    ensures
        r@ == camera_dir((uv@.0, uv@.1), p@, l@, zoom@),
        in_cube(r@, FIX_ONE as int),
{
    let fv = l.sub(p);
    let fsq = fv.sqsum_wide();
    if fsq == 0 {
        return Point { x: Fix { bits: 0 }, y: Fix { bits: 0 }, z: Fix { bits: FIX_ONE } };
    }
    let fw = fv.normalize();
    let up = Point { x: Fix { bits: 0 }, y: Fix { bits: FIX_ONE }, z: Fix { bits: 0 } };
    let r0 = up.cross(fw);
    let rsq = r0.sqsum_wide();
    if rsq == 0 {
        return fw;
    }
    let rw = r0.normalize();
    proof {
        assert(in_cube(r0@, (FIX_ONE + 1) as int)) by {
            lemma_fmul_range(0, fw@.0, 0, FIX_ONE as int);
            lemma_fmul_range(0, fw@.1, 0, FIX_ONE as int);
            lemma_fmul_range(0, fw@.2, 0, FIX_ONE as int);
            lemma_fmul_range(FIX_ONE as int, fw@.0, FIX_ONE as int, FIX_ONE as int);
            lemma_fmul_range(FIX_ONE as int, fw@.2, FIX_ONE as int, FIX_ONE as int);
        };
    }
    let u = fw.cross(rw);
    proof {
        lemma_fmul_range(fw@.1, rw@.2, FIX_ONE as int, FIX_ONE as int);
        lemma_fmul_range(fw@.2, rw@.1, FIX_ONE as int, FIX_ONE as int);
        lemma_fmul_range(fw@.2, rw@.0, FIX_ONE as int, FIX_ONE as int);
        lemma_fmul_range(fw@.0, rw@.2, FIX_ONE as int, FIX_ONE as int);
        lemma_fmul_range(fw@.0, rw@.1, FIX_ONE as int, FIX_ONE as int);
        lemma_fmul_range(fw@.1, rw@.0, FIX_ONE as int, FIX_ONE as int);
        lemma_fmul_range(fw@.0, zoom@, FIX_ONE as int, 8 * FIX_ONE as int);
        lemma_fmul_range(fw@.1, zoom@, FIX_ONE as int, 8 * FIX_ONE as int);
        lemma_fmul_range(fw@.2, zoom@, FIX_ONE as int, 8 * FIX_ONE as int);
        lemma_fmul_range(rw@.0, uv@.0, FIX_ONE as int, 0x4000000000000);
        lemma_fmul_range(rw@.1, uv@.0, FIX_ONE as int, 0x4000000000000);
        lemma_fmul_range(rw@.2, uv@.0, FIX_ONE as int, 0x4000000000000);
        lemma_fmul_range(u@.0, uv@.1, (2 * FIX_ONE + 2) as int, 0x4000000000000);
        lemma_fmul_range(u@.1, uv@.1, (2 * FIX_ONE + 2) as int, 0x4000000000000);
        lemma_fmul_range(u@.2, uv@.1, (2 * FIX_ONE + 2) as int, 0x4000000000000);
    }
    let c = p.add(fw.mul_scalar(zoom));
    let i = c.add(rw.mul_scalar(uv.x)).add(u.mul_scalar(uv.y));
    let d = i.sub(p);
    let dsq = d.sqsum_wide();
    if dsq == 0 {
        return Point { x: Fix { bits: 0 }, y: Fix { bits: 0 }, z: Fix { bits: FIX_ONE } };
    }
    d.normalize()
}

/// The sphere-tracing recursion: from accumulated distance `t`, evaluate the
/// estimator at `ro + rd * t`, add the returned value to `t`, and stop on a
/// step below the hit threshold, on `t` beyond the far plane, or when the
/// fuel (the step budget) runs out.
pub open spec fn trace<F: Fractal>(f: F, ro: (int, int, int), rd: (int, int, int), t: int, fuel: nat) -> int
    decreases fuel,
{
    if fuel == 0 {
        t
    } else {
        let p = (ro.0 + fmul(rd.0, t), ro.1 + fmul(rd.1, t), ro.2 + fmul(rd.2, t));
        let res = f.de_spec(p);
        let t2 = t + res;
        if res < f.min_dist_spec() || t2 > f.max_dist_spec() {
            t2
        } else {
            trace(f, ro, rd, t2, (fuel - 1) as nat)
        }
    }
}

/// Law: the tracer's accumulated distance never decreases across steps when
/// the estimator is non-negative everywhere (it terminates in any case: each
/// step consumes one unit of the step budget).
pub proof fn lemma_trace_monotone<F: Fractal>(
    f: F,
    ro: (int, int, int),
    rd: (int, int, int),
    t: int,
    fuel: nat,
)
    requires
        forall|p: (int, int, int)| f.de_spec(p) >= 0,
    ensures
        trace(f, ro, rd, t, fuel) >= t,
    decreases fuel,
{
    if fuel > 0 {
        let p = (ro.0 + fmul(rd.0, t), ro.1 + fmul(rd.1, t), ro.2 + fmul(rd.2, t));
        assert(f.de_spec(p) >= 0);
        let t2 = t + f.de_spec(p);
        if !(f.de_spec(p) < f.min_dist_spec() || t2 > f.max_dist_spec()) {
            lemma_trace_monotone(f, ro, rd, t2, (fuel - 1) as nat);
        }
    }
}

/// March a ray from `ro` along the normalized direction `rd` against the
/// variant's estimator; returns the accumulated distance (beyond the far
/// plane on a miss).
#[verifier::rlimit(50)]
pub fn cast_ray<F: Fractal>(f: &F, ro: Point, rd: Point) -> (t: Fix)
    requires
        f.wf(),
        in_cube(ro@, CAM_CAP as int),
        in_cube(rd@, FIX_ONE as int),
    ensures
        t@ == trace(*f, ro@, rd@, 0, f.max_steps_spec() as nat),
        -(FIX_ONE as int) <= t@ <= MAXD_CAP as int + DE_BOUND as int,
{
    let min_d = f.min_dist();
    let max_d = f.max_dist();
    let steps = f.max_steps();
    let mut t = Fix { bits: 0 };
    let mut i: u32 = 0;
    while i < steps
        invariant_except_break
            0 <= t@ <= max_d@,
            trace(*f, ro@, rd@, 0, f.max_steps_spec() as nat) == trace(
                *f,
                ro@,
                rd@,
                t@,
                (steps - i) as nat,
            ),
        invariant
            i <= steps,
            f.wf(),
            in_cube(ro@, CAM_CAP as int),
            in_cube(rd@, FIX_ONE as int),
            min_d@ == f.min_dist_spec(),
            max_d@ == f.max_dist_spec(),
            steps as int == f.max_steps_spec(),
            FIX_ONE as int <= max_d@ <= MAXD_CAP as int,
            0 < min_d@,
        ensures
            t@ == trace(*f, ro@, rd@, 0, f.max_steps_spec() as nat),
            -(FIX_ONE as int) <= t@ <= MAXD_CAP as int + DE_BOUND as int,
        decreases steps - i,
    {
        proof {
            lemma_fmul_range(rd@.0, t@, FIX_ONE as int, MAXD_CAP as int);
            lemma_fmul_range(rd@.1, t@, FIX_ONE as int, MAXD_CAP as int);
            lemma_fmul_range(rd@.2, t@, FIX_ONE as int, MAXD_CAP as int);
        }
        let p = ro.add(rd.mul_scalar(t));
        let res = f.estimate_distance(p);
        let t2 = t.add(res);
        t = t2;
        if res.bits < min_d.bits || t.bits > max_d.bits {
            break ;
        }
        i = i + 1;
    }
    t
}

/// One pixel's color: map the pixel to a screen coordinate, build the camera
/// ray, march it, and on a hit shade the surface point; on a miss use the
/// mode's background (the distance mode has none and colors the traced
/// endpoint instead).
pub open spec fn render_spec<F: Fractal>(
    f: F,
    p: (int, int, int),
    dim: (int, int, int),
    mode: ColorType,
) -> (int, int, int) {
    let uvx = fdiv(p.0 - fmul(FIX_HALF as int, dim.0), dim.1);
    let uvy = fdiv(p.1 - fmul(FIX_HALF as int, dim.1), dim.1);
    let cam = f.cam_pos_spec();
    let rd = camera_dir((uvx, uvy), cam, f.cam_dest_spec(), FIX_ONE as int);
    let d = trace(f, cam, rd, 0, f.max_steps_spec() as nat);
    let hit = (cam.0 + fmul(rd.0, d), cam.1 + fmul(rd.1, d), cam.2 + fmul(rd.2, d));
    if d < f.max_dist_spec() {
        color_spec(f, mode, hit)
    } else {
        match background_spec(mode, (uvx, uvy, 0)) {
            Some(c) => c,
            None => color_spec(f, mode, hit),
        }
    }
}

/// Render one pixel: `p` carries the pixel coordinate and `screen_dim` the
/// screen size, both in whole grid units.
#[verifier::rlimit(50)]
pub fn render<F: Fractal>(f: &F, p: Point, screen_dim: Point, color_type: ColorType) -> (r: Rgb8)
    requires
        f.wf(),
        in_cube(p@, 0x1000000000000),
        in_cube(screen_dim@, 0x1000000000000),
        FIX_ONE as int <= screen_dim@.1,
    ensures
        r@ == render_spec(*f, p@, screen_dim@, color_type),
{
    let half = Fix { bits: FIX_HALF };
    proof {
        lemma_fmul_range(FIX_HALF as int, screen_dim@.0, FIX_HALF as int, 0x1000000000000);
        lemma_fmul_range(FIX_HALF as int, screen_dim@.1, FIX_HALF as int, 0x1000000000000);
        lemma_fdiv_abs_le(p@.0 - fmul(FIX_HALF as int, screen_dim@.0), screen_dim@.1);
        lemma_fdiv_abs_le(p@.1 - fmul(FIX_HALF as int, screen_dim@.1), screen_dim@.1);
    }
    let uvx = p.x.sub(half.mul(screen_dim.x)).div(screen_dim.y);
    let uvy = p.y.sub(half.mul(screen_dim.y)).div(screen_dim.y);
    let uv = Point { x: uvx, y: uvy, z: Fix { bits: 0 } };
    let cam = f.camera_pos();
    let dest = f.camera_dest();
    let rd = get_camera_ray_dir(uv, cam, dest, Fix { bits: FIX_ONE });
    let d = cast_ray(f, cam, rd);
    proof {
        lemma_fmul_range(rd@.0, d@, FIX_ONE as int, (MAXD_CAP + DE_BOUND) as int);
        lemma_fmul_range(rd@.1, d@, FIX_ONE as int, (MAXD_CAP + DE_BOUND) as int);
        lemma_fmul_range(rd@.2, d@, FIX_ONE as int, (MAXD_CAP + DE_BOUND) as int);
    }
    let hit = cam.add(rd.mul_scalar(d));
    let max_d = f.max_dist();
    if d.bits < max_d.bits {
        proof {
            lemma_fmul_range(rd@.0, d@, FIX_ONE as int, MAXD_CAP as int);
            lemma_fmul_range(rd@.1, d@, FIX_ONE as int, MAXD_CAP as int);
            lemma_fmul_range(rd@.2, d@, FIX_ONE as int, MAXD_CAP as int);
        }
        get_color(f, color_type, hit)
    } else {
        match color_type.background_color(uv) {
            Some(c) => c,
            None => get_color(f, color_type, hit),
        }
    }
}

} // verus!
