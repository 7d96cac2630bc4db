//! The normal estimator, the light model and the color mapping.
//!
//! A single point light sits a fixed offset from the camera; the diffuse term
//! is half the cosine to it plus a half, clamped to `[0, 1]`, then gamma
//! corrected before quantization to 8-bit channels.

use vstd::prelude::*;

verus! {

use crate::fix::{Fix, FIX_ONE, FIX_HALF, fmul, isqrt, sat_u8};
use crate::fix::{lemma_fmul_range, lemma_isqrt_exists};
use crate::point::{Point, in_cube, sqsum, vnorm, vdot, lemma_sqsum_bounds, lemma_vnorm_unit};
use crate::fractals::{Fractal, ColorType, WINDOW};
use vstd::arithmetic::div_mod::{lemma_div_is_ordered, lemma_div_multiples_vanish,
    lemma_div_pos_is_pos};

/// Finite-difference offset of the normal estimator: 0.001 units along the
/// probed axis and zero along the other two (one offset policy for every
/// variant).
pub const NORMAL_EPS: i64 = 4294967;

/// An 8-bit RGB color.
#[derive(Clone, Copy, Debug, PartialEq, Eq, Structural)]
pub struct Rgb8 {
    pub r: u8,
    pub g: u8,
    pub b: u8,
}

impl View for Rgb8 {
    type V = (int, int, int);

    open spec fn view(&self) -> (int, int, int) {
        (self.r as int, self.g as int, self.b as int)
    }
}

/// The finite-difference gradient of the estimator at `p`: the estimate minus
/// its value a small step back along each axis.
pub open spec fn normal_grad<F: Fractal>(f: F, p: (int, int, int)) -> (int, int, int) {
    let d = f.de_spec(p);
    let e = NORMAL_EPS as int;
    (
        d - f.de_spec((p.0 - e, p.1, p.2)),
        d - f.de_spec((p.0, p.1 - e, p.2)),
        d - f.de_spec((p.0, p.1, p.2 - e)),
    )
}

/// The estimated surface normal at `p`: the finite-difference gradient,
/// normalized. A degenerate (zero) gradient gives the zero vector rather than
/// an undefined normalization.
pub open spec fn normal_spec<F: Fractal>(f: F, p: (int, int, int)) -> (int, int, int) {
    let v = normal_grad(f, p);
    if sqsum(v) == 0 {
        (0, 0, 0)
    } else {
        vnorm(v)
    }
}

/// Law: at a point with a non-degenerate local gradient the estimated normal
/// has unit length within a few grid steps (see [`lemma_vnorm_unit`] for the
/// exact tolerance).
pub proof fn lemma_normal_unit_length<F: Fractal>(f: F, p: (int, int, int))
    requires
        sqsum(normal_grad(f, p)) > 0,
    ensures
        sqsum(normal_spec(f, p)) >= (FIX_ONE as int) * (FIX_ONE as int) - 6 * (FIX_ONE as int),
        (sqsum(normal_spec(f, p)) - ((FIX_ONE as int) * (FIX_ONE as int) + 6 * (FIX_ONE as int)
            + 3)) * isqrt(sqsum(normal_grad(f, p))) <= 2 * (FIX_ONE as int) * (FIX_ONE as int),
{
    lemma_vnorm_unit(normal_grad(f, p));
}

/// Estimate the surface normal at `p` by finite differences.
pub fn get_normal<F: Fractal>(f: &F, p: Point) -> (r: Point)
    requires
        f.wf(),
        in_cube(p@, (WINDOW - NORMAL_EPS) as int),
    ensures
        r@ == normal_spec(*f, p@),
        in_cube(r@, FIX_ONE as int),
{
    let e = Fix { bits: NORMAL_EPS };
    let d = f.estimate_distance(p);
    let dx = f.estimate_distance(Point { x: p.x.sub(e), y: p.y, z: p.z });
    let dy = f.estimate_distance(Point { x: p.x, y: p.y.sub(e), z: p.z });
    let dz = f.estimate_distance(Point { x: p.x, y: p.y, z: p.z.sub(e) });
    let v = Point { x: d.sub(dx), y: d.sub(dy), z: d.sub(dz) };
    let vs = v.sqsum_wide();
    if vs == 0 {
        Point::zero()
    } else {
        v.normalize()
    }
}

/// Clamp a grid value to `[0, 1]`.
pub open spec fn clamp01(x: int) -> int {
    if x < 0 {
        0
    } else if x > FIX_ONE as int {
        FIX_ONE as int
    } else {
        x
    }
}

/// The diffuse light at `p`: half the cosine between the surface normal and
/// the direction to the point light (the camera offset by `(2, 2, 0)`), plus
/// a half, clamped to `[0, 1]`. Degenerate geometry (the light exactly at
/// `p`, or a zero gradient) gives darkness.
pub open spec fn light_spec<F: Fractal>(f: F, p: (int, int, int)) -> int {
    let cam = f.cam_pos_spec();
    let lv = (cam.0 + 2 * FIX_ONE as int - p.0, cam.1 + 2 * FIX_ONE as int - p.1, cam.2 - p.2);
    let n = normal_spec(f, p);
    if sqsum(lv) == 0 || n == (0int, 0int, 0int) {
        0
    } else {
        clamp01(fmul(vdot(n, vnorm(lv)), FIX_HALF as int) + FIX_HALF as int)
    }
}

/// Compute the diffuse light term at `p`.
pub fn get_light<F: Fractal>(f: &F, p: Point) -> (r: Fix)
    requires
        f.wf(),
        in_cube(p@, (WINDOW - NORMAL_EPS) as int),
    ensures
        r@ == light_spec(*f, p@),
        0 <= r@ <= FIX_ONE as int,
{
    let two = Fix { bits: 2 * FIX_ONE };
    let cam = f.camera_pos();
    let light_pos = Point { x: cam.x.add(two), y: cam.y.add(two), z: cam.z };
    let lv = light_pos.sub(p);
    let n = get_normal(f, p);
    let ls = lv.sqsum_wide();
    if ls == 0 || (n.x.bits == 0 && n.y.bits == 0 && n.z.bits == 0) {
        return Fix { bits: 0 };
    }
    let l = lv.normalize();
    let dt = n.dot(l);
    proof {
        lemma_fmul_range(n@.0, l@.0, FIX_ONE as int, FIX_ONE as int);
        lemma_fmul_range(n@.1, l@.1, FIX_ONE as int, FIX_ONE as int);
        lemma_fmul_range(n@.2, l@.2, FIX_ONE as int, FIX_ONE as int);
        lemma_fmul_range(dt@, FIX_HALF as int, (3 * FIX_ONE + 3) as int, FIX_HALF as int);
    }
    let val = dt.mul(Fix { bits: FIX_HALF }).add(Fix { bits: FIX_HALF });
    if val.bits < 0 {
        Fix { bits: 0 }
    } else if val.bits > FIX_ONE {
        Fix { bits: FIX_ONE }
    } else {
        val
    }
}

/// Square root on the grid (floor).
pub open spec fn fsqrt(x: int) -> int {
    isqrt(x * FIX_ONE)
}

/// The square root of a value in `[0, 1]` stays in `[0, 1]`.
proof fn lemma_fsqrt_unit(x: int)
    requires
        0 <= x <= FIX_ONE as int,
    ensures
        0 <= fsqrt(x) <= FIX_ONE as int,
{
    let f = FIX_ONE as int;
    vstd::arithmetic::mul::lemma_mul_inequality(x, f, f);
    assert(x * f >= 0) by (nonlinear_arith)
        requires
            0 <= x,
            0 < f,
    ;
    lemma_isqrt_exists(x * f);
    let r = isqrt(x * f);
    assert(r <= f) by (nonlinear_arith)
        requires
            0 <= r,
            0 < f,
            r * r <= x * f,
            x * f <= f * f,
    ;
}

/// A product of two values in `[0, 1]` stays in `[0, 1]`.
proof fn lemma_fmul_unit(a: int, b: int)
    requires
        0 <= a <= FIX_ONE as int,
        0 <= b <= FIX_ONE as int,
    ensures
        0 <= fmul(a, b) <= FIX_ONE as int,
{
    let f = FIX_ONE as int;
    assert(0 <= a * b <= f * f && f * f == f * f) by (nonlinear_arith)
        requires
            0 <= a <= f,
            0 <= b <= f,
    ;
    lemma_div_is_ordered(a * b, f * f, f);
    lemma_div_multiples_vanish(f, f);
    lemma_div_pos_is_pos(a * b, f);
}

/// Gamma correction with the dyadic exponent 931/2048 (= 0.45459, within a
/// tenth of a percent of the usual 0.4545): the light value's iterated square
/// roots, multiplied following the exponent's binary digits. Exact floor
/// arithmetic: zero maps to zero and one to one.
pub open spec fn gamma_spec(x: int) -> int {
    let t1 = fsqrt(x);
    let t2 = fsqrt(t1);
    let t3 = fsqrt(t2);
    let t4 = fsqrt(t3);
    let t5 = fsqrt(t4);
    let t6 = fsqrt(t5);
    let t7 = fsqrt(t6);
    let t8 = fsqrt(t7);
    let t9 = fsqrt(t8);
    let t10 = fsqrt(t9);
    let t11 = fsqrt(t10);
    fmul(fmul(fmul(fmul(fmul(t2, t3), t4), t6), t10), t11)
}

/// Gamma-correct a light value in `[0, 1]`.
pub fn gamma(x: Fix) -> (r: Fix)
    requires
        0 <= x@ <= FIX_ONE as int,
    ensures
        r@ == gamma_spec(x@),
        0 <= r@ <= FIX_ONE as int,
{
    proof {
        lemma_fsqrt_unit(x@);
    }
    let t1 = x.sqrt();
    proof {
        lemma_fsqrt_unit(t1@);
    }
    let t2 = t1.sqrt();
    proof {
        lemma_fsqrt_unit(t2@);
    }
    let t3 = t2.sqrt();
    proof {
        lemma_fsqrt_unit(t3@);
    }
    let t4 = t3.sqrt();
    proof {
        lemma_fsqrt_unit(t4@);
    }
    let t5 = t4.sqrt();
    proof {
        lemma_fsqrt_unit(t5@);
    }
    let t6 = t5.sqrt();
    proof {
        lemma_fsqrt_unit(t6@);
    }
    let t7 = t6.sqrt();
    proof {
        lemma_fsqrt_unit(t7@);
    }
    let t8 = t7.sqrt();
    proof {
        lemma_fsqrt_unit(t8@);
    }
    let t9 = t8.sqrt();
    proof {
        lemma_fsqrt_unit(t9@);
    }
    let t10 = t9.sqrt();
    proof {
        lemma_fsqrt_unit(t10@);
    }
    let t11 = t10.sqrt();
    proof {
        lemma_fmul_unit(t2@, t3@);
        lemma_fmul_unit(fmul(t2@, t3@), t4@);
        lemma_fmul_unit(fmul(fmul(t2@, t3@), t4@), t6@);
        lemma_fmul_unit(fmul(fmul(fmul(t2@, t3@), t4@), t6@), t10@);
        lemma_fmul_unit(fmul(fmul(fmul(fmul(t2@, t3@), t4@), t6@), t10@), t11@);
    }
    t2.mul(t3).mul(t4).mul(t6).mul(t10).mul(t11)
}

/// The color of a surface point (or of the traced endpoint, for the distance
/// scheme) under the given mode.
pub open spec fn color_spec<F: Fractal>(f: F, mode: ColorType, p: (int, int, int)) -> (
    int,
    int,
    int,
) {
    match mode {
        ColorType::Grayscale => {
            let lv = if isqrt(sqsum(p)) < f.max_dist_spec() {
                light_spec(f, p)
            } else {
                0
            };
            let g = gamma_spec(lv);
            let ch = sat_u8(g * 256);
            (ch, ch, ch)
        },
        ColorType::Distance => {
            let len = isqrt(sqsum(p));
            let cv = (len * 16581375) / f.max_dist_spec();
            ((cv / 65536) % 256, (cv / 256) % 256, cv % 256)
        },
        ColorType::Normal => {
            let n = normal_spec(f, p);
            let cx = fmul(n.0, FIX_HALF as int) + FIX_HALF as int;
            let cy = fmul(n.1, FIX_HALF as int) + FIX_HALF as int;
            let cz = fmul(n.2, FIX_HALF as int) + FIX_HALF as int;
            let lv = if isqrt(sqsum(p)) < f.max_dist_spec() {
                gamma_spec(light_spec(f, p))
            } else {
                0
            };
            (sat_u8(fmul(cx * 255, lv)), sat_u8(fmul(cy * 255, lv)), sat_u8(fmul(cz * 255, lv)))
        },
    }
}

/// Color a traced point under the given mode. The grayscale and normal modes
/// read the surface (so the point must lie in the evaluation window); the
/// distance mode only measures how far the point is.
#[verifier::rlimit(50)]
pub fn get_color<F: Fractal>(f: &F, color_type: ColorType, p: Point) -> (r: Rgb8)
    requires
        f.wf(),
        in_cube(p@, 0x4000000000000000),
        !(color_type is Distance) ==> in_cube(p@, (WINDOW - NORMAL_EPS) as int),
    ensures
        r@ == color_spec(*f, color_type, p@),
{
    let max_d = f.max_dist();
    match color_type {
        ColorType::Grayscale => {
            let len = p.length();
            let lv = if len.bits < max_d.bits {
                get_light(f, p)
            } else {
                Fix { bits: 0 }
            };
            let g = gamma(lv);
            let ch = Fix { bits: g.bits * 256 }.to_u8_sat();
            Rgb8 { r: ch, g: ch, b: ch }
        },
        ColorType::Distance => {
            let len = p.length();
            proof {
                lemma_sqsum_bounds(p@, 0x4000000000000000);
                assert(len@ < 0x8000000000000000) by (nonlinear_arith)
                    requires
                        0 <= len@,
                        len@ * len@ <= sqsum(p@),
                        sqsum(p@) <= 3 * 0x4000000000000000 * 0x4000000000000000,
                ;
            }
            let cv: u128 = (len.bits as u128) * 16581375 / (max_d.bits as u128);
            proof {
                lemma_div_pos_is_pos((len@ * 16581375) as int, max_d@);
            }
            let r8 = ((cv / 65536) % 256) as u8;
            let g8 = ((cv / 256) % 256) as u8;
            let b8 = (cv % 256) as u8;
            Rgb8 { r: r8, g: g8, b: b8 }
        },
        ColorType::Normal => {
            let n = get_normal(f, p);
            let half = Fix { bits: FIX_HALF };
            proof {
                lemma_fmul_range(n@.0, FIX_HALF as int, FIX_ONE as int, FIX_HALF as int);
                lemma_fmul_range(n@.1, FIX_HALF as int, FIX_ONE as int, FIX_HALF as int);
                lemma_fmul_range(n@.2, FIX_HALF as int, FIX_ONE as int, FIX_HALF as int);
            }
            let color = n.mul(Point { x: half, y: half, z: half }).add_scalar(half);
            let len = p.length();
            let lv = if len.bits < max_d.bits {
                gamma(get_light(f, p))
            } else {
                Fix { bits: 0 }
            };
            proof {
                lemma_fmul_range(color@.0 * 255, lv@, 255 * (FIX_ONE as int), FIX_ONE as int);
                lemma_fmul_range(color@.1 * 255, lv@, 255 * (FIX_ONE as int), FIX_ONE as int);
                lemma_fmul_range(color@.2 * 255, lv@, 255 * (FIX_ONE as int), FIX_ONE as int);
            }
            let rv = Fix { bits: color.x.bits * 255 };
            let gv = Fix { bits: color.y.bits * 255 };
            let bv = Fix { bits: color.z.bits * 255 };
            Rgb8 {
                r: rv.mul(lv).to_u8_sat(),
                g: gv.mul(lv).to_u8_sat(),
                b: bv.mul(lv).to_u8_sat(),
            }
        },
    }
}

/// An optional color, viewed as an optional channel triple.
pub open spec fn opt_rgb_view(r: Option<Rgb8>) -> Option<(int, int, int)> {
    match r {
        Some(c) => Some(c@),
        None => None,
    }
}

/// The miss color of each mode: a gray shaded down with the screen
/// coordinate's distance from the center for the grayscale and normal modes,
/// and nothing (black by omission) for the distance mode.
pub open spec fn background_spec(mode: ColorType, uv: (int, int, int)) -> Option<(int, int, int)> {
    match mode {
        ColorType::Grayscale => {
            let ch = sat_u8(100 * FIX_ONE as int - 50 * isqrt(sqsum(uv)));
            Some((ch, ch, ch))
        },
        ColorType::Distance => None,
        ColorType::Normal => {
            let ch = sat_u8(200 * FIX_ONE as int - 50 * isqrt(sqsum(uv)));
            Some((ch, ch, ch))
        },
    }
}

impl ColorType {
    /// The miss color for a screen coordinate, per mode.
    pub fn background_color(&self, uv: Point) -> (r: Option<Rgb8>)
        requires
            in_cube(uv@, 0x4000000000000),
        ensures
            opt_rgb_view(r) == background_spec(*self, uv@),
    {
        let base: i64 = match self {
            ColorType::Grayscale => 100 * FIX_ONE,
            ColorType::Distance => {
                return None;
            },
            ColorType::Normal => 200 * FIX_ONE,
        };
        let len = uv.length();
        proof {
            lemma_sqsum_bounds(uv@, 0x4000000000000);
            assert(len@ <= 0x8000000000000) by (nonlinear_arith)
                requires
                    0 <= len@,
                    len@ * len@ <= sqsum(uv@),
                    sqsum(uv@) <= 3 * 0x4000000000000 * 0x4000000000000,
            ;
        }
        let ch = Fix { bits: base - len.bits * 50 }.to_u8_sat();
        Some(Rgb8 { r: ch, g: ch, b: ch })
    }
}

} // verus!
