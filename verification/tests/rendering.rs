use fractals::fix::{Fix, FIX_ONE};
use fractals::fractals::{ColorType, Fractal, Spheres, Tetrahedron};
use fractals::point::Point;
use fractals::renderer::{cast_ray, get_camera_ray_dir, render};
use fractals::shading::{gamma, get_color, get_light, get_normal, Rgb8};

const SCALE: f64 = 4294967296.0;

fn fx(v: f64) -> Fix {
    Fix::from_bits((v * SCALE).round() as i64)
}

fn tof(x: Fix) -> f64 {
    x.bits as f64 / SCALE
}

fn pt(x: f64, y: f64, z: f64) -> Point {
    Point::new(fx(x), fx(y), fx(z))
}

fn length_f64(p: Point) -> f64 {
    let (x, y, z) = (tof(p.x), tof(p.y), tof(p.z));
    (x * x + y * y + z * z).sqrt()
}

#[test]
fn camera_ray_toward_origin() {
    let dir = get_camera_ray_dir(pt(0.0, 0.0, 0.0), pt(3.0, 4.0, -4.0), pt(0.0, 0.0, 0.0), fx(1.0));
    let n = 41.0f64.sqrt();
    assert!((tof(dir.x) - (-3.0 / n)).abs() < 1e-6);
    assert!((tof(dir.y) - (-4.0 / n)).abs() < 1e-6);
    assert!((tof(dir.z) - (4.0 / n)).abs() < 1e-6);
    assert!((length_f64(dir) - 1.0).abs() < 1e-6);
}

#[test]
fn center_ray_against_sphere_lattice_hits() {
    // A ray from the camera toward the origin against the default lattice
    // stops well before the far plane.
    let s = Spheres::default();
    let rd = get_camera_ray_dir(pt(0.0, 0.0, 0.0), s.camera_pos(), s.camera_dest(), fx(1.0));
    let t = cast_ray(&s, s.camera_pos(), rd);
    assert!(t.bits < s.max_dist().bits, "t = {}", tof(t));
    assert!(t.bits > 0);
}

#[test]
fn center_pixel_grayscale_is_mid_tone() {
    // The center pixel of a symmetric screen: a hit whose gray value is
    // strictly between black and white.
    let s = Spheres::default();
    let pixel = render(&s, pt(50.0, 50.0, 0.0), pt(100.0, 100.0, 0.0), ColorType::Grayscale);
    assert!(pixel.r == pixel.g && pixel.g == pixel.b);
    assert!(pixel.r > 0, "pixel {:?}", pixel);
    assert!(pixel.r < 255, "pixel {:?}", pixel);
}

#[test]
fn ray_up_the_lattice_gap_misses() {
    // Straight up from a cell corner the ray threads the gap between the
    // spheres: the accumulated distance passes the far plane.
    let s = Spheres::default();
    let t = cast_ray(&s, pt(0.0, 0.0, 0.0), pt(0.0, 1.0, 0.0));
    assert!(t.bits > s.max_dist().bits, "t = {}", tof(t));
}

#[test]
fn miss_returns_background_exactly() {
    // At the screen center the grayscale background is exactly (100, 100, 100)
    // and the normal-mode background exactly (200, 200, 200).
    let center = pt(0.0, 0.0, 0.0);
    assert_eq!(
        ColorType::Grayscale.background_color(center),
        Some(Rgb8 { r: 100, g: 100, b: 100 })
    );
    assert_eq!(
        ColorType::Normal.background_color(center),
        Some(Rgb8 { r: 200, g: 200, b: 200 })
    );
    assert_eq!(ColorType::Distance.background_color(center), None);
}

#[test]
fn background_shades_down_with_screen_distance() {
    let off = pt(0.5, 0.5, 0.0);
    let c = ColorType::Grayscale.background_color(off).unwrap();
    // 100 - 50 * sqrt(0.5) = 64.64..., truncated to 64.
    assert_eq!(c, Rgb8 { r: 64, g: 64, b: 64 });
}

#[test]
fn normal_estimate_is_unit_length() {
    // Near a lattice sphere's surface the gradient is regular and the
    // estimated normal has unit length within tolerance.
    let s = Spheres::default();
    let n = get_normal(&s, pt(0.3, 0.5, 0.5));
    assert!((length_f64(n) - 1.0).abs() < 1e-6);
}

#[test]
fn normal_points_away_from_sphere_center() {
    let s = Spheres::default();
    let n = get_normal(&s, pt(0.3, 0.5, 0.5));
    // The nearest center is (0.5, 0.5, 0.5); the surface faces -x here.
    assert!(tof(n.x) < -0.9);
}

#[test]
fn light_term_is_clamped() {
    let s = Spheres::default();
    let l = get_light(&s, pt(0.3, 0.5, 0.5));
    assert!(0 <= l.bits && l.bits <= FIX_ONE);
}

#[test]
fn gamma_fixes_black_and_white() {
    assert_eq!(gamma(fx(0.0)).bits, 0);
    assert_eq!(gamma(fx(1.0)).bits, FIX_ONE);
}

#[test]
fn gamma_brightens_midtones() {
    let g = gamma(fx(0.25));
    let expected = 0.25f64.powf(931.0 / 2048.0);
    assert!((tof(g) - expected).abs() < 1e-3, "gamma(0.25) = {}", tof(g));
    assert!(g.bits > fx(0.25).bits);
}

#[test]
fn distance_color_spreads_the_length_over_channels() {
    // |(3, 4, 0)| = 5 exactly; 5/100 * 255^3 = 829068.75, truncated to
    // 829068 = (12 << 16) + (166 << 8) + 140.
    let s = Spheres::default();
    let c = get_color(&s, ColorType::Distance, pt(3.0, 4.0, 0.0));
    assert_eq!(c, Rgb8 { r: 12, g: 166, b: 140 });
}

#[test]
fn distance_render_of_a_hit_is_not_black() {
    let s = Spheres::default();
    let pixel = render(&s, pt(50.0, 50.0, 0.0), pt(100.0, 100.0, 0.0), ColorType::Distance);
    assert!(pixel.r > 0 || pixel.g > 0 || pixel.b > 0);
}

#[test]
fn tetrahedron_render_produces_a_pixel() {
    let t = Tetrahedron::default();
    let pixel = render(&t, pt(40.0, 40.0, 0.0), pt(80.0, 80.0, 0.0), ColorType::Normal);
    // The center ray of the tetrahedron scene lands on the fractal.
    assert!(pixel.r > 0 || pixel.g > 0 || pixel.b > 0, "pixel {:?}", pixel);
}
