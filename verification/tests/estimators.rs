use fractals::fix::{Fix, FIX_ONE};
use fractals::fractals::{
    fold_point, ColorType, FoldPolicy, Fractal, Spheres, Tetrahedron, Triangles,
    TrianglesWithFold, Cube, SPHERES_RADIUS_DEFAULT,
};
use fractals::point::Point;

const SCALE: f64 = 4294967296.0;

fn fx(v: f64) -> Fix {
    Fix::from_bits((v * SCALE).round() as i64)
}

fn tof(x: Fix) -> f64 {
    x.bits as f64 / SCALE
}

fn pt(x: f64, y: f64, z: f64) -> Point {
    Point::new(fx(x), fx(y), fx(z))
}

#[test]
fn spheres_estimator_at_cell_center_is_minus_radius() {
    // At the sphere's own center the estimator is exactly the negated radius:
    // the sign convention is "inside negative".
    let s = Spheres::default();
    let d = s.estimate_distance(pt(0.5, 0.5, 0.5));
    assert_eq!(d.bits, -SPHERES_RADIUS_DEFAULT);
    assert!(d.bits < 0);
}

#[test]
fn spheres_estimator_at_cell_corner() {
    let s = Spheres::default();
    let d = s.estimate_distance(pt(0.0, 0.0, 0.0));
    let expected = 0.75f64.sqrt() - 0.15;
    assert!((tof(d) - expected).abs() < 1e-9);
}

#[test]
fn spheres_estimator_never_below_minus_radius() {
    let s = Spheres::default();
    let samples = [
        (0.5, 0.5, 0.5),
        (0.47, 0.52, 0.5),
        (0.0, 0.0, 0.0),
        (-3.7, 12.25, -0.001),
        (100.0, -250.5, 7.125),
    ];
    for &(x, y, z) in samples.iter() {
        let d = s.estimate_distance(pt(x, y, z));
        assert!(d.bits >= -SPHERES_RADIUS_DEFAULT, "sample ({}, {}, {})", x, y, z);
    }
}

#[test]
fn spheres_estimator_is_periodic_along_each_axis() {
    let s = Spheres::default();
    let samples = [(0.3, -0.7, 2.2), (0.0, 0.5, -0.25), (-5.125, 3.0, 0.625)];
    for &(x, y, z) in samples.iter() {
        let d = s.estimate_distance(pt(x, y, z));
        assert_eq!(s.estimate_distance(pt(x + 1.0, y, z)).bits, d.bits);
        assert_eq!(s.estimate_distance(pt(x, y + 1.0, z)).bits, d.bits);
        assert_eq!(s.estimate_distance(pt(x, y, z + 1.0)).bits, d.bits);
    }
}

#[test]
fn tetrahedron_estimator_at_fixed_vertex() {
    // (1, 1, 1) is a fixed point of the unrotated iteration, so the estimate
    // is its length scaled back by 2^10.
    let t = Tetrahedron::default();
    let d = t.estimate_distance(pt(1.0, 1.0, 1.0));
    let expected = 3.0f64.sqrt() / 1024.0;
    assert!((tof(d) - expected).abs() < 1e-8);
    assert!(d.bits >= 0);
}

#[test]
fn triangles_estimator_at_fixed_vertex() {
    // (1, 1, 1) is one of the attractor vertices, so the iteration keeps the
    // point and the estimate is its length scaled back by 2^15.
    let t = Triangles::default();
    let d = t.estimate_distance(pt(1.0, 1.0, 1.0));
    let expected = 3.0f64.sqrt() / 32768.0;
    assert!((tof(d) - expected).abs() < 1e-8);
}

#[test]
fn triangles_with_fold_estimator_is_nonnegative() {
    let t = TrianglesWithFold::default();
    let samples = [(-1.0, -1.0, -1.0), (0.2, 0.3, -0.7), (2.0, -2.0, 2.0)];
    for &(x, y, z) in samples.iter() {
        let d = t.estimate_distance(pt(x, y, z));
        assert!(d.bits >= 0, "sample ({}, {}, {})", x, y, z);
    }
}

#[test]
fn cube_estimator_at_cycling_point() {
    // From (1, 1, 1) the unrotated iteration cycles (the box fold sends z to
    // -1/3, the scale back to -1), so all ten iterations run and the estimate
    // is length(1, 1, -1) / 3^10.
    let q = Cube::default();
    let d = q.estimate_distance(pt(1.0, 1.0, 1.0));
    let expected = 3.0f64.sqrt() / 59049.0;
    assert!((tof(d) - expected).abs() < 1e-6);
    assert!(d.bits >= 0);
}

#[test]
fn fold_invert_and_swap_policy() {
    // (x, y) fold: both negated, then exchanged; later pairs left alone.
    let r = fold_point(FoldPolicy::InvertSwap, pt(-1.0, -2.0, 3.0));
    assert_eq!(r, pt(2.0, 1.0, 3.0));
}

#[test]
fn fold_absolute_policy() {
    let r = fold_point(FoldPolicy::Absolute, pt(-1.0, -1.0, -1.0));
    assert_eq!(r, pt(1.0, 1.0, -1.0));
}

#[test]
fn fold_leaves_nonnegative_pairs_alone() {
    let p = pt(1.0, 2.0, 3.0);
    assert_eq!(fold_point(FoldPolicy::InvertSwap, p), p);
    assert_eq!(fold_point(FoldPolicy::Absolute, p), p);
}

#[test]
fn color_type_is_copyable_and_comparable() {
    let c = ColorType::Grayscale;
    let d = c;
    assert_eq!(c, d);
    assert!(ColorType::Distance != ColorType::Normal);
}

#[test]
fn spheres_radius_is_configurable() {
    let s = Spheres::new(Fix::from_bits(FIX_ONE / 4));
    let d = s.estimate_distance(pt(0.5, 0.5, 0.5));
    assert_eq!(d.bits, -(FIX_ONE / 4));
}
