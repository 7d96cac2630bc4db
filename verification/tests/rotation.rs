use fractals::fix::Fix;
use fractals::point::Point;
use fractals::rotation::{Rotation, SinCos};
use std::f64::consts::PI;

const SCALE: f64 = 4294967296.0;
const ERROR_THRESHOLD: f64 = 1e-10;

fn fx(v: f64) -> Fix {
    Fix::from_bits((v * SCALE).round() as i64)
}

fn tof(x: Fix) -> f64 {
    x.bits as f64 / SCALE
}

fn pt(x: f64, y: f64, z: f64) -> Point {
    Point::new(fx(x), fx(y), fx(z))
}

fn sc(angle: f64) -> SinCos {
    SinCos::new(fx(angle.sin()), fx(angle.cos()))
}

fn euler(alpha: f64, beta: f64, gamma: f64) -> Rotation {
    Rotation::new(sc(alpha), sc(beta), sc(gamma))
}

fn assert_if_within_error_threshold(actual: &Point, expected: &Point) {
    assert!(
        (tof(actual.x) - tof(expected.x)).abs() < ERROR_THRESHOLD,
        "the x values have big diff {:?} - {:?}",
        actual,
        expected
    );
    assert!(
        (tof(actual.y) - tof(expected.y)).abs() < ERROR_THRESHOLD,
        "the y values have big diff {:?} - {:?}",
        actual,
        expected
    );
    assert!(
        (tof(actual.z) - tof(expected.z)).abs() < ERROR_THRESHOLD,
        "the z values have big diff {:?} - {:?}",
        actual,
        expected
    );
}

#[test]
fn rotation_by_z_axis() {
    let p = pt(5.0, 3.0, 10.0);
    let rotated = p.rotate(&euler(PI / 2.0, 0.0, 0.0));
    assert_if_within_error_threshold(&rotated, &pt(-3.0, 5.0, 10.0));
}

#[test]
fn rotation_by_y_axis() {
    let p = pt(5.0, 3.0, 10.0);
    let rotated = p.rotate(&euler(0.0, PI / 2.0, 0.0));
    assert_if_within_error_threshold(&rotated, &pt(10.0, 3.0, -5.0));
}

#[test]
fn rotation_by_x_axis() {
    let p = pt(5.0, 3.0, 10.0);
    let rotated = p.rotate(&euler(0.0, 0.0, PI / 2.0));
    assert_if_within_error_threshold(&rotated, &pt(5.0, -10.0, 3.0));
}

#[test]
fn quarter_turn_round_trip_is_exact() {
    let p = pt(5.0, 3.0, 10.0);
    let there = euler(PI / 2.0, 0.0, 0.0);
    let back = euler(-PI / 2.0, 0.0, 0.0);
    let rotated = p.rotate(&there).rotate(&back);
    assert_eq!(rotated, p);
}

#[test]
fn quarter_turn_round_trip_each_axis() {
    let p = pt(-2.5, 7.0, 0.125);
    for axis in 0..3u8 {
        let (a, b, g) = match axis {
            0 => (PI / 2.0, 0.0, 0.0),
            1 => (0.0, PI / 2.0, 0.0),
            _ => (0.0, 0.0, PI / 2.0),
        };
        let rotated = p.rotate(&euler(a, b, g)).rotate(&euler(-a, -b, -g));
        assert_eq!(rotated, p, "axis {}", axis);
    }
}

#[test]
fn general_round_trip_is_close() {
    let p = pt(5.0, 3.0, 10.0);
    let rotated = p.rotate(&euler(0.7, 0.0, 0.0)).rotate(&euler(-0.7, 0.0, 0.0));
    assert!((tof(rotated.x) - 5.0).abs() < 1e-6);
    assert!((tof(rotated.y) - 3.0).abs() < 1e-6);
    assert!((tof(rotated.z) - 10.0).abs() < 1e-6);
}

#[test]
fn identity_rotation_is_exact() {
    let p = pt(1.25, -3.5, 0.0625);
    let rotated = p.rotate(&Rotation::identity());
    assert_eq!(rotated, p);
}

#[test]
fn composed_euler_rotation_matches_reference() {
    // An arbitrary Euler triple against the real-valued composition.
    let (alpha, beta, gamma) = (0.3, -1.1, 2.0);
    let p = pt(1.0, 2.0, -0.5);
    let rotated = p.rotate(&euler(alpha, beta, gamma));
    let (sa, ca) = (alpha.sin(), alpha.cos());
    let (sb, cb) = (beta.sin(), beta.cos());
    let (sg, cg) = (gamma.sin(), gamma.cos());
    let m = [
        [ca * cb, ca * sb * sg - sa * cg, ca * sb * cg + sa * sg],
        [sa * cb, sa * sb * sg + ca * cg, sa * sb * cg - ca * sg],
        [-sb, cb * sg, cb * cg],
    ];
    let (x, y, z) = (1.0, 2.0, -0.5);
    let expected = [
        x * m[0][0] + y * m[0][1] + z * m[0][2],
        x * m[1][0] + y * m[1][1] + z * m[1][2],
        x * m[2][0] + y * m[2][1] + z * m[2][2],
    ];
    assert!((tof(rotated.x) - expected[0]).abs() < 1e-6);
    assert!((tof(rotated.y) - expected[1]).abs() < 1e-6);
    assert!((tof(rotated.z) - expected[2]).abs() < 1e-6);
}
