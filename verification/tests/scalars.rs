use fractals::fix::{isqrt_u128, Fix, FIX_HALF, FIX_ONE};
use fractals::point::Point;

const SCALE: f64 = 4294967296.0;

fn fx(v: f64) -> Fix {
    Fix::from_bits((v * SCALE).round() as i64)
}

fn tof(x: Fix) -> f64 {
    x.bits as f64 / SCALE
}

fn pt(x: f64, y: f64, z: f64) -> Point {
    Point::new(fx(x), fx(y), fx(z))
}

#[test]
fn constants_relate() {
    assert_eq!(FIX_ONE, 2 * FIX_HALF);
    assert_eq!(Fix::one().bits, FIX_ONE);
    assert_eq!(Fix::half().bits, FIX_HALF);
    assert_eq!(Fix::zero().bits, 0);
}

#[test]
fn multiplication_of_small_integers_is_exact() {
    assert_eq!(fx(3.0).mul(fx(4.0)).bits, 12 * FIX_ONE);
    assert_eq!(fx(-3.0).mul(fx(4.0)).bits, -12 * FIX_ONE);
    assert_eq!(fx(0.5).mul(fx(0.5)).bits, FIX_ONE / 4);
}

#[test]
fn multiplication_rounds_toward_negative_infinity() {
    // The smallest positive grid step squared underflows to zero; its
    // negation rounds down to minus one step.
    let eps = Fix::from_bits(1);
    assert_eq!(eps.mul(eps).bits, 0);
    assert_eq!(eps.neg().mul(eps).bits, -1);
}

#[test]
fn division_is_floor() {
    assert_eq!(fx(1.0).div(fx(3.0)).bits, FIX_ONE / 3);
    assert_eq!(fx(-1.0).div(fx(3.0)).bits, -FIX_ONE / 3 - 1);
}

#[test]
fn modulo_is_mathematical() {
    // Always non-negative for a positive modulus, unlike a truncating
    // remainder.
    assert_eq!(fx(-0.25).modulo(Fix::one()).bits, fx(0.75).bits);
    assert_eq!(fx(2.25).modulo(Fix::one()).bits, fx(0.25).bits);
    assert_eq!(fx(-3.0).modulo(Fix::one()).bits, 0);
}

#[test]
fn square_root_of_perfect_square() {
    assert_eq!(fx(4.0).sqrt().bits, 2 * FIX_ONE);
    assert_eq!(fx(0.25).sqrt().bits, FIX_HALF);
    assert_eq!(fx(0.0).sqrt().bits, 0);
}

#[test]
fn integer_square_root_floors() {
    assert_eq!(isqrt_u128(0), 0);
    assert_eq!(isqrt_u128(15), 3);
    assert_eq!(isqrt_u128(16), 4);
    assert_eq!(isqrt_u128(u64::MAX as u128), 4294967295);
}

#[test]
fn channel_quantization_saturates() {
    assert_eq!(fx(-1.0).to_u8_sat(), 0);
    assert_eq!(fx(0.0).to_u8_sat(), 0);
    assert_eq!(fx(2.9).to_u8_sat(), 2);
    assert_eq!(fx(255.0).to_u8_sat(), 255);
    assert_eq!(fx(256.0).to_u8_sat(), 255);
    assert_eq!(fx(10000.0).to_u8_sat(), 255);
}

#[test]
fn vector_operations_are_componentwise() {
    let a = pt(1.0, 2.0, 3.0);
    let b = pt(4.0, 5.0, 6.0);
    assert_eq!(a.add(b), pt(5.0, 7.0, 9.0));
    assert_eq!(b.sub(a), pt(3.0, 3.0, 3.0));
    assert_eq!(a.mul_scalar(fx(2.0)), pt(2.0, 4.0, 6.0));
    assert_eq!(a.add_scalar(fx(-0.5)), pt(0.5, 1.5, 2.5));
    assert_eq!(pt(-1.0, 2.0, -3.0).abs(), pt(1.0, 2.0, 3.0));
}

#[test]
fn dot_product_of_whole_vectors_is_exact() {
    let a = pt(1.0, 2.0, 3.0);
    let b = pt(4.0, 5.0, 6.0);
    assert_eq!(a.dot(b).bits, 32 * FIX_ONE);
}

#[test]
fn cross_product_of_axes() {
    let x = pt(1.0, 0.0, 0.0);
    let y = pt(0.0, 1.0, 0.0);
    assert_eq!(x.cross(y), pt(0.0, 0.0, 1.0));
    assert_eq!(y.cross(x), pt(0.0, 0.0, -1.0));
}

#[test]
fn length_of_pythagorean_triple_is_exact() {
    assert_eq!(pt(3.0, 4.0, 0.0).length().bits, 5 * FIX_ONE);
    assert_eq!(pt(2.0, 3.0, 6.0).length().bits, 7 * FIX_ONE);
}

#[test]
fn length_rounds_down() {
    // |(1, 1, 1)| = sqrt(3): the floor length is never above the real one.
    let l = pt(1.0, 1.0, 1.0).length();
    let real = 3.0f64.sqrt();
    assert!(tof(l) <= real);
    assert!((tof(l) - real).abs() < 1e-9);
}

#[test]
fn normalize_pythagorean_direction() {
    let n = pt(3.0, 4.0, 0.0).normalize();
    assert!((tof(n.x) - 0.6).abs() < 1e-9);
    assert!((tof(n.y) - 0.8).abs() < 1e-9);
    assert_eq!(n.z.bits, 0);
}

#[test]
fn distance_between_points() {
    let d = pt(1.0, 2.0, 3.0).distance(pt(4.0, 6.0, 3.0));
    assert_eq!(d.bits, 5 * FIX_ONE);
}
