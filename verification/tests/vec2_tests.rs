use cgbot::vec2::{div_trunc, isqrt, Vec2};

#[test]
fn isqrt_exact_squares() {
    assert_eq!(isqrt(0), 0);
    assert_eq!(isqrt(1), 1);
    assert_eq!(isqrt(16), 4);
    assert_eq!(isqrt(10_000), 100);
    assert_eq!(isqrt(1_000_000_000_000), 1_000_000);
}

#[test]
fn isqrt_rounds_down() {
    assert_eq!(isqrt(2), 1);
    assert_eq!(isqrt(24), 4);
    assert_eq!(isqrt(9999), 99);
}

#[test]
fn div_trunc_rounds_toward_zero() {
    assert_eq!(div_trunc(7, 2), 3);
    assert_eq!(div_trunc(-7, 2), -3);
    assert_eq!(div_trunc(0, 5), 0);
    assert_eq!(div_trunc(-1, 1000), 0);
}

#[test]
fn vector_componentwise_operations() {
    let a = Vec2::new(3, -4);
    let b = Vec2::new(10, 20);
    assert_eq!(a.add(b), Vec2 { x: 13, y: 16 });
    assert_eq!(a.sub(b), Vec2 { x: -7, y: -24 });
    assert_eq!(a.mul(3), Vec2 { x: 9, y: -12 });
    assert_eq!(a.max(b), Vec2 { x: 10, y: 20 });
    assert_eq!(a.min(b), Vec2 { x: 3, y: -4 });
}

#[test]
fn clamp_into_box() {
    let p = Vec2::new(-5, 12000);
    let c = p.clamp(Vec2::new(0, 0), Vec2::new(9999, 9999));
    assert_eq!(c, Vec2 { x: 0, y: 9999 });
}

#[test]
fn length_of_pythagorean_vector() {
    assert_eq!(Vec2::new(3, 4).len(), 5);
    assert_eq!(Vec2::new(-600, 800).len(), 1000);
    assert_eq!(Vec2::new(0, 0).len(), 0);
}

#[test]
fn normalize_zero_vector_stays_zero() {
    assert_eq!(Vec2::new(0, 0).norm(), Vec2 { x: 0, y: 0 });
}

#[test]
fn normalize_is_identity_on_unit_vectors() {
    // A vector of length exactly one unit (1000 fixed-point steps) is
    // returned unchanged, so normalizing twice equals normalizing once.
    let u = Vec2::new(600, 800);
    assert_eq!(u.len(), 1000);
    assert_eq!(u.norm(), u);
    let v = Vec2::new(3, 4);
    let n = v.norm();
    assert_eq!(n, Vec2 { x: 600, y: 800 });
    assert_eq!(n.norm(), n);
}

#[test]
fn scale_to_gives_requested_magnitude() {
    let v = Vec2::new(0, -400);
    assert_eq!(v.scale_to(540), Vec2 { x: 0, y: -540 });
    let w = Vec2::new(300, 400);
    assert_eq!(w.scale_to(600), Vec2 { x: 360, y: 480 });
}
