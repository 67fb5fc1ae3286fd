use tracer_core::lights::LightType;
use tracer_core::patterns::{
    checker_uses_first, ring_uses_first, stripe_uses_first, PatternType,
};

/// A stripe pattern picks its first color (white, in the original scenes)
/// from the floor of the pattern-space x coordinate.
fn stripe_white_at(x: f64) -> bool {
    stripe_uses_first(x.floor() as i64)
}

fn checker_white_at(x: f64, y: f64, z: f64) -> bool {
    checker_uses_first(x.floor() as i64, y.floor() as i64, z.floor() as i64)
}

fn ring_white_at(x: f64, z: f64) -> bool {
    ring_uses_first((x * x + z * z).sqrt().floor() as u64)
}

#[test]
fn test_stripe_y() {
    // The stripe is constant in y.
    assert!(stripe_white_at(0.0));
    assert!(stripe_white_at(0.0));
    assert!(stripe_white_at(0.0));
}

#[test]
fn test_stripe_z() {
    // The stripe is constant in z.
    assert!(stripe_white_at(0.0));
    assert!(stripe_white_at(0.0));
}

#[test]
fn test_stripe_x() {
    // The stripe alternates with the floor of x: black on [1,2) and on
    // [-1,0), white again on [-2,-1).
    assert!(!stripe_white_at(1.0));
    assert!(!stripe_white_at(-1.0));
    assert!(stripe_white_at(-1.1));
}

#[test]
fn test_gradient_is_not_cell_parity() {
    // The gradient blends its colors instead of picking one per cell.
    assert!(!PatternType::Gradient.is_cell_parity());
    assert!(PatternType::Stripe.is_cell_parity());
    assert!(PatternType::Ring.is_cell_parity());
    assert!(PatternType::Checker3d.is_cell_parity());
}

#[test]
fn test_ring() {
    assert!(ring_white_at(0.0, 0.0));
    assert!(!ring_white_at(1.0, 0.0));
    assert!(!ring_white_at(0.0, 1.0));
    assert!(!ring_white_at(0.708, 0.708));
}

#[test]
fn test_checker_3d_x() {
    assert!(checker_white_at(0.0, 0.0, 0.0));
    assert!(checker_white_at(0.99, 0.0, 0.0));
    assert!(!checker_white_at(1.01, 0.0, 0.0));
}

#[test]
fn test_checker_3d_y() {
    assert!(checker_white_at(0.0, 0.0, 0.0));
    assert!(checker_white_at(0.0, 0.99, 0.0));
    assert!(!checker_white_at(0.0, 1.01, 0.0));
}

#[test]
fn test_checker_3d_z() {
    assert!(checker_white_at(0.0, 0.0, 0.0));
    assert!(checker_white_at(0.0, 0.0, 0.99));
    assert!(!checker_white_at(0.0, 0.0, 1.01));
}

#[test]
fn test_checker_negative_cells() {
    // Parity must follow the mathematical floor on the negative side too:
    // x in [-1,0) is an odd cell, x in [-2,-1) an even one.
    assert!(!checker_white_at(-0.5, 0.0, 0.0));
    assert!(checker_white_at(-1.5, 0.0, 0.0));
    assert!(checker_white_at(-0.5, -0.5, 0.0));
}

#[test]
fn test_solid_short_circuits() {
    assert!(PatternType::Solid.is_solid());
    assert!(!PatternType::Stripe.is_solid());
    assert!(!PatternType::Solid.is_cell_parity());
}

#[test]
fn test_point_light_casts_hard_shadows() {
    assert!(LightType::PointLight.casts_hard_shadows());
}
