//! The barycenter calculator and the viewpoint builder.

use quickgrav::default_space::get_planets;
use quickgrav::physics::barycenter;
use quickgrav::planet::{Planet, Vec2};
use quickgrav::space::Space;
use quickgrav::SCALE;

fn planet_at(px: i64, py: i64, mass: i64) -> Planet {
    Planet {
        position: Vec2 { x: px, y: py },
        velocity: Vec2 { x: 0, y: 0 },
        mass,
        color: 0,
    }
}

/// For a two-body system with equal masses, the barycenter is exactly the
/// midpoint.
#[test]
fn barycenter_of_equal_masses_is_the_midpoint() {
    let planets = vec![
        planet_at(SCALE, 2 * SCALE, 7 * SCALE),
        planet_at(5 * SCALE, -4 * SCALE, 7 * SCALE),
    ];
    let b = barycenter(&planets);
    assert_eq!(b.x, 3 * SCALE);
    assert_eq!(b.y, -SCALE);
}

/// The division truncates toward zero on both signs.
#[test]
fn barycenter_midpoint_truncates_toward_zero() {
    let b = barycenter(&vec![planet_at(1, 0, 5), planet_at(2, 0, 5)]);
    assert_eq!(b.x, 1);
    let b = barycenter(&vec![planet_at(-1, 0, 5), planet_at(-2, 0, 5)]);
    assert_eq!(b.x, -1);
}

/// Mass-weighted: the barycenter sits near the heavy body.
#[test]
fn barycenter_of_default_system() {
    let planets = get_planets();
    // sum(mass * x) = 1.5e15, sum(mass) = 2.09e8.
    let b = barycenter(&planets);
    assert_eq!(b.x, 7_177_033);
    assert_eq!(b.y, 0);
}

#[test]
fn barycenter_of_single_planet_is_its_position() {
    let b = barycenter(&vec![planet_at(42, -17, 3)]);
    assert_eq!(b.x, 42);
    assert_eq!(b.y, -17);
}

/// Centered on the barycenter with no rotation lock: the viewpoint is the
/// barycenter and carries no orientation vector.
#[test]
fn viewpoint_defaults_to_barycenter() {
    let space = Space::new(None);
    let v = space.viewpoint();
    assert_eq!(v.center.x, 7_177_033);
    assert_eq!(v.center.y, 0);
    assert_eq!(v.orient, None);
}

/// Centered on a planet: the viewpoint is that planet's position.
#[test]
fn viewpoint_follows_centered_planet() {
    let mut space = Space::new(None);
    // One step centers on planet 0, the central body at the origin.
    space.cycle_center();
    let v = space.viewpoint();
    assert_eq!(v.center.x, 0);
    assert_eq!(v.center.y, 0);
    // One more step centers on planet 1, the innermost orbiter.
    space.cycle_center();
    let v = space.viewpoint();
    assert_eq!(v.center.x, 100 * SCALE);
    assert_eq!(v.center.y, 0);
}

/// With a rotation lock, the viewpoint carries the vector from the center
/// to the lock target, from which the renderer derives the negated angle.
#[test]
fn viewpoint_orientation_vector_points_at_the_target() {
    let mut space = Space::new(None);
    space.cycle_center();
    // Centered on planet 0 at the origin; the first rotation candidate is
    // the barycenter.
    space.cycle_rotation();
    let v = space.viewpoint();
    let d = v.orient.expect("rotation lock is active");
    assert_eq!(d.x, 7_177_033);
    assert_eq!(d.y, 0);
}

#[test]
fn viewpoint_orientation_absent_after_cycling_lock_away() {
    let mut space = Space::new(None);
    // Cycle the rotation lock all the way back to "no lock".
    for _ in 0..5 {
        space.cycle_rotation();
    }
    let v = space.viewpoint();
    assert_eq!(v.orient, None);
    assert_eq!(v.center.x, 7_177_033);
}
