//! The semi-implicit Euler integrator.

use quickgrav::default_space::get_planets;
use quickgrav::physics::integrate;
use quickgrav::planet::{Planet, Vec2};
use quickgrav::SCALE;

fn planet(px: i64, py: i64, vx: i64, vy: i64, mass: i64) -> Planet {
    Planet {
        position: Vec2 { x: px, y: py },
        velocity: Vec2 { x: vx, y: vy },
        mass,
        color: 0xFFFF_FFFF,
    }
}

fn momentum(planets: &[Planet]) -> (i128, i128) {
    let mut mx: i128 = 0;
    let mut my: i128 = 0;
    for p in planets {
        mx += p.mass as i128 * p.velocity.x as i128;
        my += p.mass as i128 * p.velocity.y as i128;
    }
    (mx, my)
}

/// One small step on the default system: the central body barely moves,
/// every orbiter's velocity change is nonzero and points at the center.
#[test]
fn small_step_on_default_system() {
    let planets = get_planets();
    let next = integrate(1_000, &planets);
    assert_eq!(next.len(), 4);

    // Central body (mass 200, stationary): zero displacement at this step.
    assert_eq!(next[0].position.x, 0);
    assert_eq!(next[0].position.y, 0);
    assert_eq!(next[0].velocity.x, 0);
    assert_eq!(next[0].velocity.y, 0);

    // Orbiters: velocity change nonzero, directed toward the central body
    // (negative x), tangential speed carried through.
    assert_eq!(next[1].velocity.x, -19);
    assert_eq!(next[2].velocity.x, -5);
    assert_eq!(next[3].velocity.x, -2);
    for i in 1..4 {
        assert!(next[i].velocity.x < 0);
        assert_eq!(next[i].velocity.y, planets[i].velocity.y);
    }

    // Positions move with the new velocity.
    assert_eq!(next[1].position.x, 100 * SCALE);
    assert_eq!(next[1].position.y, 1_300);
    assert_eq!(next[2].position.y, 1_100);
    assert_eq!(next[3].position.y, 900);

    // Mass and color pass through unchanged.
    for i in 0..4 {
        assert_eq!(next[i].mass, planets[i].mass);
        assert_eq!(next[i].color, planets[i].color);
    }
}

/// Relabeling the planet order relabels the advanced set the same way,
/// so the total momentum after a step does not depend on the order.
#[test]
fn momentum_unchanged_by_relabeling() {
    let planets = get_planets();
    let mut reversed = planets.clone();
    reversed.reverse();

    let next = integrate(1_000, &planets);
    let next_rev = integrate(1_000, &reversed);

    let mut next_rev_back = next_rev.clone();
    next_rev_back.reverse();
    assert_eq!(next, next_rev_back);
    assert_eq!(momentum(&next), momentum(&next_rev));
}

/// One step at `dt` and two steps at `dt / 2` stay close: the first-order
/// scheme is numerically consistent.
#[test]
fn halved_step_converges_to_same_trajectory() {
    let planets = get_planets();
    let coarse = integrate(1_000, &planets);
    let fine = integrate(500, &integrate(500, &planets));

    for i in 0..4 {
        assert!((coarse[i].velocity.x - fine[i].velocity.x).abs() <= 2);
        assert!((coarse[i].velocity.y - fine[i].velocity.y).abs() <= 2);
        assert!((coarse[i].position.x - fine[i].position.x).abs() <= 700);
        assert!((coarse[i].position.y - fine[i].position.y).abs() <= 700);
    }
}

/// Two planets at exactly the same position exert no force on each other:
/// the documented degenerate-geometry policy, instead of undefined math.
#[test]
fn coincident_planets_exert_no_force() {
    let planets = vec![planet(0, 0, 0, 0, SCALE), planet(0, 0, 0, 0, SCALE)];
    let next = integrate(1_000, &planets);
    assert_eq!(next[0], planets[0]);
    assert_eq!(next[1], planets[1]);
}

/// A symmetric pair attracts symmetrically.
#[test]
fn symmetric_pair_attracts_symmetrically() {
    let planets = vec![
        planet(-100 * SCALE, 0, 0, 0, 10 * SCALE),
        planet(100 * SCALE, 0, 0, 0, 10 * SCALE),
    ];
    let next = integrate(1_000_000, &planets);
    assert!(next[0].velocity.x > 0);
    assert!(next[1].velocity.x < 0);
    assert_eq!(next[0].velocity.x, -next[1].velocity.x);
    assert_eq!(next[0].velocity.y, 0);
    assert_eq!(next[1].velocity.y, 0);
}
