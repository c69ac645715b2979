//! The session commands: pause, time step, reference cycling, reload.

use quickgrav::codec::save;
use quickgrav::default_space::get_planets;
use quickgrav::fixed::TIME_STEP_LIMIT;
use quickgrav::physics::integrate;
use quickgrav::planet::{Planet, Vec2};
use quickgrav::selector::Object;
use quickgrav::space::{DEFAULT_TIME_STEP, Space};

fn one_planet_bytes() -> Vec<u8> {
    let planets = vec![Planet {
        position: Vec2 { x: 0, y: 0 },
        velocity: Vec2 { x: 0, y: 0 },
        mass: 1_000_000,
        color: 0,
    }];
    save(&planets)
}

#[test]
fn new_session_defaults() {
    let space = Space::new(None);
    assert_eq!(space.planets, get_planets());
    assert!(space.paused);
    assert_eq!(space.time_step, DEFAULT_TIME_STEP);
    assert_eq!(space.centered_at, Object::Barycenter);
    assert_eq!(space.rotate_with, None);
}

#[test]
fn toggle_pause_flips_only_the_flag() {
    let mut space = Space::new(None);
    space.toggle_pause();
    assert!(!space.paused);
    space.toggle_pause();
    assert!(space.paused);
    assert_eq!(space.planets, get_planets());
    assert_eq!(space.time_step, DEFAULT_TIME_STEP);
}

#[test]
fn time_step_doubles_and_halves_within_bounds() {
    let mut space = Space::new(None);
    space.double_time_step();
    assert_eq!(space.time_step, 2 * DEFAULT_TIME_STEP);
    space.halve_time_step();
    assert_eq!(space.time_step, DEFAULT_TIME_STEP);

    // Halving floors at one fixed-point unit: the step stays positive.
    for _ in 0..60 {
        space.halve_time_step();
    }
    assert_eq!(space.time_step, 1);

    // Doubling caps at the admissible limit.
    for _ in 0..60 {
        space.double_time_step();
    }
    assert_eq!(space.time_step, TIME_STEP_LIMIT);
}

#[test]
fn paused_tick_is_a_no_op() {
    let mut space = Space::new(None);
    space.update();
    assert_eq!(space.planets, get_planets());
}

#[test]
fn running_tick_integrates_one_step() {
    let mut space = Space::new(None);
    space.toggle_pause();
    space.update();
    assert_eq!(space.planets, integrate(DEFAULT_TIME_STEP, &get_planets()));
    assert_eq!(space.planets[1].velocity.x, -19);
}

/// Ordinary ticks preserve both references.
#[test]
fn ticks_preserve_references() {
    let mut space = Space::new(None);
    space.toggle_pause();
    space.cycle_center();
    space.cycle_rotation();
    let center = space.centered_at;
    let rotation = space.rotate_with;
    for _ in 0..5 {
        space.update();
    }
    assert_eq!(space.centered_at, center);
    assert_eq!(space.rotate_with, rotation);
}

/// Cycling the center on `n` planets exactly `n + 1` times walks through
/// every planet once and returns to the barycenter.
#[test]
fn center_cycle_returns_after_n_plus_one_steps() {
    let mut space = Space::new(None);
    let expected = [
        Object::Planet(0),
        Object::Planet(1),
        Object::Planet(2),
        Object::Planet(3),
        Object::Barycenter,
    ];
    for step in expected {
        space.cycle_center();
        assert_eq!(space.centered_at, step);
    }
}

/// The rotation cycle skips the centered object: with the center on the
/// barycenter, the barycenter entry of the cycle is passed over.
#[test]
fn rotation_cycle_skips_centered_barycenter() {
    let mut space = Space::new(None);
    let expected = [
        Some(Object::Planet(0)),
        Some(Object::Planet(1)),
        Some(Object::Planet(2)),
        Some(Object::Planet(3)),
        None,
        Some(Object::Planet(0)),
    ];
    for step in expected {
        space.cycle_rotation();
        assert_eq!(space.rotate_with, step);
    }
}

/// With the center on planet 0, the rotation cycle offers the barycenter
/// but skips planet 0.
#[test]
fn rotation_cycle_skips_centered_planet() {
    let mut space = Space::new(None);
    space.cycle_center();
    assert_eq!(space.centered_at, Object::Planet(0));
    let expected = [
        Some(Object::Barycenter),
        Some(Object::Planet(1)),
        Some(Object::Planet(2)),
        Some(Object::Planet(3)),
        None,
        Some(Object::Barycenter),
    ];
    for step in expected {
        space.cycle_rotation();
        assert_eq!(space.rotate_with, step);
    }
}

/// After any cycle-rotation command the rotation reference differs from
/// the center reference, wherever the center currently is.
#[test]
fn rotation_never_equals_center() {
    let mut space = Space::new(None);
    for round in 0..40 {
        if round % 3 == 0 {
            space.cycle_center();
        }
        space.cycle_rotation();
        assert_ne!(space.rotate_with, Some(space.centered_at));
    }
}

/// Reloading a smaller system resets both references to their defaults.
#[test]
fn reload_from_four_planets_to_one_resets_references() {
    let mut space = Space::new(None);
    space.cycle_center();
    space.cycle_center();
    space.cycle_rotation();
    assert_eq!(space.centered_at, Object::Planet(1));
    assert!(space.rotate_with.is_some());

    space.load_planets(&one_planet_bytes());
    assert_eq!(space.planets.len(), 1);
    assert_eq!(space.centered_at, Object::Barycenter);
    assert_eq!(space.rotate_with, None);
}

#[test]
fn reset_default_restores_the_default_system_and_references() {
    let mut space = Space::new(None);
    space.load_planets(&one_planet_bytes());
    space.cycle_center();
    space.cycle_rotation();
    space.reset_default();
    assert_eq!(space.planets, get_planets());
    assert_eq!(space.centered_at, Object::Barycenter);
    assert_eq!(space.rotate_with, None);
}

#[test]
fn replace_or_default_falls_back_on_invalid_sets() {
    let mut space = Space::new(None);

    // An empty replacement falls back to the default system.
    space.replace_or_default(Some(Vec::new()));
    assert_eq!(space.planets, get_planets());

    // A replacement with a nonpositive mass falls back too.
    let bad = vec![Planet {
        position: Vec2 { x: 0, y: 0 },
        velocity: Vec2 { x: 0, y: 0 },
        mass: 0,
        color: 0,
    }];
    space.replace_or_default(Some(bad));
    assert_eq!(space.planets, get_planets());

    // A valid replacement is taken as given, and references reset.
    space.cycle_center();
    let good = vec![Planet {
        position: Vec2 { x: 5, y: 6 },
        velocity: Vec2 { x: 7, y: 8 },
        mass: 9,
        color: 10,
    }];
    space.replace_or_default(Some(good.clone()));
    assert_eq!(space.planets, good);
    assert_eq!(space.centered_at, Object::Barycenter);
}
