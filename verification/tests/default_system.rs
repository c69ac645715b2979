//! The default system generator.

use quickgrav::default_space::{COLOR_BLUE, COLOR_CYAN, COLOR_GREEN, COLOR_RED, get_planets};
use quickgrav::SCALE;

#[test]
fn default_system_has_four_planets() {
    let planets = get_planets();
    assert_eq!(planets.len(), 4);
}

#[test]
fn default_central_body_is_massive_and_stationary() {
    let planets = get_planets();
    let central = planets[0];
    assert_eq!(central.mass, 200 * SCALE);
    assert_eq!(central.position.x, 0);
    assert_eq!(central.position.y, 0);
    assert_eq!(central.velocity.x, 0);
    assert_eq!(central.velocity.y, 0);
    assert_eq!(central.color, COLOR_RED);
}

#[test]
fn default_orbiters_at_increasing_radii_with_decreasing_speed() {
    let planets = get_planets();

    assert_eq!(planets[1].position.x, 100 * SCALE);
    assert_eq!(planets[1].velocity.y, 1_300_000);
    assert_eq!(planets[1].mass, 5 * SCALE);
    assert_eq!(planets[1].color, COLOR_GREEN);

    assert_eq!(planets[2].position.x, 200 * SCALE);
    assert_eq!(planets[2].velocity.y, 1_100_000);
    assert_eq!(planets[2].mass, 2 * SCALE);
    assert_eq!(planets[2].color, COLOR_BLUE);

    assert_eq!(planets[3].position.x, 300 * SCALE);
    assert_eq!(planets[3].velocity.y, 900_000);
    assert_eq!(planets[3].mass, 2 * SCALE);
    assert_eq!(planets[3].color, COLOR_CYAN);

    for i in 1..4 {
        assert_eq!(planets[i].position.y, 0);
        assert_eq!(planets[i].velocity.x, 0);
    }
}
