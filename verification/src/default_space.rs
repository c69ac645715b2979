//! The canonical starting configuration: one massive central body and three
//! light bodies at increasing radii with decreasing tangential speed.  It is
//! used at startup and whenever no valid persisted state exists.

use vstd::prelude::*;
use crate::fixed::SCALE;
use crate::planet::{Planet, Vec2, planets_ok};

verus! {

/// Opaque display color of the central body (red).
pub const COLOR_RED: u32 = 0xFF00_00FF;

/// Opaque display color of the innermost light body (green).
pub const COLOR_GREEN: u32 = 0x00FF_00FF;

/// Opaque display color of the middle light body (blue).
pub const COLOR_BLUE: u32 = 0x0000_FFFF;

/// Opaque display color of the outermost light body (cyan).
pub const COLOR_CYAN: u32 = 0x00FF_FFFF;

/// The default system as a sequence: a stationary central body of mass 200
/// at the origin, and three orbiters at radii 100, 200 and 300 with upward
/// tangential speeds 1.3, 1.1 and 0.9 (world units; stored fixed-point).
pub open spec fn default_planets() -> Seq<Planet> {
    seq![
        (Planet {
            position: Vec2 { x: 0, y: 0 },
            velocity: Vec2 { x: 0, y: 0 },
            mass: 200_000_000,
            color: COLOR_RED,
        }),
        (Planet {
            position: Vec2 { x: 100_000_000, y: 0 },
            velocity: Vec2 { x: 0, y: 1_300_000 },
            mass: 5_000_000,
            color: COLOR_GREEN,
        }),
        (Planet {
            position: Vec2 { x: 200_000_000, y: 0 },
            velocity: Vec2 { x: 0, y: 1_100_000 },
            mass: 2_000_000,
            color: COLOR_BLUE,
        }),
        (Planet {
            position: Vec2 { x: 300_000_000, y: 0 },
            velocity: Vec2 { x: 0, y: 900_000 },
            mass: 2_000_000,
            color: COLOR_CYAN,
        }),
    ]
}

/// The default system is a valid, non-empty planet set.
pub proof fn lemma_default_planets_ok()
    ensures
        planets_ok(default_planets()),
        default_planets().len() == 4,
{
}

/// Build the default system.
pub fn get_planets() -> (r: Vec<Planet>)
    ensures
        r@ == default_planets(),
{
    let mut planets: Vec<Planet> = Vec::new();

    let planet = Planet {
        position: Vec2::new(0, 0),
        velocity: Vec2::new(0, 0),
        mass: 200 * SCALE,
        color: COLOR_RED,
    };
    planets.push(planet);

    let planet = Planet {
        position: Vec2::new(100 * SCALE, 0),
        velocity: Vec2::new(0, 1_300_000),
        mass: 5 * SCALE,
        color: COLOR_GREEN,
    };
    planets.push(planet);

    let planet = Planet {
        position: Vec2::new(200 * SCALE, 0),
        velocity: Vec2::new(0, 1_100_000),
        mass: 2 * SCALE,
        color: COLOR_BLUE,
    };
    planets.push(planet);

    let planet = Planet {
        position: Vec2::new(300 * SCALE, 0),
        velocity: Vec2::new(0, 900_000),
        mass: 2 * SCALE,
        color: COLOR_CYAN,
    };
    planets.push(planet);

    proof {
        assert(planets@ =~= default_planets());
    }
    planets
}

} // verus!
