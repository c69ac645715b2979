//! The planet model: a two-component vector, one gravitating body, and the
//! validity conditions the engine maintains for whole planet sets.

use vstd::prelude::*;
use crate::fixed::COORD_LIMIT;
use crate::fixed::MASS_LIMIT;
use crate::fixed::MAX_PLANETS;

verus! {

/// A two-component fixed-point vector in world coordinates.
#[derive(Clone, Copy, PartialEq, Eq, Structural, Debug)]
pub struct Vec2 {
    pub x: i64,
    pub y: i64,
}

impl Vec2 {
    /// Build a vector from its components.
    pub fn new(x: i64, y: i64) -> (v: Vec2)
        ensures
            v == (Vec2 { x, y }),
    {
        Vec2 { x, y }
    }
}

/// One gravitating body.  `mass` is a positive fixed-point scalar; `color`
/// is an opaque display attribute that the physics carries through
/// unchanged (one byte per red, green, blue and alpha channel).
#[derive(Clone, Copy, PartialEq, Eq, Structural, Debug)]
pub struct Planet {
    pub position: Vec2,
    pub velocity: Vec2,
    pub mass: i64,
    pub color: u32,
}

/// A position or velocity component within the world box.
pub open spec fn scalar_ok(x: int) -> bool {
    -COORD_LIMIT <= x <= COORD_LIMIT
}

/// A planet the engine accepts: positive bounded mass and bounded
/// position and velocity components.
pub open spec fn planet_ok(p: Planet) -> bool {
    &&& 0 < p.mass <= MASS_LIMIT
    &&& scalar_ok(p.position.x as int)
    &&& scalar_ok(p.position.y as int)
    &&& scalar_ok(p.velocity.x as int)
    &&& scalar_ok(p.velocity.y as int)
}

/// A planet set the engine accepts.
pub open spec fn planets_ok(s: Seq<Planet>) -> bool {
    &&& s.len() <= MAX_PLANETS
    &&& forall|i: int| 0 <= i < s.len() ==> planet_ok(#[trigger] s[i])
}

/// Decide whether one planet is acceptable.
pub fn check_planet(p: &Planet) -> (r: bool)
    ensures
        r == planet_ok(*p),
{
    0 < p.mass && p.mass <= MASS_LIMIT && -COORD_LIMIT <= p.position.x
        && p.position.x <= COORD_LIMIT && -COORD_LIMIT <= p.position.y
        && p.position.y <= COORD_LIMIT && -COORD_LIMIT <= p.velocity.x
        && p.velocity.x <= COORD_LIMIT && -COORD_LIMIT <= p.velocity.y
        && p.velocity.y <= COORD_LIMIT
}

/// Decide whether a whole planet set is acceptable.
pub fn check_planets(planets: &Vec<Planet>) -> (r: bool)
    ensures
        r == planets_ok(planets@),
{
    if planets.len() > MAX_PLANETS {
        return false;
    }
    let mut i: usize = 0;
    while i < planets.len()
        invariant
            i <= planets@.len(),
            planets@.len() <= MAX_PLANETS,
            forall|k: int| 0 <= k < i ==> planet_ok(#[trigger] planets@[k]),
        decreases planets@.len() - i,
    {
        if !check_planet(&planets[i]) {
            return false;
        }
        i += 1;
    }
    true
}

} // verus!
