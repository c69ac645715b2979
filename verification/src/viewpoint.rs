//! The viewpoint builder: composes the center reference, the rotation
//! reference and the planet set into the values the renderer needs.
//!
//! The renderer is expected to turn `orient` into an orientation angle —
//! the *negated* angle of the vector, which cancels the target's apparent
//! rotation and keeps it at a fixed bearing — and to apply a rotation by
//! that angle composed with a translation by the negated center to all
//! world-space content, leaving the viewport rectangle itself untouched.

use vstd::prelude::*;
use crate::physics::{barycenter, barycenter_spec};
use crate::planet::{Planet, Vec2, planets_ok, scalar_ok};
use crate::selector::Object;
use crate::space::Space;

verus! {

/// The derived viewpoint: the world point the camera centers on and, when
/// a rotation lock is active, the vector from that center to the resolved
/// lock target.
#[derive(Clone, Copy, PartialEq, Eq, Structural, Debug)]
pub struct Viewpoint {
    pub center: Vec2,
    pub orient: Option<Vec2>,
}

/// The world position a reference resolves to: the barycenter, or the
/// referenced planet's position.
pub open spec fn resolve_spec(o: Object, s: Seq<Planet>) -> (int, int) {
    match o {
        Object::Barycenter => barycenter_spec(s),
        Object::Planet(i) => (s[i as int].position.x as int, s[i as int].position.y as int),
    }
}

/// Resolve a reference to a world position.
fn resolve(o: Object, planets: &Vec<Planet>, bary: Vec2) -> (r: Vec2)
    requires
        planets@.len() >= 1,
        planets_ok(planets@),
        match o {
            Object::Barycenter => true,
            Object::Planet(i) => i < planets@.len(),
        },
        bary.x as int == barycenter_spec(planets@).0,
        bary.y as int == barycenter_spec(planets@).1,
        scalar_ok(bary.x as int),
        scalar_ok(bary.y as int),
    ensures
        r.x as int == resolve_spec(o, planets@).0,
        r.y as int == resolve_spec(o, planets@).1,
        scalar_ok(r.x as int),
        scalar_ok(r.y as int),
{
    match o {
        Object::Barycenter => bary,
        Object::Planet(i) => planets[i].position,
    }
}

impl Space {
    /// Derive the viewpoint of the current state: the resolved center and,
    /// when a rotation lock is active, the vector from the center to the
    /// resolved lock target.
    pub fn viewpoint(&self) -> (v: Viewpoint)
        requires
            self.wf(),
        ensures
            v.center.x as int == resolve_spec(self.centered_at, self.planets@).0,
            v.center.y as int == resolve_spec(self.centered_at, self.planets@).1,
            match (v.orient, self.rotate_with) {
                (Option::Some(d), Option::Some(t)) => {
                    &&& d.x as int == resolve_spec(t, self.planets@).0 - resolve_spec(
                        self.centered_at,
                        self.planets@,
                    ).0
                    &&& d.y as int == resolve_spec(t, self.planets@).1 - resolve_spec(
                        self.centered_at,
                        self.planets@,
                    ).1
                },
                (Option::None, Option::None) => true,
                _ => false,
            },
    {
        let bary: Vec2 = barycenter(&self.planets);
        let center: Vec2 = resolve(self.centered_at, &self.planets, bary);
        let orient: Option<Vec2> = match self.rotate_with {
            Option::None => Option::None,
            Option::Some(t) => {
                let target: Vec2 = resolve(t, &self.planets, bary);
                Option::Some(Vec2::new(target.x - center.x, target.y - center.y))
            },
        };
        Viewpoint { center, orient }
    }
}

} // verus!
