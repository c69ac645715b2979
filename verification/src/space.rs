//! The simulation session: the planet set, the pause flag, the time step
//! and the two viewpoint references, with one method per command.
//!
//! A reload (reset, or load of a persisted buffer) replaces the planet set
//! wholesale and resets both references to their defaults, so a reference
//! can never outlive the planet it names.  Ordinary integration ticks keep
//! the planet count and preserve both references.

use vstd::prelude::*;
use crate::codec::{decode_spec, encode_spec, load, save};
use crate::default_space::{default_planets, get_planets, lemma_default_planets_ok};
use crate::fixed::TIME_STEP_LIMIT;
use crate::physics::{advance_spec, integrate};
use crate::planet::{Planet, check_planets, planets_ok};
use crate::selector::{
    Object, lemma_next_center_ok, lemma_next_rotation_ok, lemma_rotation_skips_center,
    next_center, next_rotation, next_rotation_raw, object_ok, rotation_ok,
};

verus! {

/// The starting time step of a fresh session (0.001 world units).
pub const DEFAULT_TIME_STEP: i64 = 1_000;

/// One simulation session.
pub struct Space {
    /// The current planet set; replaced wholesale, never edited in place.
    pub planets: Vec<Planet>,
    /// While set, ticks do not integrate.
    pub paused: bool,
    /// The fixed time step one tick advances by.
    pub time_step: i64,
    /// What the camera centers on.  Never absent.
    pub centered_at: Object,
    /// What the camera orients toward; `None` means no rotation lock.
    pub rotate_with: Option<Object>,
}

impl Space {
    /// The session invariant: a valid non-empty planet set, a positive
    /// bounded time step, and both references within the set.
    pub open spec fn wf(self) -> bool {
        &&& 1 <= self.planets@.len()
        &&& planets_ok(self.planets@)
        &&& 1 <= self.time_step <= TIME_STEP_LIMIT
        &&& object_ok(self.centered_at, self.planets@.len() as int)
        &&& rotation_ok(self.rotate_with, self.planets@.len() as int)
    }

    /// What a load yields: the decoded set when the buffer is exactly the
    /// encoding of a valid non-empty set, else the default system.
    pub open spec fn loaded_planets(data: Seq<u8>) -> Seq<Planet> {
        match decode_spec(data) {
            Result::Ok(s) => if s.len() >= 1 {
                s
            } else {
                default_planets()
            },
            Result::Err(_) => default_planets(),
        }
    }

    /// Start a session: planets from the saved buffer where one is given
    /// and decodes to a valid non-empty set, else the default system;
    /// paused, at the default time step, centered on the barycenter, with
    /// no rotation lock.
    pub fn new(saved: Option<&Vec<u8>>) -> (s: Space)
        ensures
            s.wf(),
            s.planets@ == match saved {
                Option::Some(d) => Self::loaded_planets(d@),
                Option::None => default_planets(),
            },
            s.paused == true,
            s.time_step == DEFAULT_TIME_STEP,
            s.centered_at == Object::Barycenter,
            s.rotate_with == Option::<Object>::None,
    {
        let planets: Vec<Planet> = match saved {
            Option::Some(d) => Self::decode_or_default(d.as_slice()),
            Option::None => get_planets(),
        };
        proof {
            lemma_default_planets_ok();
        }
        Space {
            planets,
            paused: true,
            time_step: DEFAULT_TIME_STEP,
            centered_at: Object::Barycenter,
            rotate_with: Option::None,
        }
    }

    /// Decode a buffer, falling back to the default system on any failure
    /// or on an empty set.
    fn decode_or_default(data: &[u8]) -> (r: Vec<Planet>)
        ensures
            r@ == Self::loaded_planets(data@),
            planets_ok(r@),
            r@.len() >= 1,
    {
        proof {
            lemma_default_planets_ok();
        }
        match load(data) {
            Result::Ok(p) => {
                if p.len() >= 1 {
                    p
                } else {
                    get_planets()
                }
            },
            Result::Err(_) => get_planets(),
        }
    }

    /// Flip the pause flag.  Nothing else changes.
    pub fn toggle_pause(&mut self)
        ensures
            final(self).paused == !old(self).paused,
            final(self).planets@ == old(self).planets@,
            final(self).time_step == old(self).time_step,
            final(self).centered_at == old(self).centered_at,
            final(self).rotate_with == old(self).rotate_with,
    {
        self.paused = !self.paused;
    }

    /// Double the time step, capped at the admissible limit.
    pub fn double_time_step(&mut self)
        requires
            old(self).wf(),
        ensures
            final(self).wf(),
            final(self).time_step == if 2 * old(self).time_step <= TIME_STEP_LIMIT {
                2 * old(self).time_step
            } else {
                TIME_STEP_LIMIT as int
            },
            final(self).planets@ == old(self).planets@,
            final(self).paused == old(self).paused,
            final(self).centered_at == old(self).centered_at,
            final(self).rotate_with == old(self).rotate_with,
    {
        if self.time_step <= TIME_STEP_LIMIT / 2 {
            self.time_step = self.time_step * 2;
        } else {
            self.time_step = TIME_STEP_LIMIT;
        }
    }

    /// Halve the time step, floored at one fixed-point unit so it stays
    /// positive.
    pub fn halve_time_step(&mut self)
        requires
            old(self).wf(),
        ensures
            final(self).wf(),
            final(self).time_step == if old(self).time_step / 2 >= 1 {
                old(self).time_step / 2
            } else {
                1int
            },
            final(self).planets@ == old(self).planets@,
            final(self).paused == old(self).paused,
            final(self).centered_at == old(self).centered_at,
            final(self).rotate_with == old(self).rotate_with,
    {
        let halved: i64 = ((self.time_step as u64) / 2) as i64;
        if halved >= 1 {
            self.time_step = halved;
        } else {
            self.time_step = 1;
        }
    }

    /// Advance the centering cycle by one step:
    /// barycenter, planet 0, ..., planet n - 1, barycenter again.
    pub fn cycle_center(&mut self)
        requires
            old(self).wf(),
        ensures
            final(self).wf(),
            final(self).centered_at == next_center(
                old(self).centered_at,
                old(self).planets@.len() as int,
            ),
            final(self).planets@ == old(self).planets@,
            final(self).paused == old(self).paused,
            final(self).time_step == old(self).time_step,
            final(self).rotate_with == old(self).rotate_with,
    {
        let n: usize = self.planets.len();
        self.centered_at = match self.centered_at {
            Object::Barycenter => Object::Planet(0),
            Object::Planet(i) => if i < n - 1 {
                Object::Planet(i + 1)
            } else {
                Object::Barycenter
            },
        };
        proof {
            lemma_next_center_ok(old(self).centered_at, old(self).planets@.len() as int);
        }
    }

    /// One raw step of the rotation cycle.
    fn rotation_candidate(r: Option<Object>, n: usize) -> (c: Option<Object>)
        requires
            n >= 1,
            rotation_ok(r, n as int),
        ensures
            c == next_rotation_raw(r, n as int),
    {
        match r {
            Option::None => Option::Some(Object::Barycenter),
            Option::Some(Object::Barycenter) => Option::Some(Object::Planet(0)),
            Option::Some(Object::Planet(i)) => if i + 1 < n {
                Option::Some(Object::Planet(i + 1))
            } else {
                Option::None
            },
        }
    }

    /// Decide whether two references name the same object.
    fn objects_equal(a: Object, b: Object) -> (r: bool)
        ensures
            r == (a == b),
    {
        match (a, b) {
            (Object::Barycenter, Object::Barycenter) => true,
            (Object::Planet(i), Object::Planet(j)) => i == j,
            _ => false,
        }
    }

    /// Advance the rotation cycle by one step, skipping the object the
    /// view is centered on.  Afterward the rotation reference never equals
    /// the center reference.
    pub fn cycle_rotation(&mut self)
        requires
            old(self).wf(),
        ensures
            final(self).wf(),
            final(self).rotate_with == next_rotation(
                old(self).rotate_with,
                old(self).centered_at,
                old(self).planets@.len() as int,
            ),
            final(self).rotate_with != Option::Some(final(self).centered_at),
            final(self).planets@ == old(self).planets@,
            final(self).paused == old(self).paused,
            final(self).time_step == old(self).time_step,
            final(self).centered_at == old(self).centered_at,
    {
        let n: usize = self.planets.len();
        let ghost n_int = n as int;
        let cand: Option<Object> = Self::rotation_candidate(self.rotate_with, n);
        proof {
            lemma_next_rotation_ok(old(self).rotate_with, old(self).centered_at, n_int);
            assert(rotation_ok(next_rotation_raw(old(self).rotate_with, n_int), n_int));
        }
        let hits_center: bool = match cand {
            Option::Some(o) => Self::objects_equal(o, self.centered_at),
            Option::None => false,
        };
        let next: Option<Object> = if hits_center {
            Self::rotation_candidate(cand, n)
        } else {
            cand
        };
        self.rotate_with = next;
        proof {
            lemma_rotation_skips_center(old(self).rotate_with, old(self).centered_at, n_int);
        }
    }

    /// Replace the planet set wholesale — the reload path shared by the
    /// reset and load commands — falling back to the default system when
    /// no set is given or the given one is invalid or empty, and resetting
    /// both references to their defaults.
    pub fn replace_or_default(&mut self, planets: Option<Vec<Planet>>)
        requires
            old(self).wf(),
        ensures
            final(self).wf(),
            final(self).planets@ == match planets {
                Option::Some(p) => if p@.len() >= 1 && planets_ok(p@) {
                    p@
                } else {
                    default_planets()
                },
                Option::None => default_planets(),
            },
            final(self).centered_at == Object::Barycenter,
            final(self).rotate_with == Option::<Object>::None,
            final(self).paused == old(self).paused,
            final(self).time_step == old(self).time_step,
    {
        proof {
            lemma_default_planets_ok();
        }
        match planets {
            Option::Some(p) => {
                if p.len() >= 1 && check_planets(&p) {
                    self.planets = p;
                } else {
                    self.planets = get_planets();
                }
            },
            Option::None => {
                self.planets = get_planets();
            },
        }
        self.centered_at = Object::Barycenter;
        self.rotate_with = Option::None;
    }

    /// The reset command: back to the default system, references reset.
    pub fn reset_default(&mut self)
        requires
            old(self).wf(),
        ensures
            final(self).wf(),
            final(self).planets@ == default_planets(),
            final(self).centered_at == Object::Barycenter,
            final(self).rotate_with == Option::<Object>::None,
            final(self).paused == old(self).paused,
            final(self).time_step == old(self).time_step,
    {
        self.replace_or_default(Option::None);
    }

    /// The load command: replace the planet set from a persisted buffer,
    /// falling back to the default system on any rejected or empty
    /// encoding, and reset both references.  The failure never surfaces.
    pub fn load_planets(&mut self, data: &[u8])
        requires
            old(self).wf(),
        ensures
            final(self).wf(),
            final(self).planets@ == Self::loaded_planets(data@),
            final(self).centered_at == Object::Barycenter,
            final(self).rotate_with == Option::<Object>::None,
            final(self).paused == old(self).paused,
            final(self).time_step == old(self).time_step,
    {
        self.planets = Self::decode_or_default(data);
        self.centered_at = Object::Barycenter;
        self.rotate_with = Option::None;
    }

    /// The save command: serialize the current planet set.  The session —
    /// the planet set included — is only read, never changed.
    pub fn save_planets(&self) -> (r: Vec<u8>)
        requires
            self.wf(),
        ensures
            r@ == encode_spec(self.planets@),
    {
        save(&self.planets)
    }

    /// One scheduler tick: integrate one time step while not paused.
    /// A tick never changes the planet count or either reference.
    pub fn update(&mut self)
        requires
            old(self).wf(),
        ensures
            final(self).wf(),
            old(self).paused ==> final(self).planets@ == old(self).planets@,
            !old(self).paused ==> final(self).planets@ == advance_spec(
                old(self).time_step as int,
                old(self).planets@,
            ),
            final(self).planets@.len() == old(self).planets@.len(),
            final(self).paused == old(self).paused,
            final(self).time_step == old(self).time_step,
            final(self).centered_at == old(self).centered_at,
            final(self).rotate_with == old(self).rotate_with,
    {
        if !self.paused {
            self.planets = integrate(self.time_step, &self.planets);
        }
    }
}

} // verus!
