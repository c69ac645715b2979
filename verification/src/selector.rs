//! The reference selector: the state machine that cycles through what the
//! camera centers on (`centered_at`) and what it orients toward
//! (`rotate_with`), with a mutual-exclusion rule between the two.

use vstd::prelude::*;

verus! {

/// A tagged reference to either the barycenter of the planet set or the
/// planet at a given index.
#[derive(Clone, Copy, Debug, PartialEq, Eq, Structural)]
pub enum Object {
    Barycenter,
    Planet(usize),
}

/// The reference points within a planet set of length `n`.
pub open spec fn object_ok(o: Object, n: int) -> bool {
    match o {
        Object::Barycenter => true,
        Object::Planet(i) => i < n,
    }
}

/// An optional reference points within a planet set of length `n`.
pub open spec fn rotation_ok(r: Option<Object>, n: int) -> bool {
    match r {
        Option::None => true,
        Option::Some(o) => object_ok(o, n),
    }
}

/// The next value of the centering cycle over `n` planets:
/// `Barycenter -> Planet(0) -> ... -> Planet(n - 1) -> Barycenter`.
pub open spec fn next_center(c: Object, n: int) -> Object {
    match c {
        Object::Barycenter => Object::Planet(0),
        Object::Planet(i) => if i + 1 < n {
            Object::Planet((i + 1) as usize)
        } else {
            Object::Barycenter
        },
    }
}

/// One step of the raw rotation cycle over `n` planets:
/// `None -> Some(Barycenter) -> Some(Planet(0)) -> ... -> Some(Planet(n - 1)) -> None`.
pub open spec fn next_rotation_raw(r: Option<Object>, n: int) -> Option<Object> {
    match r {
        Option::None => Option::Some(Object::Barycenter),
        Option::Some(Object::Barycenter) => if n >= 1 {
            Option::Some(Object::Planet(0))
        } else {
            Option::None
        },
        Option::Some(Object::Planet(i)) => if i + 1 < n {
            Option::Some(Object::Planet((i + 1) as usize))
        } else {
            Option::None
        },
    }
}

/// The next value of the rotation cycle, skipping the object the view is
/// centered on: after computing the raw successor, a candidate equal to
/// `Some(c)` is advanced once more before committing.
pub open spec fn next_rotation(r: Option<Object>, c: Object, n: int) -> Option<Object> {
    let cand = next_rotation_raw(r, n);
    if cand == Option::Some(c) {
        next_rotation_raw(cand, n)
    } else {
        cand
    }
}

/// The raw cycle never repeats a value in a single step, so the single
/// extra step always suffices: a cycle-rotation command never lands the
/// rotation reference on the centered object.
pub proof fn lemma_rotation_skips_center(r: Option<Object>, c: Object, n: int)
    requires
        1 <= n <= usize::MAX,
    ensures
        next_rotation(r, c, n) != Option::Some(c),
{
    let cand = next_rotation_raw(r, n);
    if cand == Option::Some(c) {
        match c {
            Object::Barycenter => {
                assert(next_rotation_raw(cand, n) == Option::Some(Object::Planet(0)));
            },
            Object::Planet(i) => {
                if i + 1 < n {
                    assert((i + 1) as usize != i);
                }
            },
        }
    }
}

/// Cycling keeps the center reference within the planet set.
pub proof fn lemma_next_center_ok(c: Object, n: int)
    requires
        n >= 1,
        object_ok(c, n),
    ensures
        object_ok(next_center(c, n), n),
{
}

/// Cycling keeps the rotation reference within the planet set.
pub proof fn lemma_next_rotation_ok(r: Option<Object>, c: Object, n: int)
    requires
        n >= 1,
        rotation_ok(r, n),
    ensures
        rotation_ok(next_rotation(r, c, n), n),
{
}

/// `k` steps of the centering cycle over `n` planets.
pub open spec fn cycle_center_times(c: Object, n: int, k: nat) -> Object
    decreases k,
{
    if k == 0 {
        c
    } else {
        next_center(cycle_center_times(c, n, (k - 1) as nat), n)
    }
}

/// For `1 <= k <= n`, `k` steps from the barycenter reach planet `k - 1`.
proof fn lemma_cycle_center_prefix(n: int, k: nat)
    requires
        1 <= n <= usize::MAX,
        1 <= k <= n,
    ensures
        cycle_center_times(Object::Barycenter, n, k) == Object::Planet((k - 1) as usize),
    decreases k,
{
    if k == 1 {
        assert(cycle_center_times(Object::Barycenter, n, 0) == Object::Barycenter);
    } else {
        lemma_cycle_center_prefix(n, (k - 1) as nat);
        let prev = cycle_center_times(Object::Barycenter, n, (k - 1) as nat);
        assert(prev == Object::Planet((k - 2) as usize));
        assert((k - 2) as usize + 1 == k - 1);
    }
}

/// Cycling the center exactly `n + 1` times from the barycenter walks
/// through every planet once and returns to the barycenter.
pub proof fn lemma_cycle_center_round_trip(n: int)
    requires
        1 <= n <= usize::MAX,
    ensures
        cycle_center_times(Object::Barycenter, n, (n + 1) as nat) == Object::Barycenter,
{
    lemma_cycle_center_prefix(n, n as nat);
}

} // verus!
