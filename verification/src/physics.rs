//! The integrator and the barycenter calculator.
//!
//! `integrate` advances a planet set by one time step of semi-implicit
//! Euler: every planet's velocity moves first, under the summed pairwise
//! gravitational acceleration, and its position then moves with the new
//! velocity.  `barycenter` derives the mass-weighted average position.
//!
//! Degenerate geometry is handled explicitly rather than left undefined:
//! a pair of planets at exactly coincident positions exerts no force on
//! each other, and updated components are clamped into the world box.

use vstd::prelude::*;
use crate::fixed::{
    COORD_LIMIT, MASS_LIMIT, SCALE, TIME_STEP_LIMIT, clamp, is_sqrt, isqrt, lemma_sqrt_le,
    lemma_tdiv_bound, lemma_tdiv_cancel, sqrt_of, tdiv, tdiv_i128,
};
use crate::planet::{Planet, Vec2, planet_ok, planets_ok, scalar_ok};

verus! {

/// Largest magnitude one pairwise contribution can have.
pub open spec fn contrib_limit() -> int {
    (MASS_LIMIT as int) * (SCALE as int) * (SCALE as int)
}

/// The acceleration planet `p` receives from planet `q`: the unit vector
/// toward `q` times `mass(q) / distance^2`, in fixed-point arithmetic.
/// A coincident pair contributes nothing.
pub open spec fn attraction(p: Planet, q: Planet) -> (int, int) {
    let dx = q.position.x - p.position.x;
    let dy = q.position.y - p.position.y;
    let d2 = dx * dx + dy * dy;
    if d2 == 0 {
        (0, 0)
    } else {
        let len = sqrt_of(d2);
        let ux = tdiv(dx * SCALE, len);
        let uy = tdiv(dy * SCALE, len);
        let size = tdiv(q.mass * SCALE * SCALE, d2);
        (tdiv(ux * size, SCALE as int), tdiv(uy * size, SCALE as int))
    }
}

/// Sum of the contributions of a sequence of attractors on `p`.
pub open spec fn contrib_sum(p: Planet, others: Seq<Planet>) -> (int, int)
    decreases others.len(),
{
    if others.len() == 0 {
        (0, 0)
    } else {
        let rest = contrib_sum(p, others.drop_last());
        let c = attraction(p, others.last());
        (rest.0 + c.0, rest.1 + c.1)
    }
}

/// Acceleration of the planet at index `i`: the contributions of all the
/// other planets, the planet itself excluded.
pub open spec fn accel(s: Seq<Planet>, i: int) -> (int, int) {
    contrib_sum(s[i], s.remove(i))
}

/// One semi-implicit Euler step of a single planet under acceleration `a`:
/// the velocity moves first, the position then moves with the **new**
/// velocity; both are clamped into the world box.  Mass and color pass
/// through unchanged.
pub open spec fn step_planet(dt: int, p: Planet, a: (int, int)) -> Planet {
    let vx = clamp(p.velocity.x + tdiv(a.0 * dt, SCALE as int), COORD_LIMIT as int);
    let vy = clamp(p.velocity.y + tdiv(a.1 * dt, SCALE as int), COORD_LIMIT as int);
    let px = clamp(p.position.x + tdiv(vx * dt, SCALE as int), COORD_LIMIT as int);
    let py = clamp(p.position.y + tdiv(vy * dt, SCALE as int), COORD_LIMIT as int);
    Planet {
        position: Vec2 { x: px as i64, y: py as i64 },
        velocity: Vec2 { x: vx as i64, y: vy as i64 },
        mass: p.mass,
        color: p.color,
    }
}

/// The planet set advanced by one time step.
pub open spec fn advance_spec(dt: int, s: Seq<Planet>) -> Seq<Planet> {
    Seq::new(s.len(), |i: int| step_planet(dt, s[i], accel(s, i)))
}

/// The loop's view of [`accel`]: contributions of the first `k` planets
/// only, the planet at `i` excluded.
pub open spec fn prefix_accel(s: Seq<Planet>, i: int, k: int) -> (int, int)
    decreases k,
{
    if k <= 0 {
        (0, 0)
    } else {
        let rest = prefix_accel(s, i, k - 1);
        if k - 1 == i {
            rest
        } else {
            let c = attraction(s[i], s[k - 1]);
            (rest.0 + c.0, rest.1 + c.1)
        }
    }
}

/// Relates the prefix sums to [`contrib_sum`] over the prefix with the
/// planet at `i` taken out.
proof fn lemma_prefix_accel(s: Seq<Planet>, i: int, k: int)
    requires
        0 <= i < s.len(),
        0 <= k <= s.len(),
    ensures
        prefix_accel(s, i, k) == contrib_sum(
            s[i],
            if k <= i {
                s.subrange(0, k)
            } else {
                s.subrange(0, k).remove(i)
            },
        ),
    decreases k,
{
    if k > 0 {
        lemma_prefix_accel(s, i, k - 1);
        if k - 1 < i {
            assert(s.subrange(0, k).drop_last() =~= s.subrange(0, k - 1));
            assert(s.subrange(0, k).last() == s[k - 1]);
        } else if k - 1 == i {
            assert(s.subrange(0, k).remove(i) =~= s.subrange(0, k - 1));
        } else {
            let t = s.subrange(0, k).remove(i);
            assert(t.drop_last() =~= s.subrange(0, k - 1).remove(i));
            assert(t.last() == s[k - 1]);
        }
    }
}

/// The full prefix sum is the acceleration.
proof fn lemma_prefix_accel_full(s: Seq<Planet>, i: int)
    requires
        0 <= i < s.len(),
    ensures
        prefix_accel(s, i, s.len() as int) == accel(s, i),
{
    lemma_prefix_accel(s, i, s.len() as int);
    assert(s.subrange(0, s.len() as int) =~= s);
}

/// Clamp a wide intermediate into the coordinate range.
fn clamp_coord(a: i128) -> (r: i64)
    ensures
        r as int == clamp(a as int, COORD_LIMIT as int),
{
    if a > COORD_LIMIT as i128 {
        COORD_LIMIT
    } else if a < -(COORD_LIMIT as i128) {
        -COORD_LIMIT
    } else {
        a as i64
    }
}

/// The acceleration `p` receives from `q`, computed as [`attraction`] states
/// it and bounded by [`contrib_limit`].
fn accel_contribution(p: &Planet, q: &Planet) -> (c: (i128, i128))
    requires
        planet_ok(*p),
        planet_ok(*q),
    ensures
        c.0 as int == attraction(*p, *q).0,
        c.1 as int == attraction(*p, *q).1,
        -contrib_limit() <= c.0 as int <= contrib_limit(),
        -contrib_limit() <= c.1 as int <= contrib_limit(),
{
    let dx: i128 = q.position.x as i128 - p.position.x as i128;
    let dy: i128 = q.position.y as i128 - p.position.y as i128;
    proof {
        assert(dx * dx >= 0 && dx * dx <= 0x100000000000000000000000000int
            && dy * dy >= 0 && dy * dy <= 0x100000000000000000000000000int) by (nonlinear_arith)
            requires
                -20_000_000_000_000 <= dx <= 20_000_000_000_000,
                -20_000_000_000_000 <= dy <= 20_000_000_000_000,
        ;
    }
    let d2: i128 = dx * dx + dy * dy;
    if d2 == 0 {
        (0i128, 0i128)
    } else {
        let len_u: u64 = isqrt(d2 as u128);
        let len: i128 = len_u as i128;
        proof {
            assert(is_sqrt(d2 as int, len as int));
            assert(len as int >= 1) by (nonlinear_arith)
                requires
                    is_sqrt(d2 as int, len as int),
                    d2 as int >= 1,
            ;
            assert(dx * dx <= d2 && dy * dy <= d2);
            assert((-(dx as int)) * (-(dx as int)) == (dx as int) * (dx as int)
                && (-(dy as int)) * (-(dy as int)) == (dy as int) * (dy as int))
                by (nonlinear_arith);
            if dx >= 0 {
                lemma_sqrt_le(dx as int, d2 as int);
            } else {
                lemma_sqrt_le(-(dx as int), d2 as int);
            }
            if dy >= 0 {
                lemma_sqrt_le(dy as int, d2 as int);
            } else {
                lemma_sqrt_le(-(dy as int), d2 as int);
            }
            assert(-(len as int) <= dx as int <= len as int);
            assert(-(len as int) * (SCALE as int) <= (dx as int) * (SCALE as int)
                <= (len as int) * (SCALE as int)) by (nonlinear_arith)
                requires
                    -(len as int) <= dx as int <= len as int,
                    SCALE as int >= 1,
            ;
            assert(-(len as int) * (SCALE as int) <= (dy as int) * (SCALE as int)
                <= (len as int) * (SCALE as int)) by (nonlinear_arith)
                requires
                    -(len as int) <= dy as int <= len as int,
                    SCALE as int >= 1,
            ;
            lemma_tdiv_bound((dx as int) * (SCALE as int), len as int, SCALE as int);
            lemma_tdiv_bound((dy as int) * (SCALE as int), len as int, SCALE as int);
        }
        let ux: i128 = tdiv_i128(dx * (SCALE as i128), len);
        let uy: i128 = tdiv_i128(dy * (SCALE as i128), len);
        let num: i128 = (q.mass as i128) * (SCALE as i128) * (SCALE as i128);
        proof {
            assert(0 < num <= contrib_limit()) by (nonlinear_arith)
                requires
                    0 < q.mass as int <= MASS_LIMIT as int,
                    num == (q.mass as int) * (SCALE as int) * (SCALE as int),
                    contrib_limit() == (MASS_LIMIT as int) * (SCALE as int) * (SCALE as int),
                    SCALE == 1_000_000i64,
            ;
            assert(num <= num * d2) by (nonlinear_arith)
                requires
                    num > 0,
                    d2 >= 1,
            ;
            lemma_tdiv_bound(num as int, d2 as int, num as int);
        }
        let size: i128 = tdiv_i128(num, d2);
        proof {
            assert(tdiv(num as int, d2 as int) >= 0);
            assert(-(contrib_limit() * (SCALE as int)) <= (ux as int) * (size as int)
                <= contrib_limit() * (SCALE as int)) by (nonlinear_arith)
                requires
                    -(SCALE as int) <= ux as int <= SCALE as int,
                    0 <= size as int <= contrib_limit(),
            ;
            lemma_tdiv_bound((ux as int) * (size as int), SCALE as int, contrib_limit());
            assert(-(contrib_limit() * (SCALE as int)) <= (uy as int) * (size as int)
                <= contrib_limit() * (SCALE as int)) by (nonlinear_arith)
                requires
                    -(SCALE as int) <= uy as int <= SCALE as int,
                    0 <= size as int <= contrib_limit(),
            ;
            lemma_tdiv_bound((uy as int) * (size as int), SCALE as int, contrib_limit());
        }
        let cx: i128 = tdiv_i128(ux * size, SCALE as i128);
        let cy: i128 = tdiv_i128(uy * size, SCALE as i128);
        (cx, cy)
    }
}

/// Advance the planet set by one fixed time step of semi-implicit Euler.
/// Pure: the input set is untouched and the result is a full new set.
pub fn integrate(time_step: i64, planets: &Vec<Planet>) -> (r: Vec<Planet>)
    requires
        0 < time_step <= TIME_STEP_LIMIT,
        planets_ok(planets@),
    ensures
        r@ == advance_spec(time_step as int, planets@),
        r@.len() == planets@.len(),
        planets_ok(r@),
{
    let ghost s = planets@;
    let ghost dt = time_step as int;
    let n: usize = planets.len();
    let mut new_planets: Vec<Planet> = Vec::new();
    let mut i: usize = 0;
    while i < n
        invariant
            n == s.len(),
            s == planets@,
            dt == time_step as int,
            0 < time_step <= TIME_STEP_LIMIT,
            planets_ok(s),
            i <= n,
            new_planets@.len() == i,
            forall|k: int| 0 <= k < i ==> new_planets@[k] == step_planet(dt, s[k], accel(s, k)),
            forall|k: int| 0 <= k < i ==> planet_ok(#[trigger] new_planets@[k]),
        decreases n - i,
    {
        let mut ax: i128 = 0;
        let mut ay: i128 = 0;
        let mut j: usize = 0;
        while j < n
            invariant
                n == s.len(),
                s == planets@,
                planets_ok(s),
                i < n,
                j <= n,
                ax as int == prefix_accel(s, i as int, j as int).0,
                ay as int == prefix_accel(s, i as int, j as int).1,
                -((j as int) * contrib_limit()) <= ax as int <= (j as int) * contrib_limit(),
                -((j as int) * contrib_limit()) <= ay as int <= (j as int) * contrib_limit(),
            decreases n - j,
        {
            if i != j {
                let c = accel_contribution(&planets[i], &planets[j]);
                proof {
                    assert((j as int + 1) * contrib_limit() == (j as int) * contrib_limit()
                        + contrib_limit()) by (nonlinear_arith);
                    assert((j as int) * contrib_limit() <= 65535 * contrib_limit())
                        by (nonlinear_arith)
                        requires
                            0 <= j as int <= 65535,
                            contrib_limit() > 0,
                    ;
                }
                ax = ax + c.0;
                ay = ay + c.1;
            } else {
                proof {
                    assert((j as int + 1) * contrib_limit() >= (j as int) * contrib_limit())
                        by (nonlinear_arith)
                        requires
                            contrib_limit() > 0,
                    ;
                }
            }
            j += 1;
        }
        proof {
            lemma_prefix_accel_full(s, i as int);
            assert((j as int) * contrib_limit() <= 65536 * contrib_limit()) by (nonlinear_arith)
                requires
                    0 <= j as int <= 65536,
                    contrib_limit() > 0,
            ;
            assert(-(65536 * contrib_limit() * (TIME_STEP_LIMIT as int))
                <= (ax as int) * (time_step as int)
                <= 65536 * contrib_limit() * (TIME_STEP_LIMIT as int)) by (nonlinear_arith)
                requires
                    -(65536 * contrib_limit()) <= ax as int <= 65536 * contrib_limit(),
                    0 < time_step as int <= TIME_STEP_LIMIT as int,
                    contrib_limit() > 0,
            ;
            assert(-(65536 * contrib_limit() * (TIME_STEP_LIMIT as int))
                <= (ay as int) * (time_step as int)
                <= 65536 * contrib_limit() * (TIME_STEP_LIMIT as int)) by (nonlinear_arith)
                requires
                    -(65536 * contrib_limit()) <= ay as int <= 65536 * contrib_limit(),
                    0 < time_step as int <= TIME_STEP_LIMIT as int,
                    contrib_limit() > 0,
            ;
            lemma_tdiv_bound(
                (ax as int) * (time_step as int),
                SCALE as int,
                65536 * contrib_limit() * (TIME_STEP_LIMIT as int),
            );
            lemma_tdiv_bound(
                (ay as int) * (time_step as int),
                SCALE as int,
                65536 * contrib_limit() * (TIME_STEP_LIMIT as int),
            );
        }
        let dvx: i128 = tdiv_i128(ax * (time_step as i128), SCALE as i128);
        let dvy: i128 = tdiv_i128(ay * (time_step as i128), SCALE as i128);
        let p: Planet = planets[i];
        let vx: i64 = clamp_coord(p.velocity.x as i128 + dvx);
        let vy: i64 = clamp_coord(p.velocity.y as i128 + dvy);
        proof {
            assert(-((COORD_LIMIT as int) * (TIME_STEP_LIMIT as int))
                <= (vx as int) * (time_step as int)
                <= (COORD_LIMIT as int) * (TIME_STEP_LIMIT as int)) by (nonlinear_arith)
                requires
                    -(COORD_LIMIT as int) <= vx as int <= COORD_LIMIT as int,
                    0 < time_step as int <= TIME_STEP_LIMIT as int,
            ;
            assert(-((COORD_LIMIT as int) * (TIME_STEP_LIMIT as int))
                <= (vy as int) * (time_step as int)
                <= (COORD_LIMIT as int) * (TIME_STEP_LIMIT as int)) by (nonlinear_arith)
                requires
                    -(COORD_LIMIT as int) <= vy as int <= COORD_LIMIT as int,
                    0 < time_step as int <= TIME_STEP_LIMIT as int,
            ;
            lemma_tdiv_bound(
                (vx as int) * (time_step as int),
                SCALE as int,
                (COORD_LIMIT as int) * (TIME_STEP_LIMIT as int),
            );
            lemma_tdiv_bound(
                (vy as int) * (time_step as int),
                SCALE as int,
                (COORD_LIMIT as int) * (TIME_STEP_LIMIT as int),
            );
        }
        let px: i64 = clamp_coord(
            p.position.x as i128 + tdiv_i128((vx as i128) * (time_step as i128), SCALE as i128),
        );
        let py: i64 = clamp_coord(
            p.position.y as i128 + tdiv_i128((vy as i128) * (time_step as i128), SCALE as i128),
        );
        let new_planet = Planet {
            position: Vec2::new(px, py),
            velocity: Vec2::new(vx, vy),
            mass: p.mass,
            color: p.color,
        };
        proof {
            assert(new_planet == step_planet(dt, s[i as int], accel(s, i as int)));
        }
        new_planets.push(new_planet);
        i += 1;
    }
    proof {
        assert(new_planets@ =~= advance_spec(dt, s));
    }
    new_planets
}

/// Mass-weighted position sums of a planet set.
pub open spec fn weighted_sum(s: Seq<Planet>) -> (int, int)
    decreases s.len(),
{
    if s.len() == 0 {
        (0, 0)
    } else {
        let rest = weighted_sum(s.drop_last());
        let p = s.last();
        (rest.0 + p.mass * p.position.x, rest.1 + p.mass * p.position.y)
    }
}

/// Total mass of a planet set.
pub open spec fn mass_sum(s: Seq<Planet>) -> int
    decreases s.len(),
{
    if s.len() == 0 {
        0
    } else {
        mass_sum(s.drop_last()) + s.last().mass
    }
}

/// The mass-weighted average position.  The fixed-point scale cancels, so
/// the quotient of fixed-point sums is itself fixed-point.
pub open spec fn barycenter_spec(s: Seq<Planet>) -> (int, int) {
    (tdiv(weighted_sum(s).0, mass_sum(s)), tdiv(weighted_sum(s).1, mass_sum(s)))
}

/// Derive the barycenter of a non-empty planet set.
pub fn barycenter(planets: &Vec<Planet>) -> (r: Vec2)
    requires
        planets@.len() >= 1,
        planets_ok(planets@),
    ensures
        r.x as int == barycenter_spec(planets@).0,
        r.y as int == barycenter_spec(planets@).1,
        scalar_ok(r.x as int),
        scalar_ok(r.y as int),
{
    let ghost s = planets@;
    let n: usize = planets.len();
    let mut wx: i128 = 0;
    let mut wy: i128 = 0;
    let mut ms: i128 = 0;
    let mut j: usize = 0;
    while j < n
        invariant
            n == s.len(),
            s == planets@,
            planets_ok(s),
            j <= n,
            wx as int == weighted_sum(s.subrange(0, j as int)).0,
            wy as int == weighted_sum(s.subrange(0, j as int)).1,
            ms as int == mass_sum(s.subrange(0, j as int)),
            j as int <= ms as int <= (j as int) * (MASS_LIMIT as int),
            -((ms as int) * (COORD_LIMIT as int)) <= wx as int
                <= (ms as int) * (COORD_LIMIT as int),
            -((ms as int) * (COORD_LIMIT as int)) <= wy as int
                <= (ms as int) * (COORD_LIMIT as int),
        decreases n - j,
    {
        let p: Planet = planets[j];
        proof {
            assert(s.subrange(0, j as int + 1).drop_last() =~= s.subrange(0, j as int));
            assert(s.subrange(0, j as int + 1).last() == s[j as int]);
            assert((j as int + 1) * (MASS_LIMIT as int)
                == (j as int) * (MASS_LIMIT as int) + MASS_LIMIT as int) by (nonlinear_arith);
            assert((j as int) * (MASS_LIMIT as int) <= 65536 * (MASS_LIMIT as int))
                by (nonlinear_arith)
                requires
                    0 <= j as int <= 65536,
            ;
            assert(-((p.mass as int) * (COORD_LIMIT as int))
                <= (p.mass as int) * (p.position.x as int)
                <= (p.mass as int) * (COORD_LIMIT as int)) by (nonlinear_arith)
                requires
                    0 < p.mass as int,
                    -(COORD_LIMIT as int) <= p.position.x as int <= COORD_LIMIT as int,
            ;
            assert(-((p.mass as int) * (COORD_LIMIT as int))
                <= (p.mass as int) * (p.position.y as int)
                <= (p.mass as int) * (COORD_LIMIT as int)) by (nonlinear_arith)
                requires
                    0 < p.mass as int,
                    -(COORD_LIMIT as int) <= p.position.y as int <= COORD_LIMIT as int,
            ;
            assert((ms as int + p.mass as int) * (COORD_LIMIT as int)
                == (ms as int) * (COORD_LIMIT as int)
                + (p.mass as int) * (COORD_LIMIT as int)) by (nonlinear_arith);
            assert((ms as int + p.mass as int) * (COORD_LIMIT as int)
                <= (65536 * (MASS_LIMIT as int) + MASS_LIMIT as int) * (COORD_LIMIT as int))
                by (nonlinear_arith)
                requires
                    0 <= ms as int + p.mass as int
                        <= 65536 * (MASS_LIMIT as int) + MASS_LIMIT as int,
                    COORD_LIMIT as int > 0,
            ;
        }
        wx = wx + (p.mass as i128) * (p.position.x as i128);
        wy = wy + (p.mass as i128) * (p.position.y as i128);
        ms = ms + p.mass as i128;
        j += 1;
    }
    proof {
        assert(s.subrange(0, n as int) =~= s);
        lemma_tdiv_bound(wx as int, ms as int, COORD_LIMIT as int);
        lemma_tdiv_bound(wy as int, ms as int, COORD_LIMIT as int);
    }
    let bx: i128 = tdiv_i128(wx, ms);
    let by: i128 = tdiv_i128(wy, ms);
    Vec2::new(bx as i64, by as i64)
}

/// For a two-body system with equal masses, the barycenter lies exactly
/// at the midpoint of the two positions.
pub proof fn lemma_barycenter_midpoint(a: Planet, b: Planet)
    requires
        a.mass == b.mass,
        a.mass > 0,
    ensures
        barycenter_spec(seq![a, b]).0 == tdiv(a.position.x + b.position.x, 2),
        barycenter_spec(seq![a, b]).1 == tdiv(a.position.y + b.position.y, 2),
{
    let s = seq![a, b];
    assert(s.drop_last() =~= seq![a]);
    assert(seq![a].drop_last() =~= Seq::<Planet>::empty());
    assert(weighted_sum(Seq::<Planet>::empty()) == (0int, 0int));
    assert(mass_sum(Seq::<Planet>::empty()) == 0);
    assert(seq![a].last() == a);
    assert(s.last() == b);
    assert(weighted_sum(seq![a]).0 == a.mass * a.position.x);
    assert(weighted_sum(seq![a]).1 == a.mass * a.position.y);
    assert(mass_sum(seq![a]) == a.mass);
    assert(weighted_sum(s).0 == a.mass * a.position.x + b.mass * b.position.x);
    assert(weighted_sum(s).1 == a.mass * a.position.y + b.mass * b.position.y);
    assert(mass_sum(s) == a.mass + b.mass);
    let m = a.mass as int;
    assert(m * a.position.x + m * b.position.x == m * (a.position.x + b.position.x)
        && m * a.position.y + m * b.position.y == m * (a.position.y + b.position.y)
        && m + m == m * 2) by (nonlinear_arith);
    lemma_tdiv_cancel(a.position.x + b.position.x, 2, m);
    lemma_tdiv_cancel(a.position.y + b.position.y, 2, m);
}

/// Total momentum of a planet set: the componentwise sum of each
/// planet's mass times its velocity.
pub open spec fn total_momentum(s: Seq<Planet>) -> (int, int)
    decreases s.len(),
{
    if s.len() == 0 {
        (0, 0)
    } else {
        let rest = total_momentum(s.drop_last());
        let p = s.last();
        (rest.0 + p.mass * p.velocity.x, rest.1 + p.mass * p.velocity.y)
    }
}

/// `v` occurs among the entries of `perm`.
pub open spec fn appears_in(perm: Seq<int>, v: int) -> bool {
    exists|i: int| 0 <= i < perm.len() && #[trigger] perm[i] == v
}

/// `perm` lists each index below `n` exactly once: a relabeling of the
/// order of a planet set of length `n`.
pub open spec fn is_relabeling(perm: Seq<int>, n: int) -> bool {
    &&& perm.len() == n
    &&& forall|i: int| 0 <= i < n ==> 0 <= #[trigger] perm[i] < n
    &&& forall|i: int, j: int| 0 <= i < j < n ==> perm[i] != perm[j]
    &&& forall|v: int| 0 <= v < n ==> #[trigger] appears_in(perm, v)
}

/// The planet set with its order relabeled: entry `i` of the result is
/// entry `perm[i]` of `s`.
pub open spec fn relabel(s: Seq<Planet>, perm: Seq<int>) -> Seq<Planet> {
    Seq::new(perm.len(), |i: int| s[perm[i]])
}

/// Folding step that accumulates the attraction of one more planet on `p`.
spec fn attraction_step(p: Planet) -> spec_fn((int, int), Planet) -> (int, int) {
    |acc: (int, int), q: Planet| (acc.0 + attraction(p, q).0, acc.1 + attraction(p, q).1)
}

/// Folding step that accumulates one more planet's momentum.
spec fn momentum_step() -> spec_fn((int, int), Planet) -> (int, int) {
    |acc: (int, int), q: Planet| (acc.0 + q.mass * q.velocity.x, acc.1 + q.mass * q.velocity.y)
}

/// [`contrib_sum`] is a left fold of [`attraction_step`].
proof fn lemma_contrib_sum_is_fold(p: Planet, others: Seq<Planet>)
    ensures
        contrib_sum(p, others) == others.fold_left((0int, 0int), attraction_step(p)),
    decreases others.len(),
{
    if others.len() > 0 {
        lemma_contrib_sum_is_fold(p, others.drop_last());
    }
}

/// [`total_momentum`] is a left fold of [`momentum_step`].
proof fn lemma_total_momentum_is_fold(s: Seq<Planet>)
    ensures
        total_momentum(s) == s.fold_left((0int, 0int), momentum_step()),
    decreases s.len(),
{
    if s.len() > 0 {
        lemma_total_momentum_is_fold(s.drop_last());
    }
}

/// The summed attraction on `p` depends only on which attractors there
/// are, not on the order they are listed in.
proof fn lemma_contrib_sum_multiset(p: Planet, o1: Seq<Planet>, o2: Seq<Planet>)
    requires
        o1.to_multiset() == o2.to_multiset(),
    ensures
        contrib_sum(p, o1) == contrib_sum(p, o2),
{
    lemma_contrib_sum_is_fold(p, o1);
    lemma_contrib_sum_is_fold(p, o2);
    assert(vstd::seq_lib::commutative_foldl(attraction_step(p)));
    vstd::seq_lib::lemma_fold_left_permutation(o1, o2, attraction_step(p), (0int, 0int));
}

/// Total momentum depends only on which planets there are.
proof fn lemma_total_momentum_multiset(s1: Seq<Planet>, s2: Seq<Planet>)
    requires
        s1.to_multiset() == s2.to_multiset(),
    ensures
        total_momentum(s1) == total_momentum(s2),
{
    lemma_total_momentum_is_fold(s1);
    lemma_total_momentum_is_fold(s2);
    assert(vstd::seq_lib::commutative_foldl(momentum_step()));
    vstd::seq_lib::lemma_fold_left_permutation(s1, s2, momentum_step(), (0int, 0int));
}

/// Dropping the entry of `perm` that names the last planet leaves a
/// relabeling of the shortened set, and relabeling commutes with the
/// removal.
proof fn lemma_relabeling_remove(s: Seq<Planet>, perm: Seq<int>, j: int)
    requires
        is_relabeling(perm, s.len() as int),
        s.len() >= 1,
        0 <= j < perm.len(),
        perm[j] == s.len() - 1,
    ensures
        is_relabeling(perm.remove(j), s.len() - 1),
        relabel(s, perm).remove(j) == relabel(s.drop_last(), perm.remove(j)),
{
    let n = s.len() as int;
    let p2 = perm.remove(j);
    assert(p2.len() == n - 1);
    assert forall|i: int| 0 <= i < n - 1 implies 0 <= #[trigger] p2[i] < n - 1 by {
        let src = if i < j {
            i
        } else {
            i + 1
        };
        assert(p2[i] == perm[src]);
        assert(0 <= perm[src] < n);
        if perm[src] == n - 1 {
            if src < j {
                assert(perm[src] != perm[j]);
            } else {
                assert(perm[j] != perm[src]);
            }
        }
    }
    assert forall|i1: int, i2: int| 0 <= i1 < i2 < n - 1 implies p2[i1] != p2[i2] by {
        let s1 = if i1 < j {
            i1
        } else {
            i1 + 1
        };
        let s2 = if i2 < j {
            i2
        } else {
            i2 + 1
        };
        assert(p2[i1] == perm[s1] && p2[i2] == perm[s2]);
        assert(0 <= s1 < s2 < n);
    }
    assert forall|v: int| 0 <= v < n - 1 implies #[trigger] appears_in(p2, v) by {
        assert(appears_in(perm, v));
        let i0 = choose|i: int| 0 <= i < perm.len() && #[trigger] perm[i] == v;
        assert(perm[i0] == v);
        assert(i0 != j);
        if i0 < j {
            assert(p2[i0] == v);
        } else {
            assert(p2[i0 - 1] == v);
        }
    }
    assert(relabel(s, perm).remove(j) =~= relabel(s.drop_last(), p2));
}

/// Relabeling the order of a planet set keeps the same planets: the
/// multiset of entries is unchanged.
proof fn lemma_relabel_to_multiset(s: Seq<Planet>, perm: Seq<int>)
    requires
        is_relabeling(perm, s.len() as int),
    ensures
        relabel(s, perm).to_multiset() == s.to_multiset(),
    decreases s.len(),
{
    broadcast use vstd::seq_lib::group_to_multiset_ensures;
    broadcast use vstd::multiset::group_multiset_axioms;

    let t = relabel(s, perm);
    let n = s.len() as int;
    if n == 0 {
        assert(t =~= Seq::<Planet>::empty());
        assert(t.to_multiset() =~= s.to_multiset());
    } else {
        assert(appears_in(perm, n - 1));
        let j = choose|i: int| 0 <= i < perm.len() && #[trigger] perm[i] == n - 1;
        assert(0 <= j < n && perm[j] == n - 1);
        lemma_relabeling_remove(s, perm, j);
        lemma_relabel_to_multiset(s.drop_last(), perm.remove(j));
        assert(t.remove(j).to_multiset() == t.to_multiset().remove(t[j]));
        assert(t[j] == s[n - 1]);
        assert(t.to_multiset().remove(s[n - 1]) == s.drop_last().to_multiset());
        assert(s =~= s.drop_last().push(s.last()));
        assert(s.to_multiset() == s.drop_last().to_multiset().insert(s.last()));
        assert(t.contains(s[n - 1]));
        assert(t.to_multiset().count(s[n - 1]) > 0);
        assert(t.to_multiset() =~= t.to_multiset().remove(s[n - 1]).insert(s[n - 1]));
        assert(t.to_multiset() == s.to_multiset());
    }
}

/// The acceleration of a relabeled planet is the acceleration of the
/// planet it was relabeled from.
proof fn lemma_accel_relabel(s: Seq<Planet>, perm: Seq<int>, i: int)
    requires
        is_relabeling(perm, s.len() as int),
        0 <= i < s.len(),
    ensures
        accel(relabel(s, perm), i) == accel(s, perm[i]),
{
    broadcast use vstd::seq_lib::group_to_multiset_ensures;
    broadcast use vstd::multiset::group_multiset_axioms;

    let t = relabel(s, perm);
    assert(t[i] == s[perm[i]]);
    lemma_relabel_to_multiset(s, perm);
    assert(t.remove(i).to_multiset() == t.to_multiset().remove(t[i]));
    assert(s.remove(perm[i]).to_multiset() == s.to_multiset().remove(s[perm[i]]));
    lemma_contrib_sum_multiset(t[i], t.remove(i), s.remove(perm[i]));
}

/// Relabeling the order of the planets commutes with integration, and the
/// total momentum `sum(mass_i * velocity_i)` of the advanced set is
/// therefore unchanged by the relabeling: pairwise attractions depend
/// only on which planets there are, not on the order they are listed in.
pub proof fn lemma_advance_relabel(dt: int, s: Seq<Planet>, perm: Seq<int>)
    requires
        is_relabeling(perm, s.len() as int),
    ensures
        advance_spec(dt, relabel(s, perm)) == relabel(advance_spec(dt, s), perm),
        total_momentum(advance_spec(dt, relabel(s, perm))) == total_momentum(
            advance_spec(dt, s),
        ),
{
    let t = relabel(s, perm);
    let adv = advance_spec(dt, s);
    assert forall|i: int| 0 <= i < t.len() implies advance_spec(dt, t)[i] == relabel(
        adv,
        perm,
    )[i] by {
        lemma_accel_relabel(s, perm, i);
        assert(advance_spec(dt, t)[i] == step_planet(dt, t[i], accel(t, i)));
        assert(relabel(adv, perm)[i] == adv[perm[i]]);
        assert(adv[perm[i]] == step_planet(dt, s[perm[i]], accel(s, perm[i])));
    }
    assert(advance_spec(dt, t) =~= relabel(adv, perm));
    lemma_relabel_to_multiset(adv, perm);
    lemma_total_momentum_multiset(relabel(adv, perm), adv);
}

} // verus!
