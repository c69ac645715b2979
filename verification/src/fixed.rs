//! Fixed-point scalars and the arithmetic helpers the engine is built on.
//!
//! Every world quantity (position, velocity, mass, time step) is an `i64`
//! holding the real value multiplied by [`SCALE`].  Intermediate products are
//! taken in `i128`, divided with truncation toward zero, and clamped back
//! into the coordinate range where they are stored again.

use vstd::prelude::*;

verus! {

/// Number of fixed-point units per world unit: a scalar `x` stands for the
/// real value `x / SCALE`.
pub const SCALE: i64 = 1_000_000;

/// Largest magnitude a position or velocity component may have.
pub const COORD_LIMIT: i64 = 10_000_000_000_000;

/// Largest mass a planet may have (fixed-point, like every scalar).
pub const MASS_LIMIT: i64 = 2_000_000_000;

/// Largest admissible simulation time step.
pub const TIME_STEP_LIMIT: i64 = 1_000_000_000;

/// Largest number of planets a set may hold.
pub const MAX_PLANETS: usize = 65536;

/// Integer division truncated toward zero, for a positive divisor.
/// This is the division the executable code performs on magnitudes.
pub open spec fn tdiv(a: int, b: int) -> int {
    if a >= 0 {
        a / b
    } else {
        -((-a) / b)
    }
}

/// `a` clamped to the interval `[-lim, lim]`.
pub open spec fn clamp(a: int, lim: int) -> int {
    if a > lim {
        lim
    } else if a < -lim {
        -lim
    } else {
        a
    }
}

/// `r` is the integer square root of `x`, rounded down.
pub open spec fn is_sqrt(x: int, r: int) -> bool {
    0 <= r && r * r <= x && x < (r + 1) * (r + 1)
}

/// The integer square root of a nonnegative `x`, rounded down.
pub open spec fn sqrt_of(x: int) -> int {
    choose|r: int| is_sqrt(x, r)
}

/// Every nonnegative integer has an integer square root.
pub proof fn lemma_sqrt_exists(x: int)
    requires
        x >= 0,
    ensures
        is_sqrt(x, sqrt_of(x)),
    decreases x,
{
    if x == 0 {
        assert(is_sqrt(0, 0));
    } else {
        lemma_sqrt_exists(x - 1);
        let r = sqrt_of(x - 1);
        if (r + 1) * (r + 1) <= x {
            assert(is_sqrt(x, r + 1)) by (nonlinear_arith)
                requires
                    is_sqrt(x - 1, r),
                    (r + 1) * (r + 1) <= x,
            ;
            assert(exists|s: int| is_sqrt(x, s));
        } else {
            assert(is_sqrt(x, r));
            assert(exists|s: int| is_sqrt(x, s));
        }
    }
}

/// The integer square root is unique.
pub proof fn lemma_sqrt_unique(x: int, r: int)
    requires
        is_sqrt(x, r),
    ensures
        sqrt_of(x) == r,
{
    assert(exists|s: int| is_sqrt(x, s));
    let rr = sqrt_of(x);
    assert(is_sqrt(x, rr));
    assert(rr == r) by (nonlinear_arith)
        requires
            is_sqrt(x, r),
            is_sqrt(x, rr),
    ;
}

/// Any `a` whose square is at most `x` lies at or below the root of `x`.
pub proof fn lemma_sqrt_le(a: int, x: int)
    requires
        0 <= a,
        a * a <= x,
    ensures
        a <= sqrt_of(x),
{
    lemma_sqrt_exists(x);
    let r = sqrt_of(x);
    assert(a <= r) by (nonlinear_arith)
        requires
            0 <= a,
            a * a <= x,
            is_sqrt(x, r),
    ;
}

/// Truncating division shrinks magnitudes: if `|a| <= m * b` then
/// `|tdiv(a, b)| <= m`.
pub proof fn lemma_tdiv_bound(a: int, b: int, m: int)
    requires
        b >= 1,
        m >= 0,
        -(m * b) <= a <= m * b,
    ensures
        -m <= tdiv(a, b) <= m,
{
    lemma_udiv_bound(if a >= 0 { a } else { -a }, b, m);
}

/// Helper for [`lemma_tdiv_bound`] on nonnegative numerators.
proof fn lemma_udiv_bound(a: int, b: int, m: int)
    requires
        b >= 1,
        m >= 0,
        0 <= a <= m * b,
    ensures
        0 <= a / b <= m,
{
    assert(0 <= a / b <= m) by (nonlinear_arith)
        requires
            b >= 1,
            m >= 0,
            0 <= a <= m * b,
    ;
}

/// A common factor of the numerator and the divisor cancels.
pub proof fn lemma_tdiv_cancel(a: int, b: int, m: int)
    requires
        b >= 1,
        m >= 1,
    ensures
        tdiv(m * a, m * b) == tdiv(a, b),
{
    let q = tdiv(a, b);
    if a >= 0 {
        vstd::arithmetic::div_mod::lemma_fundamental_div_mod(a, b);
        let r = a % b;
        assert(m * a == q * (m * b) + m * r && 0 <= m * r < m * b) by (nonlinear_arith)
            requires
                b >= 1,
                m >= 1,
                a == q * b + r,
                0 <= r < b,
        ;
        vstd::arithmetic::div_mod::lemma_fundamental_div_mod_converse(m * a, m * b, q, m * r);
        assert(m * a >= 0) by (nonlinear_arith)
            requires
                a >= 0,
                m >= 1,
        ;
    } else {
        vstd::arithmetic::div_mod::lemma_fundamental_div_mod(-a, b);
        let r = (-a) % b;
        assert(m * (-a) == ((-a) / b) * (m * b) + m * r && 0 <= m * r < m * b) by (nonlinear_arith)
            requires
                b >= 1,
                m >= 1,
                -a == ((-a) / b) * b + r,
                0 <= r < b,
        ;
        vstd::arithmetic::div_mod::lemma_fundamental_div_mod_converse(
            m * (-a),
            m * b,
            (-a) / b,
            m * r,
        );
        assert(m * a < 0 && -(m * a) == m * (-a)) by (nonlinear_arith)
            requires
                a < 0,
                m >= 1,
        ;
    }
}

/// Truncating division of `a` by a positive divisor, carried out on
/// unsigned magnitudes so the rounding direction is explicit.
pub fn tdiv_i128(a: i128, b: i128) -> (r: i128)
    requires
        b >= 1,
        a > i128::MIN,
    ensures
        r == tdiv(a as int, b as int),
{
    if a >= 0 {
        proof {
            assert(a as int <= (a as int) * (b as int)) by (nonlinear_arith)
                requires
                    a >= 0,
                    b >= 1,
            ;
        }
        let q: u128 = (a as u128) / (b as u128);
        proof {
            lemma_udiv_bound(a as int, b as int, a as int);
        }
        q as i128
    } else {
        proof {
            assert(-(a as int) <= (-(a as int)) * (b as int)) by (nonlinear_arith)
                requires
                    a < 0,
                    b >= 1,
            ;
        }
        let q: u128 = ((-a) as u128) / (b as u128);
        proof {
            lemma_udiv_bound(-(a as int), b as int, -(a as int));
        }
        -(q as i128)
    }
}

/// Integer square root, rounded down, by bisection.
pub fn isqrt(x: u128) -> (r: u64)
    ensures
        r == sqrt_of(x as int),
        is_sqrt(x as int, r as int),
{
    let mut lo: u128 = 0;
    let mut hi: u128 = 1u128 << 64;
    proof {
        assert((1u128 << 64) == 0x1_0000_0000_0000_0000u128) by (bit_vector);
        assert(0x1_0000_0000_0000_0000int * 0x1_0000_0000_0000_0000int
            == 0x1_0000_0000_0000_0000_0000_0000_0000_0000int) by (nonlinear_arith);
    }
    while lo + 1 < hi
        invariant
            lo < hi <= (1u128 << 64),
            (lo as int) * (lo as int) <= x as int,
            (x as int) < (hi as int) * (hi as int),
        decreases hi - lo,
    {
        let mid: u128 = lo + (hi - lo) / 2;
        proof {
            assert((1u128 << 64) == 0x1_0000_0000_0000_0000u128) by (bit_vector);
            assert(mid < hi);
            assert((mid as int) * (mid as int) <= u128::MAX as int) by (nonlinear_arith)
                requires
                    mid <= 0xFFFF_FFFF_FFFF_FFFFu128,
            ;
        }
        if mid * mid <= x {
            lo = mid;
        } else {
            hi = mid;
        }
    }
    proof {
        assert(hi == lo + 1);
        assert(is_sqrt(x as int, lo as int));
        lemma_sqrt_unique(x as int, lo as int);
    }
    lo as u64
}

} // verus!
