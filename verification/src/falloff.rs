//! The distance-based visibility falloff function.
//!
//! Opacities are integers in thousandths: `OPACITY_SCALE` (1000) is a fully
//! opaque shadow, `MIN_FOG_OPACITY` (200) the floor that an explored tile
//! never drops below. For a tile at Euclidean distance `d` from the observer
//! (with `d <= MAX_VISIBILITY_RANGE`), the falloff value is
//!
//! ```text
//! alpha(d) = MIN + (SCALE - MIN) * (1 - d / RANGE)
//! ```
//!
//! which with the constants below is `1000 - 160 * d` in thousandths. Since
//! `d` is the square root of the integer squared distance `q`, the exact
//! integer form used throughout is `1000 - floor(sqrt(25600 * q))`, because
//! `160 * sqrt(q) == sqrt(25600 * q)`. At `q == 0` this is exactly
//! `OPACITY_SCALE`, and at `q == RANGE_SQUARED` exactly `MIN_FOG_OPACITY`.

use vstd::prelude::*;

verus! {

/// Full shadow opacity, in thousandths (stands for 1.0).
pub const OPACITY_SCALE: u32 = 1000;

/// Least opacity an explored tile can keep, in thousandths (stands for 0.2).
pub const MIN_FOG_OPACITY: u32 = 200;

/// Greatest Euclidean tile distance at which a tile is currently visible.
pub const MAX_VISIBILITY_RANGE: u32 = 5;

/// Square of the visibility range: a tile at squared distance `q` is in
/// range exactly when `q <= RANGE_SQUARED`.
pub const RANGE_SQUARED: u32 = MAX_VISIBILITY_RANGE * MAX_VISIBILITY_RANGE;

/// Square of the falloff slope `(OPACITY_SCALE - MIN_FOG_OPACITY) / MAX_VISIBILITY_RANGE`
/// (160 thousandths of opacity per tile of distance).
pub const FALLOFF_SLOPE_SQUARED: u32 = 25600;

/// Floor of the square root of `n`.
pub open spec fn sqrt_floor(n: nat) -> nat
    decreases n,
{
    if n == 0 {
        0
    } else {
        let r = sqrt_floor((n - 1) as nat);
        if (r + 1) * (r + 1) <= n {
            (r + 1) as nat
        } else {
            r
        }
    }
}

pub proof fn lemma_sqrt_floor_bounds(n: nat)
    ensures
        sqrt_floor(n) * sqrt_floor(n) <= n,
        n < (sqrt_floor(n) + 1) * (sqrt_floor(n) + 1),
    decreases n,
{
    if n == 0 {
        let s = sqrt_floor(n);
        assert((s + 1) * (s + 1) == 1) by (nonlinear_arith)
            requires s == 0;
    } else {
        lemma_sqrt_floor_bounds((n - 1) as nat);
        let r = sqrt_floor((n - 1) as nat);
        if (r + 1) * (r + 1) <= n {
            assert(sqrt_floor(n) == r + 1);
            assert((r + 1) * (r + 1) < (r + 2) * (r + 2)) by (nonlinear_arith);
        } else {
            assert(sqrt_floor(n) == r);
        }
    }
}

pub proof fn lemma_sqrt_floor_unique(n: nat, r: nat)
    requires
        r * r <= n,
        n < (r + 1) * (r + 1),
    ensures
        r == sqrt_floor(n),
{
    let s = sqrt_floor(n);
    lemma_sqrt_floor_bounds(n);
    if r < s {
        assert((r + 1) * (r + 1) <= s * s) by (nonlinear_arith)
            requires r + 1 <= s;
    } else if s < r {
        assert((s + 1) * (s + 1) <= r * r) by (nonlinear_arith)
            requires s + 1 <= r;
    }
}

pub proof fn lemma_sqrt_floor_monotone(m: nat, n: nat)
    requires
        m <= n,
    ensures
        sqrt_floor(m) <= sqrt_floor(n),
{
    lemma_sqrt_floor_bounds(m);
    lemma_sqrt_floor_bounds(n);
    if sqrt_floor(n) < sqrt_floor(m) {
        assert((sqrt_floor(n) + 1) * (sqrt_floor(n) + 1) <= sqrt_floor(m) * sqrt_floor(m))
            by (nonlinear_arith)
            requires sqrt_floor(n) + 1 <= sqrt_floor(m);
    }
}

/// Floor square root, by counting up from zero. Only small arguments occur:
/// the falloff never needs more than `FALLOFF_SLOPE_SQUARED * RANGE_SQUARED`.
pub fn isqrt(n: u32) -> (r: u32)
    requires
        n <= 1_000_000,
    ensures
        r == sqrt_floor(n as nat),
{
    let mut r: u32 = 0;
    loop
        invariant
            n <= 1_000_000,
            r * r <= n,
            r <= 1000,
        ensures
            r * r <= n < (r + 1) * (r + 1),
        decreases 1000 - r,
    {
        proof {
            assert((r + 1) * (r + 1) <= 1_002_001) by (nonlinear_arith)
                requires r <= 1000;
        }
        let next = (r + 1) * (r + 1);
        if next > n {
            break;
        }
        proof {
            assert(r < 1000) by (nonlinear_arith)
                requires (r + 1) * (r + 1) <= 1_000_000;
        }
        r = r + 1;
    }
    proof {
        lemma_sqrt_floor_unique(n as nat, r as nat);
    }
    r
}

/// The falloff value, in thousandths, for a tile at squared distance `q`
/// from the observer: `alpha(sqrt(q)) = 1000 - floor(160 * sqrt(q))`.
pub open spec fn alpha_spec(q: int) -> int {
    OPACITY_SCALE - sqrt_floor((FALLOFF_SLOPE_SQUARED * q) as nat)
}

/// Within range the falloff value always lies between the opacity floor and
/// full opacity.
pub proof fn lemma_alpha_bounds(q: int)
    requires
        0 <= q <= RANGE_SQUARED,
    ensures
        MIN_FOG_OPACITY <= alpha_spec(q) <= OPACITY_SCALE,
{
    let m = (FALLOFF_SLOPE_SQUARED * q) as nat;
    lemma_sqrt_floor_monotone(m, 640_000);
    assert(800 * 800 <= 640_000 < 801 * 801);
    lemma_sqrt_floor_unique(640_000, 800);
}

/// Falloff boundary law: at distance zero the falloff gives full opacity,
/// and at exactly the maximum visibility range it gives exactly the floor.
pub proof fn lemma_falloff_boundary()
    ensures
        alpha_spec(0) == OPACITY_SCALE,
        alpha_spec(RANGE_SQUARED as int) == MIN_FOG_OPACITY,
{
    assert(sqrt_floor(0) == 0);
    assert(800 * 800 <= 640_000 < 801 * 801);
    lemma_sqrt_floor_unique(640_000, 800);
}

/// Executable falloff: returns exactly `alpha_spec(q)` for an in-range
/// squared distance `q`.
pub fn alpha_milli(q: u32) -> (a: u32)
    requires
        q <= RANGE_SQUARED,
    ensures
        a == alpha_spec(q as int),
{
    let s = isqrt(FALLOFF_SLOPE_SQUARED * q);
    proof {
        lemma_alpha_bounds(q as int);
    }
    OPACITY_SCALE - s
}

} // verus!
