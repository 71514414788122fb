//! World constants and saturating integer helpers.
//!
//! Positions, sizes and speeds are in milliunits (one thousandth of a world
//! unit); times are in milliseconds. A speed of `n` world units per second
//! is therefore exactly `n` milliunits per millisecond, so a displacement
//! over `dt` milliseconds is the exact product `speed * dt`.

use vstd::prelude::*;

verus! {

/// Player ship speed: 250 world units per second.
pub const SHIP_SPEED: u64 = 250;
/// Projectile speed: 700 world units per second.
pub const LASER_SPEED: u64 = 700;

/// Half of the arena width and height (the arena is 700 by 700 units).
pub const ARENA_HALF_EXTENT: i64 = 350_000;
/// Interior margin the ship keeps from the arena edge (50 units).
pub const SHIP_MARGIN: i64 = 50_000;
/// The ship position is clamped to `[-SHIP_BOUND, SHIP_BOUND]` per axis.
pub const SHIP_BOUND: i64 = ARENA_HALF_EXTENT - SHIP_MARGIN;

/// Height at which the player ship first appears (-256 units).
pub const SHIP_SPAWN_Y: i64 = -256_000;
/// Height at which enemies appear (256 units).
pub const ENEMY_SPAWN_Y: i64 = 256_000;
/// Enemy spawn x is drawn from `[-ENEMY_X_RANGE, ENEMY_X_RANGE)`.
pub const ENEMY_X_RANGE: i64 = 200_000;
/// A laser appears this far ahead of the nose of the ship that fires it
/// (64 units): above a player ship, below an enemy.
pub const LASER_NOSE_OFFSET: i64 = 64_000;

/// Player weapon cooldown (0.4 seconds).
pub const PLAYER_COOLDOWN_MS: u64 = 400;
/// Interval between enemy spawns (2 seconds).
pub const ENEMY_SPAWN_INTERVAL_MS: u64 = 2_000;
/// Interval between shots of one enemy (1.5 seconds).
pub const ENEMY_FIRE_INTERVAL_MS: u64 = 1_500;

/// Half thickness of an arena wall (the walls are 7 units thick).
pub const WALL_HALF_THICKNESS: i64 = 3_500;
/// Half length of an arena wall (arena extent plus the wall thickness).
pub const WALL_HALF_LENGTH: i64 = 353_500;

/// Unscaled sprite scale, in thousandths.
pub const SCALE_FULL: i64 = 1_000;
/// Scale applied to ship and enemy sprites (0.8).
pub const SCALE_SHIP: i64 = 800;

/// `v` clipped to `[lo, hi]`.
pub open spec fn spec_clamp(v: int, lo: int, hi: int) -> int {
    if v < lo {
        lo
    } else if v > hi {
        hi
    } else {
        v
    }
}

/// `v` clipped to the range of `i64`.
pub open spec fn sat_i64(v: int) -> int {
    spec_clamp(v, i64::MIN as int, i64::MAX as int)
}

/// `speed * dt`, clipped to the non-negative range of `i64`.
pub open spec fn spec_displacement(speed: u64, dt_ms: u64) -> int {
    if speed * dt_ms > i64::MAX {
        i64::MAX as int
    } else {
        speed * dt_ms
    }
}

/// Distance covered in `dt_ms` milliseconds at `speed` milliunits per
/// millisecond, saturating at the largest representable distance.
pub fn displacement(speed: u64, dt_ms: u64) -> (d: i64)
    ensures
        d == spec_displacement(speed, dt_ms),
        0 <= d,
{
    proof {
        assert((speed as int) * (dt_ms as int) <= (u64::MAX as int) * (u64::MAX as int))
            by (nonlinear_arith)
            requires
                speed <= u64::MAX,
                dt_ms <= u64::MAX,
        ;
    }
    let p: u128 = (speed as u128) * (dt_ms as u128);
    if p > i64::MAX as u128 {
        i64::MAX
    } else {
        p as i64
    }
}

/// `a + b` with saturation at the bounds of `i64`.
pub fn sat_add(a: i64, b: i64) -> (r: i64)
    ensures
        r == sat_i64(a + b),
{
    if b >= 0 {
        if a > i64::MAX - b {
            i64::MAX
        } else {
            a + b
        }
    } else {
        if a < i64::MIN - b {
            i64::MIN
        } else {
            a + b
        }
    }
}

/// `a - b` with saturation at the bounds of `i64`.
pub fn sat_sub(a: i64, b: i64) -> (r: i64)
    ensures
        r == sat_i64(a - b),
{
    if b >= 0 {
        if a < i64::MIN + b {
            i64::MIN
        } else {
            a - b
        }
    } else {
        if a > i64::MAX + b {
            i64::MAX
        } else {
            a - b
        }
    }
}

/// `v` clamped to `[lo, hi]`.
pub fn clamp(v: i64, lo: i64, hi: i64) -> (r: i64)
    requires
        lo <= hi,
    ensures
        r == spec_clamp(v as int, lo as int, hi as int),
{
    if v < lo {
        lo
    } else if v > hi {
        hi
    } else {
        v
    }
}

} // verus!
