//! The configuration constants of the simulation: physical constants,
//! entity parameters and cadence settings.
//!
//! Quantities follow the fixed-point convention of [`crate::num`]: lengths in
//! milli-meters, speeds in milli-meters per second... in short, thousandths
//! of the named unit. Angles are in milliradians, time in milliseconds,
//! masses in grams (milli-kilograms), lightness in milli-percent.

use vstd::prelude::*;

verus! {

/// How often a big rocket lifts off, in whole hertz.
pub const BIG_ROCKET_LAUNCH_FREQ: u64 = 1;

/// The frame rate the driver loop aims for, in whole hertz.
pub const FPS: u64 = 60;

/// How often each live rocket sheds glow particles, in whole hertz.
pub const GLITTER_GENERATE_FREQ: u64 = 50;

/// Gravitational acceleration, milli-(m/s^2), pulling straight down.
pub const G_PHY: i64 = 9800;

/// Linear drag constant on sparks, milli-(kg/s).
pub const DRAG_PHY: i64 = 100;

/// How fast a spark's remaining life burns per unit of speed: the lifespan
/// loses this many milli-units per meter of path flown.
pub const LIFE_BURN_RATE: i64 = 100;

/// How fast a stored glow particle's lightness fades, in milli-percent per
/// second, before scaling by the exponential of its remaining lifespan.
pub const GLOW_FADE_RATE: i64 = 150000;

/// Mass of a big rocket, grams.
pub const BIG_ROCKET_MASS: i64 = 50000;

/// Lowest initial horizontal speed of a big rocket, milli-(m/s), inclusive.
pub const BIG_ROCKET_SPEED_X_MIN: i64 = -2000;

/// Highest initial horizontal speed of a big rocket, milli-(m/s), exclusive.
pub const BIG_ROCKET_SPEED_X_MAX: i64 = 2000;

/// Lowest initial ascent speed of a big rocket, milli-(m/s), inclusive.
pub const BIG_ROCKET_SPEED_Y_MIN: i64 = 20000;

/// Highest initial ascent speed of a big rocket, milli-(m/s), exclusive.
pub const BIG_ROCKET_SPEED_Y_MAX: i64 = 25000;

/// Half-width of a big rocket's trail fuzz, milli-meters.
pub const BIG_ROCKET_TRAIL_SPREAD: i64 = 500;

/// Lightness a launched rocket's color starts with, milli-percent. Trail
/// particles always override lightness, so this is never displayed as is.
pub const LAUNCH_LIGHTNESS: i64 = 50000;

/// Lifespan of a fresh spark, milliseconds of burn budget.
pub const SMALL_ROCKET_AGE: i64 = 1500;

/// The angular wedge centered on straight down that spark directions avoid:
/// an eighth of a turn... pi/8, in milliradians.
pub const EXPLODE_EXCLUDE_ANGLE: i64 = 393;

/// Sparks spawned per explosion.
pub const EXPLODE_ROCKET_CNT: u32 = 25;

/// Mass of a spark, grams.
pub const SMALL_ROCKET_MASS: i64 = 1000;

/// Lowest initial speed of a spark, milli-(m/s), inclusive.
pub const SMALL_ROCKET_SPEED_MIN: i64 = 5000;

/// Highest initial speed of a spark, milli-(m/s), exclusive.
pub const SMALL_ROCKET_SPEED_MAX: i64 = 10000;

/// Half-width of a spark's trail fuzz, milli-meters.
pub const SMALL_ROCKET_TRAIL_SPREAD: i64 = 1000;

/// Lifespan of a fresh glow particle, milliseconds.
pub const PARTICLE_AGE: i64 = 1000;

/// Lightness of a big rocket's trail particles, milli-percent.
pub const BIG_TRAIL_LIGHTNESS: i64 = 90000;

/// Lightness of a spark's trail at the end of its life, milli-percent.
pub const SMALL_TRAIL_LIGHTNESS_MIN: i64 = 60000;

/// Lightness of a spark's trail when freshly lit, milli-percent.
pub const SMALL_TRAIL_LIGHTNESS_MAX: i64 = 95000;

/// Lowest spark direction angle, milliradians, inclusive. This is
/// `(EXPLODE_EXCLUDE_ANGLE - pi) / 2`, the edge of the excluded wedge,
/// pulled in by a five-milliradian guard so that fixed-point trigonometry
/// cannot round a direction into the wedge.
pub const EXPLODE_ANGLE_MIN: i64 = -1369;

/// Highest spark direction angle, milliradians, exclusive. This is
/// `(3 pi - EXPLODE_EXCLUDE_ANGLE) / 2` less the same five-milliradian
/// guard as `EXPLODE_ANGLE_MIN`.
pub const EXPLODE_ANGLE_MAX: i64 = 4511;

} // verus!
