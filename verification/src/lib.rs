//! A verified 2D movement integrator for a keyboard-driven sprite.
//!
//! All geometry is held in fixed-point coordinates: an `i64` component counts
//! subunits, a thousandth of a world unit, and elapsed time is counted in
//! milliseconds.  Every operation is exact integer arithmetic, so each
//! function's contract pins down the result completely, and the speed cap of
//! the integrator is proved, not sampled.

pub mod vec2;
pub mod movement;

pub use movement::{
    direction, drag_accel, drive_accel, per_frame, player_movement_system, Keys, MotionConfig,
    Player, DIR_SCALE, DRAG_ACCEL, MILLIS_PER_SECOND, PLAYER_ACCEL, PLAYER_MAXSPEED, POS_LIMIT,
    RATE_LIMIT, SUBUNITS_PER_UNIT,
};
pub use vec2::{
    clamp_length_max, isqrt64, len2_of, length_ceil, length_floor, sqrt_ceil64, with_length, Vec2,
    COMP_LIMIT, SCALE_LIMIT,
};
