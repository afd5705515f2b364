//! The per-frame movement integrator: held keys drive the player, drag
//! opposes the current velocity, and the resulting speed never exceeds the
//! configured cap.
//!
//! One frame works on a velocity `v` (subunits per second) and a position
//! (subunits), with elapsed time `dt` in milliseconds:
//! 1. the key direction, magnified by `DIR_SCALE` and rescaled to the drive
//!    rate, gives the drive acceleration (the magnification keeps a diagonal
//!    drive within a thousandth of the rate);
//! 2. the reversed velocity, rescaled to the drag rate and clamped to the
//!    current speed (rounded down), gives the drag;
//! 3. their sum times `dt / 1000` is the raw velocity delta;
//! 4. if the current speed plus the delta's length (both rounded up) would
//!    pass the cap, the delta is clamped to the remaining headroom;
//! 5. the delta, times `dt / 1000` once more, is added to the velocity, and
//!    the new velocity times `dt / 1000` is added to the position.
//!
//! The second `dt` scaling in step 5 makes the velocity gain quadratic in
//! `dt`; that is deliberate, and the scenario tests rely on it.

use vstd::prelude::*;
use vstd::arithmetic::div_mod::{lemma_div_is_ordered, lemma_div_pos_is_pos};
use crate::vec2::{
    abs_i, clamp_len_s, clamp_length_max, dot_s, in_range, lemma_abs_le_of_sq,
    lemma_clamp_len_bound, lemma_len2_nonneg, lemma_scale_div_shrinks, lemma_sq_mono,
    lemma_sqrt_ceil, lemma_sqrt_ceil_le, lemma_sqrt_floor, lemma_with_length_bound,
    len2_s, length_ceil, length_floor, scale_component, scale_div_s, sqrt_ceil, sqrt_floor,
    v2_add_s, v2_neg_s, v2_scale_s, v2_zero, with_length, with_length_s, Vec2, COMP_LIMIT, V2,
};

verus! {

/// Subunits per world unit: lengths and speeds are thousandths of a unit.
pub const SUBUNITS_PER_UNIT: i64 = 1000;

/// Elapsed frame time is counted in milliseconds.
pub const MILLIS_PER_SECOND: u64 = 1000;

/// Top speed, in subunits per second (300 units/s).
pub const PLAYER_MAXSPEED: u64 = 300_000;

/// Drive acceleration while keys are held, in subunits per second squared
/// (2000 units/s^2).
pub const PLAYER_ACCEL: u64 = 2_000_000;

/// Drag deceleration, in subunits per second squared (1500 units/s^2).
pub const DRAG_ACCEL: u64 = 1_500_000;

/// Upper bound on any configured rate; keeps the integrator's arithmetic
/// inside `i64`/`u64`.
pub const RATE_LIMIT: u64 = 1_000_000_000;

/// Largest position component the integrator accepts; one frame then cannot
/// overflow the position.
pub const POS_LIMIT: i64 = 9_000_000_000_000_000_000;

/// Magnification applied to the raw key direction before it is rescaled to
/// the drive rate. Rescaling divides by the direction's length rounded up;
/// on the bare direction that rounding would cost a third of the rate on a
/// diagonal, on the magnified one it costs under a thousandth.
pub const DIR_SCALE: i64 = 1000;

/// The directional keys held during a frame.
#[derive(Clone, Copy, Debug, PartialEq, Eq, Structural)]
pub struct Keys {
    pub up: bool,
    pub down: bool,
    pub left: bool,
    pub right: bool,
}

impl Keys {
    /// No key held.
    pub fn none() -> (k: Keys)
        ensures
            k == (Keys { up: false, down: false, left: false, right: false }),
    {
        Keys { up: false, down: false, left: false, right: false }
    }
}

/// The movement rates; the defaults are the named constants above.
#[derive(Clone, Copy, Debug, PartialEq, Eq, Structural)]
pub struct MotionConfig {
    /// Top speed, subunits per second.
    pub max_speed: u64,
    /// Drive acceleration, subunits per second squared.
    pub accel: u64,
    /// Drag deceleration, subunits per second squared.
    pub drag: u64,
}

impl MotionConfig {
    /// All rates within `RATE_LIMIT`, so the integrator cannot overflow.
    pub open spec fn wf(self) -> bool {
        self.max_speed <= RATE_LIMIT && self.accel <= RATE_LIMIT && self.drag <= RATE_LIMIT
    }
}

impl Default for MotionConfig {
    fn default() -> (c: MotionConfig)
        ensures
            c.max_speed == PLAYER_MAXSPEED,
            c.accel == PLAYER_ACCEL,
            c.drag == DRAG_ACCEL,
            c.wf(),
    {
        MotionConfig { max_speed: PLAYER_MAXSPEED, accel: PLAYER_ACCEL, drag: DRAG_ACCEL }
    }
}

/// A controllable entity: its state is one velocity vector.
#[derive(Clone, Copy, Debug, PartialEq, Eq, Structural)]
pub struct Player {
    pub velocity: Vec2,
}

impl Player {
    /// The speed invariant: the squared speed is within the squared cap.
    pub open spec fn wf(self, cfg: MotionConfig) -> bool {
        len2_s(self.velocity@) <= cfg.max_speed * cfg.max_speed
    }
}

impl Default for Player {
    fn default() -> (p: Player)
        ensures
            p.velocity@ == v2_zero(),
    {
        Player { velocity: Vec2::zero() }
    }
}

/// The raw key direction: a sum of unit vectors, one per held key.
pub open spec fn dir_s(k: Keys) -> V2 {
    V2 {
        x: (if k.right { 1int } else { 0int }) - (if k.left { 1int } else { 0int }),
        y: (if k.up { 1int } else { 0int }) - (if k.down { 1int } else { 0int }),
    }
}

/// The key direction magnified by `DIR_SCALE`, for a precise rescaling.
pub open spec fn dir_scaled_s(k: Keys) -> V2 {
    v2_scale_s(dir_s(k), DIR_SCALE as int)
}

/// The drive acceleration: the magnified key direction rescaled to the
/// drive rate, so its magnitude comes within a thousandth of that rate.
pub open spec fn drive_s(k: Keys, accel: int) -> V2 {
    with_length_s(dir_scaled_s(k), accel)
}

/// The drag: the reversed velocity rescaled to the drag rate, then clamped to
/// the current speed rounded down (drag never exceeds the speed it fights).
pub open spec fn drag_s(v: V2, drag: int) -> V2 {
    clamp_len_s(with_length_s(v2_neg_s(v), drag), sqrt_floor(len2_s(v)))
}

/// A per-second rate scaled to the elapsed frame time.
pub open spec fn scale_ms_s(v: V2, dt: int) -> V2 {
    scale_div_s(v, dt, MILLIS_PER_SECOND as int)
}

/// Drive plus drag, scaled by the frame time: the uncapped velocity delta.
pub open spec fn raw_delta_s(v: V2, k: Keys, dt: int, cfg: MotionConfig) -> V2 {
    scale_ms_s(v2_add_s(drive_s(k, cfg.accel as int), drag_s(v, cfg.drag as int)), dt)
}

/// The velocity delta after the cap: clamped to the headroom under the top
/// speed whenever speed plus delta (lengths rounded up) would pass it.
pub open spec fn capped_delta_s(v: V2, k: Keys, dt: int, cfg: MotionConfig) -> V2 {
    let d = raw_delta_s(v, k, dt, cfg);
    let sc = sqrt_ceil(len2_s(v));
    let dl = sqrt_ceil(len2_s(d));
    if sc + dl > cfg.max_speed {
        clamp_len_s(d, cfg.max_speed - sc)
    } else {
        d
    }
}

/// One frame's new velocity.
pub open spec fn step_velocity_s(v: V2, k: Keys, dt: int, cfg: MotionConfig) -> V2 {
    v2_add_s(v, scale_ms_s(capped_delta_s(v, k, dt, cfg), dt))
}

/// One frame's new position: the new velocity, scaled to the frame time,
/// added to the old position.
pub open spec fn step_position_s(pos: V2, v_new: V2, dt: int) -> V2 {
    v2_add_s(pos, scale_ms_s(v_new, dt))
}

/// The key direction as a vector with components in `{-1, 0, 1}`.
pub fn direction(k: &Keys) -> (d: Vec2)
    ensures
        d@ == dir_s(*k),
        in_range(d@, 1),
{
    let x: i64 = (if k.right { 1 } else { 0 }) - (if k.left { 1 } else { 0 });
    let y: i64 = (if k.up { 1 } else { 0 }) - (if k.down { 1 } else { 0 });
    Vec2 { x, y }
}

/// The drive acceleration for the held keys.
pub fn drive_accel(k: &Keys, cfg: &MotionConfig) -> (a: Vec2)
    requires
        cfg.wf(),
    ensures
        a@ == drive_s(*k, cfg.accel as int),
        in_range(a@, cfg.accel as int),
{
    let d = direction(k);
    let scaled = Vec2 { x: d.x * DIR_SCALE, y: d.y * DIR_SCALE };
    assert(scaled@ == dir_scaled_s(*k));
    with_length(&scaled, cfg.accel)
}

/// The drag for the current velocity.
pub fn drag_accel(velocity: &Vec2, cfg: &MotionConfig) -> (a: Vec2)
    requires
        cfg.wf(),
        len2_s(velocity@) <= cfg.max_speed * cfg.max_speed,
    ensures
        a@ == drag_s(velocity@, cfg.drag as int),
        len2_s(a@) <= len2_s(velocity@),
        in_range(a@, cfg.max_speed as int),
{
    proof {
        lemma_len2_nonneg(velocity@);
        lemma_abs_le_of_sq(velocity@.x, cfg.max_speed as int);
        lemma_abs_le_of_sq(velocity@.y, cfg.max_speed as int);
    }
    let neg = velocity.negated();
    let d0 = with_length(&neg, cfg.drag);
    let sf = length_floor(velocity);
    proof {
        lemma_sqrt_floor(len2_s(velocity@));
        lemma_abs_le_of_sq(sqrt_floor(len2_s(velocity@)), cfg.max_speed as int);
    }
    let a = clamp_length_max(&d0, sf);
    proof {
        lemma_len2_nonneg(a@);
        lemma_abs_le_of_sq(a@.x, cfg.max_speed as int);
        lemma_abs_le_of_sq(a@.y, cfg.max_speed as int);
    }
    a
}

/// A per-second rate scaled to the elapsed milliseconds of one frame.
pub fn per_frame(v: &Vec2, dt_ms: u32) -> (r: Vec2)
    requires
        in_range(v@, COMP_LIMIT as int),
        dt_ms <= MILLIS_PER_SECOND,
    ensures
        r@ == scale_ms_s(v@, dt_ms as int),
        abs_i(r@.x) <= abs_i(v@.x),
        abs_i(r@.y) <= abs_i(v@.y),
{
    proof {
        lemma_scale_div_shrinks(v@, dt_ms as int, MILLIS_PER_SECOND as int);
        assert(abs_i(v@.x) * (dt_ms as int) <= i64::MAX && abs_i(v@.y) * (dt_ms as int)
            <= i64::MAX) by (nonlinear_arith)
            requires
                abs_i(v@.x) <= 2_000_000_000,
                abs_i(v@.y) <= 2_000_000_000,
                0 <= dt_ms <= 1000,
        ;
    }
    Vec2 {
        x: scale_component(v.x, dt_ms as u64, MILLIS_PER_SECOND),
        y: scale_component(v.y, dt_ms as u64, MILLIS_PER_SECOND),
    }
}

/// Speed cap (the integrator's invariant): starting within the top speed,
/// one step of any duration up to one second ends within the top speed.
pub proof fn lemma_step_speed_cap(v: V2, k: Keys, dt: int, cfg: MotionConfig)
    requires
        cfg.wf(),
        len2_s(v) <= cfg.max_speed * cfg.max_speed,
        0 <= dt <= MILLIS_PER_SECOND,
    ensures
        len2_s(step_velocity_s(v, k, dt, cfg)) <= cfg.max_speed * cfg.max_speed,
{
    let ms = cfg.max_speed as int;
    let d = raw_delta_s(v, k, dt, cfg);
    let sc = sqrt_ceil(len2_s(v));
    let dl = sqrt_ceil(len2_s(d));
    let capped = capped_delta_s(v, k, dt, cfg);
    let dd = scale_ms_s(capped, dt);
    lemma_len2_nonneg(v);
    lemma_len2_nonneg(d);
    lemma_sqrt_ceil(len2_s(v));
    lemma_sqrt_ceil(len2_s(d));
    lemma_sqrt_ceil_le(len2_s(v), ms);
    if sc + dl > ms {
        let t = ms - sc;
        lemma_clamp_len_bound(d, t);
        lemma_scale_div_shrinks(capped, dt, MILLIS_PER_SECOND as int);
        crate::vec2::lemma_triangle_cap(v, dd, sc, t);
    } else {
        lemma_scale_div_shrinks(d, dt, MILLIS_PER_SECOND as int);
        crate::vec2::lemma_triangle_cap(v, dd, sc, dl);
        lemma_sq_mono(sc + dl, ms);
    }
}

impl Player {
    /// One frame of the movement integrator: the velocity takes the capped
    /// delta for the held keys, and the position advances by the new
    /// velocity over the elapsed time.
    pub fn update(&mut self, position: &mut Vec2, keys: &Keys, dt_ms: u32, cfg: &MotionConfig)
        requires
            cfg.wf(),
            old(self).wf(*cfg),
            dt_ms <= MILLIS_PER_SECOND,
            in_range(old(position)@, POS_LIMIT as int),
        ensures
            final(self).velocity@ == step_velocity_s(
                old(self).velocity@,
                *keys,
                dt_ms as int,
                *cfg,
            ),
            final(position)@ == step_position_s(
                old(position)@,
                final(self).velocity@,
                dt_ms as int,
            ),
            final(self).wf(*cfg),
    {
        proof {
            lemma_len2_nonneg(self.velocity@);
            lemma_abs_le_of_sq(self.velocity@.x, cfg.max_speed as int);
            lemma_abs_le_of_sq(self.velocity@.y, cfg.max_speed as int);
        }
        let drive = drive_accel(keys, cfg);
        let drag = drag_accel(&self.velocity, cfg);
        let raw = drive.plus(&drag);
        let delta = per_frame(&raw, dt_ms);
        let dl = length_ceil(&delta);
        let sc = length_ceil(&self.velocity);
        proof {
            lemma_len2_nonneg(delta@);
            lemma_sqrt_ceil_le(len2_s(self.velocity@), cfg.max_speed as int);
            assert(len2_s(delta@) <= 9_000_000_000_000_000_000) by (nonlinear_arith)
                requires
                    -2_000_000_000 <= delta@.x <= 2_000_000_000,
                    -2_000_000_000 <= delta@.y <= 2_000_000_000,
                    len2_s(delta@) == delta@.x * delta@.x + delta@.y * delta@.y,
            ;
            lemma_sqrt_ceil_le(len2_s(delta@), 3_000_000_000int);
        }
        let capped = if sc + dl > cfg.max_speed {
            clamp_length_max(&delta, cfg.max_speed - sc)
        } else {
            delta
        };
        let dv = per_frame(&capped, dt_ms);
        let v_new = self.velocity.plus(&dv);
        self.velocity = v_new;
        proof {
            lemma_step_speed_cap(old(self).velocity@, *keys, dt_ms as int, *cfg);
            lemma_len2_nonneg(self.velocity@);
            lemma_abs_le_of_sq(self.velocity@.x, cfg.max_speed as int);
            lemma_abs_le_of_sq(self.velocity@.y, cfg.max_speed as int);
        }
        let dp = per_frame(&self.velocity, dt_ms);
        *position = position.plus(&dp);
    }
}

proof fn lemma_unit_mul(a: int, c: int)
    by (nonlinear_arith)
    requires
        -1 <= a <= 1,
    ensures
        a == 1 ==> a * c == c,
        a == -1 ==> a * c == -c,
        a == 0 ==> a * c == 0,
{
}

proof fn lemma_opposite_mul(a: int, b: int)
    by (nonlinear_arith)
    requires
        b >= 0 ==> a <= 0,
        b <= 0 ==> a >= 0,
    ensures
        a * b <= 0,
{
}

proof fn lemma_pm_sq(a: int, s: int)
    by (nonlinear_arith)
    requires
        a == s || a == -s || a == 0,
    ensures
        a * a == (if a == 0 {
            0int
        } else {
            s * s
        }),
{
}

/// The single gain by which the key direction is scaled to make the drive
/// acceleration.
pub open spec fn drive_gain(k: Keys, accel: int) -> int {
    if dir_s(k) == v2_zero() {
        0
    } else {
        ((DIR_SCALE as int) * accel) / sqrt_ceil(len2_s(dir_scaled_s(k)))
    }
}

/// Law: the drive acceleration is the key direction — the sum of unit
/// vectors, one per held key — scaled by one nonnegative gain, so it points
/// along that direction; it vanishes exactly when no key is held or opposite
/// keys cancel.
pub proof fn lemma_drive_matches_keys(k: Keys, accel: int)
    requires
        accel >= 0,
    ensures
        drive_s(k, accel) == v2_scale_s(dir_s(k), drive_gain(k, accel)),
        drive_gain(k, accel) >= 0,
        (dir_s(k) == v2_zero() <==> (k.up == k.down && k.left == k.right)),
        dir_s(k) != v2_zero() && accel >= 2 ==> drive_gain(k, accel) >= 1,
        dir_s(k) != v2_zero() && (dir_s(k).x == 0 || dir_s(k).y == 0) ==> drive_gain(k, accel)
            == accel,
{
    let d = dir_s(k);
    let ds = dir_scaled_s(k);
    let g = drive_gain(k, accel);
    let amp = (DIR_SCALE as int) * accel;
    if d == v2_zero() {
        lemma_unit_mul(d.x, g);
        lemma_unit_mul(d.y, g);
        assert(ds.x == 0 && ds.y == 0);
        assert(len2_s(ds) == 0);
    } else {
        assert(ds.x == 1000 * d.x && ds.y == 1000 * d.y);
        assert(ds.x == 1000 || ds.x == -1000 || ds.x == 0);
        assert(ds.y == 1000 || ds.y == -1000 || ds.y == 0);
        lemma_pm_sq(ds.x, 1000);
        lemma_pm_sq(ds.y, 1000);
        assert(d.x != 0 || d.y != 0) by {
            if d.x == 0 && d.y == 0 {
                assert(d == v2_zero());
            }
        }
        let n = len2_s(ds);
        assert(n == 1_000_000 || n == 2_000_000);
        assert(1000int * 1000int == 1_000_000int);
        assert(1001int * 1001int == 1_002_001int);
        assert(1414int * 1414int == 1_999_396int);
        assert(1415int * 1415int == 2_002_225int);
        crate::vec2::lemma_sqrt_floor_unique(1_000_000, 1000);
        crate::vec2::lemma_sqrt_floor_unique(2_000_000, 1414);
        let l = sqrt_ceil(n);
        assert(l == 1000 || l == 1415);
        lemma_div_pos_is_pos(amp, l);
        vstd::arithmetic::div_mod::lemma_div_of0(l);
        lemma_unit_mul(d.x, g);
        lemma_unit_mul(d.y, g);
        assert(drive_s(k, accel).x == d.x * g);
        assert(drive_s(k, accel).y == d.y * g);
        if d.x == 0 || d.y == 0 {
            assert(n == 1_000_000);
            assert(l == 1000);
            vstd::arithmetic::div_mod::lemma_div_multiples_vanish(accel, 1000);
        }
        if accel >= 2 {
            lemma_div_is_ordered(l, amp, l);
            vstd::arithmetic::div_mod::lemma_div_by_self(l);
        }
    }
}

/// Law: the drag opposes the velocity in each coordinate, never pushes the
/// player forward, and its squared magnitude never exceeds the squared
/// current speed.
pub proof fn lemma_drag_opposes_velocity(v: V2, drag: int)
    requires
        drag >= 0,
    ensures
        len2_s(drag_s(v, drag)) <= len2_s(v),
        dot_s(drag_s(v, drag), v) <= 0,
        v.x >= 0 ==> drag_s(v, drag).x <= 0,
        v.x <= 0 ==> drag_s(v, drag).x >= 0,
        v.y >= 0 ==> drag_s(v, drag).y <= 0,
        v.y <= 0 ==> drag_s(v, drag).y >= 0,
{
    lemma_len2_nonneg(v);
    lemma_sqrt_floor(len2_s(v));
    let sf = sqrt_floor(len2_s(v));
    let d0 = with_length_s(v2_neg_s(v), drag);
    lemma_with_length_bound(v2_neg_s(v), drag);
    lemma_clamp_len_bound(d0, sf);
    let a = drag_s(v, drag);
    lemma_opposite_mul(a.x, v.x);
    lemma_opposite_mul(a.y, v.y);
}

/// Law: at rest with no key held, one step leaves velocity and position
/// unchanged, whatever the frame time and the rates; repeating the step
/// therefore keeps the player at rest indefinitely.
pub proof fn lemma_rest_stays_at_rest(pos: V2, dt: int, cfg: MotionConfig)
    requires
        dt >= 0,
    ensures
        step_velocity_s(
            v2_zero(),
            (Keys { up: false, down: false, left: false, right: false }),
            dt,
            cfg,
        ) == v2_zero(),
        step_position_s(pos, v2_zero(), dt) == pos,
{
    let k = Keys { up: false, down: false, left: false, right: false };
    let z = v2_zero();
    crate::vec2::lemma_sqrt_floor_unique(0, 0);
    assert(z.x == 0 && z.y == 0);
    assert(sqrt_floor(0int) == 0);
    vstd::arithmetic::div_mod::lemma_div_of0(MILLIS_PER_SECOND as int);
    assert(dir_s(k) == z);
    assert(len2_s(z) == 0);
    assert(v2_neg_s(z) == z);
    assert(drive_s(k, cfg.accel as int) == z);
    assert(drag_s(z, cfg.drag as int) == z);
    assert(scale_ms_s(z, dt) == z);
    assert(raw_delta_s(z, k, dt, cfg) == z);
    assert(capped_delta_s(z, k, dt, cfg) == z);
    assert(step_velocity_s(z, k, dt, cfg) == z);
    assert(step_position_s(pos, z, dt) == (V2 { x: pos.x + 0, y: pos.y + 0 }));
}

/// Advances every player record one frame, as a game engine's per-frame
/// system would over its entity query: each velocity and position pair is
/// stepped with the same key state and elapsed time.
pub fn player_movement_system(
    players: &mut Vec<(Player, Vec2)>,
    keys: &Keys,
    dt_ms: u32,
    cfg: &MotionConfig,
)
    requires
        cfg.wf(),
        dt_ms <= MILLIS_PER_SECOND,
        forall|i: int|
            0 <= i < old(players)@.len() ==> (#[trigger] old(players)@[i]).0.wf(*cfg) && in_range(
                old(players)@[i].1@,
                POS_LIMIT as int,
            ),
    ensures
        final(players)@.len() == old(players)@.len(),
        forall|i: int|
            0 <= i < old(players)@.len() ==> {
                let prev = #[trigger] old(players)@[i];
                let cur = final(players)@[i];
                &&& cur.0.velocity@ == step_velocity_s(
                    prev.0.velocity@,
                    *keys,
                    dt_ms as int,
                    *cfg,
                )
                &&& cur.1@ == step_position_s(prev.1@, cur.0.velocity@, dt_ms as int)
                &&& cur.0.wf(*cfg)
            },
{
    let ghost orig = players@;
    let mut out: Vec<(Player, Vec2)> = Vec::new();
    let mut i: usize = 0;
    while i < players.len()
        invariant
            players@ == orig,
            i <= orig.len(),
            out@.len() == i,
            cfg.wf(),
            dt_ms <= MILLIS_PER_SECOND,
            forall|j: int|
                0 <= j < orig.len() ==> (#[trigger] orig[j]).0.wf(*cfg) && in_range(
                    orig[j].1@,
                    POS_LIMIT as int,
                ),
            forall|j: int|
                0 <= j < i ==> {
                    let prev = #[trigger] orig[j];
                    let cur = out@[j];
                    &&& cur.0.velocity@ == step_velocity_s(
                        prev.0.velocity@,
                        *keys,
                        dt_ms as int,
                        *cfg,
                    )
                    &&& cur.1@ == step_position_s(prev.1@, cur.0.velocity@, dt_ms as int)
                    &&& cur.0.wf(*cfg)
                },
        decreases orig.len() - i,
    {
        let pair = players[i];
        let mut p = pair.0;
        let mut pos = pair.1;
        p.update(&mut pos, keys, dt_ms, cfg);
        let ghost out_prev = out@;
        out.push((p, pos));
        proof {
            assert(out@ == out_prev.push((p, pos)));
            assert forall|j: int| 0 <= j < i + 1 implies {
                let prev = #[trigger] orig[j];
                let cur = out@[j];
                &&& cur.0.velocity@ == step_velocity_s(
                    prev.0.velocity@,
                    *keys,
                    dt_ms as int,
                    *cfg,
                )
                &&& cur.1@ == step_position_s(prev.1@, cur.0.velocity@, dt_ms as int)
                &&& cur.0.wf(*cfg)
            } by {
                if j < i {
                    assert(out@[j] == out_prev[j]);
                } else {
                    assert(out@[j] == (p, pos));
                }
            }
        }
        i = i + 1;
    }
    *players = out;
}

} // verus!
