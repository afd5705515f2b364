use player_motion::{Keys, MotionConfig, Player, Vec2};

fn keys(up: bool, down: bool, left: bool, right: bool) -> Keys {
    Keys { up, down, left, right }
}

#[test]
fn default_player_is_at_rest() {
    let p = Player::default();
    assert_eq!(p.velocity, Vec2::new(0, 0));
}

#[test]
fn default_config_has_named_rates() {
    let cfg = MotionConfig::default();
    assert_eq!(cfg.max_speed, 300_000);
    assert_eq!(cfg.accel, 2_000_000);
    assert_eq!(cfg.drag, 1_500_000);
}

#[test]
fn no_keys_means_no_direction() {
    assert_eq!(player_motion::direction(&Keys::none()), Vec2::new(0, 0));
}

#[test]
fn direction_of_every_key_combination() {
    for up in [false, true] {
        for down in [false, true] {
            for left in [false, true] {
                for right in [false, true] {
                    let d = player_motion::direction(&keys(up, down, left, right));
                    let x = (right as i64) - (left as i64);
                    let y = (up as i64) - (down as i64);
                    assert_eq!(d, Vec2::new(x, y));
                }
            }
        }
    }
}

#[test]
fn drive_along_one_axis_has_full_rate() {
    let cfg = MotionConfig::default();
    let d = player_motion::drive_accel(&keys(false, false, false, true), &cfg);
    assert_eq!(d, Vec2::new(2_000_000, 0));
    let a = player_motion::drive_accel(&keys(false, false, true, false), &cfg);
    assert_eq!(a, Vec2::new(-2_000_000, 0));
    let w = player_motion::drive_accel(&keys(true, false, false, false), &cfg);
    assert_eq!(w, Vec2::new(0, 2_000_000));
}

#[test]
fn drive_on_a_diagonal_keeps_the_rate() {
    let cfg = MotionConfig::default();
    // 1000 * 2_000_000 / 1415 (the magnified diagonal's length, rounded up)
    let wd = player_motion::drive_accel(&keys(true, false, false, true), &cfg);
    assert_eq!(wd, Vec2::new(1_413_427, 1_413_427));
    let sa = player_motion::drive_accel(&keys(false, true, true, false), &cfg);
    assert_eq!(sa, Vec2::new(-1_413_427, -1_413_427));
    // the magnitude stays within a thousandth of the configured rate
    let len2 = wd.x * wd.x + wd.y * wd.y;
    let rate = 2_000_000i64;
    assert!(len2 <= rate * rate);
    let floor = rate - rate / 500;
    assert!(len2 >= floor * floor);
}

#[test]
fn opposite_keys_cancel_the_drive() {
    let cfg = MotionConfig::default();
    let ws = player_motion::drive_accel(&keys(true, true, false, false), &cfg);
    assert_eq!(ws, Vec2::new(0, 0));
    let wsd = player_motion::drive_accel(&keys(true, true, false, true), &cfg);
    assert_eq!(wsd, Vec2::new(2_000_000, 0));
}

#[test]
fn drag_reverses_a_velocity_at_its_own_speed() {
    let cfg = MotionConfig::default();
    let drag = player_motion::drag_accel(&Vec2::new(3, 4), &cfg);
    assert_eq!(drag, Vec2::new(-3, -4));
}

#[test]
fn drag_of_a_slow_velocity_is_capped_at_its_speed() {
    let cfg = MotionConfig::default();
    let drag = player_motion::drag_accel(&Vec2::new(100, 0), &cfg);
    assert_eq!(drag, Vec2::new(-100, 0));
}

#[test]
fn drag_rounds_toward_zero_on_odd_lengths() {
    let cfg = MotionConfig::default();
    let v = Vec2::new(3, 5);
    let drag = player_motion::drag_accel(&v, &cfg);
    assert_eq!(drag, Vec2::new(-2, -4));
    assert!(drag.x * v.x + drag.y * v.y <= 0);
    assert!(drag.x * drag.x + drag.y * drag.y <= v.x * v.x + v.y * v.y);
}

#[test]
fn drag_of_rest_is_zero() {
    let cfg = MotionConfig::default();
    let drag = player_motion::drag_accel(&Vec2::new(0, 0), &cfg);
    assert_eq!(drag, Vec2::new(0, 0));
}

#[test]
fn one_frame_pressing_right_from_rest() {
    let cfg = MotionConfig::default();
    let mut p = Player::default();
    let mut pos = Vec2::new(0, 0);
    p.update(&mut pos, &keys(false, false, false, true), 16, &cfg);
    // 2_000_000 * 16/1000 * 16/1000 = 512 subunits/s, i.e. 0.512 units/s
    assert_eq!(p.velocity, Vec2::new(512, 0));
    // 512 * 16 / 1000 = 8 subunits
    assert_eq!(pos, Vec2::new(8, 0));
}

#[test]
fn coasting_at_top_speed_does_not_reverse() {
    let cfg = MotionConfig::default();
    let mut p = Player { velocity: Vec2::new(300_000, 0) };
    let mut pos = Vec2::new(0, 0);
    p.update(&mut pos, &Keys::none(), 100, &cfg);
    // drag is clamped to the speed (300_000) and then the capped delta is
    // clamped to the zero headroom: the velocity holds, with no overshoot.
    assert_eq!(p.velocity, Vec2::new(300_000, 0));
    assert_eq!(pos, Vec2::new(30_000, 0));
}

#[test]
fn driving_at_top_speed_stays_at_top_speed() {
    let cfg = MotionConfig::default();
    let mut p = Player { velocity: Vec2::new(300_000, 0) };
    let mut pos = Vec2::new(0, 0);
    p.update(&mut pos, &keys(false, false, false, true), 100, &cfg);
    assert_eq!(p.velocity, Vec2::new(300_000, 0));
    assert_eq!(pos, Vec2::new(30_000, 0));
}

#[test]
fn rest_with_no_keys_stays_at_rest() {
    let cfg = MotionConfig::default();
    let mut p = Player::default();
    let mut pos = Vec2::new(77, -5);
    for _ in 0..100 {
        p.update(&mut pos, &Keys::none(), 16, &cfg);
        assert_eq!(p.velocity, Vec2::new(0, 0));
        assert_eq!(pos, Vec2::new(77, -5));
    }
}

#[test]
fn drag_stops_a_slow_player_without_reversal() {
    let cfg = MotionConfig::default();
    let mut p = Player { velocity: Vec2::new(100, 0) };
    let mut pos = Vec2::new(0, 0);
    p.update(&mut pos, &Keys::none(), 1000, &cfg);
    assert_eq!(p.velocity, Vec2::new(0, 0));
}

#[test]
fn deceleration_never_overshoots_zero() {
    let cfg = MotionConfig::default();
    let mut p = Player { velocity: Vec2::new(100, 0) };
    let mut pos = Vec2::new(0, 0);
    p.update(&mut pos, &Keys::none(), 500, &cfg);
    assert_eq!(p.velocity, Vec2::new(75, 0));
    assert_eq!(pos, Vec2::new(37, 0));
}

#[test]
fn one_second_of_drive_reaches_exactly_top_speed() {
    let cfg = MotionConfig::default();
    let mut p = Player::default();
    let mut pos = Vec2::new(0, 0);
    p.update(&mut pos, &keys(false, false, false, true), 1000, &cfg);
    assert_eq!(p.velocity, Vec2::new(300_000, 0));
    // the position integrates the new velocity, not the old one
    assert_eq!(pos, Vec2::new(300_000, 0));
}

#[test]
fn speed_never_exceeds_the_cap_on_a_diagonal() {
    let cfg = MotionConfig::default();
    let mut p = Player::default();
    let mut pos = Vec2::new(0, 0);
    let held = keys(true, false, false, true);
    for _ in 0..500 {
        p.update(&mut pos, &held, 16, &cfg);
        let len2 = p.velocity.x * p.velocity.x + p.velocity.y * p.velocity.y;
        assert!(len2 <= 300_000i64 * 300_000i64);
    }
}

#[test]
fn speed_never_exceeds_the_cap_when_turning() {
    let cfg = MotionConfig::default();
    let mut p = Player { velocity: Vec2::new(300_000, 0) };
    let mut pos = Vec2::new(0, 0);
    let held = keys(true, false, true, false);
    for _ in 0..200 {
        p.update(&mut pos, &held, 50, &cfg);
        let len2 = p.velocity.x * p.velocity.x + p.velocity.y * p.velocity.y;
        assert!(len2 <= 300_000i64 * 300_000i64);
    }
}

#[test]
fn movement_system_steps_every_player() {
    let cfg = MotionConfig::default();
    let mut players = vec![
        (Player::default(), Vec2::new(0, 0)),
        (Player { velocity: Vec2::new(100, 0) }, Vec2::new(5, 5)),
    ];
    player_motion::player_movement_system(
        &mut players,
        &keys(false, false, false, true),
        16,
        &cfg,
    );
    assert_eq!(players.len(), 2);
    assert_eq!(players[0].0.velocity, Vec2::new(512, 0));
    assert_eq!(players[0].1, Vec2::new(8, 0));
    assert_eq!(players[1].0.velocity, Vec2::new(611, 0));
    assert_eq!(players[1].1, Vec2::new(14, 5));
}

#[test]
fn movement_system_on_no_players_does_nothing() {
    let cfg = MotionConfig::default();
    let mut players: Vec<(Player, Vec2)> = Vec::new();
    player_motion::player_movement_system(&mut players, &Keys::none(), 16, &cfg);
    assert!(players.is_empty());
}

#[test]
fn custom_rates_are_respected() {
    let cfg = MotionConfig { max_speed: 10, accel: 4, drag: 0 };
    let mut p = Player::default();
    let mut pos = Vec2::new(0, 0);
    // 4 * 1000/1000 * 1000/1000 = 4 subunits/s per full-second step
    p.update(&mut pos, &keys(false, false, false, true), 1000, &cfg);
    assert_eq!(p.velocity, Vec2::new(4, 0));
    for _ in 0..50 {
        p.update(&mut pos, &keys(false, false, false, true), 1000, &cfg);
        let len2 = p.velocity.x * p.velocity.x + p.velocity.y * p.velocity.y;
        assert!(len2 <= 100);
    }
}
