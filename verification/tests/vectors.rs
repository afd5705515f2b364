use player_motion::Vec2;

#[test]
fn isqrt_of_small_values() {
    assert_eq!(player_motion::isqrt64(0), 0);
    assert_eq!(player_motion::isqrt64(1), 1);
    assert_eq!(player_motion::isqrt64(2), 1);
    assert_eq!(player_motion::isqrt64(3), 1);
    assert_eq!(player_motion::isqrt64(4), 2);
    assert_eq!(player_motion::isqrt64(99), 9);
}

#[test]
fn isqrt_of_large_values() {
    assert_eq!(player_motion::isqrt64(90_000_000_000), 300_000);
    assert_eq!(player_motion::isqrt64(90_000_000_001), 300_000);
    assert_eq!(player_motion::isqrt64(u64::MAX), 4_294_967_295);
}

#[test]
fn sqrt_ceil_rounds_up() {
    assert_eq!(player_motion::sqrt_ceil64(0), 0);
    assert_eq!(player_motion::sqrt_ceil64(1), 1);
    assert_eq!(player_motion::sqrt_ceil64(2), 2);
    assert_eq!(player_motion::sqrt_ceil64(4), 2);
    assert_eq!(player_motion::sqrt_ceil64(5), 3);
    assert_eq!(player_motion::sqrt_ceil64(90_000_000_000), 300_000);
}

#[test]
fn squared_length_is_exact() {
    assert_eq!(player_motion::len2_of(&Vec2::new(3, -4)), 25);
    assert_eq!(player_motion::len2_of(&Vec2::new(0, 0)), 0);
    assert_eq!(
        player_motion::len2_of(&Vec2::new(-2_000_000_000, 2_000_000_000)),
        8_000_000_000_000_000_000
    );
}

#[test]
fn lengths_round_in_both_directions() {
    let v = Vec2::new(3, 5);
    assert_eq!(player_motion::length_floor(&v), 5);
    assert_eq!(player_motion::length_ceil(&v), 6);
    let w = Vec2::new(3, 4);
    assert_eq!(player_motion::length_floor(&w), 5);
    assert_eq!(player_motion::length_ceil(&w), 5);
}

#[test]
fn with_length_rescales_exactly_on_axes() {
    assert_eq!(player_motion::with_length(&Vec2::new(5, 0), 7), Vec2::new(7, 0));
    assert_eq!(player_motion::with_length(&Vec2::new(-5, 0), 7), Vec2::new(-7, 0));
    assert_eq!(player_motion::with_length(&Vec2::new(0, 0), 7), Vec2::new(0, 0));
    assert_eq!(player_motion::with_length(&Vec2::new(5, 5), 0), Vec2::new(0, 0));
}

#[test]
fn clamp_length_leaves_short_vectors_alone() {
    assert_eq!(player_motion::clamp_length_max(&Vec2::new(3, 4), 5), Vec2::new(3, 4));
    assert_eq!(player_motion::clamp_length_max(&Vec2::new(3, 4), 6), Vec2::new(3, 4));
}

#[test]
fn clamp_length_shrinks_long_vectors_within_the_limit() {
    let r = player_motion::clamp_length_max(&Vec2::new(3, 4), 4);
    assert_eq!(r, Vec2::new(2, 3));
    assert!(r.x * r.x + r.y * r.y <= 16);
    assert_eq!(player_motion::clamp_length_max(&Vec2::new(3, 4), 0), Vec2::new(0, 0));
}

#[test]
fn per_frame_scales_rates_by_elapsed_milliseconds() {
    assert_eq!(
        player_motion::per_frame(&Vec2::new(2_000_000, -1000), 16),
        Vec2::new(32_000, -16)
    );
    assert_eq!(player_motion::per_frame(&Vec2::new(999, -999), 1000), Vec2::new(999, -999));
    assert_eq!(player_motion::per_frame(&Vec2::new(999, -999), 0), Vec2::new(0, 0));
    // truncation is toward zero on both signs
    assert_eq!(player_motion::per_frame(&Vec2::new(3, -3), 500), Vec2::new(1, -1));
}
