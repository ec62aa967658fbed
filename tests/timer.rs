use frame_timer::timer::{
    check_update_time, fps_as_duration, get_average_delta, get_delta, get_remaining_update_time,
    get_ticks, get_time_since_start, TimeContext, NANOS_PER_SEC, TIME_LOG_FRAMES,
};

const MS: u64 = 1_000_000;

#[test]
fn fixed_step_leaves_remainder() {
    let mut tc = TimeContext::new();
    tc.tick_at(45 * MS);
    assert!(check_update_time(&mut tc, 25));
    assert_eq!(get_remaining_update_time(&tc), 5 * MS);
    assert!(!check_update_time(&mut tc, 25));
    assert_eq!(get_remaining_update_time(&tc), 5 * MS);
}

#[test]
fn stutter_gives_two_steps() {
    let mut tc = TimeContext::new();
    tc.tick_at(40 * MS);
    let mut steps = 0;
    while check_update_time(&mut tc, 60) {
        steps += 1;
    }
    assert_eq!(steps, 2);
    assert_eq!(get_remaining_update_time(&tc), 40 * MS - 2 * 16_666_666);
    let left = get_remaining_update_time(&tc) as f64 / 1e6;
    assert!((left - 6.67).abs() < 0.01);
}

#[test]
fn fresh_context() {
    let tc = TimeContext::new();
    assert_eq!(get_ticks(&tc), 0);
    assert_eq!(get_average_delta(&tc), 0);
    let rate = 1.0 / (get_average_delta(&tc) as f64 / 1e9);
    assert!(!rate.is_finite());
    assert_eq!(get_remaining_update_time(&tc), 0);
    assert_eq!(get_delta(&tc), 0);
}

#[test]
fn time_since_start_does_not_go_back() {
    let tc = TimeContext::default();
    let a = get_time_since_start(&tc);
    let mut b = get_time_since_start(&tc);
    while b == a {
        b = get_time_since_start(&tc);
    }
    assert!(b > a);
}

#[test]
fn ticks_are_counted() {
    let mut tc = TimeContext::new();
    for k in 1..=5usize {
        tc.tick();
        assert_eq!(get_ticks(&tc), k);
    }
}

#[test]
fn clock_tick_records_elapsed_time() {
    let mut tc = TimeContext::new();
    let before = get_time_since_start(&tc);
    while get_time_since_start(&tc) == before {}
    tc.tick();
    assert!(get_delta(&tc) > 0);
    assert_eq!(get_remaining_update_time(&tc), get_delta(&tc));
}

#[test]
fn delta_is_time_between_ticks() {
    let mut tc = TimeContext::new();
    tc.tick_at(10 * MS);
    assert_eq!(get_delta(&tc), 10 * MS);
    tc.tick_at(25 * MS);
    assert_eq!(get_delta(&tc), 15 * MS);
    assert_eq!(get_remaining_update_time(&tc), 25 * MS);
}

#[test]
fn earlier_instant_records_zero() {
    let mut tc = TimeContext::new();
    tc.tick_at(10 * MS);
    tc.tick_at(4 * MS);
    assert_eq!(get_delta(&tc), 0);
    assert_eq!(get_remaining_update_time(&tc), 10 * MS);
    tc.tick_at(12 * MS);
    assert_eq!(get_delta(&tc), 2 * MS);
}

#[test]
fn steady_frames_average_to_frame_time() {
    let mut tc = TimeContext::new();
    for k in 1..=(TIME_LOG_FRAMES as u64) {
        tc.tick_at(k * 16 * MS);
    }
    assert_eq!(get_average_delta(&tc), 16 * MS);
    for k in 201..=450u64 {
        tc.tick_at(k * 16 * MS);
    }
    assert_eq!(get_average_delta(&tc), 16 * MS);
}

#[test]
fn warm_up_average() {
    let mut tc = TimeContext::new();
    tc.tick_at(10 * MS);
    tc.tick_at(30 * MS);
    assert_eq!(get_average_delta(&tc), 15 * MS);
    tc.tick_at(33 * MS);
    assert_eq!(get_average_delta(&tc), 11 * MS);
}

#[test]
fn step_lengths() {
    assert_eq!(fps_as_duration(25), 40 * MS);
    assert_eq!(fps_as_duration(60), 16_666_666);
    assert_eq!(fps_as_duration(1), NANOS_PER_SEC);
    assert_eq!(fps_as_duration(1000), MS);
    assert_eq!(fps_as_duration(0), u64::MAX);
}

#[test]
fn zero_rate_never_steps() {
    let mut tc = TimeContext::new();
    tc.tick_at(u64::MAX);
    assert!(!check_update_time(&mut tc, 0));
    assert_eq!(get_remaining_update_time(&tc), u64::MAX);
}

#[test]
fn step_needs_strictly_more_time() {
    let mut tc = TimeContext::new();
    tc.tick_at(40 * MS);
    assert!(!check_update_time(&mut tc, 25));
    tc.tick_at(40 * MS + 1);
    assert!(check_update_time(&mut tc, 25));
    assert_eq!(get_remaining_update_time(&tc), 1);
}
