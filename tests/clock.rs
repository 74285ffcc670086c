use game_time::{Duration, Time, TimeScale};

fn from_std(d: std::time::Duration) -> Duration {
    Duration::new(d.as_secs(), d.subsec_nanos())
}

fn secs(d: Duration) -> f64 {
    std::time::Duration::new(d.as_secs(), d.subsec_nanos()).as_secs_f64()
}

fn scale(m: f32) -> TimeScale {
    TimeScale::from_f32_bits(m.to_bits()).unwrap()
}

fn scale_of(time: &Time) -> f32 {
    f32::from_bits(time.time_scale().to_f32_bits())
}

fn approx_zero(v: f64) -> bool {
    v >= -0.000001 && v <= 0.000001
}

// Time scale 10 must not change how often fixed updates run.
#[test]
fn fixed_update_120fps() {
    let mut time = Time::default();
    time.set_fixed_time(from_std(std::time::Duration::from_secs_f64(1.0 / 120.0)));
    time.set_time_scale(scale(10.0));

    let step = 1.0 / 60.0;
    let mut fixed_count = 0;
    for _ in 0..60 {
        time.advance_frame(from_std(std::time::Duration::from_secs_f64(step)));
        while time.step_fixed_update() {
            fixed_count += 1;
        }
    }

    assert_eq!(fixed_count, 120);
}

// With a fixed update every second, about 2.17 s of frames run it twice.
#[test]
fn fixed_update_1sec() {
    let mut time = Time::default();
    time.set_fixed_time(from_std(std::time::Duration::from_secs_f64(1.0)));

    let step = 1.0 / 60.0;
    let mut fixed_count = 0;
    for _ in 0..130 {
        time.advance_frame(from_std(std::time::Duration::from_secs_f64(step)));
        while time.step_fixed_update() {
            fixed_count += 1;
        }
    }
    assert_eq!(fixed_count, 2);
}

#[test]
fn all_getters() {
    let mut time = Time::default();
    time.set_time_scale(scale(2.0));
    time.set_fixed_time(from_std(std::time::Duration::from_secs_f64(1.0 / 120.0)));
    let step = 1.0 / 60.0;
    time.advance_frame(from_std(std::time::Duration::from_secs_f64(step)));
    assert_eq!(scale_of(&time), 2.0);
    assert!(approx_zero(secs(time.delta_time()) - step * 2.0));
    assert!(approx_zero(secs(time.delta_real_time()) - step));
    assert!(approx_zero(secs(time.absolute_time()) - step * 2.0));
    assert!(approx_zero(secs(time.absolute_real_time()) - step));
    assert_eq!(time.frame_number(), 1);
    assert_eq!(scale_of(&time), 2.0);
    assert_eq!(
        time.fixed_time(),
        from_std(std::time::Duration::from_secs_f64(1.0 / 120.0))
    );

    time.advance_frame(from_std(std::time::Duration::from_secs_f64(step)));
    assert_eq!(scale_of(&time), 2.0);
    assert!(approx_zero(secs(time.delta_time()) - step * 2.0));
    assert!(approx_zero(secs(time.delta_real_time()) - step));
    assert!(approx_zero(secs(time.absolute_time()) - step * 4.0));
    assert!(approx_zero(secs(time.absolute_real_time()) - step * 2.0));
    assert_eq!(time.frame_number(), 2);
    assert_eq!(scale_of(&time), 2.0);
    assert_eq!(
        time.fixed_time(),
        from_std(std::time::Duration::from_secs_f64(1.0 / 120.0))
    );
}

#[test]
fn default_values() {
    let time = Time::default();
    assert_eq!(time.delta_time(), Duration::from_secs(0));
    assert_eq!(time.delta_real_time(), Duration::from_secs(0));
    assert_eq!(time.fixed_time().as_nanos(), 16_666_666);
    assert_eq!(time.frame_number(), 0);
    assert_eq!(time.absolute_time(), Duration::from_secs(0));
    assert_eq!(time.absolute_real_time(), Duration::from_secs(0));
    assert_eq!(scale_of(&time), 1.0);
}

fn std_scaled(d: Duration, m: f32) -> u128 {
    std::time::Duration::new(d.as_secs(), d.subsec_nanos())
        .mul_f32(m)
        .as_nanos()
}

fn scaled_by_clock(d: Duration, m: f32) -> u128 {
    let mut time = Time::default();
    time.set_time_scale(scale(m));
    time.advance_frame(d);
    assert_eq!(time.delta_real_time(), d);
    time.delta_time().as_nanos()
}

#[test]
fn delta_time_is_scaled_in_single_precision() {
    let d = Duration::new(2, 700_000_000);
    assert_eq!(scaled_by_clock(d, 3.14), 8_478_000_641);
    assert_eq!(scaled_by_clock(d, 3.14e5), 847_800 * 1_000_000_000);
    assert_eq!(scaled_by_clock(Duration::from_secs(1), 2.5), 2_500_000_000);
}

#[test]
fn delta_time_matches_mul_f32() {
    let spans = [
        Duration::from_nanos(0),
        Duration::from_nanos(1),
        Duration::from_nanos(3),
        Duration::from_nanos(999_999_999),
        Duration::from_nanos(16_666_666),
        Duration::from_nanos(8_333_333),
        Duration::new(2, 700_000_000),
        Duration::new(12_345_678, 987_654_321),
        Duration::new(1 << 40, 1),
        Duration::new(u32::MAX as u64, 500_000_000),
    ];
    let scales = [
        0.0f32, -0.0, 1.0e-45, 1.0e-20, 0.1, 0.5, 1.0, 1.5, 2.0, 3.14, 10.0, 1.0e5,
        1073741824.0, 0.333_333_34,
    ];
    let mut compared = 0;
    for d in spans {
        for m in scales {
            if let Some(r) = scale(m).checked_scale(d) {
                assert_eq!(r.as_nanos(), std_scaled(d, m), "{:?} * {}", d, m);
                assert_eq!(scaled_by_clock(d, m), r.as_nanos());
                compared += 1;
            }
        }
    }
    assert!(compared >= 130);
}

#[test]
fn delta_time_with_large_and_zero_scale() {
    let mut time = Time::default();
    time.set_time_scale(scale(1073741824.0));
    time.advance_frame(Duration::from_nanos(3));
    assert_eq!(time.delta_time().as_nanos(), std_scaled(Duration::from_nanos(3), 1073741824.0));

    time.set_time_scale(scale(0.0));
    time.advance_frame(Duration::from_secs(5));
    assert_eq!(time.delta_time().as_nanos(), 0);
    assert_eq!(time.delta_real_time().as_nanos(), 5_000_000_000);
}

#[test]
fn delta_time_with_subnormal_scale() {
    let mut time = Time::default();
    time.set_time_scale(TimeScale::from_f32_bits(1).unwrap());
    time.advance_frame(Duration::from_secs(1_000_000));
    assert_eq!(time.delta_time().as_nanos(), 0);
}

#[test]
fn scaling_past_range_is_refused() {
    let huge = TimeScale::from_f32_bits(f32::MAX.to_bits()).unwrap();
    assert!(huge.checked_scale(Duration::from_secs(1)).is_none());
    assert!(huge.checked_scale(Duration::from_secs(0)).is_some());
    let two = scale(2.0);
    assert!(two.checked_scale(Duration::new(1 << 62, 0)).is_some());
    assert!(two.checked_scale(Duration::new(1 << 63, 0)).is_none());
}

#[test]
fn frame_number_counts_frames() {
    let mut time = Time::default();
    for n in 1..=25u64 {
        time.advance_frame(Duration::from_nanos(n as u128));
        assert_eq!(time.frame_number(), n);
    }
    time.advance_frame(Duration::from_secs(0));
    assert_eq!(time.frame_number(), 26);
}

#[test]
fn absolute_times_sum_the_deltas() {
    let mut time = Time::default();
    time.set_time_scale(scale(3.0));
    let mut scaled_sum: u128 = 0;
    let mut real_sum: u128 = 0;
    for d in [7u128, 0, 1_000_000_000, 12_345, 16_666_666] {
        time.advance_frame(Duration::from_nanos(d));
        scaled_sum += time.delta_time().as_nanos();
        real_sum += time.delta_real_time().as_nanos();
        assert_eq!(time.absolute_time().as_nanos(), scaled_sum);
        assert_eq!(time.absolute_real_time().as_nanos(), real_sum);
    }
    assert_eq!(real_sum, 1_016_679_018);
    let expected: u128 = [7u128, 0, 1_000_000_000, 12_345, 16_666_666]
        .iter()
        .map(|&d| std_scaled(Duration::from_nanos(d), 3.0))
        .sum();
    assert_eq!(scaled_sum, expected);
}

#[test]
fn fixed_step_count_is_floor_of_total() {
    let mut time = Time::default();
    time.set_fixed_time(Duration::from_nanos(3));
    let mut count: u64 = 0;
    for d in [1u128, 2, 5, 7, 0, 4] {
        time.advance_frame(Duration::from_nanos(d));
        while time.step_fixed_update() {
            count += 1;
        }
    }
    // 19 ns of frames hold six whole 3 ns intervals, with 1 ns left banked.
    assert_eq!(count, 6);
    time.set_fixed_time(Duration::from_nanos(1));
    assert!(time.step_fixed_update());
    assert!(!time.step_fixed_update());
}

#[test]
fn fixed_step_on_exact_interval() {
    let mut time = Time::default();
    time.set_fixed_time(Duration::from_nanos(10));
    time.advance_frame(Duration::from_nanos(10));
    assert!(time.step_fixed_update());
    assert!(!time.step_fixed_update());
}

#[test]
fn step_without_banked_time_changes_nothing() {
    let mut time = Time::default();
    let before = time;
    assert!(!time.step_fixed_update());
    assert_eq!(time, before);
}

#[test]
fn zero_fixed_time_always_steps() {
    let mut time = Time::default();
    time.set_fixed_time(Duration::from_secs(0));
    for _ in 0..10 {
        assert!(time.step_fixed_update());
    }
}

#[test]
fn scale_rejects_nan() {
    assert!(TimeScale::from_f32_bits(f32::NAN.to_bits()).is_none());
    assert!(TimeScale::from_f32_bits((-f32::NAN).to_bits()).is_none());
}

#[test]
fn scale_rejects_infinity() {
    assert!(TimeScale::from_f32_bits(f32::INFINITY.to_bits()).is_none());
    assert!(TimeScale::from_f32_bits(f32::NEG_INFINITY.to_bits()).is_none());
}

#[test]
fn scale_rejects_negative() {
    assert!(TimeScale::from_f32_bits((-1.0f32).to_bits()).is_none());
    assert!(TimeScale::from_f32_bits((-1.0e-40f32).to_bits()).is_none());
}

#[test]
fn scale_accepts_zero_and_finite() {
    assert!(TimeScale::from_f32_bits(0.0f32.to_bits()).is_some());
    assert!(TimeScale::from_f32_bits((-0.0f32).to_bits()).is_some());
    assert!(TimeScale::from_f32_bits(f32::MAX.to_bits()).is_some());
    let s = TimeScale::from_f32_bits(0.25f32.to_bits()).unwrap();
    assert_eq!(f32::from_bits(s.to_f32_bits()), 0.25);
    assert_eq!(f32::from_bits(TimeScale::one().to_f32_bits()), 1.0);
}

#[test]
fn duration_parts_and_arithmetic() {
    let d = Duration::new(3, 1_500_000_000);
    assert_eq!(d.as_secs(), 4);
    assert_eq!(d.subsec_nanos(), 500_000_000);
    assert_eq!(d.as_nanos(), 4_500_000_000);
    let e = Duration::from_secs(1);
    assert_eq!(d.checked_add(e).unwrap().as_nanos(), 5_500_000_000);
    assert_eq!(d.checked_sub(e).unwrap().as_nanos(), 3_500_000_000);
    assert!(e.checked_sub(d).is_none());
    let max = Duration::new(u64::MAX, 999_999_999);
    assert!(max.checked_add(Duration::from_nanos(1)).is_none());
    assert_eq!(max.checked_add(Duration::from_nanos(0)), Some(max));
    assert!(d.is_at_least(&e));
    assert!(!e.is_at_least(&d));
    assert!(e.is_at_least(&e));
}

#[test]
fn mixed_calls_keep_counts_and_sums() {
    let mut time = Time::default();
    let mut real: u128 = 0;
    let mut scaled: u128 = 0;
    for (i, d) in [5u128, 40, 0, 17, 1_000].iter().enumerate() {
        time.set_time_scale(scale(i as f32 + 0.5));
        time.set_fixed_time(Duration::from_nanos(7 + i as u128));
        time.advance_frame(Duration::from_nanos(*d));
        real += d;
        scaled += time.delta_time().as_nanos();
        while time.step_fixed_update() {}
        assert_eq!(time.frame_number(), i as u64 + 1);
        assert_eq!(time.absolute_real_time().as_nanos(), real);
        assert_eq!(time.absolute_time().as_nanos(), scaled);
    }
}

#[test]
fn scale_does_not_change_fixed_steps() {
    let mut slow = Time::default();
    let mut fast = Time::default();
    slow.set_time_scale(scale(0.25));
    fast.set_time_scale(scale(40.0));
    for d in [3_000_000u128, 20_000_000, 16_666_666, 1, 50_000_000] {
        slow.advance_frame(Duration::from_nanos(d));
        fast.advance_frame(Duration::from_nanos(d));
        loop {
            let a = slow.step_fixed_update();
            let b = fast.step_fixed_update();
            assert_eq!(a, b);
            if !a {
                break;
            }
        }
    }
    assert_ne!(slow.absolute_time(), fast.absolute_time());
}
