use gesture_midi::smoother::{hand_tracking, MovingAverage};

#[test]
fn empty_window_rests_at_the_origin() {
    let window = MovingAverage::new();
    assert_eq!(window.len(), 0);
    assert_eq!(window.get_smoothed_position(), (0, 0, 0));
}

#[test]
fn mean_covers_fewer_samples_before_the_window_is_full() {
    let mut window = MovingAverage::new();
    window.add_sample(10, 20, 30);
    assert_eq!(window.get_smoothed_position(), (10, 20, 30));
    window.add_sample(20, 40, 60);
    assert_eq!(window.get_smoothed_position(), (15, 30, 45));
    assert_eq!(window.len(), 2);
}

#[test]
fn mean_covers_exactly_the_last_samples() {
    let mut window = MovingAverage::new();
    let samples = [(3, 0, 0), (6, 0, 0), (9, 30, -3), (30, 60, -6), (300, 90, -9)];
    for (x, y, z) in samples {
        window.add_sample(x, y, z);
    }
    assert_eq!(window.len(), 3);
    assert_eq!(window.get_smoothed_position(), (113, 60, -6));
}

#[test]
fn mean_for_every_window_size_is_over_the_last_samples() {
    let xs: Vec<i32> = vec![7, -3, 12, 100, -55, 8, 8, 41, -9, 0, 13];
    for capacity in 0..6usize {
        let mut window = MovingAverage::with_capacity(capacity);
        for (n, x) in xs.iter().enumerate() {
            window.add_sample(*x, 2 * *x, -*x);
            let held = capacity.min(n + 1);
            assert_eq!(window.len(), held);
            let last = &xs[n + 1 - held..n + 1];
            let expected = if held == 0 { 0 } else { last.iter().sum::<i32>() / held as i32 };
            let expected_y = if held == 0 { 0 } else { last.iter().map(|v| 2 * v).sum::<i32>() / held as i32 };
            let expected_z = if held == 0 { 0 } else { last.iter().map(|v| -v).sum::<i32>() / held as i32 };
            assert_eq!(window.get_smoothed_position(), (expected, expected_y, expected_z));
        }
    }
}

#[test]
fn mean_is_cut_off_towards_zero() {
    let mut window = MovingAverage::new();
    window.add_sample(-1, 1, -5);
    window.add_sample(-1, 1, -5);
    window.add_sample(0, 0, 0);
    // -2/3, 2/3 and -10/3
    assert_eq!(window.get_smoothed_position(), (0, 0, -3));
    window.add_sample(-6, 6, 0);
    // -7/3, 7/3 and -5/3
    assert_eq!(window.get_smoothed_position(), (-2, 2, -1));
}

#[test]
fn mean_of_extreme_samples_does_not_overflow() {
    let mut window = MovingAverage::new();
    for _ in 0..3 {
        window.add_sample(i32::MAX, i32::MIN, i32::MAX);
    }
    assert_eq!(window.get_smoothed_position(), (i32::MAX, i32::MIN, i32::MAX));
    window.add_sample(i32::MIN, i32::MAX, 0);
    assert_eq!(window.get_smoothed_position(), (715827882, -715827883, 1431655764));
}

#[test]
fn smoothed_position_never_falls_while_samples_rise() {
    let mut window = MovingAverage::new();
    let mut last = i32::MIN;
    for step in 0..50 {
        window.add_sample(-300 + 12 * step, 0, 0);
        let (x, _, _) = window.get_smoothed_position();
        assert!(x >= last);
        last = x;
    }
    assert_eq!(last, 276);
}

#[test]
fn reading_without_a_position_is_skipped() {
    let mut window = MovingAverage::new();
    assert_eq!(hand_tracking(Some((30, 60, 90)), &mut window), (30, 60, 90));
    assert_eq!(hand_tracking(None, &mut window), (0, 0, 0));
    assert_eq!(window.len(), 1);
    assert_eq!(hand_tracking(Some((10, 20, 30)), &mut window), (20, 40, 60));
    assert_eq!(window.get_smoothed_position(), (20, 40, 60));
}
