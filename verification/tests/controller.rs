use superio_fanctl::controller::{clamp_pwm, OfficialController};

#[test]
fn follows_wygpio_states() {
    let mut controller = OfficialController::new();
    assert_eq!(controller.update(20_000, 0).0, 1);
    assert_eq!(controller.update(40_000, 0).0, 2);
    assert_eq!(controller.update(55_000, 0).0, 3);
    assert_eq!(controller.update(65_000, 0).0, 4);
    assert_eq!(controller.update(70_000, 0).0, 5);
    assert_eq!(controller.update(20_000, 0).1, 50);
}

#[test]
fn clamps_controller_range() {
    assert_eq!(clamp_pwm(0), 50);
    assert_eq!(clamp_pwm(255), 250);
}

#[test]
fn uses_official_state_coefficients() {
    let mut state2 = OfficialController::new();
    state2.update(51_000, 0); // effective=41, initializes the history
    state2.update(52_000, 0); // delta=1, state 2 uses coefficient 3
    assert_eq!(state2.current_pwm(), 53);

    let mut sharp_state2 = OfficialController::new();
    sharp_state2.update(46_000, 0); // effective=36
    sharp_state2.update(54_000, 0); // effective=44, delta=8 uses coefficient 5
    assert_eq!(sharp_state2.current_pwm(), 90);

    let mut state4 = OfficialController::new();
    state4.update(65_000, 0); // effective=55
    state4.update(68_000, 0); // delta=3, state 4 uses coefficient 10
    assert_eq!(state4.current_pwm(), 180);

    let mut state3 = OfficialController::new();
    state3.update(55_000, 0); // effective=45
    assert_eq!(state3.current_pwm(), 80); // state 3 minimum output range
}

#[test]
fn clamp_keeps_values_in_range() {
    assert_eq!(clamp_pwm(50), 50);
    assert_eq!(clamp_pwm(137), 137);
    assert_eq!(clamp_pwm(250), 250);
    assert_eq!(clamp_pwm(-40), 50);
    assert_eq!(clamp_pwm(i32::MAX), 250);
}

#[test]
fn fresh_controller_starts_in_state_one() {
    let c = OfficialController::new();
    assert_eq!(c.state(), 1);
    assert_eq!(c.current_pwm(), 25);
    assert_eq!(c.counter(), 0);
    assert_eq!(c.previous_temp(), 0);
    assert_eq!(c.average(), (0, 1));
    assert!(c.history().is_empty());
}

#[test]
fn effective_temperature_takes_the_hotter_source() {
    let mut c = OfficialController::new();
    // cpu 50 °C counts as 40 °C; the disk at 42.5 °C is hotter.
    let (state, _, effective) = c.update(50_000, 42_500);
    assert_eq!(effective, 42_500);
    assert_eq!(state, 2);
    // cpu 70 °C counts as 60 °C and wins over a cool disk.
    let (state, pwm, effective) = c.update(70_000, 20_000);
    assert_eq!(effective, 60_000);
    assert_eq!(state, 5);
    assert_eq!(pwm, 250);
}

#[test]
fn hot_state_requests_full_speed_and_final_limit_applies() {
    let mut c = OfficialController::new();
    let out = c.update(90_000, 0);
    assert_eq!(out, (5, 250, 80_000));
    assert_eq!(c.current_pwm(), 255);
}

#[test]
fn state_boundaries() {
    let mut c = OfficialController::new();
    assert_eq!(c.update(39_999, 0).0, 1); // 29.999 °C
    assert_eq!(c.update(40_000, 0).0, 2); // 30 °C
    assert_eq!(c.update(54_999, 0).0, 2);
    assert_eq!(c.update(55_000, 0).0, 3); // 45 °C
    assert_eq!(c.update(65_000, 0).0, 4); // 55 °C
    assert_eq!(c.update(69_999, 0).0, 4);
    assert_eq!(c.update(70_000, 0).0, 5); // 60 °C
}

#[test]
fn extremes_leave_history_alone() {
    let mut c = OfficialController::new();
    c.update(50_000, 0); // 40 °C
    let before = c.history();
    c.update(20_000, 0);
    c.update(80_000, 0);
    assert_eq!(c.history(), before);
    assert_eq!(c.previous_temp(), 40_000);
}

#[test]
fn history_keeps_six_latest_readings() {
    let mut c = OfficialController::new();
    for t in [31_000, 32_000, 33_000, 34_000, 35_000, 36_000, 37_000, 38_000] {
        c.update(0, t);
    }
    assert_eq!(c.history(), vec![33_000, 34_000, 35_000, 36_000, 37_000, 38_000]);
    let (total, count) = c.average();
    assert_eq!(count, 6);
    assert_eq!(total, 33_000 + 34_000 + 35_000 + 36_000 + 37_000 + 38_000);
}

#[test]
fn steady_readings_lower_pwm_after_patience() {
    let mut c = OfficialController::new();
    c.update(0, 52_000); // state 3, seeds the history
    assert_eq!(c.current_pwm(), 80);
    c.update(0, 54_500); // a 2.5 °C jump over 52 °C: 80 + 2.5 * 5 = 92.5 -> 92
    assert_eq!(c.current_pwm(), 92);
    // The average is now 53.25 °C. Readings equal to the average count
    // toward the patience of state 3 (five); while the older readings leave
    // the window the average moves away and the counter waits. The reading
    // that goes past the patience lowers the PWM by one.
    let expected_counters = [1, 2, 3, 4, 5, 5, 0, 1];
    let expected_pwms = [92, 92, 92, 92, 92, 92, 91, 91];
    for k in 0..8 {
        c.update(0, 53_250);
        assert_eq!(c.counter(), expected_counters[k]);
        assert_eq!(c.current_pwm(), expected_pwms[k]);
    }
}

#[test]
fn decrease_path_lowers_by_drop_plus_one() {
    let mut c = OfficialController::new();
    c.update(0, 58_000); // state 4, seeds, floor 150
    c.update(0, 59_000); // rise 1 over average 58 → +5 → 155
    assert_eq!(c.current_pwm(), 155);
    // 56.0: below previous 59 and below average 58.5: 155 - (59 - 56 + 1) = 151
    c.update(0, 56_000);
    assert_eq!(c.current_pwm(), 151);
}

#[test]
fn fractional_adjustments_truncate() {
    let mut c = OfficialController::new();
    c.update(0, 41_000); // state 2, pwm 50
    c.update(0, 41_500); // 0.5 above average → +1.5 → 51
    assert_eq!(c.current_pwm(), 51);
}
