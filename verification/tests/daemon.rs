use superio_fanctl::daemon::{disk_path_setting, poll_interval, select_readings, FanDaemon, TickAction};

#[test]
fn fail_safe_is_written_once() {
    let mut d = FanDaemon::new();
    assert!(matches!(d.tick(None, None), TickAction::FailSafe));
    assert_eq!(d.last_pwm(), Some(250));
    assert!(matches!(d.tick(None, None), TickAction::Hold));
}

#[test]
fn writes_only_when_the_pwm_changes() {
    let mut d = FanDaemon::new();
    match d.tick(Some(20_000), Some(25_000)) {
        TickAction::Apply { pwm, state, effective } => {
            assert_eq!((pwm, state, effective), (50, 1, 25_000));
        }
        _ => panic!("expected a write"),
    }
    assert!(matches!(d.tick(Some(21_000), Some(24_000)), TickAction::Hold));
    match d.tick(Some(75_000), None) {
        TickAction::Apply { pwm, state, effective } => {
            assert_eq!((pwm, state, effective), (250, 5, 65_000));
        }
        _ => panic!("expected a write"),
    }
    // After the fail-safe value was written by a normal round, a failed
    // read asks for nothing more.
    assert!(matches!(d.tick(None, None), TickAction::Hold));
}

#[test]
fn missing_reading_counts_as_zero() {
    let mut d = FanDaemon::new();
    match d.tick(None, Some(35_000)) {
        TickAction::Apply { pwm, state, effective } => {
            assert_eq!((pwm, state, effective), (50, 2, 35_000));
        }
        _ => panic!("expected a write"),
    }
    assert_eq!(d.controller().state(), 2);
}

#[test]
fn poll_interval_defaults_and_minimum() {
    assert_eq!(poll_interval("10"), 10);
    assert_eq!(poll_interval("3"), 3);
    assert_eq!(poll_interval("+7"), 7);
    assert_eq!(poll_interval("0"), 1);
    assert_eq!(poll_interval(""), 10);
    assert_eq!(poll_interval("ten"), 10);
    assert_eq!(poll_interval(" 5"), 10);
    assert_eq!(poll_interval("-5"), 10);
    assert_eq!(poll_interval("18446744073709551615"), u64::MAX);
    assert_eq!(poll_interval("18446744073709551616"), 10);
}

#[test]
fn blank_disk_path_is_ignored() {
    assert_eq!(disk_path_setting(None), None);
    assert_eq!(disk_path_setting(Some("  \n".to_string())), None);
    assert_eq!(
        disk_path_setting(Some("/sys/block/sda/temp".to_string())),
        Some("/sys/block/sda/temp".to_string())
    );
}

#[test]
fn prefers_sensors_and_configured_disk_file() {
    assert_eq!(select_readings(Some(50_000), Some(40_000), Some(35_000), Some(30_000)), (Some(50_000), Some(35_000)));
    assert_eq!(select_readings(None, Some(40_000), None, Some(30_000)), (Some(40_000), Some(30_000)));
    assert_eq!(select_readings(None, None, None, None), (None, None));
}
