use superio_fanctl::number::decimal_string;
use superio_fanctl::cli::{plan, Command};
use superio_fanctl::fanctl::{
    check_address, clamp_pwm, device_path, discover_i801_bus, discovered_device_path, parse_number,
    superio_bank_select, DevicePath, I2cEntry,
};

fn args(list: &[&str]) -> Vec<String> {
    let mut v = vec!["superio-fanctl".to_string()];
    for a in list {
        v.push(a.to_string());
    }
    v
}

fn entry(file: &str, adapter: &str) -> I2cEntry {
    I2cEntry { file_name: file.to_string(), adapter_name: adapter.to_string() }
}

#[test]
fn parses_decimal_and_hex_numbers() {
    assert_eq!(parse_number("84", "address"), Ok(84));
    assert_eq!(parse_number("0x54", "address"), Ok(0x54));
    assert_eq!(parse_number("0XfF", "value"), Ok(255));
    assert_eq!(parse_number("+7", "bus"), Ok(7));
    assert_eq!(parse_number("65535", "value"), Ok(65535));
}

#[test]
fn reports_invalid_numbers() {
    assert_eq!(parse_number("65536", "value"), Err("invalid value: 65536".to_string()));
    assert_eq!(parse_number("0x", "address"), Err("invalid address: 0x".to_string()));
    assert_eq!(parse_number("", "bus"), Err("invalid bus: ".to_string()));
    assert_eq!(parse_number("+", "bus"), Err("invalid bus: +".to_string()));
    assert_eq!(parse_number("-1", "value"), Err("invalid value: -1".to_string()));
    assert_eq!(parse_number("12a", "value"), Err("invalid value: 12a".to_string()));
}

#[test]
fn clamps_requested_pwm() {
    assert_eq!(clamp_pwm(0), 50);
    assert_eq!(clamp_pwm(100), 100);
    assert_eq!(clamp_pwm(300), 250);
}

fn resolved(r: Result<DevicePath, String>) -> Option<String> {
    match r {
        Ok(DevicePath::Resolved(p)) => Some(p),
        _ => None,
    }
}

#[test]
fn resolves_bus_arguments() {
    assert!(matches!(device_path(None), Ok(DevicePath::Discover)));
    assert!(matches!(device_path(Some("auto")), Ok(DevicePath::Discover)));
    assert_eq!(resolved(device_path(Some("/dev/i2c-3"))), Some("/dev/i2c-3".to_string()));
    assert_eq!(resolved(device_path(Some("i2c-3"))), Some("/dev/i2c-3".to_string()));
    assert_eq!(resolved(device_path(Some("7"))), Some("/dev/i2c-7".to_string()));
    assert_eq!(resolved(device_path(Some("0x1f"))), Some("/dev/i2c-31".to_string()));
    assert_eq!(resolved(device_path(Some("007"))), Some("/dev/i2c-7".to_string()));
    assert!(matches!(device_path(Some("sda")), Err(e) if e == "invalid bus: sda"));
}

#[test]
fn finds_the_first_i801_adapter() {
    let entries = vec![
        entry("i2c-9", "SMBus I801 adapter at efa0\n"),
        entry("i2c-10", "SMBus I801 adapter at f040\n"),
        entry("i2c-0", "i915 gmbus dpb\n"),
        entry("something", "SMBus I801 adapter at 0000"),
    ];
    assert_eq!(discover_i801_bus(&entries), Ok("i2c-10".to_string()));
    assert_eq!(discovered_device_path(&entries), Ok("/dev/i2c-10".to_string()));
}

#[test]
fn reports_a_missing_adapter() {
    let entries = vec![entry("i2c-0", "i915 gmbus dpb"), entry("i2c-1", "SMBus I801 adapter at\n")];
    let message = "no I2C adapter matching \"SMBus I801 adapter at \" was found".to_string();
    assert_eq!(discover_i801_bus(&entries), Err(message.clone()));
    assert_eq!(discover_i801_bus(&vec![]), Err(message));
}

#[test]
fn checks_seven_bit_addresses() {
    assert_eq!(check_address(0x54), Ok(()));
    assert_eq!(check_address(0x7f), Ok(()));
    assert_eq!(check_address(0x80), Err("I2C address must be in 0..0x7f".to_string()));
}

#[test]
fn clears_the_bank_bits() {
    assert_eq!(superio_bank_select(0xff), 0xf8);
    assert_eq!(superio_bank_select(0x07), 0x00);
    assert_eq!(superio_bank_select(0x4e), 0x48);
}

fn write_of(r: Result<Command, superio_fanctl::cli::CliFailure>) -> Option<(Option<String>, u16, u8)> {
    match r {
        Ok(Command::I2cWrite { bus, address, pwm }) => Some((bus, address, pwm)),
        _ => None,
    }
}

fn failure_of(r: Result<Command, superio_fanctl::cli::CliFailure>) -> Option<(bool, String)> {
    match r {
        Err(f) => Some((f.show_usage, f.message)),
        _ => None,
    }
}

#[test]
fn plans_writes() {
    assert_eq!(write_of(plan(&args(&["--value", "120"]))), Some((None, 0x54, 120)));
    assert_eq!(write_of(plan(&args(&["-v", "20"]))), Some((None, 0x54, 50)));
    assert_eq!(write_of(plan(&args(&["--value", "251"]))), Some((None, 0x54, 255)));
    assert_eq!(write_of(plan(&args(&["--value", "100", "--legacy-max"]))), Some((None, 0x54, 255)));
    assert_eq!(
        write_of(plan(&args(&["--value", "0x80", "--bus", "3", "--address", "0x55", "--channel", "all"]))),
        Some((Some("3".to_string()), 0x55, 128))
    );
    assert_eq!(write_of(plan(&args(&["--i2c-only", "--value", "255"]))), Some((None, 0x54, 255)));
    assert_eq!(write_of(plan(&args(&["--i2c-only", "--value", "30"]))), Some((None, 0x54, 50)));
}

#[test]
fn plans_reads_and_dumps() {
    match plan(&args(&["--read", "-b", "i2c-2"])) {
        Ok(Command::I2cRead { bus, address }) => {
            assert_eq!(bus, Some("i2c-2".to_string()));
            assert_eq!(address, 0x54);
        }
        _ => panic!("expected a read"),
    }
    match plan(&args(&["--read-superio"])) {
        Ok(Command::SuperioDump { registers }) => assert_eq!(registers, vec![0x6b, 0x73, 0xa3]),
        _ => panic!("expected a dump"),
    }
    match plan(&args(&["--probe-superio"])) {
        Ok(Command::SuperioDump { registers }) => {
            assert_eq!(registers.len(), 14);
            assert_eq!(registers[0], 0x20);
            assert_eq!(registers[13], 0xa3);
        }
        _ => panic!("expected a dump"),
    }
    assert!(matches!(plan(&args(&["--value", "x", "--help"])), Ok(Command::Help)));
    assert!(matches!(plan(&args(&["-h"])), Ok(Command::Help)));
}

#[test]
fn plans_report_errors() {
    assert_eq!(failure_of(plan(&args(&["--value"]))), Some((false, "missing value".to_string())));
    assert_eq!(failure_of(plan(&args(&["--bus"]))), Some((false, "missing bus".to_string())));
    assert_eq!(failure_of(plan(&args(&["--address"]))), Some((false, "missing address".to_string())));
    assert_eq!(failure_of(plan(&args(&["--channel"]))), Some((false, "missing channel".to_string())));
    assert_eq!(
        failure_of(plan(&args(&["--value", "abc"]))),
        Some((false, "invalid value: abc".to_string()))
    );
    assert_eq!(
        failure_of(plan(&args(&["--frobnicate"]))),
        Some((true, "unknown argument: --frobnicate".to_string()))
    );
    assert_eq!(
        failure_of(plan(&args(&["--value", "100", "--channel", "1"]))),
        Some((false, "the official I2C controller has one shared fan PWM; --channel must be all".to_string()))
    );
    assert_eq!(
        failure_of(plan(&args(&["--read-superio", "--read"]))),
        Some((false, "--read-superio cannot be combined with --read or --value".to_string()))
    );
    assert_eq!(
        failure_of(plan(&args(&["--probe-superio", "--value", "60"]))),
        Some((false, "--probe-superio cannot be combined with --read or --value".to_string()))
    );
    assert_eq!(
        failure_of(plan(&args(&["--i2c-only"]))),
        Some((false, "--value is required".to_string()))
    );
    assert_eq!(
        failure_of(plan(&args(&["--i2c-only", "--value", "254"]))),
        Some((false, "--i2c-only accepts 50..250 or 255".to_string()))
    );
    assert_eq!(
        failure_of(plan(&args(&[]))),
        Some((false, "specify exactly one of --read or --value".to_string()))
    );
    assert_eq!(
        failure_of(plan(&args(&["--read", "--value", "60"]))),
        Some((false, "specify exactly one of --read or --value".to_string()))
    );
}

#[test]
fn bus_number_and_i2c_name_agree() {
    for n in ["0", "7", "12", "65535"] {
        let plain = resolved(device_path(Some(n)));
        let named = resolved(device_path(Some(&format!("i2c-{n}"))));
        assert_eq!(plain, named);
        assert_eq!(plain, Some(format!("/dev/i2c-{n}")));
    }
}

#[test]
fn hex_renderings_read_back() {
    for n in [0u16, 7, 0x54, 0x7f, 0xabc, 0xffff] {
        assert_eq!(parse_number(&n.to_string(), "value"), Ok(n));
        assert_eq!(parse_number(&format!("{:#x}", n), "value"), Ok(n));
        assert_eq!(parse_number(&format!("0X{:X}", n), "value"), Ok(n));
        assert_eq!(parse_number(&format!("{:#06x}", n), "value"), Ok(n));
    }
}

#[test]
fn writes_numbers_in_decimal() {
    assert_eq!(decimal_string(0), "0");
    assert_eq!(decimal_string(7), "7");
    assert_eq!(decimal_string(10), "10");
    assert_eq!(decimal_string(65535), "65535");
}
