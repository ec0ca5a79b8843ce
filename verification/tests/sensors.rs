use superio_fanctl::sensors::{
    cpu_temperature, disk_temperature, HwmonReadings, ZoneReading, is_cpu_hwmon, is_disk_hwmon, is_disk_thermal_zone, is_temp_input_name, max_reading,
    parse_temperature,
};

#[test]
fn reads_millidegrees_and_degrees() {
    assert_eq!(parse_temperature("45000\n"), Some(45_000));
    assert_eq!(parse_temperature("45"), Some(45_000));
    assert_eq!(parse_temperature("200"), Some(200_000));
    assert_eq!(parse_temperature("201"), Some(201));
    assert_eq!(parse_temperature(" 38.5 "), Some(38_500));
    assert_eq!(parse_temperature("200.5"), Some(200));
    assert_eq!(parse_temperature("-5"), Some(-5_000));
    assert_eq!(parse_temperature("+.25"), Some(250));
    assert_eq!(parse_temperature("7."), Some(7_000));
    assert_eq!(parse_temperature("0.0001"), Some(0));
}

#[test]
fn rejects_text_that_is_not_a_number() {
    assert_eq!(parse_temperature(""), None);
    assert_eq!(parse_temperature("   "), None);
    assert_eq!(parse_temperature("."), None);
    assert_eq!(parse_temperature("-"), None);
    assert_eq!(parse_temperature("4a"), None);
    assert_eq!(parse_temperature("1.2.3"), None);
    assert_eq!(parse_temperature("4 5"), None);
}

#[test]
fn reads_what_float_parsing_accepts() {
    assert_eq!(parse_temperature("1e3"), Some(1_000));
    assert_eq!(parse_temperature("4.5e1"), Some(45_000));
    assert_eq!(parse_temperature("45000e-3"), Some(45_000));
    assert_eq!(parse_temperature("2.5E+2"), Some(250));
    assert_eq!(parse_temperature("1.e2"), Some(100_000));
    assert_eq!(parse_temperature("99999999999"), Some(i32::MAX));
    assert_eq!(parse_temperature("-99999999999"), Some(i32::MIN));
    assert_eq!(parse_temperature("1e999999999999999999999999"), Some(i32::MAX));
    assert_eq!(parse_temperature("1e-999999999999999999999999"), Some(0));
    assert_eq!(parse_temperature("0e999999999999999999999999"), Some(0));
    assert_eq!(parse_temperature("inf"), Some(i32::MAX));
    assert_eq!(parse_temperature("+Infinity"), Some(i32::MAX));
    assert_eq!(parse_temperature("-INF"), Some(i32::MIN));
    assert_eq!(parse_temperature("NaN"), Some(i32::MIN));
    assert_eq!(parse_temperature("1e"), None);
    assert_eq!(parse_temperature("1e+"), None);
    assert_eq!(parse_temperature("e5"), None);
    assert_eq!(parse_temperature("1e5e3"), None);
    assert_eq!(parse_temperature("infin"), None);
}

#[test]
fn selects_temperature_input_files() {
    assert!(is_temp_input_name("temp1_input"));
    assert!(is_temp_input_name("temp_input"));
    assert!(!is_temp_input_name("temp1_max"));
    assert!(!is_temp_input_name("in0_input"));
    assert!(!is_temp_input_name("name"));
}

#[test]
fn classifies_hwmon_adapters() {
    assert!(is_cpu_hwmon("coretemp\n"));
    assert!(is_cpu_hwmon("CoreTemp"));
    assert!(is_cpu_hwmon("coretemp-isa-0000"));
    assert!(!is_cpu_hwmon("coretemp2"));
    assert!(!is_cpu_hwmon("acpitz"));
    assert!(is_disk_hwmon("drivetemp\n"));
    assert!(is_disk_hwmon("NVMe"));
    assert!(is_disk_hwmon("sata_temp"));
    assert!(is_disk_hwmon("scsi0"));
    assert!(!is_disk_hwmon("coretemp"));
}

#[test]
fn classifies_thermal_zones() {
    assert!(is_disk_thermal_zone("disk-thermal\n"));
    assert!(is_disk_thermal_zone("SSD0"));
    assert!(is_disk_thermal_zone("hard-drive"));
    assert!(is_disk_thermal_zone("nvme"));
    assert!(!is_disk_thermal_zone("x86_pkg_temp"));
    assert!(!is_disk_thermal_zone("acpitz"));
}

#[test]
fn picks_the_hottest_reading() {
    assert_eq!(max_reading(&vec![]), None);
    assert_eq!(max_reading(&vec![41_000]), Some(41_000));
    assert_eq!(max_reading(&vec![41_000, 47_500, 39_000]), Some(47_500));
    assert_eq!(max_reading(&vec![-3_000, -1_000]), Some(-1_000));
}

fn hwmon(name: &str, readings: &[i32]) -> HwmonReadings {
    HwmonReadings { name_file: name.to_string(), readings: readings.to_vec() }
}

fn zone(kind: &str, reading: Option<i32>) -> ZoneReading {
    ZoneReading { type_file: kind.to_string(), reading }
}

#[test]
fn cpu_temperature_is_the_hottest_coretemp_input() {
    let hwmons = vec![
        hwmon("acpitz\n", &[90_000]),
        hwmon("coretemp\n", &[41_000, 47_000]),
        hwmon("nvme\n", &[38_000]),
        hwmon("coretemp\n", &[44_000]),
    ];
    assert_eq!(cpu_temperature(&hwmons), Some(47_000));
    assert_eq!(cpu_temperature(&vec![hwmon("coretemp\n", &[])]), None);
    assert_eq!(cpu_temperature(&vec![]), None);
}

#[test]
fn disk_temperature_is_the_hottest_disk_adapter_or_zone() {
    let hwmons = vec![
        hwmon("coretemp\n", &[70_000]),
        hwmon("drivetemp\n", &[36_000, 39_000]),
        hwmon("nvme\n", &[41_000]),
    ];
    let zones = vec![zone("x86_pkg_temp", Some(80_000)), zone("ssd-zone", Some(43_000)), zone("disk", None)];
    assert_eq!(disk_temperature(&hwmons, &zones), Some(43_000));
    assert_eq!(disk_temperature(&hwmons, &vec![]), Some(41_000));
    assert_eq!(disk_temperature(&vec![hwmon("coretemp", &[50_000])], &vec![zone("acpitz", Some(1))]), None);
}
