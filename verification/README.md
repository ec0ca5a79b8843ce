# superio_fanctl

Fan control for U-NAS HS201P and HS401P machines, verified with Verus.

- `src/controller.rs` — the five-state fan controller: effective temperature,
  state bands, per-state gains, the six-reading history and the output ranges,
  with its mathematical model and the laws it keeps.
- `src/daemon.rs` — what each polling round of the daemon writes, the
  fail-safe value, and the daemon's settings.
- `src/sensors.rs` — sensor file readings, hwmon and thermal zone names, and
  the hottest reading.
- `src/cli.rs`, `src/fanctl.rs` — the command line of the PWM tool, numbers,
  bus names and adapter discovery.
- `src/number.rs`, `src/text.rs` — integer and text helpers.
- `app/` — the programs: sysfs and I2C access, Super I/O port access,
  logging, the polling loop.

Temperatures are integers in millidegrees Celsius, the unit of the kernel's
hwmon and thermal files; averages are kept exactly as a total over a count.
