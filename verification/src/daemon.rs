//! The decisions of the fan daemon: what each polling round writes to the
//! fan, given the temperatures it could read, and the daemon's settings.
use vstd::prelude::*;
use crate::controller::{
    ControllerModel, OfficialController, effective_temp, output_pwm, FAIL_SAFE_PWM,
};
use crate::number::{parse_unsigned, parse_unsigned_from};
use crate::text::{chars_of, is_blank, trimmed};

verus! {

/// What a polling round asks the caller to do.
pub enum TickAction {
    /// The PWM did not change: nothing to write.
    Hold,
    /// No temperature could be read: write the fail-safe PWM.
    FailSafe,
    /// Write a new PWM; the state and the effective temperature (in
    /// millidegrees) are reported with it.
    Apply { pwm: u8, state: u8, effective: i64 },
}

/// What the daemon holds: its controller and the PWM it last wrote.
pub struct DaemonModel {
    pub controller: ControllerModel,
    pub last_pwm: Option<u8>,
}

/// The temperature the controller is given for a reading: the reading, or
/// 0 when it failed.
pub open spec fn reading_or_zero(t: Option<i32>) -> int {
    match t {
        Some(v) => v as int,
        None => 0,
    }
}

impl DaemonModel {
    /// A daemon that has written nothing yet.
    pub open spec fn initial() -> DaemonModel {
        DaemonModel { controller: ControllerModel::initial(), last_pwm: None }
    }

    /// The daemon after one round with the given readings. When both
    /// readings failed the controller is left alone and the fail-safe value
    /// counts as written; otherwise the controller steps, a failed reading
    /// taken as 0, and its output counts as written.
    pub open spec fn after(self, cpu: Option<i32>, disk: Option<i32>) -> DaemonModel {
        if cpu is None && disk is None {
            DaemonModel { last_pwm: Some(FAIL_SAFE_PWM), ..self }
        } else {
            let next = self.controller.step(reading_or_zero(cpu), reading_or_zero(disk));
            DaemonModel { controller: next, last_pwm: Some(output_pwm(next.current_pwm)) }
        }
    }

    /// What one round asks to write: a value is written only when it differs
    /// from the last one written.
    pub open spec fn action(self, cpu: Option<i32>, disk: Option<i32>) -> TickAction {
        if cpu is None && disk is None {
            if self.last_pwm == Some(FAIL_SAFE_PWM) {
                TickAction::Hold
            } else {
                TickAction::FailSafe
            }
        } else {
            let c = reading_or_zero(cpu);
            let d = reading_or_zero(disk);
            let next = self.controller.step(c, d);
            let pwm = output_pwm(next.current_pwm);
            if self.last_pwm == Some(pwm) {
                TickAction::Hold
            } else {
                TickAction::Apply { pwm, state: next.state, effective: effective_temp(c, d) as i64 }
            }
        }
    }
}

/// The fan daemon's state between polling rounds.
pub struct FanDaemon {
    controller: OfficialController,
    last_pwm: Option<u8>,
}

impl View for FanDaemon {
    type V = DaemonModel;

    closed spec fn view(&self) -> DaemonModel {
        DaemonModel { controller: self.controller@, last_pwm: self.last_pwm }
    }
}

impl FanDaemon {
    /// A daemon with a fresh controller that has written nothing.
    pub fn new() -> (d: Self)
        ensures
            d@ == DaemonModel::initial(),
    {
        FanDaemon { controller: OfficialController::new(), last_pwm: None }
    }

    /// The controller, for reporting.
    pub fn controller(&self) -> (c: &OfficialController)
        ensures
            c@ == self@.controller,
    {
        &self.controller
    }

    /// The PWM last written.
    pub fn last_pwm(&self) -> (p: Option<u8>)
        ensures
            p == self@.last_pwm,
    {
        self.last_pwm
    }

    /// One polling round with the CPU and disk readings (millidegrees,
    /// `None` where the reading failed).
    pub fn tick(&mut self, cpu: Option<i32>, disk: Option<i32>) -> (act: TickAction)
        ensures
            final(self)@ == old(self)@.after(cpu, disk),
            act == old(self)@.action(cpu, disk),
    {
        if cpu.is_none() && disk.is_none() {
            if self.last_pwm == Some(FAIL_SAFE_PWM) {
                return TickAction::Hold;
            }
            self.last_pwm = Some(FAIL_SAFE_PWM);
            return TickAction::FailSafe;
        }
        let c: i32 = match cpu {
            Some(v) => v,
            None => 0,
        };
        let d: i32 = match disk {
            Some(v) => v,
            None => 0,
        };
        let (state, pwm, effective) = self.controller.update(c, d);
        let changed = match self.last_pwm {
            Some(p) => p != pwm,
            None => true,
        };
        self.last_pwm = Some(pwm);
        if changed {
            TickAction::Apply { pwm, state, effective }
        } else {
            TickAction::Hold
        }
    }
}

/// The readings a round hands to the controller: the CPU package sensors,
/// or else the configured CPU temperature file; the configured disk
/// temperature file, or else the disk sensors and disk thermal zones.
pub fn select_readings(
    cpu_sensors: Option<i32>,
    cpu_file: Option<i32>,
    disk_file: Option<i32>,
    disk_sensors: Option<i32>,
) -> (r: (Option<i32>, Option<i32>))
    ensures
        r.0 == (if cpu_sensors is Some {
            cpu_sensors
        } else {
            cpu_file
        }),
        r.1 == (if disk_file is Some {
            disk_file
        } else {
            disk_sensors
        }),
{
    let cpu = match cpu_sensors {
        Some(v) => Some(v),
        None => cpu_file,
    };
    let disk = match disk_file {
        Some(v) => Some(v),
        None => disk_sensors,
    };
    (cpu, disk)
}

/// The polling interval in seconds from its setting: a decimal `u64`, at
/// least 1; 10 when the setting is not a number.
pub open spec fn poll_seconds_of(text: Seq<char>) -> int {
    match parse_unsigned(text, 10, u64::MAX as int) {
        Some(n) => if n < 1 {
            1
        } else {
            n
        },
        None => 10,
    }
}

/// Reads the polling interval setting (see `poll_seconds_of`).
pub fn poll_interval(text: &str) -> (secs: u64)
    ensures
        secs == poll_seconds_of(text@),
{
    let c = chars_of(text);
    assert(c@.skip(0) =~= c@);
    match parse_unsigned_from(&c, 0, 10, u64::MAX) {
        Some(n) => if n < 1 {
            1
        } else {
            n
        },
        None => 10,
    }
}

/// The disk sensor path setting: kept unless it is blank.
pub fn disk_path_setting(value: Option<String>) -> (path: Option<String>)
    ensures
        path == (match value {
            Some(p) => if trimmed(p@).len() > 0 {
                Some(p)
            } else {
                None
            },
            None => None,
        }),
{
    match value {
        Some(p) => {
            if is_blank(p.as_str()) {
                None
            } else {
                Some(p)
            }
        },
        None => None,
    }
}

// ------------------------------------------------------------------
// Laws
// ------------------------------------------------------------------

/// Every value a round asks to write is one the fan controller accepts:
/// the fail-safe 250, or a PWM in `50..=250`.
pub proof fn lemma_written_pwm_in_range(m: DaemonModel, cpu: Option<i32>, disk: Option<i32>)
    ensures
        m.action(cpu, disk) matches TickAction::Apply { pwm, .. } ==> 50 <= pwm <= 250,
        m.after(cpu, disk).last_pwm matches Some(p) && 50 <= p <= 250,
{
}

/// The fail-safe value is written once: a second round without readings
/// writes nothing.
pub proof fn lemma_fail_safe_written_once(m: DaemonModel)
    ensures
        m.after(None, None).action(None, None) == TickAction::Hold,
        m.after(None, None).controller == m.controller,
{
}

/// A round with at least one reading asks to write exactly when the
/// controller's new output differs from the last value written, asks to
/// write that output, and records it as the last value written.
pub proof fn lemma_change_is_written(m: DaemonModel, cpu: Option<i32>, disk: Option<i32>)
    requires
        cpu is Some || disk is Some,
    ensures
        ({
            let c: int = match cpu {
                Some(v) => v as int,
                None => 0,
            };
            let d: int = match disk {
                Some(v) => v as int,
                None => 0,
            };
            let p = output_pwm(m.controller.step(c, d).current_pwm);
            &&& (m.action(cpu, disk) is Apply <==> m.last_pwm != Some(p))
            &&& (m.action(cpu, disk) matches TickAction::Apply { pwm, .. } ==> pwm == p)
            &&& m.after(cpu, disk).last_pwm == Some(p)
            &&& m.after(cpu, disk).controller == m.controller.step(c, d)
        }),
{
}

/// A value is never written twice in a row: a round asks for a write only
/// when the value differs from the last one written, and the value written
/// becomes the last one.
pub proof fn lemma_no_repeated_write(m: DaemonModel, cpu: Option<i32>, disk: Option<i32>)
    ensures
        m.action(cpu, disk) matches TickAction::Apply { pwm, .. } ==> m.last_pwm != Some(pwm)
            && m.after(cpu, disk).last_pwm == Some(pwm),
        m.action(cpu, disk) is FailSafe ==> m.last_pwm != Some(FAIL_SAFE_PWM) && m.after(
            cpu,
            disk,
        ).last_pwm == Some(FAIL_SAFE_PWM),
        m.action(cpu, disk) is Hold ==> m.after(cpu, disk).last_pwm == m.last_pwm,
{
}

} // verus!
