//! The fan-speed controller: a five-state machine driven by the effective
//! temperature, with a short history window and per-state gains.
//!
//! All temperatures are integers in millidegrees Celsius, the unit in which
//! the kernel's hwmon and thermal interfaces report them. Averages are kept
//! exactly, as a total over a count, so every comparison and every truncation
//! below is exact.
use vstd::prelude::*;

verus! {

/// Lowest effective temperature of the highest state.
pub const HOT_LIMIT: i64 = 60_000;

/// Effective temperatures below this put the controller in its lowest state.
pub const COOL_LIMIT: i64 = 30_000;

/// How far the CPU reading is lowered before it is compared with the disk.
pub const CPU_OFFSET: i64 = 10_000;

/// Number of effective temperatures the history window keeps.
pub const HISTORY_LEN: usize = 6;

/// The PWM value written when no temperature can be read, or on shutdown.
pub const FAIL_SAFE_PWM: u8 = 250;

// ------------------------------------------------------------------
// Mathematical model
// ------------------------------------------------------------------

/// The larger of the CPU temperature lowered by ten degrees and the disk
/// temperature.
pub open spec fn effective_temp(cpu: int, disk: int) -> int {
    if cpu - CPU_OFFSET >= disk {
        cpu - CPU_OFFSET
    } else {
        disk
    }
}

/// The state that an effective temperature selects: 1 below 30 °C, 5 from
/// 60 °C, and 2, 3, 4 for the bands that start at 30, 45 and 55 °C.
pub open spec fn band_of(effective: int) -> u8 {
    if effective >= HOT_LIMIT {
        5
    } else if effective < COOL_LIMIT {
        1
    } else if effective >= 55_000 {
        4
    } else if effective >= 45_000 {
        3
    } else {
        2
    }
}

/// Effective temperatures of the three middle states.
pub open spec fn in_middle_band(t: int) -> bool {
    COOL_LIMIT <= t < HOT_LIMIT
}

/// `x` limited to `lo..=hi`.
pub open spec fn clamp_int(x: int, lo: int, hi: int) -> int {
    if x < lo {
        lo
    } else if x > hi {
        hi
    } else {
        x
    }
}

/// The value that reaches the fan controller: the raw PWM limited to
/// `50..=250`.
pub open spec fn output_pwm(raw: int) -> u8 {
    clamp_int(raw, 50, 250) as u8
}

/// Division rounded toward zero, as a cast from a fraction to an integer
/// rounds.
pub open spec fn trunc_div(x: int, d: int) -> int
    recommends
        d > 0,
{
    if x >= 0 {
        x / d
    } else {
        -((-x) / d)
    }
}

/// The rise over the previous reading beyond which a state counts a jump.
pub open spec fn jump_margin(state: u8) -> int {
    if state == 2 {
        3_000
    } else {
        2_000
    }
}

/// PWM per degree of a jump over the previous reading.
pub open spec fn jump_gain(state: u8) -> int {
    if state == 4 {
        10
    } else {
        5
    }
}

/// PWM per degree above the average.
pub open spec fn rise_gain(state: u8) -> int {
    if state == 2 {
        3
    } else {
        5
    }
}

/// Number of steady readings a state tolerates before lowering the PWM by one.
pub open spec fn patience(state: u8) -> int {
    if state == 2 {
        10
    } else {
        5
    }
}

/// The output range that a middle state applies after its adjustment.
pub open spec fn state_range(state: u8, effective: int, pwm: int) -> int {
    if state == 2 {
        if effective <= 40_000 {
            50
        } else {
            clamp_int(pwm, 50, 125)
        }
    } else if state == 3 {
        if effective <= 50_000 {
            80
        } else {
            clamp_int(pwm, 80, 180)
        }
    } else if state == 4 {
        clamp_int(pwm, 150, 255)
    } else {
        pwm
    }
}

/// The sum of a sequence of temperatures.
pub open spec fn seq_sum(s: Seq<i64>) -> int
    decreases s.len(),
{
    if s.len() == 0 {
        0
    } else {
        seq_sum(s.drop_last()) + s.last()
    }
}

/// The history after a new reading: the oldest one leaves once there are
/// more than six.
pub open spec fn window(pushed: Seq<i64>) -> Seq<i64> {
    if pushed.len() > HISTORY_LEN {
        pushed.drop_first()
    } else {
        pushed
    }
}

/// What the controller holds: its state, the steady-reading counter, the raw
/// PWM, the previous effective temperature, the average as a total over a
/// count, and the history window.
pub struct ControllerModel {
    pub state: u8,
    pub counter: int,
    pub current_pwm: int,
    pub previous_temp: int,
    pub average_total: int,
    pub average_count: int,
    pub history: Seq<i64>,
}

impl ControllerModel {
    /// A fresh controller: state 1, counter 0, raw PWM 25, no readings yet.
    pub open spec fn initial() -> ControllerModel {
        ControllerModel {
            state: 1,
            counter: 0,
            current_pwm: 25,
            previous_temp: 0,
            average_total: 0,
            average_count: 1,
            history: Seq::empty(),
        }
    }

    /// The bounds that every controller keeps.
    pub open spec fn within_bounds(self) -> bool {
        &&& 1 <= self.state <= 5
        &&& 0 <= self.counter <= 10
        &&& 25 <= self.current_pwm <= 255
        &&& (self.previous_temp == 0 || in_middle_band(self.previous_temp))
        &&& 1 <= self.average_count <= HISTORY_LEN
        &&& 0 <= self.average_total <= HOT_LIMIT * self.average_count
        &&& self.history.len() <= HISTORY_LEN
        &&& forall|i: int| 0 <= i < self.history.len() ==> in_middle_band(#[trigger] self.history[i] as int)
    }

    /// Before its first reading in the middle band the controller takes that
    /// reading as both its previous temperature and its average.
    pub open spec fn seeded(self, effective: int) -> ControllerModel {
        if self.previous_temp <= 0 {
            ControllerModel {
                previous_temp: effective,
                average_total: effective,
                average_count: 1,
                ..self
            }
        } else {
            self
        }
    }

    /// The adjustment of a middle state: the new raw PWM and counter.
    /// A jump over the previous reading raises the PWM by `jump_gain` per
    /// degree; a reading above the average raises it by `rise_gain` per
    /// degree above the average; a whole-degree drop below both the previous
    /// reading and the average lowers it by the drop plus one degree; a
    /// reading equal to the average counts toward `patience`, after which the
    /// PWM goes down by one. Fractional results are rounded toward zero.
    pub open spec fn adjust(self, state: u8, effective: int) -> (int, int) {
        let e = effective;
        let p = self.previous_temp;
        let total = self.average_total;
        let count = self.average_count;
        let pwm = self.current_pwm;
        if e - jump_margin(state) > p {
            (trunc_div(pwm * 1000 + (e - p) * jump_gain(state), 1000), 0)
        } else if e * count > total {
            (
                trunc_div(pwm * 1000 * count + (e * count - total) * rise_gain(state), 1000 * count),
                0,
            )
        } else if trunc_div(e, 1000) < trunc_div(p, 1000) && trunc_div(e, 1000) < trunc_div(
            total,
            1000 * count,
        ) {
            (trunc_div(pwm * 1000 - (p - e + 1000), 1000), 0)
        } else if e * count == total {
            if self.counter + 1 > patience(state) {
                (pwm - 1, 0)
            } else {
                (pwm, self.counter + 1)
            }
        } else {
            (pwm, self.counter)
        }
    }

    /// The controller after one update with the given CPU and disk
    /// temperatures.
    pub open spec fn step(self, cpu: int, disk: int) -> ControllerModel {
        let e = effective_temp(cpu, disk);
        if e >= HOT_LIMIT {
            ControllerModel { state: 5, current_pwm: 255, ..self }
        } else if e < COOL_LIMIT {
            ControllerModel { state: 1, current_pwm: 50, ..self }
        } else {
            let state = band_of(e);
            let (pwm, counter) = self.seeded(e).adjust(state, e);
            let history = window(self.history.push(e as i64));
            ControllerModel {
                state,
                counter,
                current_pwm: state_range(state, e, pwm),
                previous_temp: e,
                average_total: seq_sum(history),
                average_count: history.len() as int,
                history,
            }
        }
    }
}

// ------------------------------------------------------------------
// Lemmas
// ------------------------------------------------------------------

proof fn lemma_sum_bounds(s: Seq<i64>)
    requires
        forall|i: int| 0 <= i < s.len() ==> in_middle_band(#[trigger] s[i] as int),
    ensures
        COOL_LIMIT * s.len() <= seq_sum(s) <= HOT_LIMIT * s.len(),
    decreases s.len(),
{
    if s.len() > 0 {
        let t = s.drop_last();
        assert forall|i: int| 0 <= i < t.len() implies in_middle_band(#[trigger] t[i] as int) by {
            assert(t[i] == s[i]);
        }
        lemma_sum_bounds(t);
    }
}

proof fn lemma_sum_push(s: Seq<i64>, x: i64)
    ensures
        seq_sum(s.push(x)) == seq_sum(s) + x,
{
    assert(s.push(x).drop_last() =~= s);
}

// ------------------------------------------------------------------
// Laws
// ------------------------------------------------------------------

/// A fresh controller is within its bounds.
pub proof fn lemma_initial_within_bounds()
    ensures
        ControllerModel::initial().within_bounds(),
{
}

/// Every update keeps the controller within its bounds.
pub proof fn lemma_step_keeps_bounds(m: ControllerModel, cpu: int, disk: int)
    requires
        m.within_bounds(),
    ensures
        m.step(cpu, disk).within_bounds(),
{
    let e = effective_temp(cpu, disk);
    if COOL_LIMIT <= e < HOT_LIMIT {
        let pushed = m.history.push(e as i64);
        let h = window(pushed);
        assert forall|j: int| 0 <= j < pushed.len() implies in_middle_band(
            #[trigger] pushed[j] as int,
        ) by {
            if j < m.history.len() {
                assert(pushed[j] == m.history[j]);
            }
        }
        assert forall|i: int| 0 <= i < h.len() implies in_middle_band(#[trigger] h[i] as int) by {
            if pushed.len() > HISTORY_LEN {
                assert(h[i] == pushed[i + 1]);
            } else {
                assert(h[i] == pushed[i]);
            }
        }
        lemma_sum_bounds(h);
    }
}

/// The state depends on the effective temperature alone: below 30 °C it is
/// 1, from 60 °C it is 5, and 2, 3 and 4 for the bands from 30, 45 and 55 °C.
pub proof fn lemma_state_follows_temperature(m: ControllerModel, cpu: int, disk: int)
    ensures
        m.step(cpu, disk).state == band_of(effective_temp(cpu, disk)),
{
}

/// The output of each state: state 1 writes 50; state 5 asks for 255, which
/// the final limit turns into 250; state 2 stays in `50..=125` and is 50 up
/// to 40 °C; state 3 stays in `80..=180` and is 80 up to 50 °C; state 4
/// stays in `150..=255`. What reaches the fan is always in `50..=250`.
pub proof fn lemma_state_outputs(m: ControllerModel, cpu: int, disk: int)
    ensures
        ({
            let n = m.step(cpu, disk);
            let e = effective_temp(cpu, disk);
            &&& n.state == 1 ==> n.current_pwm == 50
            &&& n.state == 5 ==> n.current_pwm == 255 && output_pwm(n.current_pwm) == 250
            &&& n.state == 2 ==> 50 <= n.current_pwm <= 125 && (e <= 40_000 ==> n.current_pwm
                == 50)
            &&& n.state == 3 ==> 80 <= n.current_pwm <= 180 && (e <= 50_000 ==> n.current_pwm
                == 80)
            &&& n.state == 4 ==> 150 <= n.current_pwm <= 255
            &&& 50 <= output_pwm(n.current_pwm) <= 250
        }),
{
}

/// The output ranges of the middle states, with their ends: in state 4 the
/// new raw PWM is the adjusted PWM limited to `150..=255`; in state 3 it is
/// 80 up to 50 °C and otherwise the adjusted PWM limited to `80..=180`; in
/// state 2 it is 50 up to 40 °C and otherwise the adjusted PWM limited to
/// `50..=125`.
pub proof fn lemma_middle_state_ranges(m: ControllerModel, cpu: int, disk: int)
    ensures
        ({
            let e = effective_temp(cpu, disk);
            let n = m.step(cpu, disk);
            let a = m.seeded(e).adjust(band_of(e), e).0;
            &&& 55_000 <= e < 60_000 ==> n.current_pwm == (if a < 150 {
                150
            } else if a > 255 {
                255
            } else {
                a
            })
            &&& 45_000 <= e < 55_000 ==> n.current_pwm == (if e <= 50_000 {
                80
            } else if a < 80 {
                80
            } else if a > 180 {
                180
            } else {
                a
            })
            &&& 30_000 <= e < 45_000 ==> n.current_pwm == (if e <= 40_000 {
                50
            } else if a < 50 {
                50
            } else if a > 125 {
                125
            } else {
                a
            })
        }),
{
}

/// A reading in the middle band joins the history, which keeps the latest
/// six readings, oldest first, and the average becomes their mean.
pub proof fn lemma_history_window(m: ControllerModel, cpu: int, disk: int)
    requires
        m.history.len() <= HISTORY_LEN,
        in_middle_band(effective_temp(cpu, disk)),
    ensures
        ({
            let n = m.step(cpu, disk);
            let e = effective_temp(cpu, disk);
            let pushed = m.history.push(e as i64);
            &&& n.history.len() == (if m.history.len() < HISTORY_LEN {
                m.history.len() + 1int
            } else {
                HISTORY_LEN as int
            })
            &&& n.history == pushed.skip(pushed.len() - n.history.len())
            &&& n.history.last() == e
            &&& n.average_total == seq_sum(n.history)
            &&& n.average_count == n.history.len()
            &&& n.previous_temp == e
        }),
{
    let e = effective_temp(cpu, disk);
    let pushed = m.history.push(e as i64);
    if pushed.len() > HISTORY_LEN {
        assert(pushed.skip(1) =~= pushed.drop_first());
    } else {
        assert(pushed.skip(0) =~= pushed);
    }
}

/// Readings outside the middle band leave the counter, the previous
/// temperature, the average and the history as they were.
pub proof fn lemma_extremes_keep_memory(m: ControllerModel, cpu: int, disk: int)
    requires
        !in_middle_band(effective_temp(cpu, disk)),
    ensures
        ({
            let n = m.step(cpu, disk);
            &&& n.counter == m.counter
            &&& n.previous_temp == m.previous_temp
            &&& n.average_total == m.average_total
            &&& n.average_count == m.average_count
            &&& n.history == m.history
        }),
{
}

// ------------------------------------------------------------------
// Executable controller
// ------------------------------------------------------------------

/// Limits a raw PWM to the `50..=250` range that the fan controller accepts.
pub fn clamp_pwm(value: i32) -> (pwm: u8)
    ensures
        pwm == output_pwm(value as int),
{
    if value < 50 {
        50
    } else if value > 250 {
        250
    } else {
        value as u8
    }
}

fn trunc_div_exec(x: i64, d: i64) -> (q: i64)
    requires
        d > 0,
        x > i64::MIN,
    ensures
        q == trunc_div(x as int, d as int),
{
    if x >= 0 {
        x / d
    } else {
        -((-x) / d)
    }
}

fn clamp_exec(x: i64, lo: i64, hi: i64) -> (r: i64)
    ensures
        r == clamp_int(x as int, lo as int, hi as int),
{
    if x < lo {
        lo
    } else if x > hi {
        hi
    } else {
        x
    }
}

/// The controller of the fan daemon.
pub struct OfficialController {
    state: u8,
    counter: i32,
    current_pwm: i32,
    previous_temp: i64,
    average_total: i64,
    average_count: i64,
    history: Vec<i64>,
}

impl View for OfficialController {
    type V = ControllerModel;

    closed spec fn view(&self) -> ControllerModel {
        ControllerModel {
            state: self.state,
            counter: self.counter as int,
            current_pwm: self.current_pwm as int,
            previous_temp: self.previous_temp as int,
            average_total: self.average_total as int,
            average_count: self.average_count as int,
            history: self.history@,
        }
    }
}

impl OfficialController {
    #[verifier::type_invariant]
    spec fn keeps_bounds(self) -> bool {
        self@.within_bounds()
    }

    /// A controller in state 1 with raw PWM 25 and no readings.
    pub fn new() -> (c: Self)
        ensures
            c@ == ControllerModel::initial(),
    {
        let c = OfficialController {
            state: 1,
            counter: 0,
            current_pwm: 25,
            previous_temp: 0,
            average_total: 0,
            average_count: 1,
            history: Vec::with_capacity(HISTORY_LEN),
        };
        assert(c@.history =~= Seq::<i64>::empty());
        c
    }

    /// The current state, 1 to 5.
    pub fn state(&self) -> (s: u8)
        ensures
            s == self@.state,
    {
        self.state
    }

    /// The raw PWM before the final limit to `50..=250`.
    pub fn current_pwm(&self) -> (p: i32)
        ensures
            p == self@.current_pwm,
    {
        self.current_pwm
    }

    /// The steady-reading counter.
    pub fn counter(&self) -> (n: i32)
        ensures
            n == self@.counter,
    {
        self.counter
    }

    /// The previous effective temperature, 0 before the first middle-band
    /// reading.
    pub fn previous_temp(&self) -> (t: i64)
        ensures
            t == self@.previous_temp,
    {
        self.previous_temp
    }

    /// The average temperature as a total over a count.
    pub fn average(&self) -> (a: (i64, i64))
        ensures
            a.0 == self@.average_total,
            a.1 == self@.average_count,
            a.1 >= 1,
    {
        proof {
            use_type_invariant(self);
        }
        (self.average_total, self.average_count)
    }

    /// The effective temperatures in the history window, oldest first.
    pub fn history(&self) -> (h: Vec<i64>)
        ensures
            h@ == self@.history,
    {
        let mut out: Vec<i64> = Vec::new();
        let mut i: usize = 0;
        while i < self.history.len()
            invariant
                i <= self.history@.len(),
                out@ == self.history@.take(i as int),
            decreases self.history@.len() - i,
        {
            out.push(self.history[i]);
            i = i + 1;
            assert(out@ =~= self.history@.take(i as int));
        }
        assert(self.history@.take(i as int) =~= self.history@);
        out
    }

    /// The adjustment of a middle state (see `ControllerModel::adjust`).
    fn adjusted(&self, state: u8, effective: i64, previous: i64, total: i64, count: i64) -> (r: (
        i64,
        i32,
    ))
        requires
            2 <= state <= 4,
            in_middle_band(effective as int),
            in_middle_band(previous as int),
            1 <= count <= HISTORY_LEN,
            0 <= total <= HOT_LIMIT * count,
        ensures
            ({
                let m = ControllerModel {
                    previous_temp: previous as int,
                    average_total: total as int,
                    average_count: count as int,
                    ..self@
                };
                (r.0 as int, r.1 as int) == m.adjust(state, effective as int)
            }),
            0 <= r.1 <= 10,
    {
        proof {
            use_type_invariant(self);
        }
        let pwm = self.current_pwm as i64;
        let margin: i64 = if state == 2 {
            3_000
        } else {
            2_000
        };
        let jump: i64 = if state == 4 {
            10
        } else {
            5
        };
        let rise: i64 = if state == 2 {
            3
        } else {
            5
        };
        let limit: i32 = if state == 2 {
            10
        } else {
            5
        };
        assert(0 <= effective * count <= HOT_LIMIT * HISTORY_LEN) by (nonlinear_arith)
            requires
                0 <= effective < HOT_LIMIT,
                1 <= count <= HISTORY_LEN,
        ;
        assert(0 <= pwm * 1000 * count <= 255 * 1000 * HISTORY_LEN) by (nonlinear_arith)
            requires
                0 <= pwm <= 255,
                1 <= count <= HISTORY_LEN,
        ;
        if effective - margin > previous {
            (trunc_div_exec(pwm * 1000 + (effective - previous) * jump, 1000), 0)
        } else if effective * count > total {
            let scaled = pwm * 1000 * count + (effective * count - total) * rise;
            (trunc_div_exec(scaled, 1000 * count), 0)
        } else if trunc_div_exec(effective, 1000) < trunc_div_exec(previous, 1000)
            && trunc_div_exec(effective, 1000) < trunc_div_exec(total, 1000 * count) {
            (trunc_div_exec(pwm * 1000 - (previous - effective + 1000), 1000), 0)
        } else if effective * count == total {
            if self.counter + 1 > limit {
                (pwm - 1, 0)
            } else {
                (pwm, self.counter + 1)
            }
        } else {
            (pwm, self.counter)
        }
    }

    /// Runs one control step on a CPU and a disk temperature (millidegrees)
    /// and returns the state, the PWM to write, and the effective
    /// temperature.
    #[verifier::rlimit(40)]
    #[verifier::spinoff_prover]
    pub fn update(&mut self, cpu_temp: i32, disk_temp: i32) -> (out: (u8, u8, i64))
        ensures
            final(self)@ == old(self)@.step(cpu_temp as int, disk_temp as int),
            out.0 == final(self)@.state,
            out.1 == output_pwm(final(self)@.current_pwm),
            out.2 == effective_temp(cpu_temp as int, disk_temp as int),
    {
        proof {
            use_type_invariant(&*self);
        }
        let lowered = cpu_temp as i64 - CPU_OFFSET;
        let disk = disk_temp as i64;
        let effective = if lowered >= disk {
            lowered
        } else {
            disk
        };

        if effective >= HOT_LIMIT {
            self.state = 5;
            self.current_pwm = 255;
            return (self.state, clamp_pwm(self.current_pwm), effective);
        }
        if effective < COOL_LIMIT {
            self.state = 1;
            self.current_pwm = 50;
            return (self.state, clamp_pwm(self.current_pwm), effective);
        }
        let state: u8 = if effective >= 55_000 {
            4
        } else if effective >= 45_000 {
            3
        } else {
            2
        };

        let (previous, total, count) = if self.previous_temp <= 0 {
            (effective, effective, 1i64)
        } else {
            (self.previous_temp, self.average_total, self.average_count)
        };
        let (pwm, counter) = self.adjusted(state, effective, previous, total, count);

        let mut history: Vec<i64> = Vec::new();
        std::mem::swap(&mut history, &mut self.history);
        let ghost before = history@;
        history.push(effective);
        proof {
            lemma_sum_push(before, effective);
        }
        if history.len() > HISTORY_LEN {
            history.remove(0);
            assert(history@ =~= before.push(effective).drop_first());
        }
        assert(history@ == window(before.push(effective)));
        assert forall|i: int| 0 <= i < history@.len() implies in_middle_band(
            #[trigger] history@[i] as int,
        ) by {
            if before.push(effective).len() > HISTORY_LEN {
                assert(history@[i] == before.push(effective)[i + 1]);
            } else {
                assert(history@[i] == before.push(effective)[i]);
            }
        }

        let mut sum: i64 = 0;
        let mut i: usize = 0;
        while i < history.len()
            invariant
                i <= history@.len() <= HISTORY_LEN,
                forall|j: int| 0 <= j < history@.len() ==> in_middle_band(#[trigger] history@[j] as int),
                sum == seq_sum(history@.take(i as int)),
                0 <= sum <= HOT_LIMIT * i,
            decreases history@.len() - i,
        {
            proof {
                let t = history@.take(i as int + 1);
                assert(t.drop_last() =~= history@.take(i as int));
                assert(t.last() == history@[i as int]);
            }
            sum = sum + history[i];
            i = i + 1;
        }
        assert(history@.take(i as int) =~= history@);
        proof {
            lemma_sum_bounds(history@);
        }

        let ranged: i64 = if state == 2 {
            if effective <= 40_000 {
                50
            } else {
                clamp_exec(pwm, 50, 125)
            }
        } else if state == 3 {
            if effective <= 50_000 {
                80
            } else {
                clamp_exec(pwm, 80, 180)
            }
        } else {
            clamp_exec(pwm, 150, 255)
        };
        let len = history.len() as i64;
        *self = OfficialController {
            state,
            counter,
            current_pwm: ranged as i32,
            previous_temp: effective,
            average_total: sum,
            average_count: len,
            history,
        };
        (state, clamp_pwm(self.current_pwm), effective)
    }
}

} // verus!
