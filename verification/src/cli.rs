//! The command line of the `superio-fanctl` tool: its options, their checks,
//! and the one operation they ask for.
use vstd::prelude::*;
use crate::controller::clamp_int;
use crate::fanctl::{clamp_pwm, invalid_message, number_value, parse_number, DEFAULT_ADDRESS};
use crate::text::{joined, owned, same_text};

verus! {

/// A failure of the command line: its message, and whether the usage text
/// is shown before it.
pub struct CliFailure {
    pub show_usage: bool,
    pub message: String,
}

/// The operation that the command line asks for.
pub enum Command {
    /// Show the usage text.
    Help,
    /// Read and print these Super I/O registers.
    SuperioDump { registers: Vec<u8> },
    /// Read the fan controller's PWM register over I2C.
    I2cRead { bus: Option<String>, address: u16 },
    /// Write a PWM value to the fan controller over I2C.
    I2cWrite { bus: Option<String>, address: u16, pwm: u8 },
}

/// The options as read so far.
pub struct Settings {
    pub value: Option<u16>,
    pub read: bool,
    pub read_superio: bool,
    pub probe_superio: bool,
    pub bus: Option<Seq<char>>,
    pub address: u16,
    pub channel: Seq<char>,
    pub i2c_only: bool,
    pub legacy_max: bool,
}

/// A failure as a flag and the message's text.
pub struct FailureView {
    pub show_usage: bool,
    pub message: Seq<char>,
}

/// An operation, with its strings as text.
pub enum CommandView {
    Help,
    SuperioDump(Seq<u8>),
    I2cRead(Option<Seq<char>>, u16),
    I2cWrite(Option<Seq<char>>, u16, u8),
}

/// A failure whose usage text is not shown.
pub open spec fn failure(message: Seq<char>) -> FailureView {
    FailureView { show_usage: false, message }
}

/// The settings before any option.
pub open spec fn default_settings() -> Settings {
    Settings {
        value: None,
        read: false,
        read_superio: false,
        probe_superio: false,
        bus: None,
        address: DEFAULT_ADDRESS,
        channel: "all"@,
        i2c_only: false,
        legacy_max: false,
    }
}

/// The texts of the arguments.
pub open spec fn texts(args: Seq<String>) -> Seq<Seq<char>> {
    args.map_values(|a: String| a@)
}

/// Whether an argument asks for help.
pub open spec fn is_help(a: Seq<char>) -> bool {
    a == "--help"@ || a == "-h"@
}

/// Reads the options from `args[index..]` on top of `o`. Options that take
/// a value take the next argument; an unknown argument fails with the usage
/// text shown.
pub open spec fn scan(args: Seq<Seq<char>>, index: int, o: Settings) -> Result<Settings, FailureView>
    decreases args.len() - index,
{
    if index < 0 || index >= args.len() {
        Ok(o)
    } else {
        let a = args[index];
        if a == "--value"@ || a == "-v"@ {
            if index + 1 >= args.len() {
                Err(failure("missing value"@))
            } else {
                match number_value(args[index + 1]) {
                    Some(n) => scan(args, index + 2, Settings { value: Some(n as u16), ..o }),
                    None => Err(failure(invalid_message("value"@, args[index + 1]))),
                }
            }
        } else if a == "--read"@ || a == "-r"@ {
            scan(args, index + 1, Settings { read: true, ..o })
        } else if a == "--read-superio"@ {
            scan(args, index + 1, Settings { read_superio: true, ..o })
        } else if a == "--probe-superio"@ {
            scan(args, index + 1, Settings { probe_superio: true, ..o })
        } else if a == "--i2c-only"@ {
            scan(args, index + 1, Settings { i2c_only: true, ..o })
        } else if a == "--legacy-max"@ {
            scan(args, index + 1, Settings { legacy_max: true, ..o })
        } else if a == "--bus"@ || a == "-b"@ {
            if index + 1 >= args.len() {
                Err(failure("missing bus"@))
            } else {
                scan(args, index + 2, Settings { bus: Some(args[index + 1]), ..o })
            }
        } else if a == "--address"@ || a == "-a"@ {
            if index + 1 >= args.len() {
                Err(failure("missing address"@))
            } else {
                match number_value(args[index + 1]) {
                    Some(n) => scan(args, index + 2, Settings { address: n as u16, ..o }),
                    None => Err(failure(invalid_message("address"@, args[index + 1]))),
                }
            }
        } else if a == "--channel"@ || a == "-c"@ {
            if index + 1 >= args.len() {
                Err(failure("missing channel"@))
            } else {
                scan(args, index + 2, Settings { channel: args[index + 1], ..o })
            }
        } else {
            Err(FailureView { show_usage: true, message: "unknown argument: "@ + a })
        }
    }
}

/// The Super I/O fan registers.
pub open spec fn fan_registers() -> Seq<u8> {
    seq![0x6bu8, 0x73u8, 0xa3u8]
}

/// The registers a probe reads: chip ID and revision, logical device
/// selector, base address bytes, selector registers, and the fan registers.
pub open spec fn probe_registers() -> Seq<u8> {
    seq![
        0x20u8,
        0x21u8,
        0x07u8,
        0x30u8,
        0x60u8,
        0x61u8,
        0x62u8,
        0x63u8,
        0x16u8,
        0x17u8,
        0x1fu8,
        0x6bu8,
        0x73u8,
        0xa3u8,
    ]
}

/// The operation for a set of options, after their checks: the channel must
/// be `all`; the Super I/O reads take neither `--read` nor `--value`;
/// `--i2c-only` needs a value in `50..=250` or 255 and writes it limited to
/// `50..=250` unless it is 255; otherwise exactly one of `--read` and
/// `--value` is needed, and a value above 250, or `--legacy-max`, writes 255.
pub open spec fn decide(o: Settings) -> Result<CommandView, FailureView> {
    if o.channel != "all"@ {
        Err(failure("the official I2C controller has one shared fan PWM; --channel must be all"@))
    } else if o.read_superio {
        if o.read || o.value is Some {
            Err(failure("--read-superio cannot be combined with --read or --value"@))
        } else {
            Ok(CommandView::SuperioDump(fan_registers()))
        }
    } else if o.probe_superio {
        if o.read || o.value is Some {
            Err(failure("--probe-superio cannot be combined with --read or --value"@))
        } else {
            Ok(CommandView::SuperioDump(probe_registers()))
        }
    } else if o.i2c_only {
        match o.value {
            None => Err(failure("--value is required"@)),
            Some(v) => if v > 250 && v != 255 {
                Err(failure("--i2c-only accepts 50..250 or 255"@))
            } else {
                Ok(
                    CommandView::I2cWrite(
                        o.bus,
                        o.address,
                        if v == 255 {
                            255
                        } else {
                            clamp_int(v as int, 50, 250) as u8
                        },
                    ),
                )
            },
        }
    } else if o.read == (o.value is Some) {
        Err(failure("specify exactly one of --read or --value"@))
    } else if o.read {
        Ok(CommandView::I2cRead(o.bus, o.address))
    } else {
        let v = o.value->0;
        Ok(
            CommandView::I2cWrite(
                o.bus,
                o.address,
                if o.legacy_max || v > 250 {
                    255
                } else {
                    clamp_int(v as int, 50, 250) as u8
                },
            ),
        )
    }
}

/// The operation for a command line (its first argument is the program).
pub open spec fn command_of(args: Seq<Seq<char>>) -> Result<CommandView, FailureView> {
    if exists|i: int| 0 <= i < args.len() && is_help(#[trigger] args[i]) {
        Ok(CommandView::Help)
    } else {
        match scan(args, 1, default_settings()) {
            Ok(o) => decide(o),
            Err(f) => Err(f),
        }
    }
}

/// The optional text of an optional string.
pub open spec fn opt_string_text(s: Option<String>) -> Option<Seq<char>> {
    match s {
        Some(v) => Some(v@),
        None => None,
    }
}

/// An operation with its strings as text.
pub open spec fn command_view(c: Command) -> CommandView {
    match c {
        Command::Help => CommandView::Help,
        Command::SuperioDump { registers } => CommandView::SuperioDump(registers@),
        Command::I2cRead { bus, address } => CommandView::I2cRead(opt_string_text(bus), address),
        Command::I2cWrite { bus, address, pwm } => CommandView::I2cWrite(
            opt_string_text(bus),
            address,
            pwm,
        ),
    }
}

/// A failure with its message as text.
pub open spec fn failure_view(f: CliFailure) -> FailureView {
    FailureView { show_usage: f.show_usage, message: f.message@ }
}

/// The result of `plan` as text.
pub open spec fn plan_view(r: Result<Command, CliFailure>) -> Result<CommandView, FailureView> {
    match r {
        Ok(c) => Ok(command_view(c)),
        Err(f) => Err(failure_view(f)),
    }
}

/// The options in their executable form.
struct Options {
    value: Option<u16>,
    read: bool,
    read_superio: bool,
    probe_superio: bool,
    bus: Option<String>,
    address: u16,
    channel: String,
    i2c_only: bool,
    legacy_max: bool,
}

impl Options {
    spec fn settings(&self) -> Settings {
        Settings {
            value: self.value,
            read: self.read,
            read_superio: self.read_superio,
            probe_superio: self.probe_superio,
            bus: opt_string_text(self.bus),
            address: self.address,
            channel: self.channel@,
            i2c_only: self.i2c_only,
            legacy_max: self.legacy_max,
        }
    }
}

fn fail(message: &str) -> (f: CliFailure)
    ensures
        failure_view(f) == failure(message@),
{
    CliFailure { show_usage: false, message: owned(message) }
}

fn fan_register_list() -> (v: Vec<u8>)
    ensures
        v@ == fan_registers(),
{
    let mut v: Vec<u8> = Vec::new();
    v.push(0x6b);
    v.push(0x73);
    v.push(0xa3);
    assert(v@ =~= fan_registers());
    v
}

fn probe_register_list() -> (v: Vec<u8>)
    ensures
        v@ == probe_registers(),
{
    let mut v: Vec<u8> = Vec::new();
    v.push(0x20);
    v.push(0x21);
    v.push(0x07);
    v.push(0x30);
    v.push(0x60);
    v.push(0x61);
    v.push(0x62);
    v.push(0x63);
    v.push(0x16);
    v.push(0x17);
    v.push(0x1f);
    v.push(0x6b);
    v.push(0x73);
    v.push(0xa3);
    assert(v@ =~= probe_registers());
    v
}

fn decide_exec(o: Options) -> (r: Result<Command, CliFailure>)
    ensures
        plan_view(r) == decide(o.settings()),
{
    if !same_text(o.channel.as_str(), "all") {
        return Err(fail("the official I2C controller has one shared fan PWM; --channel must be all"));
    }
    if o.read_superio {
        if o.read || o.value.is_some() {
            return Err(fail("--read-superio cannot be combined with --read or --value"));
        }
        return Ok(Command::SuperioDump { registers: fan_register_list() });
    }
    if o.probe_superio {
        if o.read || o.value.is_some() {
            return Err(fail("--probe-superio cannot be combined with --read or --value"));
        }
        return Ok(Command::SuperioDump { registers: probe_register_list() });
    }
    if o.i2c_only {
        let requested = match o.value {
            None => {
                return Err(fail("--value is required"));
            },
            Some(v) => v,
        };
        if requested > 250 && requested != 255 {
            return Err(fail("--i2c-only accepts 50..250 or 255"));
        }
        let pwm: u8 = if requested == 255 {
            255
        } else {
            clamp_pwm(requested)
        };
        return Ok(Command::I2cWrite { bus: o.bus, address: o.address, pwm });
    }
    if o.read == o.value.is_some() {
        return Err(fail("specify exactly one of --read or --value"));
    }
    if o.read {
        return Ok(Command::I2cRead { bus: o.bus, address: o.address });
    }
    let requested = match o.value {
        Some(v) => v,
        None => 0,
    };
    let boost = o.legacy_max || requested > 250;
    let pwm: u8 = if boost {
        255
    } else {
        clamp_pwm(requested)
    };
    Ok(Command::I2cWrite { bus: o.bus, address: o.address, pwm })
}

/// Whether an argument asks for help.
fn arg_is_help(a: &String) -> (b: bool)
    ensures
        b == is_help(a@),
{
    same_text(a.as_str(), "--help") || same_text(a.as_str(), "-h")
}

/// Reads the command line into the operation to perform (see
/// `command_of`).
pub fn plan(args: &Vec<String>) -> (r: Result<Command, CliFailure>)
    ensures
        plan_view(r) == command_of(texts(args@)),
{
    let ghost t = texts(args@);
    let mut k: usize = 0;
    while k < args.len()
        invariant
            k <= args@.len(),
            t == texts(args@),
            forall|j: int| 0 <= j < k ==> !is_help(#[trigger] t[j]),
        decreases args@.len() - k,
    {
        if arg_is_help(&args[k]) {
            assert(is_help(t[k as int]));
            return Ok(Command::Help);
        }
        k = k + 1;
    }
    assert(!(exists|i: int| 0 <= i < t.len() && is_help(#[trigger] t[i])));

    let mut o = Options {
        value: None,
        read: false,
        read_superio: false,
        probe_superio: false,
        bus: None,
        address: DEFAULT_ADDRESS,
        channel: owned("all"),
        i2c_only: false,
        legacy_max: false,
    };
    assert(o.settings() == default_settings());
    let n = args.len();
    let mut index: usize = 1;
    while index < n
        invariant
            1 <= index,
            n == args@.len() == t.len(),
            t == texts(args@),
            !(exists|i: int| 0 <= i < t.len() && is_help(#[trigger] t[i])),
            scan(t, index as int, o.settings()) == scan(t, 1, default_settings()),
        decreases n - index,
    {
        let a = args[index].as_str();
        assert(a@ == t[index as int]);
        if same_text(a, "--value") || same_text(a, "-v") {
            if index + 1 >= n {
                return Err(fail("missing value"));
            }
            assert(args[index + 1]@ == t[index + 1]);
            match parse_number(args[index + 1].as_str(), "value") {
                Ok(v) => {
                    o.value = Some(v);
                },
                Err(e) => {
                    return Err(CliFailure { show_usage: false, message: e });
                },
            }
            index = index + 2;
        } else if same_text(a, "--read") || same_text(a, "-r") {
            o.read = true;
            index = index + 1;
        } else if same_text(a, "--read-superio") {
            o.read_superio = true;
            index = index + 1;
        } else if same_text(a, "--probe-superio") {
            o.probe_superio = true;
            index = index + 1;
        } else if same_text(a, "--i2c-only") {
            o.i2c_only = true;
            index = index + 1;
        } else if same_text(a, "--legacy-max") {
            o.legacy_max = true;
            index = index + 1;
        } else if same_text(a, "--bus") || same_text(a, "-b") {
            if index + 1 >= n {
                return Err(fail("missing bus"));
            }
            assert(args[index + 1]@ == t[index + 1]);
            o.bus = Some(args[index + 1].clone());
            index = index + 2;
        } else if same_text(a, "--address") || same_text(a, "-a") {
            if index + 1 >= n {
                return Err(fail("missing address"));
            }
            assert(args[index + 1]@ == t[index + 1]);
            match parse_number(args[index + 1].as_str(), "address") {
                Ok(v) => {
                    o.address = v;
                },
                Err(e) => {
                    return Err(CliFailure { show_usage: false, message: e });
                },
            }
            index = index + 2;
        } else if same_text(a, "--channel") || same_text(a, "-c") {
            if index + 1 >= n {
                return Err(fail("missing channel"));
            }
            assert(args[index + 1]@ == t[index + 1]);
            o.channel = args[index + 1].clone();
            index = index + 2;
        } else {
            return Err(CliFailure { show_usage: true, message: joined("unknown argument: ", a) });
        }
    }
    decide_exec(o)
}

// ------------------------------------------------------------------
// Laws
// ------------------------------------------------------------------

/// Every write that a command line asks for is a value the fan controller
/// takes: a PWM in `50..=250`, or 255 for full speed.
pub proof fn lemma_planned_write_accepted(args: Seq<Seq<char>>)
    ensures
        command_of(args) matches Ok(CommandView::I2cWrite(_, _, pwm)) ==> (50 <= pwm <= 250 || pwm
            == 255),
{
}

/// `--help` or `-h` anywhere on the command line asks for the usage text,
/// whatever else is there.
pub proof fn lemma_help_wins(args: Seq<Seq<char>>, i: int)
    requires
        0 <= i < args.len(),
        is_help(args[i]),
    ensures
        command_of(args) == Ok::<CommandView, FailureView>(CommandView::Help),
{
}

proof fn lemma_scan_extend(args: Seq<Seq<char>>, tail: Seq<Seq<char>>, i: int, o: Settings)
    requires
        0 <= i <= args.len(),
        scan(args, i, o) is Ok,
    ensures
        scan(args + tail, i, o) == scan(args + tail, args.len() as int, scan(args, i, o)->Ok_0),
    decreases args.len() - i,
{
    let c = args + tail;
    if i < args.len() {
        let a = args[i];
        assert(c[i] == a);
        if i + 1 < args.len() {
            assert(c[i + 1] == args[i + 1]);
        }
        if a == "--value"@ || a == "-v"@ {
            let n = number_value(args[i + 1])->0;
            lemma_scan_extend(args, tail, i + 2, Settings { value: Some(n as u16), ..o });
        } else if a == "--read"@ || a == "-r"@ {
            lemma_scan_extend(args, tail, i + 1, Settings { read: true, ..o });
        } else if a == "--read-superio"@ {
            lemma_scan_extend(args, tail, i + 1, Settings { read_superio: true, ..o });
        } else if a == "--probe-superio"@ {
            lemma_scan_extend(args, tail, i + 1, Settings { probe_superio: true, ..o });
        } else if a == "--i2c-only"@ {
            lemma_scan_extend(args, tail, i + 1, Settings { i2c_only: true, ..o });
        } else if a == "--legacy-max"@ {
            lemma_scan_extend(args, tail, i + 1, Settings { legacy_max: true, ..o });
        } else if a == "--bus"@ || a == "-b"@ {
            lemma_scan_extend(args, tail, i + 2, Settings { bus: Some(args[i + 1]), ..o });
        } else if a == "--address"@ || a == "-a"@ {
            let n = number_value(args[i + 1])->0;
            lemma_scan_extend(args, tail, i + 2, Settings { address: n as u16, ..o });
        } else if a == "--channel"@ || a == "-c"@ {
            lemma_scan_extend(args, tail, i + 2, Settings { channel: args[i + 1], ..o });
        }
    }
}

proof fn lemma_scan_keeps_address(args: Seq<Seq<char>>, i: int, o: Settings)
    requires
        0 <= i,
        scan(args, i, o) is Ok,
        forall|j: int| 0 <= j < args.len() ==> args[j] != "--address"@ && args[j] != "-a"@,
    ensures
        scan(args, i, o)->Ok_0.address == o.address,
    decreases args.len() - i,
{
    if i < args.len() {
        let a = args[i];
        if a == "--value"@ || a == "-v"@ {
            let n = number_value(args[i + 1])->0;
            lemma_scan_keeps_address(args, i + 2, Settings { value: Some(n as u16), ..o });
        } else if a == "--read"@ || a == "-r"@ {
            lemma_scan_keeps_address(args, i + 1, Settings { read: true, ..o });
        } else if a == "--read-superio"@ {
            lemma_scan_keeps_address(args, i + 1, Settings { read_superio: true, ..o });
        } else if a == "--probe-superio"@ {
            lemma_scan_keeps_address(args, i + 1, Settings { probe_superio: true, ..o });
        } else if a == "--i2c-only"@ {
            lemma_scan_keeps_address(args, i + 1, Settings { i2c_only: true, ..o });
        } else if a == "--legacy-max"@ {
            lemma_scan_keeps_address(args, i + 1, Settings { legacy_max: true, ..o });
        } else if a == "--bus"@ || a == "-b"@ {
            lemma_scan_keeps_address(args, i + 2, Settings { bus: Some(args[i + 1]), ..o });
        } else if a == "--channel"@ || a == "-c"@ {
            lemma_scan_keeps_address(args, i + 2, Settings { channel: args[i + 1], ..o });
        }
    }
}

/// An I2C read goes to the address given last on the command line: adding
/// `--address N` to a command line that reads makes it read at `N`, from
/// the same bus.
pub proof fn lemma_read_uses_given_address(
    args: Seq<Seq<char>>,
    t: Seq<char>,
    n: u16,
    b: Option<Seq<char>>,
    a: u16,
)
    requires
        command_of(args) == Ok::<CommandView, FailureView>(CommandView::I2cRead(b, a)),
        number_value(t) == Some(n as int),
        !is_help(t),
    ensures
        command_of(args.push("--address"@).push(t)) == Ok::<CommandView, FailureView>(
            CommandView::I2cRead(b, n),
        ),
{
    reveal_strlit("--address");
    reveal_strlit("--help");
    reveal_strlit("-h");
    reveal_strlit("--value");
    reveal_strlit("-v");
    reveal_strlit("--read");
    reveal_strlit("-r");
    reveal_strlit("--read-superio");
    reveal_strlit("--probe-superio");
    reveal_strlit("--i2c-only");
    reveal_strlit("--legacy-max");
    reveal_strlit("--bus");
    reveal_strlit("-b");
    let tail = seq!["--address"@, t];
    let c = args.push("--address"@).push(t);
    assert(c =~= args + tail);
    assert(!(exists|i: int| 0 <= i < args.len() && is_help(#[trigger] args[i])));
    assert("--address"@.len() == 9);
    assert("--help"@.len() == 6);
    assert("-h"@.len() == 2);
    assert(!is_help("--address"@));
    assert forall|i: int| 0 <= i < c.len() implies !is_help(#[trigger] c[i]) by {
        if i < args.len() {
            assert(c[i] == args[i]);
        } else if i == args.len() {
            assert(c[i] == "--address"@);
        } else {
            assert(c[i] == t);
        }
    }
    if args.len() == 0 {
        assert(scan(args, 1, default_settings()) == Ok::<Settings, FailureView>(default_settings()));
        assert(false);
    }
    let o = scan(args, 1, default_settings())->Ok_0;
    lemma_scan_extend(args, tail, 1, default_settings());
    let len = args.len() as int;
    assert(c[len] == "--address"@);
    assert(c[len + 1] == t);
    let o2 = Settings { address: n, ..o };
    assert(scan(c, len + 2, o2) == Ok::<Settings, FailureView>(o2));
    assert(scan(c, len, o) == scan(c, len + 2, o2));
}

/// Without `--address` or `-a` on the command line, an I2C read goes to the
/// default address 0x54.
pub proof fn lemma_read_default_address(args: Seq<Seq<char>>, b: Option<Seq<char>>, a: u16)
    requires
        command_of(args) == Ok::<CommandView, FailureView>(CommandView::I2cRead(b, a)),
        forall|j: int| 0 <= j < args.len() ==> args[j] != "--address"@ && args[j] != "-a"@,
    ensures
        a == DEFAULT_ADDRESS,
{
    lemma_scan_keeps_address(args, 1, default_settings());
}

} // verus!
