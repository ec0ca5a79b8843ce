//! The decisions of the `superio-fanctl` tool: reading numbers and bus
//! names, finding the I801 SMBus adapter, and turning the command line into
//! the one operation to perform.
use vstd::prelude::*;
use crate::controller::clamp_int;
use vstd::string::StringExecFns;
use crate::number::{
    all_digits, digits_value,
    decimal_text, decimal_string, digit_value, hex_text, parse_unsigned, parse_unsigned_from,
    zero_padded, lemma_decimal_roundtrip, lemma_decimal_text_digits, lemma_hex_text_digits,
    lemma_leading_zeros,
};
use crate::text::{chars_of, joined, owned, same_text, starts_with, trim_chars, has_prefix, trimmed};

verus! {

/// Default I2C address of the fan controller.
pub const DEFAULT_ADDRESS: u16 = 0x54;

/// Register of the fan controller that holds the shared PWM.
pub const FAN_REGISTER: u8 = 0xf0;

/// The I/O port of the Super I/O window.
pub const SUPERIO_PORT: u16 = 0xa8f0;

// ------------------------------------------------------------------
// Numbers
// ------------------------------------------------------------------

/// A number as the tool reads it: `0x` or `0X` then hexadecimal digits, or
/// decimal digits, with an optional `+`, no larger than 65535.
pub open spec fn number_value(s: Seq<char>) -> Option<int> {
    if s.len() >= 2 && s[0] == '0' && (s[1] == 'x' || s[1] == 'X') {
        parse_unsigned(s.skip(2), 16, 0xffff)
    } else {
        parse_unsigned(s, 10, 0xffff)
    }
}

/// The message for a value that is not a number.
pub open spec fn invalid_message(name: Seq<char>, value: Seq<char>) -> Seq<char> {
    "invalid "@ + name + ": "@ + value
}

/// Reads a number argument (see `number_value`); `name` says what it is
/// for in the error message.
pub fn parse_number(value: &str, name: &str) -> (r: Result<u16, String>)
    ensures
        r matches Ok(n) ==> number_value(value@) == Some(n as int),
        r matches Err(e) ==> number_value(value@) is None && e@ == invalid_message(name@, value@),
{
    let c = chars_of(value);
    let hex = c.len() >= 2 && c[0] == '0' && (c[1] == 'x' || c[1] == 'X');
    let parsed = if hex {
        parse_unsigned_from(&c, 2, 16, 0xffff)
    } else {
        assert(c@.skip(0) =~= c@);
        parse_unsigned_from(&c, 0, 10, 0xffff)
    };
    match parsed {
        Some(n) => Ok(n as u16),
        None => {
            let head = joined("invalid ", name);
            let head = head.concat(": ");
            Err(head.concat(value))
        },
    }
}

/// Limits a requested PWM to `50..=250`.
pub fn clamp_pwm(value: u16) -> (pwm: u8)
    ensures
        pwm == clamp_int(value as int, 50, 250),
{
    if value < 50 {
        50
    } else if value > 250 {
        250
    } else {
        value as u8
    }
}

// ------------------------------------------------------------------
// Devices
// ------------------------------------------------------------------

/// Where the I2C device is: found by scanning the adapters, or a path.
pub enum DevicePath {
    Discover,
    Resolved(String),
}

/// The device for a `--bus` value: `auto` or nothing means scanning; a
/// `/dev/` path is taken as it is; `i2c-N` is taken under `/dev/`; a number
/// `N` means `/dev/i2c-N`. `Ok(None)` stands for scanning.
pub open spec fn device_path_of(bus: Option<Seq<char>>) -> Result<Option<Seq<char>>, Seq<char>> {
    match bus {
        None => Ok(None),
        Some(v) => if v == "auto"@ {
            Ok(None)
        } else if has_prefix(v, "/dev/"@) {
            Ok(Some(v))
        } else if has_prefix(v, "i2c-"@) {
            Ok(Some("/dev/"@ + v))
        } else {
            match number_value(v) {
                Some(n) => Ok(Some("/dev/i2c-"@ + decimal_text(n as nat))),
                None => Err(invalid_message("bus"@, v)),
            }
        },
    }
}

/// The optional text of an optional string slice.
pub open spec fn opt_text(s: Option<&str>) -> Option<Seq<char>> {
    match s {
        Some(v) => Some(v@),
        None => None,
    }
}

/// Resolves the `--bus` value (see `device_path_of`).
pub fn device_path(bus: Option<&str>) -> (r: Result<DevicePath, String>)
    ensures
        r matches Ok(DevicePath::Discover) ==> device_path_of(opt_text(bus)) == Ok::<
            Option<Seq<char>>,
            Seq<char>,
        >(None),
        r matches Ok(DevicePath::Resolved(p)) ==> device_path_of(opt_text(bus)) == Ok::<
            Option<Seq<char>>,
            Seq<char>,
        >(Some(p@)),
        r matches Err(e) ==> device_path_of(opt_text(bus)) == Err::<Option<Seq<char>>, Seq<char>>(e@),
{
    match bus {
        None => Ok(DevicePath::Discover),
        Some(v) => {
            if same_text(v, "auto") {
                return Ok(DevicePath::Discover);
            }
            let c = chars_of(v);
            if starts_with(&c, "/dev/") {
                return Ok(DevicePath::Resolved(owned(v)));
            }
            if starts_with(&c, "i2c-") {
                return Ok(DevicePath::Resolved(joined("/dev/", v)));
            }
            match parse_number(v, "bus") {
                Ok(n) => {
                    let digits = decimal_string(n);
                    Ok(DevicePath::Resolved(joined("/dev/i2c-", digits.as_str())))
                },
                Err(e) => Err(e),
            }
        },
    }
}

/// An entry of `/sys/class/i2c-dev`: its file name and the text of its
/// `name` file (empty when unreadable).
pub struct I2cEntry {
    pub file_name: String,
    pub adapter_name: String,
}

/// Whether an entry is an I801 SMBus adapter.
pub open spec fn is_i801(e: I2cEntry) -> bool {
    has_prefix(e.file_name@, "i2c-"@) && has_prefix(trimmed(e.adapter_name@), "SMBus I801 adapter at "@)
}

/// The order of names: by characters, a proper prefix first.
pub open spec fn name_less(a: Seq<char>, b: Seq<char>) -> bool
    decreases a.len(),
{
    if a.len() == 0 {
        b.len() > 0
    } else if b.len() == 0 {
        false
    } else if a[0] != b[0] {
        a[0] < b[0]
    } else {
        name_less(a.drop_first(), b.drop_first())
    }
}

/// The message when no adapter is found.
pub open spec fn no_adapter_message() -> Seq<char> {
    "no I2C adapter matching \"SMBus I801 adapter at \" was found"@
}

proof fn lemma_name_less_transitive(a: Seq<char>, b: Seq<char>, c: Seq<char>)
    requires
        name_less(a, b),
        name_less(b, c),
    ensures
        name_less(a, c),
    decreases a.len(),
{
    if a.len() > 0 && b.len() > 0 && c.len() > 0 && a[0] == b[0] && b[0] == c[0] {
        lemma_name_less_transitive(a.drop_first(), b.drop_first(), c.drop_first());
    }
}

proof fn lemma_name_less_irreflexive(a: Seq<char>)
    ensures
        !name_less(a, a),
    decreases a.len(),
{
    if a.len() > 0 {
        lemma_name_less_irreflexive(a.drop_first());
    }
}

proof fn lemma_name_less_skip(a: Seq<char>, b: Seq<char>, i: int)
    requires
        0 <= i <= a.len(),
        i <= b.len(),
        a.take(i) == b.take(i),
    ensures
        name_less(a, b) == name_less(a.skip(i), b.skip(i)),
    decreases i,
{
    if i > 0 {
        assert(a[0] == a.take(i)[0]);
        assert(b[0] == b.take(i)[0]);
        assert(a.drop_first().take(i - 1) =~= a.take(i).drop_first());
        assert(b.drop_first().take(i - 1) =~= b.take(i).drop_first());
        lemma_name_less_skip(a.drop_first(), b.drop_first(), i - 1);
        assert(a.drop_first().skip(i - 1) =~= a.skip(i));
        assert(b.drop_first().skip(i - 1) =~= b.skip(i));
    } else {
        assert(a.skip(0) =~= a);
        assert(b.skip(0) =~= b);
    }
}

fn name_before(a: &Vec<char>, b: &Vec<char>) -> (r: bool)
    ensures
        r == name_less(a@, b@),
{
    let mut i: usize = 0;
    while i < a.len() && i < b.len() && a[i] == b[i]
        invariant
            i <= a@.len(),
            i <= b@.len(),
            a@.take(i as int) == b@.take(i as int),
        decreases a@.len() - i,
    {
        i = i + 1;
        assert(a@.take(i as int) =~= b@.take(i as int));
    }
    proof {
        lemma_name_less_skip(a@, b@, i as int);
    }
    if i == a.len() {
        i < b.len()
    } else if i == b.len() {
        false
    } else {
        assert(a@.skip(i as int)[0] == a@[i as int]);
        assert(b@.skip(i as int)[0] == b@[i as int]);
        a[i] < b[i]
    }
}

fn entry_is_i801(e: &I2cEntry) -> (b: bool)
    ensures
        b == is_i801(*e),
{
    let name = chars_of(e.file_name.as_str());
    if !starts_with(&name, "i2c-") {
        return false;
    }
    let adapter = chars_of(e.adapter_name.as_str());
    let t = trim_chars(&adapter);
    starts_with(&t, "SMBus I801 adapter at ")
}

/// The I801 SMBus adapter among the entries of `/sys/class/i2c-dev`: the
/// first of the matching names in order.
pub fn discover_i801_bus(entries: &Vec<I2cEntry>) -> (r: Result<String, String>)
    ensures
        r matches Ok(name) ==> (exists|i: int|
            0 <= i < entries@.len() && is_i801(#[trigger] entries@[i]) && entries@[i].file_name@
                == name@) && (forall|j: int|
            0 <= j < entries@.len() && is_i801(#[trigger] entries@[j]) ==> !name_less(
                entries@[j].file_name@,
                name@,
            )),
        r matches Err(e) ==> (forall|j: int| 0 <= j < entries@.len() ==> !is_i801(#[trigger] entries@[j]))
            && e@ == no_adapter_message(),
{
    let mut best: Option<usize> = None;
    let mut best_name: Vec<char> = Vec::new();
    let mut i: usize = 0;
    while i < entries.len()
        invariant
            i <= entries@.len(),
            best matches Some(k) ==> k < i && is_i801(entries@[k as int]) && best_name@
                == entries@[k as int].file_name@,
            best is None ==> forall|j: int| 0 <= j < i ==> !is_i801(#[trigger] entries@[j]),
            best is Some ==> forall|j: int|
                0 <= j < i && is_i801(#[trigger] entries@[j]) ==> !name_less(
                    entries@[j].file_name@,
                    best_name@,
                ),
        decreases entries@.len() - i,
    {
        let e = &entries[i];
        if entry_is_i801(e) {
            let name = chars_of(e.file_name.as_str());
            let take = match best {
                None => true,
                Some(_) => name_before(&name, &best_name),
            };
            if take {
                proof {
                    if best is Some {
                        assert forall|j: int|
                            0 <= j < i && is_i801(#[trigger] entries@[j]) implies !name_less(
                            entries@[j].file_name@,
                            name@,
                        ) by {
                            if name_less(entries@[j].file_name@, name@) {
                                lemma_name_less_transitive(
                                    entries@[j].file_name@,
                                    name@,
                                    best_name@,
                                );
                            }
                        }
                    }
                    lemma_name_less_irreflexive(name@);
                }
                best = Some(i);
                best_name = name;
            }
        }
        i = i + 1;
    }
    match best {
        Some(k) => Ok(entries[k].file_name.clone()),
        None => Err(owned("no I2C adapter matching \"SMBus I801 adapter at \" was found")),
    }
}

/// The device path of the adapter found by scanning: `/dev/` and its name.
pub fn discovered_device_path(entries: &Vec<I2cEntry>) -> (r: Result<String, String>)
    ensures
        r matches Ok(p) ==> exists|i: int|
            0 <= i < entries@.len() && is_i801(#[trigger] entries@[i]) && p@ == "/dev/"@
                + entries@[i].file_name@ && (forall|j: int|
                0 <= j < entries@.len() && is_i801(#[trigger] entries@[j]) ==> !name_less(
                    entries@[j].file_name@,
                    entries@[i].file_name@,
                )),
        r matches Err(e) ==> (forall|j: int| 0 <= j < entries@.len() ==> !is_i801(#[trigger] entries@[j]))
            && e@ == no_adapter_message(),
{
    match discover_i801_bus(entries) {
        Ok(name) => Ok(joined("/dev/", name.as_str())),
        Err(e) => Err(e),
    }
}

// ------------------------------------------------------------------
// Laws
// ------------------------------------------------------------------

/// A number written in decimal reads back as itself.
pub proof fn lemma_number_roundtrip(n: u16)
    ensures
        number_value(decimal_text(n as nat)) == Some(n as int),
{
    let t = decimal_text(n as nat);
    lemma_decimal_text_digits(n as nat);
    lemma_decimal_roundtrip(n as nat, 0xffff);
    if t.len() >= 2 {
        assert(digit_value(t[1]) < 10);
    }
}

/// A bus given as a number and the same bus given as `i2c-` and the number
/// name the same device, `/dev/i2c-` and the number.
pub proof fn lemma_bus_number_forms_agree(n: u16)
    ensures
        ({
            let t = decimal_text(n as nat);
            &&& device_path_of(Some(t)) == Ok::<Option<Seq<char>>, Seq<char>>(
                Some("/dev/i2c-"@ + t),
            )
            &&& device_path_of(Some("i2c-"@ + t)) == device_path_of(Some(t))
        }),
{
    let t = decimal_text(n as nat);
    lemma_number_roundtrip(n);
    lemma_decimal_text_digits(n as nat);
    reveal_strlit("auto");
    reveal_strlit("/dev/");
    reveal_strlit("i2c-");
    reveal_strlit("/dev/i2c-");
    assert(t[0] != "auto"@[0]);
    if t.len() >= 5 {
        assert(t.take(5)[0] == t[0]);
    }
    if t.len() >= 4 {
        assert(t.take(4)[0] == t[0]);
    }
    let u = "i2c-"@ + t;
    assert(u[0] == 'i');
    assert(u.take(5)[0] == 'i');
    assert(u.take(4) =~= "i2c-"@);
    assert("/dev/"@ + u =~= "/dev/i2c-"@ + t);
}

proof fn lemma_hex_digits_read(t: Seq<char>, n: int)
    requires
        t.len() > 0,
        all_digits(t, 16),
        digits_value(t, 16) == n,
        0 <= n <= 0xffff,
    ensures
        parse_unsigned(t, 16, 0xffff) == Some(n),
{
    assert(digit_value(t[0]) < 16);
}

/// A number written in hexadecimal after `0x` or `0X`, in lower or upper
/// case, with or without leading zeros (as `{:#x}`, `0X{:X}` and `{:#06x}`
/// write it), reads back as itself.
pub proof fn lemma_hex_number_roundtrip(n: u16)
    ensures
        number_value("0x"@ + hex_text(n as nat, false)) == Some(n as int),
        number_value("0X"@ + hex_text(n as nat, true)) == Some(n as int),
        number_value("0x"@ + zero_padded(hex_text(n as nat, false), 4)) == Some(n as int),
{
    reveal_strlit("0x");
    reveal_strlit("0X");
    lemma_hex_text_digits(n as nat, false);
    lemma_hex_text_digits(n as nat, true);
    let lower = hex_text(n as nat, false);
    let upper = hex_text(n as nat, true);
    assert(("0x"@ + lower).skip(2) =~= lower);
    assert(("0X"@ + upper).skip(2) =~= upper);
    lemma_hex_digits_read(lower, n as int);
    lemma_hex_digits_read(upper, n as int);
    let padded = zero_padded(lower, 4);
    if lower.len() < 4 {
        let z = Seq::new((4 - lower.len()) as nat, |i: int| '0');
        assert(padded == z + lower);
        lemma_leading_zeros(z, lower, 16);
        assert forall|i: int| 0 <= i < padded.len() implies #[trigger] digit_value(padded[i]) < 16 by {
            if i < z.len() {
                assert(padded[i] == '0');
            } else {
                assert(padded[i] == lower[i - z.len()]);
            }
        }
    }
    assert(("0x"@ + padded).skip(2) =~= padded);
    lemma_hex_digits_read(padded, n as int);
}

/// The message for an I2C address beyond seven bits.
pub open spec fn address_message() -> Seq<char> {
    "I2C address must be in 0..0x7f"@
}

/// Checks that an I2C address fits in seven bits.
pub fn check_address(address: u16) -> (r: Result<(), String>)
    ensures
        r is Ok <==> address <= 0x7f,
        r matches Err(e) ==> e@ == address_message(),
{
    if address > 0x7f {
        Err(owned("I2C address must be in 0..0x7f"))
    } else {
        Ok(())
    }
}

/// The value written back to the Super I/O window to select its bank: the
/// value read with its three low bits cleared.
pub fn superio_bank_select(current: u8) -> (v: u8)
    ensures
        v == current & 0xf8,
{
    current & 0xf8
}

} // verus!
