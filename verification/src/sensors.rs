//! Temperature sensors as the kernel exposes them: readings written as
//! numbers, hwmon adapter names, thermal zone types, and the choice of
//! the hottest reading.
use vstd::prelude::*;
use crate::controller::clamp_int;
use crate::number::{
    all_decimal, all_digits, capped_value, decimal_text, digits_value, digit_value, has_nonzero_from,
    lemma_decimal_text_digits, lemma_digits_value_nonneg, lemma_pow10_grows, nonzero_from, pow10,
    sat_to, shifted_capped, shifted_value,
};
use crate::text::{
    chars_of, concat_chars, contains, ends_with, equals, find_first_of, first_of, has_infix,
    has_prefix, has_suffix, lemma_first_of, lower_chars, lowered, starts_with, sub_chars,
    trim_chars, trim_end, trim_start, trimmed,
};

verus! {

// ------------------------------------------------------------------
// Readings
// ------------------------------------------------------------------

/// Largest temperature magnitude kept, in millidegrees: every reading is
/// limited to the range of `i32`.
pub const READING_CAP: u128 = 0x8000_0000;

/// Largest exponent magnitude kept while reading; beyond it every number
/// with a non-zero digit saturates and every other reads as zero.
pub const EXPONENT_CAP: u128 = 0x40_0000_0000_0000_0000;

/// Length of a leading `+` or `-`.
pub open spec fn sign_len(s: Seq<char>) -> int {
    if s.len() > 0 && (s[0] == '+' || s[0] == '-') {
        1
    } else {
        0
    }
}

/// Whether the text starts with `-`.
pub open spec fn is_negative(s: Seq<char>) -> bool {
    sign_len(s) == 1 && s[0] == '-'
}

/// The text without its sign.
pub open spec fn unsigned_body(s: Seq<char>) -> Seq<char> {
    s.skip(sign_len(s))
}

/// The part before the exponent marker `e` or `E`.
pub open spec fn mantissa(b: Seq<char>) -> Seq<char> {
    b.take(first_of(b, 'e', 'E'))
}

/// Whether an exponent marker is present.
pub open spec fn has_exponent(b: Seq<char>) -> bool {
    first_of(b, 'e', 'E') < b.len()
}

/// The part after the exponent marker.
pub open spec fn exponent_text(b: Seq<char>) -> Seq<char> {
    b.skip(first_of(b, 'e', 'E') + 1)
}

/// The digits of a mantissa before its point.
pub open spec fn whole_digits(m: Seq<char>) -> Seq<char> {
    m.take(first_of(m, '.', '.'))
}

/// The digits of a mantissa after its point.
pub open spec fn fraction_digits(m: Seq<char>) -> Seq<char> {
    if first_of(m, '.', '.') < m.len() {
        m.skip(first_of(m, '.', '.') + 1)
    } else {
        Seq::empty()
    }
}

/// A mantissa: digits, optionally a point and more digits, at least one
/// digit in all.
pub open spec fn is_mantissa(m: Seq<char>) -> bool {
    &&& all_digits(whole_digits(m), 10)
    &&& all_digits(fraction_digits(m), 10)
    &&& whole_digits(m).len() + fraction_digits(m).len() > 0
}

/// An exponent: an optional sign and one or more digits.
pub open spec fn exponent_value(x: Seq<char>) -> Option<int> {
    let d = x.skip(sign_len(x));
    if d.len() > 0 && all_digits(d, 10) {
        Some(
            if is_negative(x) {
                -digits_value(d, 10)
            } else {
                digits_value(d, 10)
            },
        )
    } else {
        None
    }
}

/// A reading in millidegrees from the digits of a number, the position of
/// its decimal point among them, and its sign. Numbers above 200 are
/// millidegrees and the others degrees; the result is rounded toward zero
/// and limited to the range of `i32`.
pub open spec fn scaled_millis(negative: bool, digits: Seq<char>, point: int) -> int {
    let whole = shifted_value(digits, point);
    let above = !negative && (whole > 200 || (whole == 200 && nonzero_from(digits, point)));
    let magnitude = if above {
        whole
    } else {
        shifted_value(digits, point + 3)
    };
    clamp_int(
        if negative {
            -magnitude
        } else {
            magnitude
        },
        i32::MIN as int,
        i32::MAX as int,
    )
}

/// The reading of trimmed text that Rust's `f64` parser accepts: an
/// optional sign, then `inf`, `infinity` or `nan` in any case, or a
/// mantissa with an optional exponent. Infinities read as the ends of the
/// `i32` range. NaN reads as the lowest reading: where only one of the CPU
/// and disk readings is NaN, the effective temperature is then the other
/// one, as `f64::max` makes it; where both are NaN, the controller sees the
/// lowest temperature (state 1), while a floating-point controller would
/// compare NaN with nothing. `None` for any other text.
pub open spec fn temperature_of(s: Seq<char>) -> Option<int> {
    let b = unsigned_body(s);
    let word = lowered(b);
    if word == "inf"@ || word == "infinity"@ {
        Some(
            if is_negative(s) {
                i32::MIN as int
            } else {
                i32::MAX as int
            },
        )
    } else if word == "nan"@ {
        Some(i32::MIN as int)
    } else {
        number_reading(is_negative(s), b)
    }
}

/// The reading of a number without its sign: a mantissa and an optional
/// exponent.
pub open spec fn number_reading(negative: bool, b: Seq<char>) -> Option<int> {
    let m = mantissa(b);
    let e = if has_exponent(b) {
        exponent_value(exponent_text(b))
    } else {
        Some(0int)
    };
    if is_mantissa(m) && e is Some {
        Some(
            scaled_millis(
                negative,
                whole_digits(m) + fraction_digits(m),
                whole_digits(m).len() + e->0,
            ),
        )
    } else {
        None
    }
}

/// An exponent limited to `EXPONENT_CAP` in magnitude.
pub open spec fn capped_exponent(e: int) -> int {
    if e > EXPONENT_CAP as int {
        EXPONENT_CAP as int
    } else if e < -(EXPONENT_CAP as int) {
        -(EXPONENT_CAP as int)
    } else {
        e
    }
}

/// The temperature that a sensor file holds, in millidegrees: the reading
/// of its trimmed text (see `temperature_of`).
pub open spec fn temperature_millis(text: Seq<char>) -> Option<int> {
    temperature_of(trimmed(text))
}

proof fn lemma_far_point(d: Seq<char>, x: int)
    requires
        all_digits(d, 10),
        x >= d.len() + 10,
    ensures
        sat_to(shifted_value(d, x), READING_CAP as int) == (if digits_value(d, 10) == 0 {
            0
        } else {
            READING_CAP as int
        }),
        !nonzero_from(d, x),
{
    let m = digits_value(d, 10);
    lemma_digits_value_nonneg(d, 10);
    let k = (x - d.len()) as nat;
    lemma_pow10_grows(10, k);
    assert(pow10(10) == 10000000000) by {
        reveal_with_fuel(pow10, 11);
    }
    assert(shifted_value(d, x) == m * pow10(k));
    if m != 0 {
        assert(m * pow10(k) >= pow10(k)) by (nonlinear_arith)
            requires
                m >= 1,
                pow10(k) >= 1,
        ;
    } else {
        assert(m * pow10(k) == 0) by (nonlinear_arith)
            requires
                m == 0,
        ;
    }
}

proof fn lemma_point_capped(d: Seq<char>, w: int, e: int, ec: int)
    requires
        all_digits(d, 10),
        0 <= w <= d.len() < 0x1_0000_0000_0000_0000,
        ec == capped_exponent(e),
    ensures
        sat_to(shifted_value(d, w + e), READING_CAP as int) == sat_to(
            shifted_value(d, w + ec),
            READING_CAP as int,
        ),
        sat_to(shifted_value(d, w + e + 3), READING_CAP as int) == sat_to(
            shifted_value(d, w + ec + 3),
            READING_CAP as int,
        ),
        nonzero_from(d, w + e) == nonzero_from(d, w + ec),
{
    if e > EXPONENT_CAP as int {
        lemma_far_point(d, w + e);
        lemma_far_point(d, w + ec);
        lemma_far_point(d, w + e + 3);
        lemma_far_point(d, w + ec + 3);
    } else if e < -(EXPONENT_CAP as int) {
        assert(nonzero_from(d, w + e) == nonzero_from(d, 0));
        assert(nonzero_from(d, w + ec) == nonzero_from(d, 0));
    }
}

proof fn lemma_shifted_nonneg(d: Seq<char>, p: int)
    ensures
        shifted_value(d, p) >= 0,
{
    if p > 0 {
        if p <= d.len() {
            lemma_digits_value_nonneg(d.take(p), 10);
        } else {
            lemma_digits_value_nonneg(d, 10);
            let k = (p - d.len()) as nat;
            lemma_pow10_grows(0, k);
            let m = digits_value(d, 10);
            assert(m * pow10(k) >= 0) by (nonlinear_arith)
                requires
                    m >= 0,
                    pow10(k) >= 1,
            ;
        }
    }
}

fn read_exponent(x: &Vec<char>) -> (r: Option<i128>)
    ensures
        r is None <==> exponent_value(x@) is None,
        r matches Some(ec) ==> ec == capped_exponent(exponent_value(x@)->0),
{
    let xlen = x.len();
    let sign: usize = if xlen > 0 && (x[0] == '+' || x[0] == '-') {
        1
    } else {
        0
    };
    let negative = sign == 1 && x[0] == '-';
    let digits = sub_chars(x, sign, xlen);
    assert(digits@ =~= x@.skip(sign_len(x@)));
    if digits.len() == 0 || !all_decimal(&digits) {
        return None;
    }
    let size = capped_value(&digits, EXPONENT_CAP);
    proof {
        lemma_digits_value_nonneg(digits@, 10);
    }
    if negative {
        Some(-(size as i128))
    } else {
        Some(size as i128)
    }
}

fn millis_of(negative: bool, digits: &Vec<char>, whole_len: usize, ec: i128, Ghost(e): Ghost<int>) -> (v: i32)
    requires
        all_digits(digits@, 10),
        whole_len <= digits@.len(),
        ec == capped_exponent(e),
    ensures
        v == scaled_millis(negative, digits@, whole_len + e),
{
    let point: i128 = whole_len as i128 + ec;
    let dlen = digits.len();
    assert(dlen as int == digits@.len());
    proof {
        lemma_point_capped(digits@, whole_len as int, e, ec as int);
        lemma_shifted_nonneg(digits@, whole_len + e);
        lemma_shifted_nonneg(digits@, whole_len + e + 3);
    }
    let int_part = shifted_capped(digits, point, READING_CAP);
    let nonzero = has_nonzero_from(digits, point);
    let above = !negative && (int_part > 200 || (int_part == 200 && nonzero));
    let magnitude: u128 = if above {
        int_part
    } else {
        shifted_capped(digits, point + 3, READING_CAP)
    };
    let signed: i64 = if negative {
        -(magnitude as i64)
    } else {
        magnitude as i64
    };
    if signed < i32::MIN as i64 {
        i32::MIN
    } else if signed > i32::MAX as i64 {
        i32::MAX
    } else {
        signed as i32
    }
}

fn read_number(negative: bool, body: &Vec<char>) -> (r: Option<i32>)
    ensures
        r matches Some(v) ==> number_reading(negative, body@) == Some(v as int),
        r is None ==> number_reading(negative, body@) is None,
{
    let blen = body.len();
    let e = find_first_of(body, 'e', 'E');
    let m = sub_chars(body, 0, e);
    assert(m@ =~= mantissa(body@));
    let mlen = m.len();
    let dot = find_first_of(&m, '.', '.');
    let whole = sub_chars(&m, 0, dot);
    let frac = if dot < mlen {
        sub_chars(&m, dot + 1, mlen)
    } else {
        Vec::new()
    };
    assert(whole@ =~= whole_digits(m@));
    assert(frac@ =~= fraction_digits(m@));
    if !all_decimal(&whole) || !all_decimal(&frac) || whole.len() + frac.len() == 0 {
        return None;
    }
    let ec: i128 = if e < blen {
        let x = sub_chars(body, e + 1, blen);
        assert(x@ =~= exponent_text(body@));
        match read_exponent(&x) {
            Some(v) => v,
            None => {
                return None;
            },
        }
    } else {
        0
    };
    let ghost exact: int = if has_exponent(body@) {
        exponent_value(exponent_text(body@))->0
    } else {
        0
    };
    let digits = concat_chars(&whole, &frac);
    assert(all_digits(digits@, 10)) by {
        assert forall|i: int| 0 <= i < digits@.len() implies #[trigger] digit_value(digits@[i])
            < 10 by {
            if i < whole@.len() {
                assert(digits@[i] == whole@[i]);
            } else {
                assert(digits@[i] == frac@[i - whole@.len()]);
            }
        }
    }
    Some(millis_of(negative, &digits, whole.len(), ec, Ghost(exact)))
}

/// Reads a temperature from the text of a sensor file (see
/// `temperature_millis`).
pub fn parse_temperature(text: &str) -> (r: Option<i32>)
    ensures
        r matches Some(v) ==> temperature_millis(text@) == Some(v as int),
        r is None ==> temperature_millis(text@) is None,
{
    let raw = chars_of(text);
    let t = trim_chars(&raw);
    let ghost s = t@;
    let n = t.len();
    let mut idx: usize = 0;
    let mut negative = false;
    if n > 0 && (t[0] == '+' || t[0] == '-') {
        negative = t[0] == '-';
        idx = 1;
    }
    let body = sub_chars(&t, idx, n);
    assert(body@ =~= unsigned_body(s));
    assert(negative == is_negative(s));
    let word = lower_chars(&body);
    if equals(&word, "inf") || equals(&word, "infinity") {
        return Some(
            if negative {
                i32::MIN
            } else {
                i32::MAX
            },
        );
    }
    if equals(&word, "nan") {
        return Some(i32::MIN);
    }
    read_number(negative, &body)
}

/// A whole number in a sensor file is degrees up to 200 and millidegrees
/// above: `45` and `45000` both read as 45 °C.
pub proof fn lemma_whole_number_readings(n: nat)
    requires
        n <= i32::MAX,
    ensures
        temperature_millis(decimal_text(n)) == Some(
            if n > 200 {
                n as int
            } else {
                n * 1000int
            },
        ),
{
    let t = decimal_text(n);
    lemma_decimal_text_digits(n);
    assert(digit_value(t[0]) < 10);
    assert(digit_value(t.last()) < 10);
    assert(trim_start(t) == t);
    assert(trim_end(t) == t);
    assert(t.skip(0) =~= t);
    assert(unsigned_body(t) == t);
    reveal_strlit("inf");
    reveal_strlit("infinity");
    reveal_strlit("nan");
    assert(lowered(t)[0] == t[0]);
    assert(lowered(t) != "inf"@ && lowered(t) != "infinity"@ && lowered(t) != "nan"@) by {
        assert("inf"@[0] == 'i');
        assert("infinity"@[0] == 'i');
        assert("nan"@[0] == 'n');
    }
    assert forall|j: int| 0 <= j < t.len() implies t[j] != 'e' && t[j] != 'E' && t[j] != '.' by {
        assert(digit_value(t[j]) < 10);
    }
    lemma_first_of(t, 'e', 'E', t.len() as int);
    lemma_first_of(t, '.', '.', t.len() as int);
    assert(t.take(t.len() as int) =~= t);
    assert(mantissa(t) == t);
    assert(whole_digits(t) == t);
    assert(fraction_digits(t) == Seq::<char>::empty());
    let d = whole_digits(t) + fraction_digits(t);
    assert(d =~= t);
    assert(shifted_value(d, t.len() as int) == n);
    assert(!nonzero_from(d, t.len() as int));
    assert(pow10(3) == 1000) by {
        reveal_with_fuel(pow10, 4);
    }
    assert(shifted_value(d, t.len() + 3int) == n * 1000);
}

// ------------------------------------------------------------------
// Names
// ------------------------------------------------------------------

/// The name of a hwmon adapter or the type of a thermal zone as the file
/// holds it: trimmed and with ASCII letters lowercased.
pub open spec fn label_of(text: Seq<char>) -> Seq<char> {
    lowered(trimmed(text))
}

/// A file of a hwmon directory that holds a temperature: `temp*_input`.
pub open spec fn is_temp_input(name: Seq<char>) -> bool {
    has_prefix(name, "temp"@) && has_suffix(name, "_input"@)
}

/// A CPU package sensor: `coretemp`, as `sensors` names it
/// `coretemp-isa-0000`.
pub open spec fn is_cpu_label(label: Seq<char>) -> bool {
    label == "coretemp"@ || label == "coretemp-isa-0000"@
}

/// A disk sensor adapter: a name that mentions drivetemp, nvme, ata or scsi.
pub open spec fn is_disk_label(label: Seq<char>) -> bool {
    has_infix(label, "drivetemp"@) || has_infix(label, "nvme"@) || has_infix(label, "ata"@)
        || has_infix(label, "scsi"@)
}

/// A disk thermal zone: a type that mentions disk, drive, ssd or nvme.
pub open spec fn is_disk_zone_label(label: Seq<char>) -> bool {
    has_infix(label, "disk"@) || has_infix(label, "drive"@) || has_infix(label, "ssd"@)
        || has_infix(label, "nvme"@)
}

/// Whether a file name in a hwmon directory is a `temp*_input` reading.
pub fn is_temp_input_name(name: &str) -> (b: bool)
    ensures
        b == is_temp_input(name@),
{
    let c = chars_of(name);
    starts_with(&c, "temp") && ends_with(&c, "_input")
}

fn label(text: &str) -> (l: Vec<char>)
    ensures
        l@ == label_of(text@),
{
    let c = chars_of(text);
    let t = trim_chars(&c);
    lower_chars(&t)
}

/// Whether the `name` file of a hwmon adapter marks the CPU package sensor.
pub fn is_cpu_hwmon(name_file: &str) -> (b: bool)
    ensures
        b == is_cpu_label(label_of(name_file@)),
{
    let l = label(name_file);
    equals(&l, "coretemp") || equals(&l, "coretemp-isa-0000")
}

/// Whether the `name` file of a hwmon adapter marks a disk sensor.
pub fn is_disk_hwmon(name_file: &str) -> (b: bool)
    ensures
        b == is_disk_label(label_of(name_file@)),
{
    let l = label(name_file);
    contains(&l, "drivetemp") || contains(&l, "nvme") || contains(&l, "ata") || contains(&l, "scsi")
}

/// Whether the `type` file of a thermal zone marks a disk.
pub fn is_disk_thermal_zone(type_file: &str) -> (b: bool)
    ensures
        b == is_disk_zone_label(label_of(type_file@)),
{
    let l = label(type_file);
    contains(&l, "disk") || contains(&l, "drive") || contains(&l, "ssd") || contains(&l, "nvme")
}

// ------------------------------------------------------------------
// The hottest reading
// ------------------------------------------------------------------

/// Whether `m` is the largest of the readings, `None` when there are none.
pub open spec fn is_max_of(m: Option<i32>, readings: Seq<i32>) -> bool {
    &&& (m is None <==> readings.len() == 0)
    &&& (m matches Some(v) ==> (exists|i: int| 0 <= i < readings.len() && readings[i] == v)
        && (forall|i: int| 0 <= i < readings.len() ==> readings[i] <= v))
}

/// The largest of the readings, `None` when there are none.
pub fn max_reading(readings: &Vec<i32>) -> (m: Option<i32>)
    ensures
        is_max_of(m, readings@),
{
    if readings.len() == 0 {
        return None;
    }
    let mut best = readings[0];
    let mut i: usize = 1;
    while i < readings.len()
        invariant
            1 <= i <= readings@.len(),
            exists|k: int| 0 <= k < i && readings@[k] == best,
            forall|k: int| 0 <= k < i ==> readings@[k] <= best,
        decreases readings@.len() - i,
    {
        if readings[i] > best {
            best = readings[i];
        }
        i = i + 1;
    }
    Some(best)
}

/// A hwmon adapter as read: the text of its `name` file (empty when
/// unreadable) and the readings of its `temp*_input` files that could be
/// read. The readings of an adapter that is neither a CPU nor a disk sensor
/// do not matter and may be left out.
pub struct HwmonReadings {
    pub name_file: String,
    pub readings: Vec<i32>,
}

/// A thermal zone as read: the text of its `type` file (empty when
/// unreadable) and the reading of its `temp` file. The reading of a zone
/// that is not a disk does not matter and may be left out.
pub struct ZoneReading {
    pub type_file: String,
    pub reading: Option<i32>,
}

/// The readings of the CPU sensor adapters (`cpu`) or of the disk sensor
/// adapters, in order.
pub open spec fn hwmon_candidates(h: Seq<HwmonReadings>, cpu: bool) -> Seq<i32>
    decreases h.len(),
{
    if h.len() == 0 {
        Seq::empty()
    } else {
        let label = label_of(h.last().name_file@);
        let wanted = if cpu {
            is_cpu_label(label)
        } else {
            is_disk_label(label)
        };
        hwmon_candidates(h.drop_last(), cpu) + if wanted {
            h.last().readings@
        } else {
            Seq::empty()
        }
    }
}

/// The readings of the disk thermal zones, in order.
pub open spec fn zone_candidates(z: Seq<ZoneReading>) -> Seq<i32>
    decreases z.len(),
{
    if z.len() == 0 {
        Seq::empty()
    } else {
        zone_candidates(z.drop_last()) + if is_disk_zone_label(label_of(z.last().type_file@))
            && z.last().reading is Some {
            seq![z.last().reading->0]
        } else {
            Seq::empty()
        }
    }
}

fn collect_hwmon(hwmons: &Vec<HwmonReadings>, cpu: bool, out: &mut Vec<i32>)
    ensures
        final(out)@ == old(out)@ + hwmon_candidates(hwmons@, cpu),
{
    let ghost start = out@;
    let mut i: usize = 0;
    while i < hwmons.len()
        invariant
            i <= hwmons@.len(),
            out@ == start + hwmon_candidates(hwmons@.take(i as int), cpu),
        decreases hwmons@.len() - i,
    {
        let h = &hwmons[i];
        let wanted = if cpu {
            is_cpu_hwmon(h.name_file.as_str())
        } else {
            is_disk_hwmon(h.name_file.as_str())
        };
        let ghost before = out@;
        if wanted {
            let mut j: usize = 0;
            while j < h.readings.len()
                invariant
                    j <= h.readings@.len(),
                    out@ == before + h.readings@.take(j as int),
                decreases h.readings@.len() - j,
            {
                out.push(h.readings[j]);
                j = j + 1;
                assert(out@ =~= before + h.readings@.take(j as int));
            }
            assert(h.readings@.take(j as int) =~= h.readings@);
        }
        proof {
            let t = hwmons@.take(i + 1);
            assert(t.drop_last() =~= hwmons@.take(i as int));
            assert(t.last() == hwmons@[i as int]);
            assert(out@ =~= start + hwmon_candidates(t, cpu));
        }
        i = i + 1;
    }
    assert(hwmons@.take(i as int) =~= hwmons@);
}

/// The CPU temperature: the hottest reading of the CPU package sensors
/// (`coretemp` adapters).
pub fn cpu_temperature(hwmons: &Vec<HwmonReadings>) -> (m: Option<i32>)
    ensures
        is_max_of(m, hwmon_candidates(hwmons@, true)),
{
    let mut all: Vec<i32> = Vec::new();
    collect_hwmon(hwmons, true, &mut all);
    assert(all@ =~= hwmon_candidates(hwmons@, true));
    max_reading(&all)
}

/// The disk temperature: the hottest reading of the disk sensor adapters
/// and the disk thermal zones.
pub fn disk_temperature(hwmons: &Vec<HwmonReadings>, zones: &Vec<ZoneReading>) -> (m: Option<i32>)
    ensures
        is_max_of(m, hwmon_candidates(hwmons@, false) + zone_candidates(zones@)),
{
    let mut all: Vec<i32> = Vec::new();
    collect_hwmon(hwmons, false, &mut all);
    let ghost start = all@;
    let mut i: usize = 0;
    while i < zones.len()
        invariant
            i <= zones@.len(),
            all@ == start + zone_candidates(zones@.take(i as int)),
        decreases zones@.len() - i,
    {
        let z = &zones[i];
        let wanted = is_disk_thermal_zone(z.type_file.as_str());
        if wanted {
            match z.reading {
                Some(v) => {
                    all.push(v);
                },
                None => {},
            }
        }
        proof {
            let t = zones@.take(i + 1);
            assert(t.drop_last() =~= zones@.take(i as int));
            assert(t.last() == zones@[i as int]);
            assert(all@ =~= start + zone_candidates(t));
        }
        i = i + 1;
    }
    assert(zones@.take(i as int) =~= zones@);
    assert(all@ =~= hwmon_candidates(hwmons@, false) + zone_candidates(zones@));
    max_reading(&all)
}

// ------------------------------------------------------------------
// Laws of the hottest reading
// ------------------------------------------------------------------

/// Whether an adapter counts as a CPU sensor (`cpu`) or as a disk sensor.
pub open spec fn adapter_counts(h: HwmonReadings, cpu: bool) -> bool {
    if cpu {
        is_cpu_label(label_of(h.name_file@))
    } else {
        is_disk_label(label_of(h.name_file@))
    }
}

/// Whether `v` is a reading of an adapter that counts.
pub open spec fn counted_reading(h: Seq<HwmonReadings>, cpu: bool, v: i32) -> bool {
    exists|i: int, k: int|
        0 <= i < h.len() && adapter_counts(h[i], cpu) && 0 <= k < h[i].readings@.len()
            && #[trigger] h[i].readings@[k] == v
}

proof fn lemma_hwmon_candidates_members(h: Seq<HwmonReadings>, cpu: bool)
    ensures
        forall|i: int, k: int|
            0 <= i < h.len() && adapter_counts(h[i], cpu) && 0 <= k < h[i].readings@.len()
                ==> hwmon_candidates(h, cpu).contains(#[trigger] h[i].readings@[k]),
        forall|j: int|
            0 <= j < hwmon_candidates(h, cpu).len() ==> counted_reading(
                h,
                cpu,
                #[trigger] hwmon_candidates(h, cpu)[j],
            ),
    decreases h.len(),
{
    if h.len() > 0 {
        let t = h.drop_last();
        lemma_hwmon_candidates_members(t, cpu);
        let ct = hwmon_candidates(t, cpu);
        let c = hwmon_candidates(h, cpu);
        let last = h.last();
        let tail = if adapter_counts(last, cpu) {
            last.readings@
        } else {
            Seq::<i32>::empty()
        };
        assert(c == ct + tail);
        assert forall|i: int, k: int|
            0 <= i < h.len() && adapter_counts(h[i], cpu) && 0 <= k < h[i].readings@.len()
                implies c.contains(#[trigger] h[i].readings@[k]) by {
            if i < h.len() - 1 {
                assert(t[i] == h[i]);
                assert(ct.contains(t[i].readings@[k]));
                let j = choose|j: int| 0 <= j < ct.len() && ct[j] == t[i].readings@[k];
                assert(c[j] == ct[j]);
            } else {
                assert(c[ct.len() + k] == h[i].readings@[k]);
            }
        }
        assert forall|j: int| 0 <= j < hwmon_candidates(h, cpu).len() implies counted_reading(
            h,
            cpu,
            #[trigger] hwmon_candidates(h, cpu)[j],
        ) by {
            if j < ct.len() {
                assert(c[j] == ct[j]);
                assert(counted_reading(t, cpu, ct[j]));
                let (i, k) = choose|i: int, k: int|
                    0 <= i < t.len() && adapter_counts(t[i], cpu) && 0 <= k < t[i].readings@.len()
                        && #[trigger] t[i].readings@[k] == ct[j];
                assert(t[i] == h[i]);
                assert(h[i].readings@[k] == c[j]);
            } else {
                let i = h.len() - 1;
                let k = j - ct.len();
                assert(h[i] == last);
                assert(adapter_counts(last, cpu));
                assert(h[i].readings@[k] == c[j]);
            }
        }
    } else {
        assert(hwmon_candidates(h, cpu).len() == 0);
    }
}

proof fn lemma_zone_candidates_members(z: Seq<ZoneReading>)
    ensures
        forall|i: int|
            0 <= i < z.len() && is_disk_zone_label(label_of(z[i].type_file@)) && z[i].reading is Some
                ==> zone_candidates(z).contains(#[trigger] z[i].reading->0),
        forall|j: int|
            #![trigger zone_candidates(z)[j]]
            0 <= j < zone_candidates(z).len() ==> exists|i: int|
                0 <= i < z.len() && is_disk_zone_label(label_of(z[i].type_file@))
                    && #[trigger] z[i].reading == Some(zone_candidates(z)[j]),
    decreases z.len(),
{
    if z.len() > 0 {
        let t = z.drop_last();
        lemma_zone_candidates_members(t);
        let ct = zone_candidates(t);
        let c = zone_candidates(z);
        let last = z.last();
        assert forall|i: int|
            0 <= i < z.len() && is_disk_zone_label(label_of(z[i].type_file@)) && z[i].reading is Some
                implies c.contains(#[trigger] z[i].reading->0) by {
            if i < z.len() - 1 {
                assert(t[i] == z[i]);
                assert(ct.contains(t[i].reading->0));
                let j = choose|j: int| 0 <= j < ct.len() && ct[j] == t[i].reading->0;
                assert(c[j] == ct[j]);
            } else {
                assert(c[ct.len() as int] == z[i].reading->0);
            }
        }
        assert forall|j: int|
            #![trigger zone_candidates(z)[j]]
            0 <= j < zone_candidates(z).len() implies exists|i: int|
            0 <= i < z.len() && is_disk_zone_label(label_of(z[i].type_file@))
                && #[trigger] z[i].reading == Some(zone_candidates(z)[j]) by {
            if j < ct.len() {
                assert(c[j] == ct[j]);
                let i = choose|i: int|
                    0 <= i < t.len() && is_disk_zone_label(label_of(t[i].type_file@))
                        && #[trigger] t[i].reading == Some(ct[j]);
                assert(t[i] == z[i]);
            } else {
                let i = z.len() - 1;
                assert(z[i] == last);
            }
        }
    }
}

/// The CPU temperature is the hottest of all readings of all CPU package
/// adapters: it is at least every one of them, it is one of them, and there
/// is none only when those adapters gave no reading.
pub proof fn lemma_cpu_temperature_is_hottest(h: Seq<HwmonReadings>, m: Option<i32>)
    requires
        is_max_of(m, hwmon_candidates(h, true)),
    ensures
        forall|i: int, k: int|
            0 <= i < h.len() && is_cpu_label(label_of(h[i].name_file@)) && 0 <= k
                < h[i].readings@.len() ==> m is Some && #[trigger] h[i].readings@[k] <= m->0,
        m matches Some(v) ==> exists|i: int, k: int|
            0 <= i < h.len() && is_cpu_label(label_of(h[i].name_file@)) && 0 <= k
                < h[i].readings@.len() && #[trigger] h[i].readings@[k] == v,
{
    lemma_hwmon_candidates_members(h, true);
    let c = hwmon_candidates(h, true);
    assert forall|i: int, k: int|
        0 <= i < h.len() && is_cpu_label(label_of(h[i].name_file@)) && 0 <= k < h[i].readings@.len()
            implies m is Some && #[trigger] h[i].readings@[k] <= m->0 by {
        assert(adapter_counts(h[i], true));
        assert(c.contains(h[i].readings@[k]));
    }
    if m is Some {
        let j = choose|j: int| 0 <= j < c.len() && c[j] == m->0;
        assert(counted_reading(h, true, c[j]));
        let (i, k) = choose|i: int, k: int|
            0 <= i < h.len() && adapter_counts(h[i], true) && 0 <= k < h[i].readings@.len()
                && #[trigger] h[i].readings@[k] == c[j];
        assert(h[i].readings@[k] == m->0);
    }
}

/// The disk temperature is the hottest of all readings of the disk sensor
/// adapters and of the disk thermal zones: it is at least every one of
/// them, it is one of them, and there is none only when there are none.
pub proof fn lemma_disk_temperature_is_hottest(
    h: Seq<HwmonReadings>,
    z: Seq<ZoneReading>,
    m: Option<i32>,
)
    requires
        is_max_of(m, hwmon_candidates(h, false) + zone_candidates(z)),
    ensures
        forall|i: int, k: int|
            0 <= i < h.len() && is_disk_label(label_of(h[i].name_file@)) && 0 <= k
                < h[i].readings@.len() ==> m is Some && #[trigger] h[i].readings@[k] <= m->0,
        forall|i: int|
            0 <= i < z.len() && is_disk_zone_label(label_of(z[i].type_file@)) && #[trigger] z[i].reading
                is Some ==> m is Some && z[i].reading->0 <= m->0,
        m matches Some(v) ==> (exists|i: int, k: int|
            0 <= i < h.len() && is_disk_label(label_of(h[i].name_file@)) && 0 <= k
                < h[i].readings@.len() && #[trigger] h[i].readings@[k] == v) || (exists|i: int|
            0 <= i < z.len() && is_disk_zone_label(label_of(z[i].type_file@)) && #[trigger] z[i].reading
                == Some(v)),
{
    lemma_hwmon_candidates_members(h, false);
    lemma_zone_candidates_members(z);
    let ch = hwmon_candidates(h, false);
    let cz = zone_candidates(z);
    let c = ch + cz;
    assert forall|i: int, k: int|
        0 <= i < h.len() && is_disk_label(label_of(h[i].name_file@)) && 0 <= k < h[i].readings@.len()
            implies m is Some && #[trigger] h[i].readings@[k] <= m->0 by {
        assert(adapter_counts(h[i], false));
        assert(ch.contains(h[i].readings@[k]));
        let j = choose|j: int| 0 <= j < ch.len() && ch[j] == h[i].readings@[k];
        assert(c[j] == ch[j]);
    }
    assert forall|i: int|
        0 <= i < z.len() && is_disk_zone_label(label_of(z[i].type_file@)) && #[trigger] z[i].reading
            is Some implies m is Some && z[i].reading->0 <= m->0 by {
        assert(cz.contains(z[i].reading->0));
        let j = choose|j: int| 0 <= j < cz.len() && cz[j] == z[i].reading->0;
        assert(c[ch.len() + j] == cz[j]);
    }
    if m is Some {
        let j = choose|j: int| 0 <= j < c.len() && c[j] == m->0;
        if j < ch.len() {
            assert(c[j] == ch[j]);
            assert(counted_reading(h, false, ch[j]));
            let (i, k) = choose|i: int, k: int|
                0 <= i < h.len() && adapter_counts(h[i], false) && 0 <= k < h[i].readings@.len()
                    && #[trigger] h[i].readings@[k] == ch[j];
            assert(h[i].readings@[k] == m->0);
        } else {
            assert(c[j] == cz[j - ch.len()]);
            let i = choose|i: int|
                0 <= i < z.len() && is_disk_zone_label(label_of(z[i].type_file@))
                    && #[trigger] z[i].reading == Some(cz[j - ch.len()]);
            assert(z[i].reading == Some(m->0));
        }
    }
}

} // verus!
