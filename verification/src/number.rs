//! Unsigned integers written in a radix, read the way Rust's
//! `from_str_radix` reads them, and decimal rendering.
use vstd::prelude::*;
use vstd::string::StringExecFns;

verus! {

/// The value of a character as a digit: `0`..`9`, then `a`..`z` and
/// `A`..`Z` from 10; 36 for every other character.
pub open spec fn digit_value(c: char) -> int {
    if '0' <= c && c <= '9' {
        c as int - '0' as int
    } else if 'a' <= c && c <= 'z' {
        c as int - 'a' as int + 10
    } else if 'A' <= c && c <= 'Z' {
        c as int - 'A' as int + 10
    } else {
        36
    }
}

/// Whether every character is a digit of the radix.
pub open spec fn all_digits(s: Seq<char>, radix: int) -> bool {
    forall|i: int| 0 <= i < s.len() ==> #[trigger] digit_value(s[i]) < radix
}

/// The number that a sequence of digits writes, most significant first.
pub open spec fn digits_value(s: Seq<char>, radix: int) -> int
    decreases s.len(),
{
    if s.len() == 0 {
        0
    } else {
        digits_value(s.drop_last(), radix) * radix + digit_value(s.last())
    }
}

/// The digits of an unsigned number: a leading `+` is dropped when digits
/// follow it.
pub open spec fn unsigned_digits(s: Seq<char>) -> Seq<char> {
    if s.len() > 1 && s[0] == '+' {
        s.drop_first()
    } else {
        s
    }
}

/// An unsigned number no larger than `max`: an optional `+`, then one or
/// more digits of the radix.
pub open spec fn parse_unsigned(s: Seq<char>, radix: int, max: int) -> Option<int> {
    let d = unsigned_digits(s);
    if d.len() > 0 && all_digits(d, radix) && digits_value(d, radix) <= max {
        Some(digits_value(d, radix))
    } else {
        None
    }
}

/// The decimal digit character of `d`.
pub open spec fn digit_char(d: int) -> char {
    (d + '0' as int) as char
}

/// The decimal writing of a number, without leading zeros.
pub open spec fn decimal_text(n: nat) -> Seq<char>
    decreases n,
{
    if n < 10 {
        seq![digit_char(n as int)]
    } else {
        decimal_text(n / 10).push(digit_char((n % 10) as int))
    }
}

/// The value of one more digit of a prefix.
pub proof fn lemma_digits_value_take_step(s: Seq<char>, i: int, radix: int)
    requires
        0 <= i < s.len(),
    ensures
        digits_value(s.take(i + 1), radix) == digits_value(s.take(i), radix) * radix + digit_value(
            s[i],
        ),
{
    assert(s.take(i + 1).drop_last() =~= s.take(i));
}

/// With valid digits, a longer prefix never writes a smaller number.
pub proof fn lemma_digits_value_grows(s: Seq<char>, i: int, j: int, radix: int)
    requires
        0 <= i <= j <= s.len(),
        radix >= 1,
        all_digits(s, radix),
    ensures
        digits_value(s.take(i), radix) <= digits_value(s.take(j), radix),
    decreases j - i,
{
    if i < j {
        lemma_digits_value_grows(s, i, j - 1, radix);
        lemma_digits_value_take_step(s, j - 1, radix);
        lemma_digits_value_nonneg(s.take(j - 1), radix);
        let v = digits_value(s.take(j - 1), radix);
        assert(digit_value(s[j - 1]) >= 0);
        assert(v * radix >= v) by (nonlinear_arith)
            requires
                v >= 0,
                radix >= 1,
        ;
    }
}

/// Digits never write a negative number.
pub proof fn lemma_digits_value_nonneg(s: Seq<char>, radix: int)
    requires
        radix >= 1,
    ensures
        digits_value(s, radix) >= 0,
    decreases s.len(),
{
    if s.len() > 0 {
        lemma_digits_value_nonneg(s.drop_last(), radix);
        let v = digits_value(s.drop_last(), radix);
        assert(v * radix >= 0) by (nonlinear_arith)
            requires
                v >= 0,
                radix >= 1,
        ;
    }
}

/// Ten to the power `n`.
pub open spec fn pow10(n: nat) -> int
    decreases n,
{
    if n == 0 {
        1
    } else {
        10 * pow10((n - 1) as nat)
    }
}

/// `x` limited to `cap` from above.
pub open spec fn sat_to(x: int, cap: int) -> int {
    if x < cap {
        x
    } else {
        cap
    }
}

/// The integer part of the number that the digits `d` write once the
/// decimal point stands after the first `p` of them (zeros are appended
/// when `p` passes the end; nothing is left when `p` is not positive).
pub open spec fn shifted_value(d: Seq<char>, p: int) -> int {
    if p <= 0 {
        0
    } else if p <= d.len() {
        digits_value(d.take(p), 10)
    } else {
        digits_value(d, 10) * pow10((p - d.len()) as nat)
    }
}

/// Whether a digit other than `0` stands at position `p` or later.
pub open spec fn nonzero_from(d: Seq<char>, p: int) -> bool {
    exists|i: int| 0 <= i < d.len() && p <= i && d[i] != '0'
}

proof fn lemma_pow10_positive(n: nat)
    ensures
        pow10(n) >= 1,
    decreases n,
{
    if n > 0 {
        lemma_pow10_positive((n - 1) as nat);
    }
}

/// Powers of ten grow with the exponent.
pub proof fn lemma_pow10_grows(a: nat, b: nat)
    requires
        a <= b,
    ensures
        1 <= pow10(a) <= pow10(b),
    decreases b,
{
    lemma_pow10_positive(a);
    if a < b {
        lemma_pow10_grows(a, (b - 1) as nat);
        lemma_pow10_positive((b - 1) as nat);
    }
}

proof fn lemma_sat_step(x: int, d: int, cap: int)
    requires
        x >= 0,
        d >= 0,
        cap > 0,
    ensures
        sat_to(sat_to(x, cap) * 10 + d, cap) == sat_to(x * 10 + d, cap),
{
}

/// Whether every character is a decimal digit.
pub fn all_decimal(s: &Vec<char>) -> (b: bool)
    ensures
        b == all_digits(s@, 10),
{
    let mut i: usize = 0;
    while i < s.len()
        invariant
            i <= s@.len(),
            forall|j: int| 0 <= j < i ==> #[trigger] digit_value(s@[j]) < 10,
        decreases s@.len() - i,
    {
        if digit_of(s[i]) >= 10 {
            return false;
        }
        i = i + 1;
    }
    true
}

/// The value of decimal digits, limited to `cap`.
pub fn capped_value(s: &Vec<char>, cap: u128) -> (v: u128)
    requires
        all_digits(s@, 10),
        1 <= cap <= 0x1_0000_0000_0000_0000_0000_0000,
    ensures
        v == sat_to(digits_value(s@, 10), cap as int),
{
    let v = capped_prefix(s, s.len(), cap);
    assert(s@.take(s@.len() as int) =~= s@);
    v
}

fn capped_prefix(s: &Vec<char>, upto: usize, cap: u128) -> (v: u128)
    requires
        all_digits(s@, 10),
        upto <= s@.len(),
        1 <= cap <= 0x1_0000_0000_0000_0000_0000_0000,
    ensures
        v == sat_to(digits_value(s@.take(upto as int), 10), cap as int),
        v <= cap,
{
    let mut acc: u128 = 0;
    let mut i: usize = 0;
    assert(s@.take(0) =~= Seq::<char>::empty());
    while i < upto
        invariant
            i <= upto <= s@.len(),
            all_digits(s@, 10),
            1 <= cap <= 0x1_0000_0000_0000_0000_0000_0000,
            acc == sat_to(digits_value(s@.take(i as int), 10), cap as int),
            acc <= cap,
            digits_value(s@.take(i as int), 10) >= 0,
        decreases upto - i,
    {
        let d = digit_of(s[i]);
        assert(digit_value(s@[i as int]) < 10);
        proof {
            lemma_digits_value_take_step(s@, i as int, 10);
            lemma_sat_step(digits_value(s@.take(i as int), 10), d as int, cap as int);
        }
        let next = acc * 10 + d as u128;
        acc = if next < cap {
            next
        } else {
            cap
        };
        i = i + 1;
    }
    if upto == s.len() {
        assert(s@.take(upto as int) =~= s@);
    }
    acc
}

/// The integer part after moving the decimal point (see `shifted_value`),
/// limited to `cap`.
pub fn shifted_capped(d: &Vec<char>, p: i128, cap: u128) -> (v: u128)
    requires
        all_digits(d@, 10),
        1 <= cap <= 0x1_0000_0000_0000_0000_0000_0000,
    ensures
        v == sat_to(shifted_value(d@, p as int), cap as int),
        v <= cap,
{
    if p <= 0 {
        return 0;
    }
    let len = d.len();
    if p <= len as i128 {
        return capped_prefix(d, p as usize, cap);
    }
    let mut acc = capped_prefix(d, len, cap);
    assert(d@.take(len as int) =~= d@);
    let ghost m = digits_value(d@, 10);
    proof {
        lemma_digits_value_nonneg(d@, 10);
    }
    let ghost total = (p - len) as nat;
    let mut r: i128 = p - len as i128;
    while r > 0 && 0 < acc && acc < cap
        invariant
            0 <= r <= total,
            m >= 0,
            1 <= cap <= 0x1_0000_0000_0000_0000_0000_0000,
            acc == sat_to(m * pow10((total - r) as nat), cap as int),
            acc <= cap,
        decreases r,
    {
        let ghost k = (total - r) as nat;
        proof {
            assert(pow10((k + 1) as nat) == 10 * pow10(k));
            assert(m * pow10((k + 1) as nat) == (m * pow10(k)) * 10) by (nonlinear_arith)
                requires
                    pow10((k + 1) as nat) == 10 * pow10(k),
            ;
            lemma_pow10_grows(0, k);
            assert(m * pow10(k) >= 0) by (nonlinear_arith)
                requires
                    m >= 0,
                    pow10(k) >= 1,
            ;
            lemma_sat_step(m * pow10(k), 0, cap as int);
        }
        let next = acc * 10;
        acc = if next < cap {
            next
        } else {
            cap
        };
        r = r - 1;
    }
    proof {
        let k = (total - r) as nat;
        assert(shifted_value(d@, p as int) == m * pow10(total));
        lemma_pow10_grows(0, k);
        lemma_pow10_grows(k, total);
        if r == 0 {
            assert(k == total);
        } else {
            if acc == 0 {
                assert(m * pow10(k) == 0);
                assert(m == 0) by (nonlinear_arith)
                    requires
                        m * pow10(k) == 0,
                        pow10(k) >= 1,
                        m >= 0,
                ;
            } else {
                assert(m * pow10(k) >= cap);
                assert(m * pow10(total) >= m * pow10(k)) by (nonlinear_arith)
                    requires
                        m >= 0,
                        pow10(total) >= pow10(k),
                ;
            }
        }
    }
    acc
}

/// Whether a digit other than `0` stands at position `p` or later.
pub fn has_nonzero_from(d: &Vec<char>, p: i128) -> (b: bool)
    ensures
        b == nonzero_from(d@, p as int),
{
    let len = d.len();
    let mut i: usize = if p <= 0 {
        0
    } else if p >= len as i128 {
        len
    } else {
        p as usize
    };
    while i < len
        invariant
            i <= len == d@.len(),
            i == len || p <= i || p <= 0,
            forall|j: int| 0 <= j < i && p <= j ==> d@[j] == '0',
        decreases len - i,
    {
        if d[i] != '0' {
            return true;
        }
        i = i + 1;
    }
    false
}

/// The hexadecimal digit character of `d`, in upper or lower case.
pub open spec fn hex_digit_char(d: int, upper: bool) -> char {
    if d < 10 {
        (d + '0' as int) as char
    } else if upper {
        (d - 10 + 'A' as int) as char
    } else {
        (d - 10 + 'a' as int) as char
    }
}

/// The hexadecimal writing of a number, without leading zeros.
pub open spec fn hex_text(n: nat, upper: bool) -> Seq<char>
    decreases n,
{
    if n < 16 {
        seq![hex_digit_char(n as int, upper)]
    } else {
        hex_text(n / 16, upper).push(hex_digit_char((n % 16) as int, upper))
    }
}

/// A text with `0`s in front up to `width` characters.
pub open spec fn zero_padded(t: Seq<char>, width: nat) -> Seq<char> {
    if t.len() < width {
        Seq::new((width - t.len()) as nat, |i: int| '0') + t
    } else {
        t
    }
}

/// The hexadecimal writing of a number is a non-empty run of hexadecimal
/// digits worth the number.
pub proof fn lemma_hex_text_digits(n: nat, upper: bool)
    ensures
        hex_text(n, upper).len() > 0,
        all_digits(hex_text(n, upper), 16),
        digits_value(hex_text(n, upper), 16) == n,
    decreases n,
{
    let t = hex_text(n, upper);
    if n < 16 {
        assert(t.drop_last() =~= Seq::<char>::empty());
        assert(digits_value(Seq::<char>::empty(), 16) == 0);
        assert(digit_value(hex_digit_char(n as int, upper)) == n);
        assert(digits_value(t, 16) == digits_value(t.drop_last(), 16) * 16 + digit_value(t.last()));
    } else {
        lemma_hex_text_digits(n / 16, upper);
        let u = hex_text(n / 16, upper);
        let m = (n % 16) as int;
        assert(t == u.push(hex_digit_char(m, upper)));
        assert(t.drop_last() =~= u);
        assert(digit_value(hex_digit_char(m, upper)) == m);
        assert(digits_value(t, 16) == digits_value(u, 16) * 16 + m);
        assert((n / 16) * 16 + m == n);
        assert forall|i: int| 0 <= i < t.len() implies #[trigger] digit_value(t[i]) < 16 by {
            if i < u.len() {
                assert(t[i] == u[i]);
            }
        }
    }
}

/// Leading zeros do not change what digits write.
pub proof fn lemma_leading_zeros(z: Seq<char>, t: Seq<char>, radix: int)
    requires
        forall|i: int| 0 <= i < z.len() ==> z[i] == '0',
    ensures
        digits_value(z + t, radix) == digits_value(t, radix),
    decreases z.len() + t.len(),
{
    if t.len() == 0 {
        assert(z + t =~= z);
        if z.len() > 0 {
            lemma_leading_zeros(z.drop_last(), t, radix);
            assert(z.drop_last() + t =~= z.drop_last());
        }
    } else {
        lemma_leading_zeros(z, t.drop_last(), radix);
        assert((z + t).drop_last() =~= z + t.drop_last());
        assert((z + t).last() == t.last());
    }
}

/// The value of a character as a digit (see `digit_value`).
pub fn digit_of(c: char) -> (d: u32)
    ensures
        d == digit_value(c),
{
    if '0' <= c && c <= '9' {
        (c as u32) - ('0' as u32)
    } else if 'a' <= c && c <= 'z' {
        (c as u32) - ('a' as u32) + 10
    } else if 'A' <= c && c <= 'Z' {
        (c as u32) - ('A' as u32) + 10
    } else {
        36
    }
}

/// Reads `s[start..]` as an unsigned number of the radix no larger than
/// `max` (see `parse_unsigned`).
pub fn parse_unsigned_from(s: &Vec<char>, start: usize, radix: u32, max: u64) -> (r: Option<u64>)
    requires
        start <= s@.len(),
        2 <= radix <= 36,
    ensures
        r matches Some(v) ==> parse_unsigned(s@.skip(start as int), radix as int, max as int) == Some(
            v as int,
        ),
        r is None ==> parse_unsigned(s@.skip(start as int), radix as int, max as int) is None,
{
    let ghost text = s@.skip(start as int);
    let n = s.len();
    let first: usize = if n - start > 1 && s[start] == '+' {
        start + 1
    } else {
        start
    };
    let ghost d = s@.skip(first as int);
    assert(d =~= unsigned_digits(text));
    if first == n {
        return None;
    }
    let mut value: u128 = 0;
    let mut i: usize = first;
    while i < n
        invariant
            first <= i <= n == s@.len(),
            d == s@.skip(first as int),
            d == unsigned_digits(text),
            text == s@.skip(start as int),
            2 <= radix <= 36,
            value <= max,
            all_digits(d.take(i - first), radix as int),
            value == digits_value(d.take(i - first), radix as int),
        decreases n - i,
    {
        let k = i - first;
        let digit = digit_of(s[i]);
        assert(d[k as int] == s@[i as int]);
        if digit >= radix {
            assert(digit_value(d[k as int]) >= radix);
            assert(!all_digits(d, radix as int));
            assert(parse_unsigned(text, radix as int, max as int) is None);
            return None;
        }
        proof {
            lemma_digits_value_take_step(d, k as int, radix as int);
            assert(value * radix <= u64::MAX * 36) by (nonlinear_arith)
                requires
                    value <= u64::MAX,
                    radix <= 36,
            ;
        }
        let next = value * (radix as u128) + (digit as u128);
        if next > max as u128 {
            proof {
                assert(digits_value(d.take(k + 1), radix as int) == next);
                assert(forall|j: int| 0 <= j < k + 1 ==> d.take(k + 1)[j] == d[j]);
                if all_digits(d, radix as int) {
                    lemma_digits_value_grows(d, k + 1, d.len() as int, radix as int);
                    assert(d.take(d.len() as int) =~= d);
                }
            }
            return None;
        }
        value = next;
        i = i + 1;
        proof {
            assert forall|j: int| 0 <= j < (i - first) implies #[trigger] digit_value(
                d.take(i - first)[j],
            ) < radix by {
                if j < k {
                    assert(d.take(i - first)[j] == d.take(k as int)[j]);
                }
            }
        }
    }
    assert(d.take(n - first) =~= d);
    Some(value as u64)
}

/// The decimal writing of a number is a non-empty run of decimal digits
/// worth the number.
pub proof fn lemma_decimal_text_digits(n: nat)
    ensures
        decimal_text(n).len() > 0,
        all_digits(decimal_text(n), 10),
        digits_value(decimal_text(n), 10) == n,
        '0' <= decimal_text(n)[0] <= '9',
    decreases n,
{
    if n < 10 {
        let t = decimal_text(n);
        assert(t.drop_last() =~= Seq::<char>::empty());
        assert(digits_value(Seq::<char>::empty(), 10) == 0);
        assert(digit_value(digit_char(n as int)) == n);
        assert(digits_value(t, 10) == digits_value(t.drop_last(), 10) * 10 + digit_value(t.last()));
    } else {
        lemma_decimal_text_digits(n / 10);
        let t = decimal_text(n / 10);
        let u = t.push(digit_char((n % 10) as int));
        assert(u.drop_last() =~= t);
        let m = (n % 10) as int;
        assert(digit_value(digit_char(m)) == m);
        assert(digits_value(u, 10) == digits_value(t, 10) * 10 + m);
        assert((n / 10) * 10 + m == n);
        assert(decimal_text(n) == u);
        assert forall|i: int| 0 <= i < u.len() implies #[trigger] digit_value(u[i]) < 10 by {
            if i < t.len() {
                assert(u[i] == t[i]);
            }
        }
    }
}

/// A number written in decimal reads back as itself.
pub proof fn lemma_decimal_roundtrip(n: nat, max: int)
    requires
        n <= max,
    ensures
        parse_unsigned(decimal_text(n), 10, max) == Some(n as int),
{
    lemma_decimal_text_digits(n);
}

/// The one-character text of a decimal digit.
fn digit_text(d: u16) -> (t: &'static str)
    requires
        d < 10,
    ensures
        t@ == seq![digit_char(d as int)],
{
    proof {
        reveal_strlit("0");
        reveal_strlit("1");
        reveal_strlit("2");
        reveal_strlit("3");
        reveal_strlit("4");
        reveal_strlit("5");
        reveal_strlit("6");
        reveal_strlit("7");
        reveal_strlit("8");
        reveal_strlit("9");
    }
    let t = if d == 0 {
        "0"
    } else if d == 1 {
        "1"
    } else if d == 2 {
        "2"
    } else if d == 3 {
        "3"
    } else if d == 4 {
        "4"
    } else if d == 5 {
        "5"
    } else if d == 6 {
        "6"
    } else if d == 7 {
        "7"
    } else if d == 8 {
        "8"
    } else {
        "9"
    };
    assert(t@ =~= seq![digit_char(d as int)]);
    t
}

/// The decimal writing of a number, without leading zeros.
pub fn decimal_string(n: u16) -> (s: String)
    ensures
        s@ == decimal_text(n as nat),
    decreases n,
{
    if n < 10 {
        String::from_str(digit_text(n))
    } else {
        let mut s = decimal_string(n / 10);
        s.append(digit_text(n % 10));
        s
    }
}

} // verus!
