//! Numbers as text: decimal and hexadecimal digits.
use crate::text;
use vstd::prelude::*;

verus! {

/// The character of a decimal digit.
pub open spec fn digit_char(d: int) -> char {
    (0x30 + d) as char
}

/// The decimal digits of a number, without leading zeros.
pub open spec fn decimal(n: nat) -> Seq<char>
    decreases n,
{
    if n < 10 {
        seq![digit_char(n as int)]
    } else {
        decimal(n / 10).push(digit_char((n % 10) as int))
    }
}

/// The decimal digits of an integer, with a minus sign where it is negative.
pub open spec fn signed_decimal(n: int) -> Seq<char> {
    if n < 0 {
        seq!['-'] + decimal((-n) as nat)
    } else {
        decimal(n as nat)
    }
}

pub fn char_of_digit(d: u8) -> (c: char)
    requires
        d < 10,
    ensures
        c == digit_char(d as int),
        text::is_digit(c),
{
    (0x30 + d) as char
}

/// The decimal text of a number.
pub fn u128_text(n: u128) -> (r: String)
    ensures
        r@ == decimal(n as nat),
    decreases n,
{
    if n < 10 {
        let mut s = String::new();
        s.push(char_of_digit(n as u8));
        assert(s@ =~= decimal(n as nat));
        s
    } else {
        let mut s = u128_text(n / 10);
        s.push(char_of_digit((n % 10) as u8));
        s
    }
}

pub fn u64_text(n: u64) -> (r: String)
    ensures
        r@ == decimal(n as nat),
{
    u128_text(n as u128)
}

pub fn usize_text(n: usize) -> (r: String)
    ensures
        r@ == decimal(n as nat),
{
    u128_text(n as u128)
}

pub fn i64_text(n: i64) -> (r: String)
    ensures
        r@ == signed_decimal(n as int),
{
    if n < 0 {
        let magnitude: u128 = (-(n as i128)) as u128;
        let mut s = String::new();
        s.push('-');
        let digits = u128_text(magnitude);
        s.append(digits.as_str());
        assert(s@ =~= signed_decimal(n as int));
        s
    } else {
        u64_text(n as u64)
    }
}

/// The digits of a number, filled up on the left with zeros to a width.
pub open spec fn padded(n: nat, width: nat) -> Seq<char> {
    let d = decimal(n);
    if d.len() >= width {
        d
    } else {
        Seq::new((width - d.len()) as nat, |i: int| '0') + d
    }
}

pub fn padded_text(n: u64, width: usize) -> (r: String)
    ensures
        r@ == padded(n as nat, width as nat),
{
    let d = u64_text(n);
    let c = text::chars_of(d.as_str());
    let mut out = String::new();
    let mut i: usize = c.len();
    while i < width
        invariant
            c@.len() <= i <= width || i == c@.len(),
            out@ == Seq::new((i - c@.len()) as nat, |j: int| '0'),
        decreases width - i,
    {
        out.push('0');
        i += 1;
        assert(out@ =~= Seq::new((i - c@.len()) as nat, |j: int| '0'));
    }
    out.append(d.as_str());
    assert(out@ =~= padded(n as nat, width as nat));
    out
}

/// The value of a run of decimal digits.
pub open spec fn digits_value(s: Seq<char>) -> nat
    decreases s.len(),
{
    if s.len() == 0 {
        0
    } else {
        digits_value(s.drop_last()) * 10 + ((s.last() as u32 - 0x30) as nat)
    }
}

pub open spec fn all_digits(s: Seq<char>) -> bool {
    forall|i: int| 0 <= i < s.len() ==> text::is_digit(#[trigger] s[i])
}

/// A text without one leading plus sign.
pub open spec fn without_plus(s: Seq<char>) -> Seq<char> {
    if s.len() > 0 && s[0] == '+' {
        s.subrange(1, s.len() as int)
    } else {
        s
    }
}

/// The unsigned number that a text spells: digits with at most one plus sign before them, and a
/// value no greater than `max`.
pub open spec fn parsed(s: Seq<char>, max: nat) -> Option<nat> {
    let d = without_plus(s);
    if d.len() > 0 && all_digits(d) && digits_value(d) <= max {
        Some(digits_value(d))
    } else {
        None
    }
}

pub proof fn digits_value_grows(s: Seq<char>, i: int)
    requires
        0 <= i <= s.len(),
        all_digits(s),
    ensures
        digits_value(s.take(i)) <= digits_value(s),
    decreases s.len() - i,
{
    if i == s.len() {
        assert(s.take(i) == s);
    } else {
        digits_value_grows(s, i + 1);
        assert(s.take(i + 1).drop_last() == s.take(i));
        assert(text::is_digit(s[i]));
    }
}

/// The unsigned number that a text spells, up to `max`.
pub fn parse_up_to(c: &[char], max: u64) -> (r: Option<u64>)
    ensures
        r is Some == parsed(c@, max as nat) is Some,
        r matches Some(n) ==> parsed(c@, max as nat) == Some(n as nat),
{
    let start: usize = if c.len() > 0 && c[0] == '+' {
        1
    } else {
        0
    };
    let ghost d = without_plus(c@);
    assert(d =~= c@.subrange(start as int, c@.len() as int));
    if start == c.len() {
        return None;
    }
    let mut value: u64 = 0;
    let mut i: usize = start;
    assert(d.take(0) =~= Seq::empty());
    while i < c.len()
        invariant
            start <= i <= c@.len(),
            d == c@.subrange(start as int, c@.len() as int),
            d == without_plus(c@),
            all_digits(d.take(i - start)),
            value == digits_value(d.take(i - start)),
            value <= max,
        decreases c@.len() - i,
    {
        let ch = c[i];
        assert(d[i - start] == ch);
        if !text::char_is_digit(ch) {
            assert(!all_digits(d)) by {
                assert(!text::is_digit(d[i - start]));
            }
            return None;
        }
        let digit: u64 = (ch as u32 - 0x30) as u64;
        assert(d.take(i - start + 1).drop_last() == d.take(i - start));
        assert(d.take(i - start + 1).last() == ch);
        let next: u128 = (value as u128) * 10 + (digit as u128);
        assert(next == digits_value(d.take(i - start + 1)));
        if next > max as u128 {
            proof {
                if all_digits(d) {
                    digits_value_grows(d, i - start + 1);
                }
            }
            return None;
        }
        assert(all_digits(d.take(i - start + 1))) by {
            assert forall|j: int| 0 <= j < d.take(i - start + 1).len() implies text::is_digit(
                #[trigger] d.take(i - start + 1)[j],
            ) by {
                if j < i - start {
                    assert(d.take(i - start)[j] == d.take(i - start + 1)[j]);
                }
            }
        }
        value = next as u64;
        i += 1;
    }
    assert(d.take(i - start) == d);
    Some(value)
}

pub fn parse_u64(s: &str, max: u64) -> (r: Option<u64>)
    ensures
        r is Some == parsed(s@, max as nat) is Some,
        r matches Some(n) ==> parsed(s@, max as nat) == Some(n as nat),
{
    let c = text::chars_of(s);
    parse_up_to(&c, max)
}

// ---------------------------------------------------------------------------------------------
// Why a text spells no number
// ---------------------------------------------------------------------------------------------
/// The value of a hexadecimal digit.
pub open spec fn hex_value(c: char) -> Option<nat> {
    if '0' <= c && c <= '9' {
        Some((c as u32 - 0x30) as nat)
    } else if 'a' <= c && c <= 'f' {
        Some((c as u32 - 0x61 + 10) as nat)
    } else if 'A' <= c && c <= 'F' {
        Some((c as u32 - 0x41 + 10) as nat)
    } else {
        None
    }
}

pub fn hex_digit(c: char) -> (r: Option<u8>)
    ensures
        r is Some == hex_value(c) is Some,
        r matches Some(d) ==> d < 16 && hex_value(c) == Some(d as nat),
{
    let u: u32 = c as u32;
    if '0' <= c && c <= '9' {
        Some((u - 0x30) as u8)
    } else if 'a' <= c && c <= 'f' {
        Some((u - 0x61 + 10) as u8)
    } else if 'A' <= c && c <= 'F' {
        Some((u - 0x41 + 10) as u8)
    } else {
        None
    }
}

/// The first thing wrong with digits from the `at`-th on, behind digits of the value `value`: a
/// character that is no digit, or a digit that takes the value over `max`.
pub open spec fn digits_fault(s: Seq<char>, base: nat, max: nat, at: int, value: nat) -> Seq<char>
    decreases s.len() - at,
{
    if at < 0 || at >= s.len() {
        "invalid digit found in string"@
    } else {
        match hex_value(s[at]) {
            Some(d) => if d >= base {
                "invalid digit found in string"@
            } else if value * base + d > max {
                "number too large to fit in target type"@
            } else {
                digits_fault(s, base, max, at + 1, value * base + d)
            },
            None => "invalid digit found in string"@,
        }
    }
}

/// Why a text spells no unsigned number up to `max`, in the words of `ParseIntError`.
pub open spec fn fault(s: Seq<char>, base: nat, max: nat) -> Seq<char> {
    if s.len() == 0 {
        "cannot parse integer from empty string"@
    } else {
        digits_fault(without_plus(s), base, max, 0, 0)
    }
}

pub fn fault_in(c: &[char], base: u64, max: u64) -> (r: String)
    requires
        base == 10 || base == 16,
    ensures
        r@ == fault(c@, base as nat, max as nat),
{
    if c.len() == 0 {
        return text::copy_text("cannot parse integer from empty string");
    }
    let start: usize = if c[0] == '+' {
        1
    } else {
        0
    };
    let ghost d = without_plus(c@);
    assert(d =~= c@.subrange(start as int, c@.len() as int));
    let mut value: u64 = 0;
    let mut i: usize = start;
    while i < c.len()
        invariant
            start <= i <= c@.len(),
            c@.len() > 0,
            base == 10 || base == 16,
            d == c@.subrange(start as int, c@.len() as int),
            d == without_plus(c@),
            digits_fault(d, base as nat, max as nat, i - start, value as nat) == digits_fault(
                d,
                base as nat,
                max as nat,
                0,
                0,
            ),
        decreases c@.len() - i,
    {
        assert(d[i - start] == c@[i as int]);
        match hex_digit(c[i]) {
            None => {
                return text::copy_text("invalid digit found in string");
            },
            Some(digit) => {
                if digit as u64 >= base {
                    return text::copy_text("invalid digit found in string");
                }
                let scaled: u128 = if base == 16 {
                    (value as u128) * 16
                } else {
                    (value as u128) * 10
                };
                assert(scaled == value * base);
                let next: u128 = scaled + (digit as u128);
                if next > max as u128 {
                    return text::copy_text("number too large to fit in target type");
                }
                value = next as u64;
            },
        }
        i += 1;
    }
    text::copy_text("invalid digit found in string")
}

pub fn fault_text(s: &str, base: u64, max: u64) -> (r: String)
    requires
        base == 10 || base == 16,
    ensures
        r@ == fault(s@, base as nat, max as nat),
{
    let c = text::chars_of(s);
    fault_in(&c, base, max)
}

/// Reading back the digits of a number gives the number.
pub proof fn parsed_decimal(n: nat, max: nat)
    requires
        n <= max,
    ensures
        parsed(decimal(n), max) == Some(n),
{
    decimal_digits(n);
    assert(without_plus(decimal(n)) == decimal(n)) by {
        assert(text::is_digit(decimal(n)[0]));
    }
}

pub proof fn decimal_digits(n: nat)
    ensures
        decimal(n).len() > 0,
        all_digits(decimal(n)),
        digits_value(decimal(n)) == n,
    decreases n,
{
    if n < 10 {
        let d = decimal(n);
        assert(d.drop_last() =~= Seq::empty());
        assert(digits_value(d.drop_last()) == 0);
        assert(d.last() == digit_char(n as int));
    } else {
        decimal_digits(n / 10);
        let d = decimal(n);
        assert(d.drop_last() =~= decimal(n / 10));
        assert forall|i: int| 0 <= i < d.len() implies text::is_digit(#[trigger] d[i]) by {
            if i < d.len() - 1 {
                assert(decimal(n / 10)[i] == d[i]);
            }
        }
    }
}

/// The character of a hexadecimal digit; `upper` chooses the letters' case.
pub open spec fn hex_char(d: int, upper: bool) -> char {
    if d < 10 {
        digit_char(d)
    } else if upper {
        (0x41 + d - 10) as char
    } else {
        (0x61 + d - 10) as char
    }
}

/// Two hexadecimal digits for each byte.
pub open spec fn hex(b: Seq<u8>, upper: bool) -> Seq<char>
    decreases b.len(),
{
    if b.len() == 0 {
        Seq::empty()
    } else {
        hex(b.drop_last(), upper).push(hex_char(b.last() as int / 16, upper)).push(
            hex_char(b.last() as int % 16, upper),
        )
    }
}

pub fn char_of_hex(d: u8, upper: bool) -> (c: char)
    requires
        d < 16,
    ensures
        c == hex_char(d as int, upper),
{
    if d < 10 {
        char_of_digit(d)
    } else if upper {
        (0x41 + (d - 10)) as char
    } else {
        (0x61 + (d - 10)) as char
    }
}

pub fn hex_text(b: &[u8], upper: bool) -> (r: String)
    ensures
        r@ == hex(b@, upper),
{
    let mut out = String::new();
    let mut i: usize = 0;
    while i < b.len()
        invariant
            i <= b@.len(),
            out@ == hex(b@.take(i as int), upper),
        decreases b@.len() - i,
    {
        assert(b@.take(i + 1).drop_last() == b@.take(i as int));
        out.push(char_of_hex(b[i] / 16, upper));
        out.push(char_of_hex(b[i] % 16, upper));
        i += 1;
    }
    assert(b@.take(b@.len() as int) == b@);
    out
}

/// The hexadecimal text of bytes determines the bytes.
pub proof fn hex_injective(a: Seq<u8>, b: Seq<u8>, upper: bool)
    requires
        hex(a, upper) == hex(b, upper),
    ensures
        a == b,
    decreases a.len(),
{
    hex_len(a, upper);
    hex_len(b, upper);
    if a.len() > 0 {
        let x = hex(a, upper);
        let y = hex(b, upper);
        assert(x.drop_last().drop_last() =~= hex(a.drop_last(), upper));
        assert(y.drop_last().drop_last() =~= hex(b.drop_last(), upper));
        hex_injective(a.drop_last(), b.drop_last(), upper);
        assert(x[x.len() - 1] == hex_char(a.last() as int % 16, upper));
        assert(y[y.len() - 1] == hex_char(b.last() as int % 16, upper));
        assert(x[x.len() - 2] == hex_char(a.last() as int / 16, upper));
        assert(y[y.len() - 2] == hex_char(b.last() as int / 16, upper));
        hex_char_injective(a.last() as int % 16, b.last() as int % 16, upper);
        hex_char_injective(a.last() as int / 16, b.last() as int / 16, upper);
        assert(a.last() == b.last());
        assert(a =~= a.drop_last().push(a.last()));
        assert(b =~= b.drop_last().push(b.last()));
    } else {
        assert(a =~= b);
    }
}

pub proof fn hex_len(a: Seq<u8>, upper: bool)
    ensures
        hex(a, upper).len() == 2 * a.len(),
    decreases a.len(),
{
    if a.len() > 0 {
        hex_len(a.drop_last(), upper);
    }
}

pub proof fn hex_char_injective(a: int, b: int, upper: bool)
    requires
        0 <= a < 16,
        0 <= b < 16,
        hex_char(a, upper) == hex_char(b, upper),
    ensures
        a == b,
{
}

} // verus!
