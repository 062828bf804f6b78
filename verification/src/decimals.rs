//! Decimal numbers, held as the sixteen bytes that `rust_decimal` serializes them to.
use crate::num;
use crate::order;
use crate::order::Sense;
use rust_decimal::{Decimal, RoundingStrategy};
use std::cmp::Ordering;
use vstd::prelude::*;

verus! {

/// The digits of a decimal number, without point and sign.
pub open spec fn mantissa(d: u128) -> nat {
    (d / 0x1_0000_0000) as nat
}

/// How many of the digits stand behind the point.
pub open spec fn scale(d: u128) -> nat {
    (d / 0x1_0000 % 256) as nat
}

pub open spec fn negative(d: u128) -> bool {
    d / 0x8000_0000 % 2 == 1
}

/// Whether a number is the serialized form of a decimal: a scale up to 28, a sign, and no other
/// flag.
pub open spec fn valid(d: u128) -> bool {
    d % 0x1_0000 == 0 && scale(d) <= 28 && d / 0x100_0000 % 128 == 0
}

pub open spec fn pow10(n: nat) -> nat
    decreases n,
{
    if n == 0 {
        1
    } else {
        10 * pow10((n - 1) as nat)
    }
}

pub open spec fn signed_mantissa(d: u128) -> int {
    if negative(d) {
        -(mantissa(d) as int)
    } else {
        mantissa(d) as int
    }
}

/// The serialized form of a sign, digits and a scale.
pub open spec fn assembled(minus: bool, digits: nat, places: nat) -> u128 {
    (digits * 0x1_0000_0000 + (if minus {
        0x8000_0000
    } else {
        0int
    }) + places * 0x1_0000) as u128
}

/// A number rounded to a number of places, midpoints away from zero; a nonzero number that rounds
/// to zero loses its sign.
pub open spec fn round_half_up(d: u128, places: u32) -> u128 {
    if scale(d) <= places {
        d
    } else {
        let unit = pow10((scale(d) - places) as nat);
        let digits = (2 * mantissa(d) + unit) / (2 * unit);
        assembled(negative(d) && (mantissa(d) == 0 || digits != 0), digits, places as nat)
    }
}

/// Digits and scale without zeros at the end of the fraction.
pub open spec fn stripped(digits: nat, places: nat) -> (nat, nat)
    decreases places,
{
    if places > 0 && digits % 10 == 0 {
        stripped(digits / 10, (places - 1) as nat)
    } else {
        (digits, places)
    }
}

/// A number without zeros at the end of its fraction; zero is plain zero.
pub open spec fn normal(d: u128) -> u128 {
    if mantissa(d) == 0 {
        0
    } else {
        assembled(
            negative(d),
            stripped(mantissa(d), scale(d)).0,
            stripped(mantissa(d), scale(d)).1,
        )
    }
}

/// How two decimal numbers compare by value.
pub open spec fn sense(a: u128, b: u128) -> Sense {
    order::sense_of(signed_mantissa(a) * pow10(scale(b)), signed_mantissa(b) * pow10(scale(a)))
}

/// A sign and digits in plain notation, the last `places` of them behind the point.
pub open spec fn notation(minus: bool, digits: nat, places: nat) -> Seq<char> {
    let shown = num::padded(digits, places + 1);
    let whole = shown.len() - places;
    let unsigned = if places == 0 {
        shown
    } else {
        shown.take(whole) + seq!['.'] + shown.skip(whole)
    };
    if minus {
        seq!['-'] + unsigned
    } else {
        unsigned
    }
}

/// A decimal number in plain notation, with all the digits of its scale.
pub open spec fn plain(d: u128) -> Seq<char> {
    notation(negative(d), mantissa(d), scale(d))
}

/// The most places that the text of a number can have.
pub const MAX_TEXT_PLACES: u32 = 30;

/// Digits with zeros put behind them until they have the places asked for, or until one more zero
/// would take them out of 96 bits: the digits and their places.
pub open spec fn widened(digits: nat, places: nat, target: nat) -> (nat, nat)
    decreases target - places,
{
    if places < target && digits * 10 < 0x1_0000_0000_0000_0000_0000_0000 {
        widened(digits * 10, places + 1, target)
    } else {
        (digits, places)
    }
}

/// Digits and places of a number brought to more places. Zero has at most 28.
pub open spec fn extended(d: u128, places: u32) -> (nat, nat) {
    if mantissa(d) == 0 {
        (
            0,
            if places < 28 {
                places as nat
            } else {
                28
            },
        )
    } else {
        widened(mantissa(d), scale(d), places as nat)
    }
}

/// A number brought to more places, in plain notation.
pub open spec fn extended_text(d: u128, places: u32) -> Seq<char> {
    notation(negative(d), extended(d, places).0, extended(d, places).1)
}

/// The decimal number that a text spells, as `Decimal::from_str` reads it, or the text of its error.
pub uninterp spec fn parsed_decimal(s: Seq<char>) -> Result<u128, Seq<char>>;

/// What `Decimal::checked_add` returns.
pub uninterp spec fn decimal_sum(a: u128, b: u128) -> Option<u128>;

/// What `Decimal::checked_sub` returns.
pub uninterp spec fn decimal_difference(a: u128, b: u128) -> Option<u128>;

/// What `Decimal::checked_mul` returns.
pub uninterp spec fn decimal_product(a: u128, b: u128) -> Option<u128>;

/// What `Decimal::checked_div` returns.
pub uninterp spec fn decimal_quotient(a: u128, b: u128) -> Option<u128>;

/// `Decimal::from_str`: the number that a text spells, or why it spells none.
#[verifier::external_body]
pub(crate) fn parse_decimal(s: &str) -> (r: Result<u128, String>)
    ensures
        match r {
            Ok(d) => parsed_decimal(s@) == Ok::<u128, Seq<char>>(d) && valid(d),
            Err(e) => parsed_decimal(s@) == Err::<u128, Seq<char>>(e@),
        },
{
    match s.parse::<Decimal>() {
        Ok(d) => Ok(u128::from_le_bytes(d.serialize())),
        Err(e) => Err(e.to_string()),
    }
}

/// `Decimal::checked_add`: the sum, or nothing where it is out of range.
#[verifier::external_body]
pub(crate) fn sum(a: u128, b: u128) -> (r: Option<u128>)
    requires
        valid(a),
        valid(b),
    ensures
        r == decimal_sum(a, b),
        r matches Some(d) ==> valid(d),
{
    let x = Decimal::deserialize(a.to_le_bytes());
    let y = Decimal::deserialize(b.to_le_bytes());
    x.checked_add(y).map(|d| u128::from_le_bytes(d.serialize()))
}

/// `Decimal::checked_sub`: the difference, or nothing where it is out of range.
#[verifier::external_body]
pub(crate) fn difference(a: u128, b: u128) -> (r: Option<u128>)
    requires
        valid(a),
        valid(b),
    ensures
        r == decimal_difference(a, b),
        r matches Some(d) ==> valid(d),
{
    let x = Decimal::deserialize(a.to_le_bytes());
    let y = Decimal::deserialize(b.to_le_bytes());
    x.checked_sub(y).map(|d| u128::from_le_bytes(d.serialize()))
}

/// `Decimal::checked_mul`: the product, or nothing where it is out of range.
#[verifier::external_body]
pub(crate) fn product(a: u128, b: u128) -> (r: Option<u128>)
    requires
        valid(a),
        valid(b),
    ensures
        r == decimal_product(a, b),
        r matches Some(d) ==> valid(d),
{
    let x = Decimal::deserialize(a.to_le_bytes());
    let y = Decimal::deserialize(b.to_le_bytes());
    x.checked_mul(y).map(|d| u128::from_le_bytes(d.serialize()))
}

/// `Decimal::checked_div`: the quotient, or nothing where it is out of range or the divisor is
/// zero.
#[verifier::external_body]
pub(crate) fn quotient(a: u128, b: u128) -> (r: Option<u128>)
    requires
        valid(a),
        valid(b),
    ensures
        r == decimal_quotient(a, b),
        r matches Some(d) ==> valid(d),
{
    let x = Decimal::deserialize(a.to_le_bytes());
    let y = Decimal::deserialize(b.to_le_bytes());
    x.checked_div(y).map(|d| u128::from_le_bytes(d.serialize()))
}

/// `Decimal::rescale` to as many places or more, and `Decimal::to_string` of what it makes: zeros
/// are put behind the digits as long as these stay within 96 bits, and the text shows all of them.
/// A number with more than 28 places has no serialized form, so that only its text comes back; one
/// with more than 30 has no text.
#[verifier::external_body]
pub(crate) fn rescaled_text(d: u128, places: u32) -> (r: String)
    requires
        valid(d),
        scale(d) <= places,
        extended(d, places).1 <= MAX_TEXT_PLACES,
    ensures
        r@ == extended_text(d, places),
{
    let mut x = Decimal::deserialize(d.to_le_bytes());
    x.rescale(places);
    x.to_string()
}

/// `Decimal::round_dp_with_strategy` with midpoints away from zero: a number with more places
/// than asked for keeps that many, its digits rounded half up; the sign goes only where a nonzero
/// number is rounded to zero.
#[verifier::external_body]
pub(crate) fn rounded(d: u128, places: u32) -> (r: u128)
    requires
        valid(d),
    ensures
        valid(r),
        r == round_half_up(d, places),
{
    let x = Decimal::deserialize(d.to_le_bytes());
    let y = x.round_dp_with_strategy(places, RoundingStrategy::MidpointAwayFromZero);
    u128::from_le_bytes(y.serialize())
}

/// `Decimal::normalize`: the same number without zeros at the end of its fraction; zero is plain
/// zero.
#[verifier::external_body]
pub(crate) fn normalized(d: u128) -> (r: u128)
    requires
        valid(d),
    ensures
        valid(r),
        r == normal(d),
{
    let x = Decimal::deserialize(d.to_le_bytes());
    u128::from_le_bytes(x.normalize().serialize())
}

/// `Decimal::to_string`: plain notation.
#[verifier::external_body]
pub(crate) fn decimal_text(d: u128) -> (r: String)
    requires
        valid(d),
    ensures
        r@ == plain(d),
{
    Decimal::deserialize(d.to_le_bytes()).to_string()
}

/// `Decimal::cmp`: the order of the values.
#[verifier::external_body]
pub(crate) fn sense_decimals(a: u128, b: u128) -> (r: Sense)
    requires
        valid(a),
        valid(b),
    ensures
        r == sense(a, b),
{
    let x = Decimal::deserialize(a.to_le_bytes());
    let y = Decimal::deserialize(b.to_le_bytes());
    match x.cmp(&y) {
        Ordering::Less => Sense::Less,
        Ordering::Equal => Sense::Equal,
        Ordering::Greater => Sense::Greater,
    }
}

proof fn pow10_positive(n: nat)
    ensures
        pow10(n) >= 1,
    decreases n,
{
    if n > 0 {
        pow10_positive((n - 1) as nat);
    }
}

proof fn rounding_shrinks(m: int, unit: int)
    requires
        0 <= m,
        1 <= unit,
    ensures
        0 <= (2 * m + unit) / (2 * unit) <= m,
{
    let digits = (2 * m + unit) / (2 * unit);
    vstd::arithmetic::div_mod::lemma_fundamental_div_mod(2 * m + unit, 2 * unit);
    vstd::arithmetic::div_mod::lemma_div_pos_is_pos(2 * m + unit, 2 * unit);
    let rest = (2 * m + unit) % (2 * unit);
    assert(digits <= m) by (nonlinear_arith)
        requires
            2 * m + unit == 2 * unit * digits + rest,
            rest >= 0,
            unit >= 1,
            m >= 0,
    {
        if digits >= m + 1 {
            assert(2 * unit * digits >= 2 * unit * (m + 1));
            assert(unit * m >= m);
        }
    }
}

proof fn assembled_scale(minus: bool, digits: int, places: int)
    requires
        0 <= digits < 0x1_0000_0000_0000_0000_0000_0000,
        0 <= places < 256,
    ensures
        scale(assembled(minus, digits as nat, places as nat)) == places,
{
    let sign: int = if minus {
        0x8000
    } else {
        0
    };
    let d = assembled(minus, digits as nat, places as nat);
    let high: int = digits * 0x100 + sign / 0x100;
    assert(d == (high * 0x100 + places) * 0x1_0000);
    assert(d / 0x1_0000 == high * 0x100 + places);
    assert((high * 0x100 + places) % 256 == places);
}

/// A rounded number has no more places than it was rounded to.
pub proof fn rounding_keeps_places(d: u128, places: u32)
    ensures
        scale(round_half_up(d, places)) <= places,
{
    if scale(d) > places {
        let unit = pow10((scale(d) - places) as nat);
        pow10_positive((scale(d) - places) as nat);
        let m = mantissa(d);
        let digits = (2 * m + unit) / (2 * unit);
        rounding_shrinks(m as int, unit as int);
        assert(m < 0x1_0000_0000_0000_0000_0000_0000);
        assembled_scale(negative(d) && (m == 0 || digits != 0), digits as int, places as int);
    }
}

/// How many places a number has once it was brought to more.
pub fn extended_places(d: u128, places: u32) -> (r: u32)
    requires
        valid(d),
        scale(d) <= places,
    ensures
        r == extended(d, places).1,
{
    let mut digits: u128 = d / 0x1_0000_0000;
    if digits == 0 {
        return if places < 28 {
            places
        } else {
            28
        };
    }
    let mut reached: u32 = (d / 0x1_0000 % 256) as u32;
    while reached < places && digits * 10 < 0x1_0000_0000_0000_0000_0000_0000
        invariant
            reached <= places,
            digits < 0x1_0000_0000_0000_0000_0000_0000,
            mantissa(d) != 0,
            widened(digits as nat, reached as nat, places as nat) == widened(
                mantissa(d),
                scale(d),
                places as nat,
            ),
        decreases places - reached,
    {
        digits = digits * 10;
        reached += 1;
    }
    reached
}

pub fn is_zero(d: u128) -> (r: bool)
    ensures
        r == (mantissa(d) == 0),
{
    d / 0x1_0000_0000 == 0
}

} // verus!
