//! The written forms of a binary64 value's fields.

use vstd::prelude::*;
use vstd::string::*;
use crate::ieee::{Fields, ValueForm, FRACTION_SPAN, MIN_EXPONENT};
use crate::text::{
    decimal_of, decimal_text, digits_of, padded_digits, push_digits, push_padded_digits,
};
use crate::value::Binary64;

verus! {

/// Decimal places in the written form of a significand.
pub const PLACES: usize = 12;

/// `10^12`: the weight of the integer part where twelve decimal places
/// follow.
pub const PLACE_SPAN: u64 = 1_000_000_000_000;

/// The raised form of a character of a decimal integer: of a digit or of
/// the minus sign; any other character is left as it is.
pub open spec fn superscript_of(c: char) -> char {
    if c == '-' {
        '\u{207b}'
    } else if c == '1' {
        '\u{b9}'
    } else if c == '2' {
        '\u{b2}'
    } else if c == '3' {
        '\u{b3}'
    } else if '0' <= c <= '9' {
        (0x2070 + (c as int - 48)) as char
    } else {
        c
    }
}

/// The decimal text of `n` in raised characters.
pub open spec fn superscript_text_of(n: int) -> Seq<char> {
    decimal_of(n).map_values(|c: char| superscript_of(c))
}

/// `a / d` rounded to the nearest integer, and of two equally near ones to
/// the even one.
pub open spec fn nearest_even_quotient(a: nat, d: nat) -> nat {
    let q = a / d;
    let r = a % d;
    if 2 * r > d || (2 * r == d && q % 2 == 1) {
        q + 1
    } else {
        q
    }
}

/// The number `units / 2^52` written with twelve decimal places, the last
/// one rounded to nearest, ties to even.
pub open spec fn fixed_12_of(units: nat) -> Seq<char> {
    let scaled = nearest_even_quotient(units * PLACE_SPAN as nat, FRACTION_SPAN as nat);
    digits_of(scaled / PLACE_SPAN as nat, 10) + seq!['.'] + padded_digits(
        scaled % PLACE_SPAN as nat,
        10,
        12,
    )
}

/// The expression that a value form stands for, its exponents raised and
/// its fraction written with twelve decimal places.
pub open spec fn value_form_text_of(form: ValueForm) -> Seq<char> {
    match form {
        ValueForm::Normal { sign, fraction, exponent } => "(-1)"@ + superscript_text_of(
            sign as int,
        ) + " \u{d7} (1 + "@ + fixed_12_of(fraction as nat) + ") \u{d7} 2"@
            + superscript_text_of(exponent as int),
        ValueForm::Subnormal { sign, fraction } => "(-1)"@ + superscript_text_of(sign as int)
            + " \u{d7} (0 + "@ + fixed_12_of(fraction as nat) + ") \u{d7} 2"@
            + superscript_text_of(MIN_EXPONENT as int),
        ValueForm::Zero { sign } => "(-1)"@ + superscript_text_of(sign as int) + " \u{d7} 0"@,
        ValueForm::Infinity { sign } => "(-1)"@ + superscript_text_of(sign as int)
            + " \u{d7} Infinity"@,
        ValueForm::NaN => "NaN"@,
    }
}

/// Executable form of [`superscript_of`].
pub fn superscript(c: char) -> (raised: char)
    ensures
        raised == superscript_of(c),
{
    if c == '-' {
        '\u{207b}'
    } else if c == '0' {
        '\u{2070}'
    } else if c == '1' {
        '\u{b9}'
    } else if c == '2' {
        '\u{b2}'
    } else if c == '3' {
        '\u{b3}'
    } else if c == '4' {
        '\u{2074}'
    } else if c == '5' {
        '\u{2075}'
    } else if c == '6' {
        '\u{2076}'
    } else if c == '7' {
        '\u{2077}'
    } else if c == '8' {
        '\u{2078}'
    } else if c == '9' {
        '\u{2079}'
    } else {
        c
    }
}

/// Appends the decimal text of `n` in raised characters to `out`.
pub fn push_superscript(out: &mut String, n: i64)
    ensures
        final(out)@ == old(out)@ + superscript_text_of(n as int),
{
    let plain = decimal_text(n);
    let count: usize = plain.as_str().unicode_len();
    let ghost raised = superscript_text_of(n as int);
    let mut i: usize = 0;
    assert(out@ =~= old(out)@ + raised.take(0));
    while i < count
        invariant
            i <= count,
            count == plain@.len(),
            plain@ == decimal_of(n as int),
            raised == superscript_text_of(n as int),
            out@ == old(out)@ + raised.take(i as int),
        decreases count - i,
    {
        let c = plain.as_str().get_char(i);
        assert(raised.take(i + 1) =~= raised.take(i as int).push(superscript_of(c)));
        out.push(superscript(c));
        i = i + 1;
    }
    assert(raised.take(count as int) =~= raised);
}

/// Appends `units / 2^52`, written with twelve decimal places, to `out`.
pub fn push_fixed_12(out: &mut String, units: u64)
    ensures
        final(out)@ == old(out)@ + fixed_12_of(units as nat),
{
    let span: u128 = FRACTION_SPAN as u128;
    let product: u128 = (units as u128) * (PLACE_SPAN as u128);
    let q: u128 = product / span;
    let r: u128 = product % span;
    assert(q <= 0x1000 * 1_000_000_000_000) by {
        assert(product <= 0xffff_ffff_ffff_ffff * 1_000_000_000_000);
    }
    let scaled: u128 = if 2 * r > span || (2 * r == span && q % 2 == 1) {
        q + 1
    } else {
        q
    };
    assert(scaled == nearest_even_quotient(units as nat * PLACE_SPAN as nat, FRACTION_SPAN as nat));
    let whole: u64 = (scaled / (PLACE_SPAN as u128)) as u64;
    let part: u64 = (scaled % (PLACE_SPAN as u128)) as u64;
    let ghost before = out@;
    push_digits(out, whole, 10);
    out.push('.');
    push_padded_digits(out, part, 10, PLACES);
    assert(out@ =~= before + fixed_12_of(units as nat));
}

/// Writes `units / 2^52` with twelve decimal places.
pub fn fixed_12(units: u64) -> (out: String)
    ensures
        out@ == fixed_12_of(units as nat),
{
    let mut out = String::new();
    push_fixed_12(&mut out, units);
    assert(out@ =~= fixed_12_of(units as nat));
    out
}

/// Writes the expression that a value form stands for.
pub fn value_form_text(form: ValueForm) -> (out: String)
    ensures
        out@ == value_form_text_of(form),
{
    let mut out = String::new();
    match form {
        ValueForm::Normal { sign, fraction, exponent } => {
            out.append("(-1)");
            push_superscript(&mut out, sign as i64);
            out.append(" \u{d7} (1 + ");
            push_fixed_12(&mut out, fraction);
            out.append(") \u{d7} 2");
            push_superscript(&mut out, exponent as i64);
        },
        ValueForm::Subnormal { sign, fraction } => {
            out.append("(-1)");
            push_superscript(&mut out, sign as i64);
            out.append(" \u{d7} (0 + ");
            push_fixed_12(&mut out, fraction);
            out.append(") \u{d7} 2");
            push_superscript(&mut out, MIN_EXPONENT as i64);
        },
        ValueForm::Zero { sign } => {
            out.append("(-1)");
            push_superscript(&mut out, sign as i64);
            out.append(" \u{d7} 0");
        },
        ValueForm::Infinity { sign } => {
            out.append("(-1)");
            push_superscript(&mut out, sign as i64);
            out.append(" \u{d7} Infinity");
        },
        ValueForm::NaN => {
            out.append("NaN");
        },
    }
    assert(out@ =~= value_form_text_of(form));
    out
}

/// The 64 bits of the value as sixteen hexadecimal digits.
pub fn raw_hex(value: Binary64) -> (out: String)
    ensures
        out@ == padded_digits(value.bits as nat, 16, 16),
{
    let mut out = String::new();
    push_padded_digits(&mut out, value.bits, 16, 16);
    assert(out@ =~= padded_digits(value.bits as nat, 16, 16));
    out
}

/// The fraction field as thirteen hexadecimal digits.
pub fn fraction_hex(fields: Fields) -> (out: String)
    ensures
        out@ == padded_digits(fields.fraction as nat, 16, 13),
{
    let mut out = String::new();
    push_padded_digits(&mut out, fields.fraction, 16, 13);
    assert(out@ =~= padded_digits(fields.fraction as nat, 16, 13));
    out
}

/// The sign as a character: `-` where the sign bit is 1, `+` where it is 0.
pub fn sign_symbol(fields: Fields) -> (symbol: char)
    ensures
        symbol == if fields.sign == 0 {
            '+'
        } else {
            '-'
        },
{
    if fields.sign == 0 {
        '+'
    } else {
        '-'
    }
}

} // verus!
