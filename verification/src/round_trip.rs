//! Reading a literal and writing its value are inverse to each other.

use vstd::prelude::*;
use crate::literal::{
    digit_value, digits_value, fold_case, integer_literal, is_float_shaped, lemma_digit_run_is,
    parse_of, radix_prefix, spells, without_separators,
};
use crate::text::{decimal_of, digit_char, digits_of, twos_complement};
use crate::value::{DomainValue, ParseError};

verus! {

/// Whether `s` is made of digits of the radix as [`digit_char`] writes them:
/// no letter in upper case, no sign.
pub open spec fn is_plain_digits(s: Seq<char>, radix: int) -> bool {
    forall|i: int|
        0 <= i < s.len() ==> (#[trigger] digit_value(s[i], radix) matches Some(d) && s[i]
            == digit_char(d))
}

/// `s` without the zeros at its start, but for the last character.
pub open spec fn without_leading_zeros(s: Seq<char>) -> Seq<char>
    decreases s.len(),
{
    if s.len() > 1 && s[0] == '0' {
        without_leading_zeros(s.drop_first())
    } else {
        s
    }
}

/// Digits that denote zero are all `0`; digits that denote more hold another
/// digit.
proof fn lemma_zero_value(s: Seq<char>, radix: int)
    requires
        2 <= radix <= 16,
        is_plain_digits(s, radix),
    ensures
        digits_value(s, radix) >= 0,
        digits_value(s, radix) == 0 <==> forall|i: int| 0 <= i < s.len() ==> s[i] == '0',
    decreases s.len(),
{
    if s.len() > 0 {
        let t = s.drop_last();
        assert forall|i: int| 0 <= i < t.len() implies (#[trigger] digit_value(t[i], radix)
            matches Some(d) && t[i] == digit_char(d)) by {
            assert(t[i] == s[i]);
        }
        lemma_zero_value(t, radix);
        let d = digit_value(s.last(), radix).unwrap();
        assert(digit_value(s[s.len() - 1], radix) is Some);
        let v = digits_value(t, radix);
        assert(v * radix >= 0 && (v > 0 ==> v * radix > 0) && (v == 0 ==> v * radix == 0))
            by (nonlinear_arith)
            requires
                v >= 0,
                radix >= 2,
        ;
        assert(digits_value(s, radix) == v * radix + d);
        assert(s.last() == digit_char(d));
        assert(d == 0 <==> s.last() == '0');
        assert(digits_value(s, radix) == 0 <==> (v == 0 && d == 0));
        if digits_value(s, radix) == 0 {
            assert forall|i: int| 0 <= i < s.len() implies s[i] == '0' by {
                if i < t.len() {
                    assert(t[i] == s[i]);
                }
            }
        }
        if forall|i: int| 0 <= i < s.len() ==> s[i] == '0' {
            assert forall|i: int| 0 <= i < t.len() implies t[i] == '0' by {
                assert(t[i] == s[i]);
            }
            assert(s.last() == '0');
        }
    }
}

/// After nothing but zeros, one more character is all that is left.
proof fn lemma_zeros_then_one(t: Seq<char>, c: char)
    requires
        forall|i: int| 0 <= i < t.len() ==> t[i] == '0',
    ensures
        without_leading_zeros(t.push(c)) == seq![c],
    decreases t.len(),
{
    if t.len() == 0 {
        assert(t.push(c) =~= seq![c]);
    } else {
        assert(t.push(c)[0] == t[0]);
        assert(t.push(c).drop_first() =~= t.drop_first().push(c));
        assert forall|i: int| 0 <= i < t.drop_first().len() implies t.drop_first()[i] == '0' by {
            assert(t.drop_first()[i] == t[i + 1]);
        }
        lemma_zeros_then_one(t.drop_first(), c);
    }
}

/// After a digit other than zero, one more character only adds itself.
proof fn lemma_nonzero_then_one(t: Seq<char>, c: char, at: int)
    requires
        0 <= at < t.len(),
        t[at] != '0',
    ensures
        without_leading_zeros(t.push(c)) == without_leading_zeros(t).push(c),
    decreases t.len(),
{
    assert(t.push(c)[0] == t[0]);
    if t[0] == '0' {
        assert(t.push(c).drop_first() =~= t.drop_first().push(c));
        assert(t.drop_first()[at - 1] == t[at]);
        lemma_nonzero_then_one(t.drop_first(), c, at - 1);
    }
}

/// The digits of the number that plain digits denote are those digits,
/// leading zeros aside.
pub proof fn lemma_digits_of_value(s: Seq<char>, radix: int)
    requires
        2 <= radix <= 16,
        s.len() > 0,
        is_plain_digits(s, radix),
    ensures
        digits_value(s, radix) >= 0,
        digits_of(digits_value(s, radix) as nat, radix as nat) == without_leading_zeros(s),
    decreases s.len(),
{
    let t = s.drop_last();
    let c = s.last();
    assert(digit_value(s[s.len() - 1], radix) is Some);
    let d = digit_value(c, radix).unwrap();
    assert(s =~= t.push(c));
    assert forall|i: int| 0 <= i < t.len() implies (#[trigger] digit_value(t[i], radix) matches Some(
        d,
    ) && t[i] == digit_char(d)) by {
        assert(t[i] == s[i]);
    }
    lemma_zero_value(t, radix);
    let v = digits_value(t, radix);
    assert(digits_value(s, radix) == v * radix + d);
    assert(c == digit_char(d));
    if s.len() == 1 {
        assert(t.len() == 0);
        assert(v == 0);
        assert(s =~= seq![c]);
        assert(digits_of(d as nat, radix as nat) == seq![c]);
        assert(without_leading_zeros(s) == s);
    } else if v == 0 {
        lemma_zeros_then_one(t, c);
        assert(digits_of(d as nat, radix as nat) == seq![c]);
    } else {
        lemma_digits_of_value(t, radix);
        let at = choose|i: int| 0 <= i < t.len() && t[i] != '0';
        lemma_nonzero_then_one(t, c, at);
        assert(v * radix + d >= radix) by (nonlinear_arith)
            requires
                v >= 1,
                radix >= 2,
                d >= 0,
        ;
        vstd::arithmetic::div_mod::lemma_fundamental_div_mod_converse(v * radix + d, radix, v, d);
        let whole = (v * radix + d) as nat;
        assert(whole / radix as nat == v && whole % radix as nat == d);
        assert(digits_of(whole, radix as nat) == digits_of(v as nat, radix as nat).push(c));
    }
}

/// A literal made of plain digits alone denotes the number that writing in
/// the same radix gives back as those digits, leading zeros aside.
pub proof fn lemma_parse_then_render(digits: Seq<char>, radix: int)
    requires
        2 <= radix <= 16,
        digits.len() > 0,
        is_plain_digits(digits, radix),
        integer_literal(digits, radix) is Ok,
    ensures
        integer_literal(digits, radix) matches Ok(n) && n >= 0 && n == digits_value(digits, radix)
            && digits_of(twos_complement(n), radix as nat) == without_leading_zeros(digits),
{
    assert(digit_value(digits[0], radix) is Some);
    lemma_digit_run_is(digits, radix, digits.len() as int);
    assert(digits.take(digits.len() as int) =~= digits);
    lemma_digits_of_value(digits, radix);
}

/// A literal with a radix prefix and plain digits that denotes a value
/// denotes an integer, and that integer written in the radix of the prefix
/// shows the digits of the literal, leading zeros aside. This holds whatever
/// a binary64 conversion of the text gave.
pub proof fn lemma_radix_literal_round_trip(raw: Seq<char>, float_bits: Option<u64>)
    requires
        radix_prefix(without_separators(raw)) is Some,
        is_plain_digits(
            without_separators(raw).skip(2),
            radix_prefix(without_separators(raw)).unwrap() as int,
        ),
        parse_of(raw, float_bits) is Ok,
    ensures
        parse_of(raw, float_bits) matches Ok(DomainValue::Integer(n)) && digits_of(
            twos_complement(n),
            radix_prefix(without_separators(raw)).unwrap() as nat,
        ) == without_leading_zeros(without_separators(raw).skip(2)),
{
    let base = radix_prefix(without_separators(raw)).unwrap();
    let digits = without_separators(raw).skip(2);
    assert(integer_literal(digits, base as int) is Ok);
    assert(digits.len() > 0);
    lemma_parse_then_render(digits, base as int);
}

/// The digits written for a number are plain digits, and they denote it.
pub proof fn lemma_value_of_digits(v: nat, radix: int)
    requires
        2 <= radix <= 16,
    ensures
        digits_of(v, radix as nat).len() > 0,
        is_plain_digits(digits_of(v, radix as nat), radix),
        digits_value(digits_of(v, radix as nat), radix) == v,
    decreases v,
{
    let s = digits_of(v, radix as nat);
    if v < radix {
        let c = digit_char(v as int);
        assert(s =~= seq![c]);
        assert(digit_value(c, radix) == Some(v as int));
        assert(s.drop_last().len() == 0);
        assert(digits_value(s.drop_last(), radix) == 0);
    } else {
        let high = digits_of(v / radix as nat, radix as nat);
        let c = digit_char((v % radix as nat) as int);
        lemma_value_of_digits(v / radix as nat, radix);
        assert(s == high.push(c));
        assert(s.drop_last() =~= high);
        assert(digit_value(c, radix) == Some((v % radix as nat) as int));
        assert forall|i: int| 0 <= i < s.len() implies (#[trigger] digit_value(s[i], radix) matches Some(
            d,
        ) && s[i] == digit_char(d)) by {
            if i < high.len() {
                assert(s[i] == high[i]);
            }
        }
        vstd::arithmetic::div_mod::lemma_fundamental_div_mod(v as int, radix);
        assert((v as int / radix) * radix == radix * (v as int / radix)) by (nonlinear_arith);
    }
}

/// A number is written without leading zeros.
pub proof fn lemma_written_without_leading_zeros(v: nat, radix: int)
    requires
        2 <= radix <= 16,
    ensures
        without_leading_zeros(digits_of(v, radix as nat)) == digits_of(v, radix as nat),
{
    lemma_value_of_digits(v, radix);
    lemma_digits_of_value(digits_of(v, radix as nat), radix);
}

/// An integer that is not negative, written in any radix and read again in
/// that radix, is the same integer.
pub proof fn lemma_render_then_parse(n: i64, radix: int)
    requires
        n >= 0,
        2 <= radix <= 16,
    ensures
        integer_literal(digits_of(n as nat, radix as nat), radix) == Ok::<i64, crate::value::Reason>(
            n,
        ),
{
    let s = digits_of(n as nat, radix as nat);
    lemma_value_of_digits(n as nat, radix);
    assert(digit_value(s[0], radix) is Some);
    lemma_digit_run_is(s, radix, s.len() as int);
    assert(s.take(s.len() as int) =~= s);
}

/// A text without underscores is left as it is.
proof fn lemma_nothing_to_strip(s: Seq<char>)
    requires
        forall|i: int| 0 <= i < s.len() ==> s[i] != '_',
    ensures
        without_separators(s) == s,
    decreases s.len(),
{
    reveal(Seq::filter);
    if s.len() > 0 {
        let t = s.drop_last();
        assert forall|i: int| 0 <= i < t.len() implies t[i] != '_' by {
            assert(t[i] == s[i]);
        }
        lemma_nothing_to_strip(t);
        assert(t.push(s.last()) =~= s);
    }
}

/// The decimal text of any signed 64-bit integer, read as a literal, is
/// that integer, whatever a binary64 conversion of the text would give.
pub proof fn lemma_decimal_round_trip(n: i64, float_bits: Option<u64>)
    ensures
        parse_of(decimal_of(n as int), float_bits) == Ok::<DomainValue, ParseError>(
            DomainValue::Integer(n),
        ),
{
    let s = decimal_of(n as int);
    let size: nat = if n < 0 {
        (-n) as nat
    } else {
        n as nat
    };
    let digits = digits_of(size, 10);
    lemma_value_of_digits(size, 10);
    assert(digit_value(digits[0], 10) is Some);
    lemma_digit_run_is(digits, 10, digits.len() as int);
    assert(digits.take(digits.len() as int) =~= digits);
    if n < 0 {
        assert(s == seq!['-'] + digits);
        assert(s.drop_first() =~= digits);
    }
    // every character is a decimal digit, but for a minus sign in front
    assert forall|i: int| 0 <= i < s.len() implies (s[i] == '-' || '0' <= s[i] <= '9') by {
        if n < 0 {
            if i > 0 {
                assert(s[i] == digits[i - 1]);
                assert(digit_value(digits[i - 1], 10) is Some);
            }
        } else {
            assert(digit_value(digits[i], 10) is Some);
        }
    }
    lemma_nothing_to_strip(s);
    assert(radix_prefix(s) is None) by {
        if s.len() >= 2 {
            assert(s[1] == '-' || '0' <= s[1] <= '9');
        }
    }
    assert(!is_float_shaped(s)) by {
        reveal_strlit("nan");
        reveal_strlit("inf");
        reveal_strlit("infinity");
        let body = if s.len() > 0 && (s[0] == '+' || s[0] == '-') {
            s.drop_first()
        } else {
            s
        };
        assert(digit_value(digits[0], 10) is Some);
        assert(body =~= digits);
        assert('0' <= body[0] <= '9');
        assert(fold_case(body[0]) != "nan"@[0]);
        assert(fold_case(body[0]) != "inf"@[0]);
        assert(fold_case(body[0]) != "infinity"@[0]);
        assert(!spells(body, "nan"@));
        assert(!spells(body, "inf"@));
        assert(!spells(body, "infinity"@));
        assert(!s.contains('.'));
        assert(!s.contains('e'));
        assert(!s.contains('E'));
    }
}

} // verus!
