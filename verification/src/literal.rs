//! Classification and parsing of numeric literals.

use vstd::prelude::*;
use vstd::string::*;
use crate::value::{Binary64, DomainValue, ParseError, Reason, DEFAULT_INTEGER};

verus! {

/// The value of `c` as a digit of the given radix (at most 36): `0`-`9`, then
/// the letters in either case.
pub open spec fn digit_value(c: char, radix: int) -> Option<int> {
    let v = if '0' <= c <= '9' {
        c as int - 48
    } else if 'a' <= c <= 'z' {
        c as int - 87
    } else if 'A' <= c <= 'Z' {
        c as int - 55
    } else {
        radix
    };
    if v < radix {
        Some(v)
    } else {
        None
    }
}

/// How many characters at the start of `s` are digits of the radix.
pub open spec fn digit_run(s: Seq<char>, radix: int) -> nat
    decreases s.len(),
{
    if s.len() == 0 || digit_value(s[0], radix) is None {
        0
    } else {
        1 + digit_run(s.drop_first(), radix)
    }
}

/// The number that a sequence of digits denotes in the given radix.
pub open spec fn digits_value(s: Seq<char>, radix: int) -> int
    decreases s.len(),
{
    if s.len() == 0 {
        0
    } else {
        digits_value(s.drop_last(), radix) * radix + digit_value(s.last(), radix).unwrap()
    }
}

/// The signed 64-bit integer that `s` denotes in the given radix: an optional
/// `+` or `-`, then one or more digits. Reading from the left, the first thing
/// that goes wrong decides the reason: digits that already exceed the range
/// give an overflow even where a bad character follows them.
pub open spec fn integer_literal(s: Seq<char>, radix: int) -> Result<i64, Reason> {
    if s.len() == 0 {
        Err(Reason::Empty)
    } else {
        let negative = s[0] == '-';
        let body = if s[0] == '-' || s[0] == '+' {
            s.drop_first()
        } else {
            s
        };
        let magnitude = digits_value(body.take(digit_run(body, radix) as int), radix);
        if body.len() == 0 {
            Err(Reason::InvalidDigit)
        } else if negative && magnitude > 0x8000_0000_0000_0000 {
            Err(Reason::NegOverflow)
        } else if !negative && magnitude > 0x7fff_ffff_ffff_ffff {
            Err(Reason::PosOverflow)
        } else if digit_run(body, radix) < body.len() {
            Err(Reason::InvalidDigit)
        } else if negative {
            Ok((-magnitude) as i64)
        } else {
            Ok(magnitude as i64)
        }
    }
}

/// Executable form of [`digit_value`].
pub fn to_digit(c: char, radix: u32) -> (d: Option<u32>)
    requires
        radix <= 36,
    ensures
        d == match digit_value(c, radix as int) {
            Some(v) => Some(v as u32),
            None => None,
        },
{
    let code: u32 = c as u32;
    let v: u32 = if '0' <= c && c <= '9' {
        code - 48
    } else if 'a' <= c && c <= 'z' {
        code - 87
    } else if 'A' <= c && c <= 'Z' {
        code - 55
    } else {
        radix
    };
    if v < radix {
        Some(v)
    } else {
        None
    }
}

/// A sequence whose first `i` characters are digits, and whose next one (if
/// any) is not, has a digit run of `i`.
pub proof fn lemma_digit_run_is(s: Seq<char>, radix: int, i: int)
    requires
        0 <= i <= s.len(),
        forall|k: int| 0 <= k < i ==> digit_value(s[k], radix) is Some,
        i < s.len() ==> digit_value(s[i], radix) is None,
    ensures
        digit_run(s, radix) == i,
    decreases i,
{
    if i > 0 {
        let rest = s.drop_first();
        assert forall|k: int| 0 <= k < i - 1 implies digit_value(rest[k], radix) is Some by {
            assert(rest[k] == s[k + 1]);
        }
        if i < s.len() {
            assert(rest[i - 1] == s[i]);
        }
        lemma_digit_run_is(rest, radix, i - 1);
    }
}

/// Every character inside the digit run is a digit.
proof fn lemma_digit_run_digits(s: Seq<char>, radix: int, k: int)
    requires
        0 <= k < digit_run(s, radix),
    ensures
        digit_run(s, radix) <= s.len(),
        digit_value(s[k], radix) is Some,
    decreases s.len(),
{
    if k > 0 {
        lemma_digit_run_digits(s.drop_first(), radix, k - 1);
        assert(s.drop_first()[k - 1] == s[k]);
    } else if digit_run(s, radix) > 1 {
        lemma_digit_run_digits(s.drop_first(), radix, 0);
    }
}

/// Where the digit run ends before the end of the sequence, the character
/// there is no digit.
proof fn lemma_digit_run_stops(s: Seq<char>, radix: int)
    requires
        digit_run(s, radix) < s.len(),
    ensures
        digit_value(s[digit_run(s, radix) as int], radix) is None,
    decreases s.len(),
{
    if digit_value(s[0], radix) is Some {
        lemma_digit_run_stops(s.drop_first(), radix);
        let rest = s.drop_first();
        assert(rest[digit_run(rest, radix) as int] == s[digit_run(s, radix) as int]);
    }
}

/// Among digit sequences, a longer prefix never denotes a smaller number.
proof fn lemma_prefix_value_grows(s: Seq<char>, radix: int, i: int, j: int)
    requires
        radix >= 1,
        0 <= i <= j <= s.len(),
        forall|k: int| 0 <= k < j ==> digit_value(s[k], radix) is Some,
    ensures
        0 <= digits_value(s.take(i), radix) <= digits_value(s.take(j), radix),
    decreases j,
{
    if j == 0 {
        assert(s.take(0).len() == 0);
    } else {
        assert(s.take(j).drop_last() =~= s.take(j - 1));
        assert(s.take(j).last() == s[j - 1]);
        let low = digits_value(s.take(j - 1), radix);
        lemma_prefix_value_grows(s, radix, 0, j - 1);
        assert(low * radix >= low) by (nonlinear_arith)
            requires
                low >= 0,
                radix >= 1,
        ;
        if i < j {
            lemma_prefix_value_grows(s, radix, i, j - 1);
        }
    }
}

/// Parses the characters of `text` from `start` on as a signed 64-bit integer
/// of the given radix.
#[verifier::loop_isolation(false)]
pub fn parse_integer(text: &Vec<char>, start: usize, radix: u32) -> (parsed: Result<i64, Reason>)
    requires
        start <= text.len(),
        2 <= radix <= 36,
    ensures
        parsed == integer_literal(text@.skip(start as int), radix as int),
{
    let ghost s = text@.skip(start as int);
    if start == text.len() {
        return Err(Reason::Empty);
    }
    let first = text[start];
    assert(s[0] == first);
    let negative = first == '-';
    let from: usize = if first == '-' || first == '+' {
        start + 1
    } else {
        start
    };
    let ghost body = if first == '-' || first == '+' {
        s.drop_first()
    } else {
        s
    };
    assert(body =~= text@.skip(from as int));
    if from == text.len() {
        return Err(Reason::InvalidDigit);
    }
    let limit: u128 = if negative {
        0x8000_0000_0000_0000
    } else {
        0x7fff_ffff_ffff_ffff
    };
    let mut acc: u128 = 0;
    let mut i: usize = from;
    assert(body.take(0).len() == 0);
    while i < text.len()
        invariant
            from <= i <= text.len(),
            2 <= radix <= 36,
            body == text@.skip(from as int),
            limit == if negative {
                0x8000_0000_0000_0000u128
            } else {
                0x7fff_ffff_ffff_ffffu128
            },
            acc <= limit,
            acc == digits_value(body.take(i - from), radix as int),
            forall|k: int| 0 <= k < i - from ==> digit_value(body[k], radix as int) is Some,
        decreases text.len() - i,
    {
        let c = text[i];
        assert(body[i - from] == c);
        match to_digit(c, radix) {
            None => {
                proof {
                    lemma_digit_run_is(body, radix as int, i - from);
                }
                return Err(Reason::InvalidDigit);
            },
            Some(d) => {
                proof {
                    assert(body.take(i - from + 1).drop_last() =~= body.take(i - from));
                    assert(body.take(i - from + 1).last() == c);
                    assert(acc * radix <= limit * 36) by (nonlinear_arith)
                        requires
                            acc <= limit,
                            radix <= 36,
                    ;
                }
                let next: u128 = acc * (radix as u128) + (d as u128);
                if next > limit {
                    proof {
                        let run = digit_run(body, radix as int) as int;
                        if run <= i - from {
                            // the run would end at a digit
                            lemma_digit_run_stops(body, radix as int);
                        }
                        assert forall|k: int| 0 <= k < run implies digit_value(
                            body[k],
                            radix as int,
                        ) is Some by {
                            lemma_digit_run_digits(body, radix as int, k);
                        }
                        if run > 0 {
                            lemma_digit_run_digits(body, radix as int, 0);
                        }
                        lemma_prefix_value_grows(body, radix as int, i - from + 1, run);
                    }
                    return Err(
                        if negative {
                            Reason::NegOverflow
                        } else {
                            Reason::PosOverflow
                        },
                    );
                }
                acc = next;
                i = i + 1;
            },
        }
    }
    proof {
        lemma_digit_run_is(body, radix as int, body.len() as int);
        assert(body.take(body.len() as int) =~= body);
    }
    if negative {
        if acc == 0x8000_0000_0000_0000 {
            Ok(i64::MIN)
        } else {
            Ok(-(acc as i64))
        }
    } else {
        Ok(acc as i64)
    }
}

/// `raw` without its underscores, which only group digits.
pub open spec fn without_separators(raw: Seq<char>) -> Seq<char> {
    raw.filter(|c: char| c != '_')
}

/// The base that the prefix of `s` announces: 2 for `0b`, 8 for `0o`, 16 for
/// `0x`, in lower case only.
pub open spec fn radix_prefix(s: Seq<char>) -> Option<u32> {
    if s.len() >= 2 && s[0] == '0' && s[1] == 'b' {
        Some(2u32)
    } else if s.len() >= 2 && s[0] == '0' && s[1] == 'o' {
        Some(8u32)
    } else if s.len() >= 2 && s[0] == '0' && s[1] == 'x' {
        Some(16u32)
    } else {
        None
    }
}

/// An upper-case ASCII letter as its lower-case one; any other character
/// unchanged.
pub open spec fn fold_case(c: char) -> char {
    if 'A' <= c <= 'Z' {
        (c as int + 32) as char
    } else {
        c
    }
}

/// Whether `s` is `name`, letter case aside.
pub open spec fn spells(s: Seq<char>, name: Seq<char>) -> bool {
    s.len() == name.len() && forall|i: int| 0 <= i < s.len() ==> fold_case(s[i]) == name[i]
}

/// Whether `s`, after an optional sign, is one of the names `nan`, `inf` and
/// `infinity` in any letter case.
pub open spec fn is_float_name(s: Seq<char>) -> bool {
    let body = if s.len() > 0 && (s[0] == '+' || s[0] == '-') {
        s.drop_first()
    } else {
        s
    };
    spells(body, "nan"@) || spells(body, "inf"@) || spells(body, "infinity"@)
}

/// Whether `s` has the shape of a float literal: a point or an exponent
/// marker somewhere, or a float name.
pub open spec fn is_float_shaped(s: Seq<char>) -> bool {
    s.contains('.') || s.contains('e') || s.contains('E') || is_float_name(s)
}

/// Whether reading `raw` takes a binary64 conversion: it has no radix prefix
/// and either has float shape or is a decimal integer beyond 64 bits.
pub open spec fn needs_float(raw: Seq<char>) -> bool {
    let s = without_separators(raw);
    radix_prefix(s) is None && (is_float_shaped(s) || integer_literal(s, 10) == Err::<i64, Reason>(
        Reason::PosOverflow,
    ) || integer_literal(s, 10) == Err::<i64, Reason>(Reason::NegOverflow))
}

/// What `raw` denotes, where `float_bits` is what binary64 conversion of
/// `without_separators(raw)` gives (`None`: it rejects the text). The first
/// rule that applies decides:
/// a radix prefix makes the rest an integer of that base;
/// float shape makes the text a float;
/// otherwise it is a decimal integer, or, where that exceeds 64 bits, a float.
pub open spec fn parse_of(raw: Seq<char>, float_bits: Option<u64>) -> Result<
    DomainValue,
    ParseError,
> {
    let s = without_separators(raw);
    if let Some(base) = radix_prefix(s) {
        match integer_literal(s.skip(2), base as int) {
            Ok(n) => Ok(DomainValue::Integer(n)),
            Err(reason) => Err(ParseError::InvalidRadixLiteral { base, reason }),
        }
    } else if is_float_shaped(s) {
        match float_bits {
            Some(bits) => Ok(DomainValue::Float(Binary64 { bits })),
            None => Err(ParseError::InvalidFloat { reason: Reason::MalformedFloat }),
        }
    } else {
        match integer_literal(s, 10) {
            Ok(n) => Ok(DomainValue::Integer(n)),
            Err(reason) => if reason == Reason::PosOverflow || reason == Reason::NegOverflow {
                match float_bits {
                    Some(bits) => Ok(DomainValue::Float(Binary64 { bits })),
                    None => Err(ParseError::InvalidDecimal { reason: Reason::MalformedFloat }),
                }
            } else {
                Err(ParseError::InvalidDecimal { reason })
            },
        }
    }
}

/// The characters of `raw` without its underscores.
pub fn clean(raw: &str) -> (kept: Vec<char>)
    ensures
        kept@ == without_separators(raw@),
{
    let count: usize = raw.unicode_len();
    let mut kept: Vec<char> = Vec::new();
    let mut i: usize = 0;
    proof {
        reveal(Seq::filter);
        assert(raw@.take(0).len() == 0);
    }
    while i < count
        invariant
            i <= count,
            count == raw@.len(),
            kept@ == without_separators(raw@.take(i as int)),
        decreases count - i,
    {
        let c = raw.get_char(i);
        proof {
            reveal(Seq::filter);
            assert(raw@.take(i + 1).drop_last() =~= raw@.take(i as int));
            assert(raw@.take(i + 1).last() == c);
        }
        if c != '_' {
            kept.push(c);
        }
        i = i + 1;
    }
    assert(raw@.take(count as int) =~= raw@);
    kept
}

/// Executable form of [`radix_prefix`].
pub fn prefix_base(text: &Vec<char>) -> (base: Option<u32>)
    ensures
        base == radix_prefix(text@),
{
    if text.len() >= 2 && text[0] == '0' {
        let mark = text[1];
        if mark == 'b' {
            Some(2)
        } else if mark == 'o' {
            Some(8)
        } else if mark == 'x' {
            Some(16)
        } else {
            None
        }
    } else {
        None
    }
}

/// Executable form of [`fold_case`].
pub fn lower(c: char) -> (folded: char)
    ensures
        folded == fold_case(c),
{
    if 'A' <= c && c <= 'Z' {
        ((c as u8) + 32u8) as char
    } else {
        c
    }
}

/// Whether the characters of `text` from `start` on are `name`, letter case
/// aside.
fn spells_from(text: &Vec<char>, start: usize, name: &str) -> (same: bool)
    requires
        start <= text.len(),
    ensures
        same == spells(text@.skip(start as int), name@),
{
    let count: usize = name.unicode_len();
    if text.len() - start != count {
        return false;
    }
    let ghost s = text@.skip(start as int);
    let mut i: usize = 0;
    while i < count
        invariant
            i <= count,
            count == name@.len(),
            start + count == text.len(),
            s == text@.skip(start as int),
            forall|k: int| 0 <= k < i ==> fold_case(s[k]) == name@[k],
        decreases count - i,
    {
        let c = text[start + i];
        assert(s[i as int] == c);
        if lower(c) != name.get_char(i) {
            return false;
        }
        i = i + 1;
    }
    true
}

/// Whether `text` holds the character `wanted`.
fn holds(text: &Vec<char>, wanted: char) -> (found: bool)
    ensures
        found == text@.contains(wanted),
{
    let mut i: usize = 0;
    while i < text.len()
        invariant
            i <= text.len(),
            forall|k: int| 0 <= k < i ==> text@[k] != wanted,
        decreases text.len() - i,
    {
        if text[i] == wanted {
            return true;
        }
        i = i + 1;
    }
    false
}

/// Executable form of [`is_float_shaped`].
pub fn has_float_shape(text: &Vec<char>) -> (shaped: bool)
    ensures
        shaped == is_float_shaped(text@),
{
    if holds(text, '.') || holds(text, 'e') || holds(text, 'E') {
        return true;
    }
    let start: usize = if text.len() > 0 && (text[0] == '+' || text[0] == '-') {
        1
    } else {
        0
    };
    assert(text@.skip(0) =~= text@);
    assert(text@.skip(1) =~= text@.drop_first());
    spells_from(text, start, "nan") || spells_from(text, start, "inf") || spells_from(
        text,
        start,
        "infinity",
    )
}

/// The value that a converted literal denotes, or the given error where the
/// conversion rejected it.
fn converted(float_bits: Option<u64>, rejected: ParseError) -> (parsed: Result<
    DomainValue,
    ParseError,
>)
    ensures
        parsed == match float_bits {
            Some(bits) => Ok::<DomainValue, ParseError>(DomainValue::Float(Binary64 { bits })),
            None => Err::<DomainValue, ParseError>(rejected),
        },
{
    match float_bits {
        Some(bits) => Ok(DomainValue::Float(Binary64 { bits })),
        None => Err(rejected),
    }
}

/// Parses one literal. `float_bits` is what binary64 conversion (to nearest,
/// ties to even, overflow to infinity, underflow to zero) gives for the text
/// that [`float_candidate`] returns for `raw`, and `None` where it rejects
/// that text; it is only looked at where `raw` needs that conversion.
pub fn parse_number(raw: &str, float_bits: Option<u64>) -> (parsed: Result<DomainValue, ParseError>)
    ensures
        parsed == parse_of(raw@, float_bits),
{
    let text = clean(raw);
    match prefix_base(&text) {
        Some(base) => match parse_integer(&text, 2, base) {
            Ok(n) => Ok(DomainValue::Integer(n)),
            Err(reason) => Err(ParseError::InvalidRadixLiteral { base, reason }),
        },
        None => {
            if has_float_shape(&text) {
                converted(float_bits, ParseError::InvalidFloat { reason: Reason::MalformedFloat })
            } else {
                assert(text@.skip(0) =~= text@);
                match parse_integer(&text, 0, 10) {
                    Ok(n) => Ok(DomainValue::Integer(n)),
                    Err(Reason::PosOverflow) | Err(Reason::NegOverflow) => converted(
                        float_bits,
                        ParseError::InvalidDecimal { reason: Reason::MalformedFloat },
                    ),
                    Err(reason) => Err(ParseError::InvalidDecimal { reason }),
                }
            }
        },
    }
}

/// The text to hand to binary64 conversion before [`parse_number`] is called
/// on `raw`: `raw` without its underscores where reading it takes that
/// conversion, and `None` where it does not.
pub fn float_candidate(raw: &str) -> (candidate: Option<String>)
    ensures
        candidate is Some <==> needs_float(raw@),
        candidate matches Some(text) ==> text@ == without_separators(raw@),
{
    let text = clean(raw);
    if prefix_base(&text).is_some() {
        return None;
    }
    assert(text@.skip(0) =~= text@);
    let wanted = has_float_shape(&text) || match parse_integer(&text, 0, 10) {
        Err(Reason::PosOverflow) | Err(Reason::NegOverflow) => true,
        _ => false,
    };
    if !wanted {
        return None;
    }
    let mut out = String::new();
    let mut i: usize = 0;
    assert(out@ =~= text@.take(0));
    while i < text.len()
        invariant
            i <= text.len(),
            out@ == text@.take(i as int),
        decreases text.len() - i,
    {
        assert(text@.take(i + 1) =~= text@.take(i as int).push(text@[i as int]));
        out.push(text[i]);
        i = i + 1;
    }
    assert(text@.take(text.len() as int) =~= text@);
    Some(out)
}

/// Parses the literal given, or takes the default value where none is given.
pub fn parse_argument(arg: Option<&str>, float_bits: Option<u64>) -> (parsed: Result<
    DomainValue,
    ParseError,
>)
    ensures
        parsed == match arg {
            Some(raw) => parse_of(raw@, float_bits),
            None => Ok::<DomainValue, ParseError>(DomainValue::Integer(DEFAULT_INTEGER)),
        },
{
    match arg {
        Some(raw) => parse_number(raw, float_bits),
        None => Ok(DomainValue::Integer(DEFAULT_INTEGER)),
    }
}

/// The result of binary64 conversion decides what a literal denotes exactly
/// where reading the literal takes that conversion: there the literal is the
/// converted value, or an error where the conversion rejected it; anywhere
/// else the result makes no difference.
pub proof fn lemma_conversion_decides_where_needed(raw: Seq<char>, bits: u64, other: Option<u64>)
    ensures
        needs_float(raw) ==> parse_of(raw, Some(bits)) == Ok::<DomainValue, ParseError>(
            DomainValue::Float(Binary64 { bits }),
        ) && parse_of(raw, None) is Err,
        !needs_float(raw) ==> parse_of(raw, Some(bits)) == parse_of(raw, other),
{
}

} // verus!
