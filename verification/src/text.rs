//! Digit strings: positional notation of integers in radix 2 to 16.

use vstd::prelude::*;

verus! {

/// `String::push` appends one character to the end of the string.
pub assume_specification[ String::push ](s: &mut String, c: char)
    ensures
        final(s)@ == old(s)@.push(c),
;

/// The lowercase digit character for a digit value below 16.
pub open spec fn digit_char(d: int) -> char {
    if d < 10 {
        (48 + d) as char
    } else {
        (87 + d) as char
    }
}

/// The digits of `n` in the given radix, most significant first, with no
/// leading zero (zero itself is the single digit `0`).
pub open spec fn digits_of(n: nat, radix: nat) -> Seq<char>
    decreases n,
{
    if radix < 2 || n < radix {
        seq![digit_char(n as int)]
    } else {
        proof {
            assert(n / radix < n) by (nonlinear_arith)
                requires
                    2 <= radix <= n,
            ;
        }
        digits_of(n / radix, radix).push(digit_char((n % radix) as int))
    }
}

/// The lowest `width` digits of `n` in the given radix, most significant
/// first, zeros included.
pub open spec fn padded_digits(n: nat, radix: nat, width: nat) -> Seq<char>
    decreases width,
{
    if width == 0 {
        Seq::empty()
    } else {
        padded_digits(n / radix, radix, (width - 1) as nat).push(digit_char((n % radix) as int))
    }
}

/// The decimal text of an integer: a minus sign for a negative one, then the
/// digits of its magnitude.
pub open spec fn decimal_of(n: int) -> Seq<char> {
    if n < 0 {
        seq!['-'] + digits_of((-n) as nat, 10)
    } else {
        digits_of(n as nat, 10)
    }
}

/// The unsigned 64-bit number that has the same bits as `n` in two's
/// complement.
pub open spec fn twos_complement(n: i64) -> nat {
    if n >= 0 {
        n as nat
    } else {
        (n + 0x1_0000_0000_0000_0000) as nat
    }
}

/// Executable form of [`digit_char`].
pub fn digit_to_char(d: u8) -> (c: char)
    requires
        d < 16,
    ensures
        c == digit_char(d as int),
{
    if d < 10 {
        (48u8 + d) as char
    } else {
        (87u8 + d) as char
    }
}

/// Appends the characters of `low` to `out`, last one first.
fn push_reversed(out: &mut String, low: &Vec<char>)
    ensures
        final(out)@ == old(out)@ + low@.reverse(),
{
    let mut i: usize = low.len();
    assert(out@ =~= old(out)@ + low@.reverse().subrange(0, 0));
    while i > 0
        invariant
            i <= low.len(),
            out@ == old(out)@ + low@.reverse().subrange(0, low.len() - i),
        decreases i,
    {
        i = i - 1;
        let c = low[i];
        proof {
            let r = low@.reverse();
            assert(r[low.len() - 1 - i] == c);
            assert(r.subrange(0, low.len() - i) =~= r.subrange(0, low.len() - 1 - i).push(c));
            assert((old(out)@ + r.subrange(0, low.len() - 1 - i)).push(c) =~= old(out)@
                + r.subrange(0, low.len() - i));
        }
        out.push(c);
    }
    assert(low@.reverse().subrange(0, low.len() as int) =~= low@.reverse());
}

/// Appends the digits of `value` in the given radix to `out`.
pub fn push_digits(out: &mut String, value: u64, radix: u64)
    requires
        2 <= radix <= 16,
    ensures
        final(out)@ == old(out)@ + digits_of(value as nat, radix as nat),
{
    let mut low: Vec<char> = Vec::new();
    let mut rest: u64 = value;
    while rest >= radix
        invariant
            2 <= radix <= 16,
            digits_of(value as nat, radix as nat) == digits_of(rest as nat, radix as nat)
                + low@.reverse(),
        decreases rest,
    {
        let c = digit_to_char((rest % radix) as u8);
        proof {
            let high = digits_of((rest / radix) as nat, radix as nat);
            assert(low@.push(c).reverse() =~= seq![c] + low@.reverse());
            assert(digits_of(rest as nat, radix as nat) == high.push(c));
            assert(high.push(c) + low@.reverse() =~= high + (seq![c] + low@.reverse()));
        }
        low.push(c);
        rest = rest / radix;
    }
    low.push(digit_to_char(rest as u8));
    proof {
        let c = digit_char(rest as int);
        let before = low@.drop_last();
        assert(low@ =~= before.push(c));
        assert(before.push(c).reverse() =~= seq![c] + before.reverse());
        assert(digits_of(rest as nat, radix as nat) =~= seq![c]);
    }
    push_reversed(out, &low);
}

/// Appends the lowest `width` digits of `value` in the given radix to `out`,
/// zeros included.
pub fn push_padded_digits(out: &mut String, value: u64, radix: u64, width: usize)
    requires
        2 <= radix <= 16,
    ensures
        final(out)@ == old(out)@ + padded_digits(value as nat, radix as nat, width as nat),
{
    let mut low: Vec<char> = Vec::new();
    let mut rest: u64 = value;
    let mut left: usize = width;
    assert(low@.reverse() =~= Seq::<char>::empty());
    while left > 0
        invariant
            2 <= radix <= 16,
            padded_digits(value as nat, radix as nat, width as nat) == padded_digits(
                rest as nat,
                radix as nat,
                left as nat,
            ) + low@.reverse(),
        decreases left,
    {
        let c = digit_to_char((rest % radix) as u8);
        proof {
            let high = padded_digits((rest / radix) as nat, radix as nat, (left - 1) as nat);
            assert(low@.push(c).reverse() =~= seq![c] + low@.reverse());
            assert(padded_digits(rest as nat, radix as nat, left as nat) == high.push(c));
            assert(high.push(c) + low@.reverse() =~= high + (seq![c] + low@.reverse()));
        }
        low.push(c);
        rest = rest / radix;
        left = left - 1;
    }
    push_reversed(out, &low);
}

/// The magnitude of `n`.
pub fn magnitude(n: i64) -> (m: u64)
    ensures
        m == if n < 0 {
            -n
        } else {
            n as int
        },
{
    if n >= 0 {
        n as u64
    } else if n == i64::MIN {
        0x8000_0000_0000_0000u64
    } else {
        (-n) as u64
    }
}

/// The bits of `n` in two's complement, read as an unsigned number.
pub fn bit_pattern(n: i64) -> (bits: u64)
    ensures
        bits == twos_complement(n),
{
    if n >= 0 {
        n as u64
    } else {
        let raised: i64 = n - i64::MIN;
        raised as u64 + 0x8000_0000_0000_0000u64
    }
}

/// The decimal text of `n`.
pub fn decimal_text(n: i64) -> (out: String)
    ensures
        out@ == decimal_of(n as int),
{
    let mut out = String::new();
    if n < 0 {
        out.push('-');
    }
    push_digits(&mut out, magnitude(n), 10);
    assert(Seq::<char>::empty().push('-') =~= seq!['-']);
    assert(Seq::<char>::empty() + digits_of(n as nat, 10) =~= digits_of(n as nat, 10));
    out
}

/// The hexadecimal digits of `n`'s two's-complement bits, lowercase.
pub fn hex_text(n: i64) -> (out: String)
    ensures
        out@ == digits_of(twos_complement(n), 16),
{
    let mut out = String::new();
    push_digits(&mut out, bit_pattern(n), 16);
    assert(Seq::<char>::empty() + digits_of(twos_complement(n), 16) =~= digits_of(
        twos_complement(n),
        16,
    ));
    out
}

/// The octal digits of `n`'s two's-complement bits.
pub fn octal_text(n: i64) -> (out: String)
    ensures
        out@ == digits_of(twos_complement(n), 8),
{
    let mut out = String::new();
    push_digits(&mut out, bit_pattern(n), 8);
    assert(Seq::<char>::empty() + digits_of(twos_complement(n), 8) =~= digits_of(
        twos_complement(n),
        8,
    ));
    out
}

/// The binary digits of `n`'s two's-complement bits.
pub fn binary_text(n: i64) -> (out: String)
    ensures
        out@ == digits_of(twos_complement(n), 2),
{
    let mut out = String::new();
    push_digits(&mut out, bit_pattern(n), 2);
    assert(Seq::<char>::empty() + digits_of(twos_complement(n), 2) =~= digits_of(
        twos_complement(n),
        2,
    ));
    out
}

} // verus!
