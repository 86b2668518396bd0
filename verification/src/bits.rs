//! Bit strings: the bits of a value in order, grouped for reading.

use vstd::prelude::*;
use crate::text::{bit_pattern, twos_complement};
use crate::value::Binary64;

verus! {

/// One cell of a bit string.
#[derive(Clone, Copy, Debug, PartialEq, Eq, Structural)]
pub enum BitCell {
    /// A bit that is 1.
    One,
    /// A bit that is 0.
    Zero,
    /// The blank between two groups of four bits.
    Gap,
    /// The mark between two fields of a binary64 value.
    FieldBreak,
}

/// Whether bit `k` of `bits` is 1.
pub open spec fn bit_at(bits: u64, k: u64) -> bool {
    (bits >> k) & 1 == 1
}

/// The cell that shows a bit.
pub open spec fn bit_cell(set: bool) -> BitCell {
    if set {
        BitCell::One
    } else {
        BitCell::Zero
    }
}

/// What stands between bit `k` and bit `k - 1`: a blank after every fourth
/// bit; in a binary64 value a field mark after the sign bit and after the
/// lowest exponent bit instead.
pub open spec fn separator_after(k: int, fields: bool) -> Option<BitCell> {
    if k <= 0 {
        None
    } else if fields && (k == 63 || k == 52) {
        Some(BitCell::FieldBreak)
    } else if k % 4 == 0 {
        Some(BitCell::Gap)
    } else {
        None
    }
}

/// The cells for bits `top` down to 0 of `bits`, highest bit first, each
/// followed by its separator.
pub open spec fn cells_down_from(bits: u64, top: int, fields: bool) -> Seq<BitCell>
    decreases top + 1,
{
    if top < 0 || top > 63 {
        Seq::empty()
    } else {
        let rest = cells_down_from(bits, top - 1, fields);
        match separator_after(top, fields) {
            Some(mark) => seq![bit_cell(bit_at(bits, top as u64)), mark] + rest,
            None => seq![bit_cell(bit_at(bits, top as u64))] + rest,
        }
    }
}

/// The bit string of the low 32 bits of `n` in two's complement.
pub open spec fn integer_cells(n: i64) -> Seq<BitCell> {
    cells_down_from(twos_complement(n) as u64, 31, false)
}

/// The bit string of all 64 bits of a binary64 value, its three fields set
/// apart.
pub open spec fn float_cells(value: Binary64) -> Seq<BitCell> {
    cells_down_from(value.bits, 63, true)
}

/// Executable form of [`cells_down_from`].
fn cells(bits: u64, top: u32, fields: bool) -> (out: Vec<BitCell>)
    requires
        top <= 63,
    ensures
        out@ == cells_down_from(bits, top as int, fields),
{
    let mut out: Vec<BitCell> = Vec::new();
    let mut left: u32 = top + 1;
    assert(out@ + cells_down_from(bits, top as int, fields) =~= cells_down_from(
        bits,
        top as int,
        fields,
    ));
    while left > 0
        invariant
            left <= top + 1,
            top <= 63,
            cells_down_from(bits, top as int, fields) == out@ + cells_down_from(
                bits,
                left - 1,
                fields,
            ),
        decreases left,
    {
        let k: u32 = left - 1;
        let ghost before = out@;
        let ghost rest = cells_down_from(bits, k - 1, fields);
        let set = (bits >> k) & 1 == 1;
        assert(set == bit_at(bits, k as u64));
        out.push(
            if set {
                BitCell::One
            } else {
                BitCell::Zero
            },
        );
        if k > 0 {
            if fields && (k == 63 || k == 52) {
                out.push(BitCell::FieldBreak);
                assert(out@ + rest =~= before + (seq![bit_cell(set), BitCell::FieldBreak] + rest));
            } else if k % 4 == 0 {
                out.push(BitCell::Gap);
                assert(out@ + rest =~= before + (seq![bit_cell(set), BitCell::Gap] + rest));
            } else {
                assert(out@ + rest =~= before + (seq![bit_cell(set)] + rest));
            }
        } else {
            assert(out@ + rest =~= before + (seq![bit_cell(set)] + rest));
        }
        left = k;
    }
    assert(out@ + cells_down_from(bits, -1, fields) =~= out@);
    out
}

/// The bit string of the low 32 bits of `n`: 32 bits in eight groups.
pub fn integer_bits(n: i64) -> (out: Vec<BitCell>)
    ensures
        out@ == integer_cells(n),
{
    cells(bit_pattern(n), 31, false)
}

/// The bit string of a binary64 value: sign, exponent and fraction.
pub fn float_bits(value: Binary64) -> (out: Vec<BitCell>)
    ensures
        out@ == float_cells(value),
{
    cells(value.bits, 63, true)
}

/// How many separators stand after the bits `1 ..= j`.
pub open spec fn separators_up_to(j: int, fields: bool) -> int {
    j / 4 + if fields && j >= 63 {
        1int
    } else {
        0int
    }
}

/// The cell at which bit `k` stands in the string of the bits `top` down to
/// 0: after the higher bits and their separators.
pub open spec fn cell_index(top: int, k: int, fields: bool) -> int {
    (top - k) + (separators_up_to(top, fields) - separators_up_to(k, fields))
}

/// Where the cells of a bit string stand: each bit at its index, its
/// separator (if it has one) right after it, and nothing else.
pub proof fn lemma_cell_of_bit(bits: u64, top: int, k: int, fields: bool)
    requires
        0 <= k <= top <= 63,
    ensures
        cells_down_from(bits, top, fields).len() == top + 1 + separators_up_to(top, fields),
        0 <= cell_index(top, k, fields) < cells_down_from(bits, top, fields).len(),
        cells_down_from(bits, top, fields)[cell_index(top, k, fields)] == bit_cell(
            bit_at(bits, k as u64),
        ),
        separator_after(k, fields) matches Some(mark) ==> cells_down_from(
            bits,
            top,
            fields,
        )[cell_index(top, k, fields) + 1] == mark,
    decreases top,
{
    let rest = cells_down_from(bits, top - 1, fields);
    let here = bit_cell(bit_at(bits, top as u64));
    if top == 0 {
        assert(rest.len() == 0);
        assert(cells_down_from(bits, top, fields) =~= seq![here]);
    } else {
        if k < top {
            lemma_cell_of_bit(bits, top - 1, k, fields);
        } else {
            lemma_cell_of_bit(bits, top - 1, 0, fields);
        }
        match separator_after(top, fields) {
            Some(mark) => {
                assert(cells_down_from(bits, top, fields) =~= seq![here, mark] + rest);
            },
            None => {
                assert(cells_down_from(bits, top, fields) =~= seq![here] + rest);
            },
        }
    }
}

/// The bit string of an integer shows the 32-bit two's-complement pattern of
/// the integer (of its low 32 bits, where it does not fit), highest bit
/// first: bit `k` of that pattern stands at cell `(31 - k) + (7 - k / 4)`.
pub proof fn lemma_integer_cells_show_low_word(n: i64, k: int)
    requires
        0 <= k < 32,
    ensures
        integer_cells(n).len() == 39,
        integer_cells(n)[(31 - k) + (7 - k / 4)] == bit_cell(
            bit_at(((n as int) % 0x1_0000_0000) as u64, k as u64),
        ),
{
    let wide = twos_complement(n) as u64;
    let low = ((n as int) % 0x1_0000_0000) as u64;
    let shift = k as u64;
    lemma_cell_of_bit(wide, 31, k, false);
    assert(low == wide % 0x1_0000_0000);
    assert(((wide >> shift) & 1) == (((wide % 0x1_0000_0000) >> shift) & 1)) by (bit_vector)
        requires
            shift < 32,
    ;
}

/// The bit string of a binary64 value has 80 cells: the sign bit, a field
/// mark, the eleven exponent bits, a field mark, the 52 fraction bits, and
/// a blank after every fourth bit elsewhere. Bit `k` stands at
/// [`cell_index`]`(63, k, true)`, and it is a bit of the field that the
/// marks set apart there.
pub proof fn lemma_float_cells_layout(value: Binary64, k: int)
    requires
        0 <= k <= 63,
    ensures
        float_cells(value).len() == 80,
        float_cells(value)[1] == BitCell::FieldBreak,
        float_cells(value)[15] == BitCell::FieldBreak,
        float_cells(value)[cell_index(63, k, true)] == bit_cell(bit_at(value.bits, k as u64)),
        bit_at(value.bits, k as u64) == if k == 63 {
            value.fields_of().sign == 1
        } else if k >= 52 {
            bit_at(value.fields_of().biased_exponent as u64, (k - 52) as u64)
        } else {
            bit_at(value.fields_of().fraction, k as u64)
        },
{
    let bits = value.bits;
    let shift = k as u64;
    let exponent = (bits / 0x10_0000_0000_0000) % 2048;
    let fraction = bits % 0x10_0000_0000_0000;
    lemma_cell_of_bit(bits, 63, k, true);
    lemma_cell_of_bit(bits, 63, 63, true);
    lemma_cell_of_bit(bits, 63, 52, true);
    assert(((bits >> 63) & 1 == 1) == (bits / 0x8000_0000_0000_0000 == 1)) by (bit_vector);
    assert(52 <= shift < 63 ==> (bits >> shift) & 1 == (exponent >> ((shift - 52) as u64)) & 1)
        by (bit_vector)
        requires
            exponent == (bits / 0x10_0000_0000_0000) % 2048,
    ;
    assert(shift < 52 ==> (bits >> shift) & 1 == (fraction >> shift) & 1) by (bit_vector)
        requires
            fraction == bits % 0x10_0000_0000_0000,
    ;
}

} // verus!
