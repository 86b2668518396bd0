//! The glyph banner: text drawn five rows high from fixed stencils.

use vstd::prelude::*;
use vstd::string::*;
use crate::text::{decimal_of, decimal_text};

verus! {

/// The stencils of the digits `0` to `9`, top row first.
pub const DIGITS: [[&'static str; 5]; 10] = [
    [" ### ", "#   #", "#   #", "#   #", " ### "],
    ["  #  ", " ##  ", "  #  ", "  #  ", " ### "],
    [" ### ", "#   #", "   # ", "  #  ", "#####"],
    [" ### ", "    #", " ### ", "    #", " ### "],
    ["#   #", "#   #", "#####", "    #", "    #"],
    ["#####", "#    ", "#### ", "    #", "#### "],
    [" ### ", "#    ", "#### ", "#   #", " ### "],
    ["#####", "    #", "   # ", "  #  ", "  #  "],
    [" ### ", "#   #", " ### ", "#   #", " ### "],
    [" ### ", "#   #", " ####", "    #", " ### "],
];

/// The stencil of the minus sign: one inked row.
pub const MINUS: [&'static str; 5] = ["     ", " --- ", "     ", "     ", "     "];

/// The stencil that stands for any other character.
pub const UNKNOWN: [&'static str; 5] = ["?????", "?????", "?????", "?????", "?????"];

/// The stencil of a character.
pub open spec fn stencil(c: char) -> [&'static str; 5] {
    if c == '-' {
        MINUS
    } else if '0' <= c <= '9' {
        DIGITS[c as int - 48]
    } else {
        UNKNOWN
    }
}

/// One row of the banner of `text`: that row of each character's stencil,
/// in order, with a single blank between neighbours.
pub open spec fn banner_row(text: Seq<char>, row: int) -> Seq<char>
    decreases text.len(),
{
    if text.len() == 0 {
        Seq::empty()
    } else if text.len() == 1 {
        stencil(text[0])[row]@
    } else {
        banner_row(text.drop_last(), row) + seq![' '] + stencil(text.last())[row]@
    }
}

/// The first `rows` rows of the banner of `text`, a line feed between rows.
pub open spec fn banner_rows(text: Seq<char>, rows: int) -> Seq<char>
    decreases rows,
{
    if rows <= 0 {
        Seq::empty()
    } else if rows == 1 {
        banner_row(text, 0)
    } else {
        banner_rows(text, rows - 1) + seq!['\n'] + banner_row(text, rows - 1)
    }
}

/// The banner of `text`: its five rows, top first.
pub open spec fn banner_of(text: Seq<char>) -> Seq<char> {
    banner_rows(text, 5)
}

/// One row of the stencil of `c`.
pub fn stencil_row(c: char, row: usize) -> (cells: &'static str)
    requires
        row < 5,
    ensures
        cells@ == stencil(c)[row as int]@,
{
    if c == '-' {
        MINUS[row]
    } else if '0' <= c && c <= '9' {
        let digit: usize = (c as u32 - 48) as usize;
        DIGITS[digit][row]
    } else {
        UNKNOWN[row]
    }
}

/// Draws `text` as a banner.
pub fn banner(text: &str) -> (out: String)
    ensures
        out@ == banner_of(text@),
{
    let count: usize = text.unicode_len();
    let mut out = String::new();
    let mut row: usize = 0;
    while row < 5
        invariant
            row <= 5,
            count == text@.len(),
            out@ == banner_rows(text@, row as int),
        decreases 5 - row,
    {
        let ghost above = out@;
        if row > 0 {
            out.push('\n');
        }
        let ghost start = out@;
        let mut i: usize = 0;
        assert(text@.subrange(0, 0) =~= Seq::<char>::empty());
        assert(out@ =~= start + banner_row(text@.subrange(0, 0), row as int));
        while i < count
            invariant
                row < 5,
                i <= count,
                count == text@.len(),
                out@ == start + banner_row(text@.subrange(0, i as int), row as int),
            decreases count - i,
        {
            let c = text.get_char(i);
            let cells = stencil_row(c, row);
            proof {
                let done = text@.subrange(0, i as int);
                let next = text@.subrange(0, i + 1);
                assert(next.drop_last() =~= done);
                assert(next.last() == c);
                if i > 0 {
                    assert((start + banner_row(done, row as int)).push(' ') + cells@ =~= start + (
                    banner_row(done, row as int) + seq![' '] + cells@));
                } else {
                    assert(next[0] == c);
                    assert(start + banner_row(done, row as int) + cells@ =~= start + cells@);
                }
            }
            if i > 0 {
                out.push(' ');
            }
            out.append(cells);
            i = i + 1;
        }
        proof {
            assert(text@.subrange(0, count as int) =~= text@);
            if row > 0 {
                assert(above.push('\n') + banner_row(text@, row as int) =~= above + seq!['\n']
                    + banner_row(text@, row as int));
            } else {
                assert(above + banner_row(text@, 0) =~= banner_row(text@, 0));
            }
        }
        row = row + 1;
    }
    out
}

/// Draws the decimal text of `n` as a banner.
pub fn ascii_digits(n: i64) -> (out: String)
    ensures
        out@ == banner_of(decimal_of(n as int)),
{
    let text = decimal_text(n);
    banner(text.as_str())
}

/// Every stencil row is five cells wide and holds only blanks and the ink
/// of its character: `#` for a digit, `-` for the minus sign, `?` for any
/// other character.
pub proof fn lemma_stencil_row_shape(c: char, row: int)
    requires
        0 <= row < 5,
    ensures
        stencil(c)[row]@.len() == 5,
        forall|i: int|
            0 <= i < 5 ==> {
                let cell = #[trigger] stencil(c)[row]@[i];
                cell == ' ' || cell == (if c == '-' {
                    '-'
                } else if '0' <= c <= '9' {
                    '#'
                } else {
                    '?'
                })
            },
{
    reveal_strlit(" ### ");
    reveal_strlit("#   #");
    reveal_strlit("  #  ");
    reveal_strlit(" ##  ");
    reveal_strlit("   # ");
    reveal_strlit("#####");
    reveal_strlit("    #");
    reveal_strlit("#    ");
    reveal_strlit("#### ");
    reveal_strlit(" ####");
    reveal_strlit("     ");
    reveal_strlit(" --- ");
    reveal_strlit("?????");
}

/// A banner row is five cells for each character and one blank between
/// neighbours.
pub proof fn lemma_banner_row_len(text: Seq<char>, row: int)
    requires
        0 <= row < 5,
    ensures
        banner_row(text, row).len() == if text.len() == 0 {
            0
        } else {
            6 * text.len() - 1
        },
    decreases text.len(),
{
    if text.len() == 1 {
        lemma_stencil_row_shape(text[0], row);
    } else if text.len() > 1 {
        lemma_banner_row_len(text.drop_last(), row);
        lemma_stencil_row_shape(text.last(), row);
    }
}

/// A banner is five rows of equal width with a line feed between them.
pub proof fn lemma_banner_len(text: Seq<char>)
    ensures
        banner_of(text).len() == 5 * banner_row(text, 0).len() + 4,
{
    reveal_with_fuel(banner_rows, 5);
    lemma_banner_row_len(text, 0);
    lemma_banner_row_len(text, 1);
    lemma_banner_row_len(text, 2);
    lemma_banner_row_len(text, 3);
    lemma_banner_row_len(text, 4);
}

} // verus!
