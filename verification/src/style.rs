//! Decoration of rendered text with terminal colour sequences.

use vstd::prelude::*;
use vstd::string::*;

verus! {

/// The sequence that ends a decoration.
pub const RESET: &'static str = "\x1b[0m";

/// `value` wrapped in a decoration: the colour sequence, the text, then
/// [`RESET`].
pub fn colorize(value: &str, color: &str) -> (out: String)
    ensures
        out@ == color@ + value@ + RESET@,
{
    let mut out = String::new();
    out.append(color);
    out.append(value);
    out.append(RESET);
    assert(Seq::<char>::empty() + color@ =~= color@);
    out
}

} // verus!
