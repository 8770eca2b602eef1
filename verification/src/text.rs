//! Strings as sequences of characters, and white space as the standard
//! library knows it.

use vstd::prelude::*;

verus! {

/// A list of strings as sequences of characters.
pub open spec fn texts(list: Seq<String>) -> Seq<Seq<char>> {
    list.map_values(|s: String| s@)
}

/// Whether `c` has the Unicode property White_Space, as `char::is_whitespace`
/// tells it.
pub uninterp spec fn white_space(c: char) -> bool;

/// Calls `char::is_whitespace`. The contract gives its answer a name and
/// claims nothing else: which characters count as white space is the
/// standard library's table, whatever it holds.
#[verifier::external_body]
pub(crate) fn is_whitespace(c: char) -> (space: bool)
    ensures
        space == white_space(c),
{
    c.is_whitespace()
}

} // verus!
