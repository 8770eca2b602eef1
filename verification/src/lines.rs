//! The list of URLs as text: one URL per line, with blank lines and comment
//! lines between them.

use crate::text::{is_whitespace, white_space};
use vstd::prelude::*;
use vstd::std_specs::iter::IteratorSpec;

verus! {

/// The first position from `from` on that does not hold white space, or the
/// end of the text.
pub open spec fn skip_space(text: Seq<char>, from: int) -> int
    decreases text.len() - from,
{
    if from < 0 || from >= text.len() || !white_space(text[from]) {
        from
    } else {
        skip_space(text, from + 1)
    }
}

/// The position behind the last character that is not white space, or zero
/// if there is none.
pub open spec fn content_end(text: Seq<char>) -> int
    decreases text.len(),
{
    if text.len() == 0 || !white_space(text.last()) {
        text.len() as int
    } else {
        content_end(text.drop_last())
    }
}

/// The text without the white space at its start and at its end.
pub open spec fn trimmed(text: Seq<char>) -> Seq<char> {
    if skip_space(text, 0) < content_end(text) {
        text.subrange(skip_space(text, 0), content_end(text))
    } else {
        Seq::empty()
    }
}

/// The URL that a line of the list holds: the line without the white space
/// around it, unless nothing is left or what is left starts with `#`, which
/// marks a comment.
pub open spec fn url_in(line: Seq<char>) -> Option<Seq<char>> {
    let content = trimmed(line);
    if content.len() == 0 || content[0] == '#' {
        None
    } else {
        Some(content)
    }
}

/// A string that may be absent, as a sequence of characters.
pub open spec fn text_of(found: Option<String>) -> Option<Seq<char>> {
    match found {
        Some(s) => Some(s@),
        None => None,
    }
}

proof fn lemma_skip_space(text: Seq<char>, from: int, to: int)
    requires
        0 <= from <= to <= text.len(),
        forall|k: int| from <= k < to ==> white_space(#[trigger] text[k]),
        to < text.len() ==> !white_space(text[to]),
    ensures
        skip_space(text, from) == to,
    decreases to - from,
{
    if from < to {
        lemma_skip_space(text, from + 1, to);
    }
}

proof fn lemma_content_end(text: Seq<char>, end: int)
    requires
        0 <= end <= text.len(),
        forall|k: int| end <= k < text.len() ==> white_space(#[trigger] text[k]),
        end > 0 ==> !white_space(text[end - 1]),
    ensures
        content_end(text) == end,
    decreases text.len(),
{
    if end < text.len() {
        assert(white_space(text[text.len() - 1]));
        lemma_content_end(text.drop_last(), end);
    }
}

/// The URL that a line of the list holds, if it holds one: blank lines and
/// lines that start with `#` hold none.
pub fn url_of_line(line: &str) -> (url: Option<String>)
    ensures
        text_of(url) == url_in(line@),
{
    broadcast use vstd::string::group_string_axioms;

    let length = line.unicode_len();
    let mut chars = line.chars();
    let mut at: usize = 0;
    // The content seen so far lies from `start` up to, not including, `end`.
    let mut start: usize = 0;
    let mut end: usize = 0;
    let mut comment = false;
    loop
        invariant
            0 <= start <= end <= at <= line@.len() == length,
            chars.remaining() == line@.skip(at as int),
            chars.obeys_prophetic_iter_laws(),
            chars.decrease() is Some,
            forall|k: int| 0 <= k < start ==> white_space(#[trigger] line@[k]),
            forall|k: int| end <= k < at ==> white_space(#[trigger] line@[k]),
            end == 0 ==> start == 0,
            end > 0 ==> start < end && !white_space(line@[start as int]) && !white_space(
                line@[end - 1],
            ) && comment == (line@[start as int] == '#'),
        ensures
            at == line@.len(),
        decreases chars.decrease()->0,
    {
        match chars.next() {
            None => {
                break ;
            },
            Some(c) => {
                assert(c == line@[at as int]);
                assert(chars.remaining() =~= line@.skip(at + 1));
                if !is_whitespace(c) {
                    if end == 0 {
                        start = at;
                        comment = c == '#';
                    }
                    end = at + 1;
                }
                at = at + 1;
            },
        }
    }
    proof {
        lemma_content_end(line@, end as int);
        if end == 0 {
            lemma_skip_space(line@, 0, line@.len() as int);
        } else {
            lemma_skip_space(line@, 0, start as int);
            assert(trimmed(line@)[0] == line@[start as int]);
        }
    }
    if end == 0 || comment {
        None
    } else {
        Some(line.substring_char(start, end).to_string())
    }
}

} // verus!
