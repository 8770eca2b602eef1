//! Words of a text and how often each occurs.

use crate::text::{is_whitespace, texts, white_space};
use vstd::prelude::*;
use vstd::std_specs::iter::IteratorSpec;

verus! {

/// Where the run of characters without white space that starts at `from`
/// ends: the first position from there on that holds white space, or the end
/// of the text.
pub open spec fn word_end(text: Seq<char>, from: int) -> int
    decreases text.len() - from,
{
    if from < 0 || from >= text.len() || white_space(text[from]) {
        from
    } else {
        word_end(text, from + 1)
    }
}

/// The words of `text` from position `from` on: white space is skipped, and
/// each longest run of other characters is a word.
pub open spec fn words_from(text: Seq<char>, from: int) -> Seq<Seq<char>>
    decreases text.len() - from,
{
    if from < 0 || from >= text.len() {
        Seq::empty()
    } else if white_space(text[from]) {
        words_from(text, from + 1)
    } else {
        let end = word_end(text, from);
        if from < end <= text.len() {
            seq![text.subrange(from, end)] + words_from(text, end)
        } else {
            Seq::empty()
        }
    }
}

/// The words of `text`, in their order: its longest runs of characters that
/// are not white space.
pub open spec fn words_of(text: Seq<char>) -> Seq<Seq<char>> {
    words_from(text, 0)
}

proof fn lemma_word_end(text: Seq<char>, from: int, to: int)
    requires
        0 <= from <= to <= text.len(),
        forall|k: int| from <= k < to ==> !white_space(#[trigger] text[k]),
    ensures
        word_end(text, from) == word_end(text, to),
        to <= word_end(text, to) <= text.len(),
    decreases text.len() - from,
{
    if from < to {
        lemma_word_end(text, from + 1, to);
    } else {
        lemma_word_end_bounds(text, to);
    }
}

proof fn lemma_word_end_bounds(text: Seq<char>, from: int)
    requires
        0 <= from <= text.len(),
    ensures
        from <= word_end(text, from) <= text.len(),
    decreases text.len() - from,
{
    if from < text.len() && !white_space(text[from]) {
        lemma_word_end_bounds(text, from + 1);
    }
}

/// A run of characters without white space that ends at white space or at
/// the end of the text is the first word from its start on, and the other
/// words are those behind it.
proof fn lemma_first_word(text: Seq<char>, from: int, to: int)
    requires
        0 <= from < to <= text.len(),
        forall|k: int| from <= k < to ==> !white_space(#[trigger] text[k]),
        to < text.len() ==> white_space(text[to]),
    ensures
        words_from(text, from) == seq![text.subrange(from, to)] + words_from(text, to + 1),
{
    lemma_word_end(text, from, to);
    assert(word_end(text, to) == to);
    assert(!white_space(text[from]));
    assert(words_from(text, from) == seq![text.subrange(from, to)] + words_from(text, to));
    assert(words_from(text, to) == words_from(text, to + 1));
}

/// The words of a text, in their order, as `str::split_whitespace` yields
/// them.
pub fn split_words(text: &str) -> (words: Vec<String>)
    ensures
        texts(words@) == words_of(text@),
{
    broadcast use vstd::string::group_string_axioms;

    let mut words: Vec<String> = Vec::new();
    let length = text.unicode_len();
    let mut chars = text.chars();
    let mut at: usize = 0;
    let mut start: usize = 0;
    let mut inside = false;
    loop
        invariant
            0 <= start <= at <= text@.len() == length,
            chars.remaining() == text@.skip(at as int),
            chars.obeys_prophetic_iter_laws(),
            chars.decrease() is Some,
            inside ==> start < at,
            inside ==> forall|k: int| start <= k < at ==> !white_space(#[trigger] text@[k]),
            texts(words@) + words_from(text@, if inside { start as int } else { at as int })
                == words_of(text@),
        ensures
            at == text@.len(),
        decreases chars.decrease()->0,
    {
        match chars.next() {
            None => {
                break ;
            },
            Some(c) => {
                assert(c == text@[at as int]);
                assert(chars.remaining() =~= text@.skip(at + 1));
                if is_whitespace(c) {
                    if inside {
                        let word = text.substring_char(start, at).to_string();
                        proof {
                            lemma_first_word(text@, start as int, at as int);
                            assert(texts(words@.push(word)) =~= texts(words@) + seq![word@]);
                            assert(texts(words@.push(word)) + words_from(text@, at + 1) =~= texts(
                                words@,
                            ) + words_from(text@, start as int));
                        }
                        words.push(word);
                        inside = false;
                    } else {
                        assert(words_from(text@, at as int) == words_from(text@, at + 1));
                    }
                } else if !inside {
                    start = at;
                    inside = true;
                }
                at = at + 1;
            },
        }
    }
    if inside {
        let word = text.substring_char(start, at).to_string();
        proof {
            lemma_first_word(text@, start as int, at as int);
            assert(texts(words@.push(word)) =~= texts(words@) + seq![word@]);
            assert(texts(words@.push(word)) =~= texts(words@) + words_from(text@, start as int));
        }
        words.push(word);
    } else {
        assert(texts(words@) + words_from(text@, at as int) =~= texts(words@));
    }
    words
}

/// How often `word` occurs in `words`.
pub open spec fn occurrences(words: Seq<Seq<char>>, word: Seq<char>) -> nat {
    words.to_multiset().count(word)
}

/// Whether `word` is the most frequent of `words`, with `count` occurrences:
/// no word occurs more often, and of the words that occur as often it is the
/// one that comes first.
pub open spec fn is_most_frequent(words: Seq<Seq<char>>, word: Seq<char>, count: nat) -> bool {
    &&& count == occurrences(words, word)
    &&& forall|other: Seq<char>| #[trigger] occurrences(words, other) <= count
    &&& exists|first: int|
        {
            &&& 0 <= first < words.len()
            &&& #[trigger] words[first] == word
            &&& forall|i: int| 0 <= i < first ==> occurrences(words, #[trigger] words[i]) < count
        }
}

proof fn lemma_occurrences_push(words: Seq<Seq<char>>, last: Seq<char>, word: Seq<char>)
    ensures
        occurrences(words.push(last), word) == occurrences(words, word) + if last == word {
            1nat
        } else {
            0nat
        },
{
    broadcast use vstd::seq_lib::group_to_multiset_ensures;

}

proof fn lemma_occurrences_absent(words: Seq<Seq<char>>, word: Seq<char>)
    requires
        forall|i: int| 0 <= i < words.len() ==> words[i] != word,
    ensures
        occurrences(words, word) == 0,
{
    broadcast use vstd::seq_lib::group_to_multiset_ensures;

    if occurrences(words, word) > 0 {
        assert(words.contains(word));
    }
}

proof fn lemma_occurrences_present(words: Seq<Seq<char>>, word: Seq<char>) -> (at: int)
    requires
        occurrences(words, word) > 0,
    ensures
        0 <= at < words.len(),
        words[at] == word,
{
    broadcast use vstd::seq_lib::group_to_multiset_ensures;

    assert(words.contains(word));
    choose|i: int| 0 <= i < words.len() && words[i] == word
}

/// The first place in `list` that holds `word`, or the length of `list` if
/// none does.
fn position(list: &Vec<String>, word: &String) -> (at: usize)
    ensures
        at <= list.len(),
        at < list.len() ==> list[at as int]@ == word@,
        forall|a: int| 0 <= a < at ==> list[a]@ != word@,
{
    let mut at: usize = 0;
    while at < list.len()
        invariant
            at <= list.len(),
            forall|a: int| 0 <= a < at ==> list[a]@ != word@,
        decreases list.len() - at,
    {
        if list[at] == *word {
            return at;
        }
        at += 1;
    }
    at
}

/// The most frequent of `words`, which must not be empty, and how often it
/// occurs. Of several words that occur equally often the one that comes first
/// is taken.
pub fn most_frequent(words: &Vec<String>) -> (best: (String, usize))
    requires
        words.len() > 0,
    ensures
        is_most_frequent(texts(words@), best.0@, best.1 as nat),
{
    let ghost all = texts(words@);
    let mut seen: Vec<String> = Vec::new();
    let mut counts: Vec<usize> = Vec::new();
    // Where each word seen occurs first, and at which place of `seen` each word read stands.
    let ghost mut firsts: Seq<int> = Seq::empty();
    let ghost mut places: Seq<int> = Seq::empty();
    let mut read: usize = 0;
    while read < words.len()
        invariant
            all == texts(words@),
            read <= words.len(),
            seen.len() == counts.len() == firsts.len(),
            places.len() == read,
            forall|a: int|
                0 <= a < seen.len() ==> {
                    &&& 0 <= #[trigger] firsts[a] < read
                    &&& all[firsts[a]] == seen[a]@
                    &&& forall|i: int| 0 <= i < firsts[a] ==> all[i] != seen[a]@
                },
            forall|a: int, b: int| 0 <= a < b < seen.len() ==> firsts[a] < firsts[b],
            forall|a: int|
                0 <= a < seen.len() ==> {
                    &&& #[trigger] counts[a] == occurrences(all.take(read as int), seen[a]@)
                    &&& 1 <= counts[a] <= read
                },
            forall|i: int|
                0 <= i < read ==> 0 <= #[trigger] places[i] < seen.len() && seen[places[i]]@
                    == all[i],
        decreases words.len() - read,
    {
        let word = &words[read];
        let at = position(&seen, word);
        proof {
            assert(all[read as int] == word@);
            assert(all.take(read + 1) =~= all.take(read as int).push(word@));
            assert forall|a: int| 0 <= a < seen.len() implies occurrences(
                all.take(read + 1),
                seen[a]@,
            ) == occurrences(all.take(read as int), seen[a]@) + if a == at {
                1nat
            } else {
                0nat
            } by {
                lemma_occurrences_push(all.take(read as int), word@, seen[a]@);
                if a != at && seen[a]@ == word@ {
                    // Two places of `seen` would hold the same word.
                    assert(all[firsts[a]] == seen[at as int]@);
                    assert(all[firsts[at as int]] == seen[a]@);
                    assert(firsts[a] < firsts[at as int] || firsts[at as int] < firsts[a]);
                }
            }
        }
        if at < seen.len() {
            let count = counts[at];
            counts.set(at, count + 1);
            proof {
                places = places.push(at as int);
            }
        } else {
            proof {
                assert forall|i: int| 0 <= i < read implies all[i] != word@ by {
                    assert(seen[places[i]]@ == all[i]);
                }
                lemma_occurrences_absent(all.take(read as int), word@);
                lemma_occurrences_push(all.take(read as int), word@, word@);
                firsts = firsts.push(read as int);
                places = places.push(seen.len() as int);
            }
            seen.push(word.clone());
            counts.push(1);
        }
        read += 1;
    }
    proof {
        assert(all.take(read as int) =~= all);
        assert(0 <= places[0] < seen.len());
    }
    let mut max_index: usize = 0;
    let mut max_count: usize = 0;
    let mut i: usize = 0;
    while i < counts.len()
        invariant
            i <= counts.len(),
            counts.len() > 0,
            forall|a: int| 0 <= a < counts.len() ==> 1 <= #[trigger] counts[a],
            max_index < counts.len(),
            i == 0 ==> max_count == 0 && max_index == 0,
            i > 0 ==> max_index < i && max_count == counts[max_index as int],
            forall|a: int| 0 <= a < i ==> #[trigger] counts[a] <= max_count,
            forall|a: int| 0 <= a < max_index ==> #[trigger] counts[a] < max_count,
        decreases counts.len() - i,
    {
        if counts[i] > max_count {
            max_count = counts[i];
            max_index = i;
        }
        i += 1;
    }
    let best = seen[max_index].clone();
    proof {
        let first = firsts[max_index as int];
        assert forall|other: Seq<char>| #[trigger] occurrences(all, other) <= max_count by {
            if occurrences(all, other) > 0 {
                let at = lemma_occurrences_present(all, other);
                assert(seen[places[at]]@ == other);
                assert(counts[places[at]] <= max_count);
            }
        }
        assert forall|i: int| 0 <= i < first implies occurrences(all, #[trigger] all[i])
            < max_count by {
            let a = places[i];
            assert(seen[a]@ == all[i]);
            assert(firsts[a] <= i);
            assert(a < max_index);
            assert(counts[a] < max_count);
        }
        assert(all[first] == best@);
    }
    (best, max_count)
}

/// The most frequent word of a text that has one, and how often it occurs;
/// of several words that occur equally often, the one that comes first. The
/// words are the text's runs of characters that are not white space.
pub fn most_frequent_word(text: &str) -> (best: (String, usize))
    requires
        words_of(text@).len() > 0,
    ensures
        is_most_frequent(words_of(text@), best.0@, best.1 as nat),
{
    let words = split_words(text);
    assert(texts(words@).len() == words.len());
    most_frequent(&words)
}

/// The most frequent word of a text and how often it occurs, or nothing for
/// a text without a word.
pub fn find_most_frequent_word(text: &str) -> (found: Option<(String, usize)>)
    ensures
        found is None <==> words_of(text@).len() == 0,
        found matches Some(best) ==> is_most_frequent(words_of(text@), best.0@, best.1 as nat),
{
    let words = split_words(text);
    assert(texts(words@).len() == words.len());
    if words.len() == 0 {
        None
    } else {
        Some(most_frequent_word(text))
    }
}

} // verus!
