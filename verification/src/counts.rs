//! Line, word and character counting over the lines of a text file.

use vstd::prelude::*;
use crate::chars::to_char_vec;
use crate::text::{word_count_of, count_words_line};

verus! {

/// The character count of a whole file: the sum over its lines.
pub open spec fn total_chars(lines: Seq<Seq<char>>) -> nat
    decreases lines.len(),
{
    if lines.len() == 0 {
        0
    } else {
        total_chars(lines.drop_last()) + lines.last().len()
    }
}

/// The word count of a whole file: the sum over its lines.
pub open spec fn total_words(lines: Seq<Seq<char>>) -> nat
    decreases lines.len(),
{
    if lines.len() == 0 {
        0
    } else {
        total_words(lines.drop_last()) + word_count_of(lines.last())
    }
}

proof fn lemma_totals_monotonic(lines: Seq<Seq<char>>, i: int)
    requires
        0 <= i <= lines.len(),
    ensures
        total_chars(lines.take(i)) <= total_chars(lines),
        total_words(lines.take(i)) <= total_words(lines),
    decreases lines.len(),
{
    if i < lines.len() {
        lemma_totals_monotonic(lines.drop_last(), i);
        assert(lines.drop_last().take(i) =~= lines.take(i));
    } else {
        assert(lines.take(i) =~= lines);
    }
}

/// The three counts of one file.
pub struct TextCounts {
    /// Number of lines.
    pub lines: usize,
    /// Number of characters, line terminators excluded.
    pub chars: usize,
    /// Number of whitespace-separated words.
    pub words: usize,
}

/// Counts the lines, characters and words of a file given as its lines.
/// `None` exactly when a total does not fit in `usize`.
pub fn count_text(lines: &Vec<String>) -> (r: Option<TextCounts>)
    ensures
        match r {
            Some(c) => {
                &&& c.lines == lines@.len()
                &&& c.chars == total_chars(lines.deep_view())
                &&& c.words == total_words(lines.deep_view())
            },
            None => total_chars(lines.deep_view()) > usize::MAX || total_words(lines.deep_view())
                > usize::MAX,
        },
{
    let mut chars: usize = 0;
    let mut words: usize = 0;
    let mut i: usize = 0;
    while i < lines.len()
        invariant
            i <= lines@.len(),
            chars == total_chars(lines.deep_view().take(i as int)),
            words == total_words(lines.deep_view().take(i as int)),
        decreases lines@.len() - i,
    {
        let ghost prefix = lines.deep_view().take(i as int);
        let v = to_char_vec(lines[i].as_str());
        let w = count_words_line(&v);
        proof {
            assert(lines.deep_view()[i as int] == lines@[i as int]@);
            assert(lines.deep_view().take(i + 1).drop_last() =~= prefix);
        }
        chars = match chars.checked_add(v.len()) {
            Some(c) => c,
            None => {
                proof {
                    lemma_totals_monotonic(lines.deep_view(), i + 1);
                }
                return None;
            },
        };
        words = match words.checked_add(w) {
            Some(c) => c,
            None => {
                proof {
                    lemma_totals_monotonic(lines.deep_view(), i + 1);
                }
                return None;
            },
        };
        i += 1;
    }
    proof {
        assert(lines.deep_view().take(lines@.len() as int) =~= lines.deep_view());
    }
    Some(TextCounts { lines: lines.len(), chars, words })
}

} // verus!
