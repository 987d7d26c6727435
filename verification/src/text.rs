//! Whitespace handling shared by the line-oriented tools: trimming a line
//! and counting whitespace-separated words.

use vstd::prelude::*;
use crate::chars::{is_space_char, space_char};

verus! {

/// The sequence with leading whitespace removed.
pub open spec fn trim_start_of(s: Seq<char>) -> Seq<char>
    decreases s.len(),
{
    if s.len() > 0 && is_space_char(s[0]) {
        trim_start_of(s.drop_first())
    } else {
        s
    }
}

/// The sequence with trailing whitespace removed.
pub open spec fn trim_end_of(s: Seq<char>) -> Seq<char>
    decreases s.len(),
{
    if s.len() > 0 && is_space_char(s.last()) {
        trim_end_of(s.drop_last())
    } else {
        s
    }
}

/// The sequence with surrounding whitespace removed.
pub open spec fn trim_of(s: Seq<char>) -> Seq<char> {
    trim_end_of(trim_start_of(s))
}

proof fn lemma_trim_start_skip(s: Seq<char>, i: int)
    requires
        0 <= i <= s.len(),
        forall|j: int| 0 <= j < i ==> is_space_char(s[j]),
    ensures
        trim_start_of(s) == trim_start_of(s.skip(i)),
    decreases i,
{
    if i > 0 {
        assert(s.skip(0) =~= s);
        lemma_trim_start_skip(s, i - 1);
        let t = s.skip(i - 1);
        assert(t.len() > 0 && is_space_char(t[0]));
        assert(t.drop_first() =~= s.skip(i));
    } else {
        assert(s.skip(0) =~= s);
    }
}

proof fn lemma_trim_end_sub(s: Seq<char>, end: int)
    requires
        0 <= end <= s.len(),
        forall|j: int| end <= j < s.len() ==> is_space_char(s[j]),
    ensures
        trim_end_of(s) == trim_end_of(s.take(end)),
    decreases s.len() - end,
{
    if end < s.len() {
        assert(s.take(s.len() as int) =~= s);
        assert(s.len() > 0 && is_space_char(s.last()));
        assert(s.drop_last() =~= s.take(s.len() - 1));
        lemma_trim_end_sub(s.take(s.len() - 1), end);
        assert(s.take(s.len() - 1).take(end) =~= s.take(end));
    } else {
        assert(s.take(s.len() as int) =~= s);
    }
}

/// Characters of the trimmed sequence, by index, for index-based loops.
pub fn trim_chars(v: &Vec<char>) -> (r: Vec<char>)
    ensures
        r@ == trim_of(v@),
{
    let n = v.len();
    let mut start: usize = 0;
    while start < n && space_char(v[start])
        invariant
            n == v@.len(),
            start <= n,
            forall|j: int| 0 <= j < start ==> is_space_char(v@[j]),
        decreases n - start,
    {
        start += 1;
    }
    proof {
        lemma_trim_start_skip(v@, start as int);
    }
    let ghost tail = v@.skip(start as int);
    if start == n {
        proof {
            assert(tail =~= Seq::<char>::empty());
            assert(trim_of(v@) =~= Seq::<char>::empty());
        }
        return Vec::new();
    }
    proof {
        // the first remaining character is not whitespace, so trim_start stops here
        assert(trim_start_of(tail) == tail);
    }
    let mut end: usize = n;
    while end > start + 1 && space_char(v[end - 1])
        invariant
            n == v@.len(),
            start < end <= n,
            forall|j: int| end <= j < n ==> is_space_char(v@[j]),
        decreases end,
    {
        end -= 1;
    }
    let mut r: Vec<char> = Vec::new();
    let mut i: usize = start;
    while i < end
        invariant
            start <= i <= end <= n,
            n == v@.len(),
            r@ == v@.subrange(start as int, i as int),
        decreases end - i,
    {
        r.push(v[i]);
        i += 1;
        proof {
            assert(v@.subrange(start as int, i as int) =~= v@.subrange(
                start as int,
                i as int - 1,
            ).push(v@[i as int - 1]));
        }
    }
    proof {
        assert(tail.take(end - start) =~= v@.subrange(start as int, end as int));
        lemma_trim_end_sub(tail, end - start);
        // the loop stopped at a non-space character, or at the single
        // leading character, which trim_start showed is not a space
        assert(trim_end_of(tail.take(end - start)) == tail.take(end - start));
    }
    r
}

/// How many whitespace-separated words a line holds: the number of
/// positions that begin a maximal run of non-whitespace characters.
pub open spec fn word_count_of(s: Seq<char>) -> nat
    decreases s.len(),
{
    if s.len() == 0 {
        0
    } else {
        word_count_of(s.drop_last()) + if !is_space_char(s.last()) && (s.len() == 1
            || is_space_char(s[s.len() - 2])) {
            1nat
        } else {
            0nat
        }
    }
}

/// Counts the whitespace-separated words of a line.
pub fn count_words_line(v: &Vec<char>) -> (r: usize)
    ensures
        r == word_count_of(v@),
{
    let mut count: usize = 0;
    let mut i: usize = 0;
    while i < v.len()
        invariant
            i <= v@.len(),
            count <= i,
            count == word_count_of(v@.take(i as int)),
        decreases v@.len() - i,
    {
        if !space_char(v[i]) && (i == 0 || space_char(v[i - 1])) {
            count += 1;
        }
        i += 1;
        proof {
            assert(v@.take(i as int).drop_last() =~= v@.take(i as int - 1));
        }
    }
    proof {
        assert(v@.take(v@.len() as int) =~= v@);
    }
    count
}

/// The whitespace-separated words of a line, in order: the maximal runs
/// of non-whitespace characters.
pub open spec fn words_of(s: Seq<char>) -> Seq<Seq<char>>
    decreases s.len(),
{
    if s.len() == 0 {
        Seq::empty()
    } else {
        let rest = words_of(s.drop_last());
        let c = s.last();
        if is_space_char(c) {
            rest
        } else if s.len() == 1 || is_space_char(s[s.len() - 2]) {
            rest.push(seq![c])
        } else {
            rest.update(rest.len() - 1, rest.last().push(c))
        }
    }
}

/// Splits a line into its whitespace-separated words.
pub fn split_words(s: &str) -> (r: Vec<String>)
    ensures
        r.deep_view() == words_of(s@),
{
    let v = crate::chars::to_char_vec(s);
    let n = v.len();
    let mut out: Vec<String> = Vec::new();
    let mut word: Vec<char> = Vec::new();
    let mut i: usize = 0;
    while i < n
        invariant
            n == v@.len(),
            v@ == s@,
            i <= n,
            word@.len() == 0 ==> {
                &&& out.deep_view() == words_of(s@.take(i as int))
                &&& (i == 0 || is_space_char(s@[i as int - 1]))
            },
            word@.len() > 0 ==> {
                &&& out.deep_view().push(word@) == words_of(s@.take(i as int))
                &&& i > 0
                &&& !is_space_char(s@[i as int - 1])
            },
        decreases n - i,
    {
        let ghost prefix = s@.take(i as int);
        let ghost old_out = out.deep_view();
        let ghost old_word = word@;
        let c = v[i];
        if space_char(c) {
            if word.len() > 0 {
                let w = crate::chars::string_of_chars(&word);
                out.push(w);
                word = Vec::new();
                proof {
                    assert(out.deep_view() =~= old_out.push(old_word));
                }
            }
        } else {
            word.push(c);
        }
        i += 1;
        proof {
            assert(s@.take(i as int).drop_last() =~= prefix);
            let cur = s@.take(i as int);
            if !is_space_char(c) && (i == 1 || is_space_char(s@[i as int - 2])) {
                // a new word starts with this character
                assert(words_of(cur) == words_of(prefix).push(seq![c]));
                assert(word@ =~= seq![c]);
            }
            if !is_space_char(c) && !(i == 1 || is_space_char(s@[i as int - 2])) {
                // the last word grows by one character
                assert(words_of(cur) == words_of(prefix).update(
                    words_of(prefix).len() - 1,
                    words_of(prefix).last().push(c),
                ));
                assert(old_out.push(old_word) == words_of(prefix));
                assert(words_of(prefix).last() == old_word);
                assert(words_of(prefix).update(words_of(prefix).len() - 1, old_word.push(c))
                    =~= old_out.push(old_word.push(c)));
                assert(out.deep_view().push(word@) =~= words_of(cur));
            }
        }
    }
    if word.len() > 0 {
        let w = crate::chars::string_of_chars(&word);
        let ghost old_out = out.deep_view();
        out.push(w);
        proof {
            assert(s@.take(n as int) =~= s@);
            assert(out.deep_view() =~= old_out.push(word@));
        }
    } else {
        proof {
            assert(s@.take(n as int) =~= s@);
        }
    }
    out
}

} // verus!
