//! Search-term counting over a fixed list of titles: how many titles
//! contain each distinct lowercased search word, reported in alphabetical
//! order.

use vstd::prelude::*;
use crate::text::words_of;

verus! {

/// The lowercase form of a sequence of characters; decided by the standard
/// library's Unicode tables, named here so contracts can speak of it.
pub uninterp spec fn lower_of(s: Seq<char>) -> Seq<char>;

/// Relies on `str::to_lowercase`: the result depends on the characters
/// alone, and an empty string stays empty.
#[verifier::external_body]
fn lowercase(s: &str) -> (r: String)
    ensures
        r@ == lower_of(s@),
        s@.len() == 0 ==> r@.len() == 0,
{
    s.to_lowercase()
}

/// Strict lexicographic order on character sequences, by Unicode scalar
/// value; this is the order in which the report is printed.
pub open spec fn lex_lt(a: Seq<char>, b: Seq<char>) -> bool
    decreases a.len(),
{
    &&& b.len() > 0
    &&& {
        ||| a.len() == 0
        ||| (a[0] as u32) < (b[0] as u32)
        ||| (a[0] == b[0] && lex_lt(a.drop_first(), b.drop_first()))
    }
}

proof fn lemma_lex_connex(a: Seq<char>, b: Seq<char>)
    requires
        a != b,
    ensures
        lex_lt(a, b) || lex_lt(b, a),
    decreases a.len(),
{
    if a.len() == 0 || b.len() == 0 {
        if a.len() == 0 && b.len() == 0 {
            assert(a =~= b);
        }
    } else {
        if a[0] == b[0] {
            if a.drop_first() == b.drop_first() {
                assert(a.drop_first().len() == b.drop_first().len());
                assert(a.len() == b.len());
                assert forall|i: int| 0 <= i < a.len() implies a[i] == b[i] by {
                    if i > 0 {
                        assert(a.drop_first()[i - 1] == a[i]);
                        assert(b.drop_first()[i - 1] == b[i]);
                        assert(a.drop_first()[i - 1] == b.drop_first()[i - 1]);
                    }
                }
                assert(a =~= b);
            } else {
                lemma_lex_connex(a.drop_first(), b.drop_first());
            }
        } else {
            vstd::utf8::char_u32_cast(a[0], a[0] as u32);
            vstd::utf8::char_u32_cast(b[0], b[0] as u32);
            assert(a[0] as u32 != b[0] as u32);
        }
    }
}

proof fn lemma_lex_trans(a: Seq<char>, b: Seq<char>, c: Seq<char>)
    requires
        lex_lt(a, b),
        lex_lt(b, c),
    ensures
        lex_lt(a, c),
    decreases a.len(),
{
    if a.len() > 0 && b.len() > 0 && a[0] == b[0] && b[0] == c[0] {
        lemma_lex_trans(a.drop_first(), b.drop_first(), c.drop_first());
    }
}

/// Lexicographic comparison of two character vectors.
fn chars_lt(a: &Vec<char>, b: &Vec<char>) -> (r: bool)
    ensures
        r == lex_lt(a@, b@),
{
    proof {
        assert(a@.skip(0) =~= a@);
        assert(b@.skip(0) =~= b@);
    }
    let mut i: usize = 0;
    while i < a.len() && i < b.len()
        invariant
            i <= a@.len(),
            i <= b@.len(),
            forall|j: int| 0 <= j < i ==> a@[j] == b@[j],
            lex_lt(a@, b@) == lex_lt(a@.skip(i as int), b@.skip(i as int)),
        decreases a@.len() - i,
    {
        let x = a[i];
        let y = b[i];
        if x != y {
            proof {
                assert(a@.skip(i as int)[0] == x);
                assert(b@.skip(i as int)[0] == y);
                vstd::utf8::char_u32_cast(x, x as u32);
                vstd::utf8::char_u32_cast(y, y as u32);
            }
            return x < y;
        }
        i += 1;
        proof {
            assert(a@.skip(i as int - 1).drop_first() =~= a@.skip(i as int));
            assert(b@.skip(i as int - 1).drop_first() =~= b@.skip(i as int));
        }
    }
    proof {
        if i == a@.len() {
            assert(a@.skip(i as int) =~= Seq::<char>::empty());
        } else {
            assert(b@.skip(i as int) =~= Seq::<char>::empty());
        }
    }
    i == a.len() && i < b.len()
}

/// How many of the titles contain the word among their lowercased
/// whitespace-separated words.
pub open spec fn title_count(w: Seq<char>, titles: Seq<Seq<char>>) -> nat
    decreases titles.len(),
{
    if titles.len() == 0 {
        0
    } else {
        title_count(w, titles.drop_last()) + if words_of(lower_of(titles.last())).contains(w) {
            1nat
        } else {
            0nat
        }
    }
}

/// The distinct lowercased search words of an input line.
pub open spec fn lowered_words(l: Seq<char>) -> Seq<Seq<char>> {
    words_of(l).map_values(|w: Seq<char>| lower_of(w))
}

fn word_eq(a: &String, b: &String) -> (r: bool)
    ensures
        r == (a@ == b@),
{
    a.eq(b)
}

/// Whether a word occurs in a list of words.
fn contains_word(words: &Vec<String>, w: &String) -> (r: bool)
    ensures
        r == words.deep_view().contains(w@),
{
    let mut i: usize = 0;
    while i < words.len()
        invariant
            i <= words@.len(),
            forall|j: int| 0 <= j < i ==> words.deep_view()[j] != w@,
        decreases words@.len() - i,
    {
        if word_eq(&words[i], w) {
            proof {
                assert(words.deep_view()[i as int] == w@);
            }
            return true;
        }
        i += 1;
    }
    false
}

/// Counts the titles that contain the given lowercased word.
fn count_in_titles(w: &String, titles: &Vec<String>) -> (c: usize)
    ensures
        c == title_count(w@, titles.deep_view()),
{
    let mut c: usize = 0;
    let mut i: usize = 0;
    while i < titles.len()
        invariant
            i <= titles@.len(),
            c <= i,
            c == title_count(w@, titles.deep_view().take(i as int)),
        decreases titles@.len() - i,
    {
        let lt = lowercase(titles[i].as_str());
        let tw = crate::text::split_words(lt.as_str());
        proof {
            assert(titles.deep_view()[i as int] == titles@[i as int]@);
            assert(titles.deep_view().take(i + 1).drop_last() =~= titles.deep_view().take(
                i as int,
            ));
        }
        if contains_word(&tw, w) {
            c += 1;
        }
        i += 1;
    }
    proof {
        assert(titles.deep_view().take(titles@.len() as int) =~= titles.deep_view());
    }
    c
}

/// The first position whose word is not below `wc` in alphabetical order.
fn lower_bound(uniq: &Vec<String>, wc: &Vec<char>) -> (j: usize)
    ensures
        j <= uniq@.len(),
        forall|k: int| 0 <= k < j ==> lex_lt(#[trigger] uniq.deep_view()[k], wc@),
        j < uniq@.len() ==> !lex_lt(uniq.deep_view()[j as int], wc@),
{
    let mut j: usize = 0;
    while j < uniq.len()
        invariant
            j <= uniq@.len(),
            forall|k: int| 0 <= k < j ==> lex_lt(#[trigger] uniq.deep_view()[k], wc@),
        decreases uniq@.len() - j,
    {
        let cj = crate::chars::to_char_vec(uniq[j].as_str());
        proof {
            assert(cj@ == uniq.deep_view()[j as int]);
        }
        if !chars_lt(&cj, wc) {
            return j;
        }
        j += 1;
    }
    j
}

/// Inserts a word into an alphabetically sorted list of distinct words,
/// keeping it sorted; a word already present is left alone.
fn insert_sorted(uniq: &mut Vec<String>, w: String)
    requires
        forall|k1: int, k2: int|
            0 <= k1 < k2 < old(uniq)@.len() ==> lex_lt(
                #[trigger] old(uniq).deep_view()[k1],
                #[trigger] old(uniq).deep_view()[k2],
            ),
    ensures
        forall|k1: int, k2: int|
            0 <= k1 < k2 < final(uniq)@.len() ==> lex_lt(
                #[trigger] final(uniq).deep_view()[k1],
                #[trigger] final(uniq).deep_view()[k2],
            ),
        forall|x: Seq<char>|
            final(uniq).deep_view().contains(x) == (old(uniq).deep_view().contains(x) || x == w@),
{
    let wc = crate::chars::to_char_vec(w.as_str());
    let j = lower_bound(uniq, &wc);
    if j < uniq.len() && word_eq(&uniq[j], &w) {
        proof {
            assert(uniq.deep_view()[j as int] == w@);
            assert(uniq.deep_view().contains(w@));
        }
        return ;
    }
    let ghost old_dv = uniq.deep_view();
    proof {
        if j < old_dv.len() {
            lemma_lex_connex(old_dv[j as int], w@);
        }
    }
    uniq.insert(j, w);
    proof {
        let dv = uniq.deep_view();
        assert forall|k: int| 0 <= k < dv.len() implies #[trigger] dv[k] == (if k < j {
            old_dv[k]
        } else if k == j {
            w@
        } else {
            old_dv[k - 1]
        }) by {}
        assert forall|k1: int, k2: int| 0 <= k1 < k2 < dv.len() implies lex_lt(
            #[trigger] dv[k1],
            #[trigger] dv[k2],
        ) by {
            if k1 == j {
                // the inserted word is below the old word at j, which is
                // below everything behind it
                if k2 - 1 > j {
                    lemma_lex_trans(w@, old_dv[j as int], old_dv[k2 - 1]);
                }
            } else if k2 == j {
                assert(lex_lt(dv[k1], w@));
            } else if k1 < j && k2 > j {
                assert(lex_lt(old_dv[k1], w@));
                if k2 - 1 > j {
                    lemma_lex_trans(old_dv[k1], old_dv[j as int], old_dv[k2 - 1]);
                }
            }
        }
        assert forall|x: Seq<char>|
            dv.contains(x) == (old_dv.contains(x) || x == w@) by {
            if old_dv.contains(x) {
                let k = choose|k: int| 0 <= k < old_dv.len() && old_dv[k] == x;
                if k < j {
                    assert(dv[k] == x);
                } else {
                    assert(dv[k + 1] == x);
                }
            }
            if dv.contains(x) {
                let k = choose|k: int| 0 <= k < dv.len() && dv[k] == x;
                if k < j {
                    assert(old_dv[k] == x);
                } else if k > j {
                    assert(old_dv[k - 1] == x);
                }
            }
            if x == w@ {
                assert(dv[j as int] == x);
            }
        }
    }
}

/// The fixed list of movie titles searched by the title-search tool.
pub fn movie_titles() -> (r: Vec<String>)
    ensures
        r.deep_view() == seq![
            "Love Actually"@,
            "STAR WARS"@,
            "From Russia With love"@,
            "Dr. Strangelove"@,
            "Bourne Ultimatum"@,
            "The fault in our stars"@,
            "Bourne supremacy"@,
            "A star is born"@,
            "Starsky and Hutch"@,
            "Star Trek"@,
            "Lover's Paradise"@,
            "A Christmas Star"@,
            "Chitty Chitty Bang Bang"@,
            "Ernest Saves Christmas"@,
            "A CHRISTMAS CAROL"@,
            "The Muppet Christmas Carol"@,
            "White Christmas"@,
            "Fahrenheit 451"@,
        ],
{
    let r: Vec<String> = vec![
        String::from_str("Love Actually"),
        String::from_str("STAR WARS"),
        String::from_str("From Russia With love"),
        String::from_str("Dr. Strangelove"),
        String::from_str("Bourne Ultimatum"),
        String::from_str("The fault in our stars"),
        String::from_str("Bourne supremacy"),
        String::from_str("A star is born"),
        String::from_str("Starsky and Hutch"),
        String::from_str("Star Trek"),
        String::from_str("Lover's Paradise"),
        String::from_str("A Christmas Star"),
        String::from_str("Chitty Chitty Bang Bang"),
        String::from_str("Ernest Saves Christmas"),
        String::from_str("A CHRISTMAS CAROL"),
        String::from_str("The Muppet Christmas Carol"),
        String::from_str("White Christmas"),
        String::from_str("Fahrenheit 451"),
    ];
    proof {
        assert(r.deep_view() =~= seq![
            "Love Actually"@,
            "STAR WARS"@,
            "From Russia With love"@,
            "Dr. Strangelove"@,
            "Bourne Ultimatum"@,
            "The fault in our stars"@,
            "Bourne supremacy"@,
            "A star is born"@,
            "Starsky and Hutch"@,
            "Star Trek"@,
            "Lover's Paradise"@,
            "A Christmas Star"@,
            "Chitty Chitty Bang Bang"@,
            "Ernest Saves Christmas"@,
            "A CHRISTMAS CAROL"@,
            "The Muppet Christmas Carol"@,
            "White Christmas"@,
            "Fahrenheit 451"@,
        ]);
    }
    r
}

/// One row of the search report: a lowercased search word and how many
/// titles contain it.
pub struct WordCount {
    /// The lowercased search word.
    pub word: String,
    /// How many titles contain it.
    pub count: usize,
}

/// Counts, for each distinct lowercased word of the input line, how many
/// titles contain it among their lowercased words; words found in no title
/// are left out, and the rows come in strict alphabetical order.
pub fn search_counts(input: &str, titles: &Vec<String>) -> (r: Vec<WordCount>)
    ensures
        forall|k: int|
            0 <= k < r@.len() ==> {
                &&& lowered_words(input@).contains(#[trigger] r@[k].word@)
                &&& r@[k].count == title_count(r@[k].word@, titles.deep_view())
                &&& r@[k].count >= 1
            },
        forall|w: Seq<char>|
            lowered_words(input@).contains(w) && title_count(w, titles.deep_view()) >= 1
                ==> exists|k: int| 0 <= k < r@.len() && #[trigger] r@[k].word@ == w,
        forall|k1: int, k2: int|
            0 <= k1 < k2 < r@.len() ==> lex_lt(#[trigger] r@[k1].word@, #[trigger] r@[k2].word@),
{
    let words = crate::text::split_words(input);
    let mut uniq: Vec<String> = Vec::new();
    let mut i: usize = 0;
    while i < words.len()
        invariant
            i <= words@.len(),
            words.deep_view() == words_of(input@),
            forall|k1: int, k2: int|
                0 <= k1 < k2 < uniq@.len() ==> lex_lt(
                    #[trigger] uniq.deep_view()[k1],
                    #[trigger] uniq.deep_view()[k2],
                ),
            forall|x: Seq<char>|
                #[trigger] uniq.deep_view().contains(x) == exists|jj: int|
                    0 <= jj < i && lower_of(#[trigger] words.deep_view()[jj]) == x,
        decreases words@.len() - i,
    {
        let ghost old_uv = uniq.deep_view();
        let lw = lowercase(words[i].as_str());
        proof {
            assert(words.deep_view()[i as int] == words@[i as int]@);
        }
        insert_sorted(&mut uniq, lw);
        i += 1;
        proof {
            assert forall|x: Seq<char>|
                #[trigger] uniq.deep_view().contains(x) == exists|jj: int|
                    0 <= jj < i && lower_of(#[trigger] words.deep_view()[jj]) == x by {
                if uniq.deep_view().contains(x) {
                    if x == lw@ {
                        assert(lower_of(words.deep_view()[i - 1]) == x);
                    }
                }
                if exists|jj: int| 0 <= jj < i && lower_of(#[trigger] words.deep_view()[jj]) == x {
                    let jj = choose|jj: int|
                        0 <= jj < i && lower_of(#[trigger] words.deep_view()[jj]) == x;
                    if jj == i - 1 {
                        assert(x == lw@);
                    } else {
                        assert(old_uv.contains(x));
                    }
                }
            }
        }
    }
    proof {
        assert forall|x: Seq<char>|
            #[trigger] uniq.deep_view().contains(x) == lowered_words(input@).contains(x) by {
            if uniq.deep_view().contains(x) {
                let jj = choose|jj: int|
                    0 <= jj < words@.len() && lower_of(#[trigger] words.deep_view()[jj]) == x;
                assert(lowered_words(input@)[jj] == x);
            }
            if lowered_words(input@).contains(x) {
                let jj = choose|jj: int|
                    0 <= jj < lowered_words(input@).len() && lowered_words(input@)[jj] == x;
                assert(lower_of(words.deep_view()[jj]) == x);
            }
        }
    }
    let mut r: Vec<WordCount> = Vec::new();
    let mut j: usize = 0;
    while j < uniq.len()
        invariant
            j <= uniq@.len(),
            forall|k1: int, k2: int|
                0 <= k1 < k2 < uniq@.len() ==> lex_lt(
                    #[trigger] uniq.deep_view()[k1],
                    #[trigger] uniq.deep_view()[k2],
                ),
            forall|x: Seq<char>|
                #[trigger] uniq.deep_view().contains(x) == lowered_words(input@).contains(x),
            forall|k: int|
                0 <= k < r@.len() ==> {
                    &&& lowered_words(input@).contains(#[trigger] r@[k].word@)
                    &&& r@[k].count == title_count(r@[k].word@, titles.deep_view())
                    &&& r@[k].count >= 1
                },
            forall|k1: int, k2: int|
                0 <= k1 < k2 < r@.len() ==> lex_lt(
                    #[trigger] r@[k1].word@,
                    #[trigger] r@[k2].word@,
                ),
            forall|k: int|
                0 <= k < r@.len() ==> exists|jj: int|
                    0 <= jj < j && #[trigger] r@[k].word@ == uniq.deep_view()[jj],
            forall|jj: int|
                0 <= jj < j && title_count(#[trigger] uniq.deep_view()[jj], titles.deep_view())
                    >= 1 ==> exists|k: int|
                    0 <= k < r@.len() && #[trigger] r@[k].word@ == uniq.deep_view()[jj],
        decreases uniq@.len() - j,
    {
        let c = count_in_titles(&uniq[j], titles);
        proof {
            assert(uniq@[j as int]@ == uniq.deep_view()[j as int]);
            assert(uniq.deep_view().contains(uniq.deep_view()[j as int]));
        }
        let ghost old_rv = r@;
        if c >= 1 {
            let word = uniq[j].clone();
            r.push(WordCount { word, count: c });
            proof {
                assert(r@[r@.len() - 1].word@ == uniq.deep_view()[j as int]);
                assert forall|k1: int, k2: int|
                    0 <= k1 < k2 < r@.len() implies lex_lt(
                    #[trigger] r@[k1].word@,
                    #[trigger] r@[k2].word@,
                ) by {
                    if k2 == r@.len() - 1 {
                        let jj = choose|jj: int|
                            0 <= jj < j && #[trigger] r@[k1].word@ == uniq.deep_view()[jj];
                        assert(lex_lt(uniq.deep_view()[jj], uniq.deep_view()[j as int]));
                    }
                }
            }
        }
        j += 1;
        proof {
            assert forall|jj: int|
                0 <= jj < j && title_count(
                    #[trigger] uniq.deep_view()[jj],
                    titles.deep_view(),
                ) >= 1 implies exists|k: int|
                0 <= k < r@.len() && #[trigger] r@[k].word@ == uniq.deep_view()[jj] by {
                if jj == j - 1 {
                    assert(c >= 1);
                    assert(r@[r@.len() - 1].word@ == uniq.deep_view()[jj]);
                } else {
                    let k = choose|k: int|
                        0 <= k < old_rv.len() && #[trigger] old_rv[k].word@ == uniq.deep_view()[jj];
                    assert(r@[k].word@ == uniq.deep_view()[jj]);
                }
            }
        }
    }
    proof {
        assert forall|w: Seq<char>|
            lowered_words(input@).contains(w) && title_count(w, titles.deep_view()) >= 1
            implies exists|k: int| 0 <= k < r@.len() && #[trigger] r@[k].word@ == w by {
            assert(uniq.deep_view().contains(w));
            let jj = choose|jj: int|
                0 <= jj < uniq.deep_view().len() && uniq.deep_view()[jj] == w;
        }
    }
    r
}

} // verus!
