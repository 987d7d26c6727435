//! Palindrome checking: cleaning a string down to its lowercased
//! alphanumeric characters, and two byte-wise palindrome tests.

use vstd::prelude::*;
use vstd::string::StringSliceAdditionalSpecFns;
use crate::chars::{char_lower, lower_char, push_char};

verus! {

/// Whether a character counts as alphanumeric under Unicode; decided by
/// the standard library, named here so contracts can speak of it.
pub uninterp spec fn unicode_alphanumeric(c: char) -> bool;

/// Relies on `char::is_alphanumeric`: true exactly for Unicode letters
/// and numeric characters, a function of the character alone. ASCII
/// lowercasing maps `'A'..='Z'` to `'a'..='z'`, letters either way, and
/// leaves every other character unchanged, so an accepted character stays
/// accepted after it.
#[verifier::external_body]
fn alphanumeric_char(c: char) -> (r: bool)
    ensures
        r == unicode_alphanumeric(c),
        r ==> unicode_alphanumeric(char_lower(c)),
{
    c.is_alphanumeric()
}

/// The alphanumeric characters of a string, each ASCII-lowercased, in order.
pub open spec fn cleaned_of(s: Seq<char>) -> Seq<char>
    decreases s.len(),
{
    if s.len() == 0 {
        Seq::empty()
    } else if unicode_alphanumeric(s.last()) {
        cleaned_of(s.drop_last()).push(char_lower(s.last()))
    } else {
        cleaned_of(s.drop_last())
    }
}

/// A sequence that cleaning leaves alone: every character accepted and
/// already lowercased.
proof fn lemma_cleaned_of_fixed(s: Seq<char>)
    requires
        forall|i: int|
            0 <= i < s.len() ==> unicode_alphanumeric(#[trigger] s[i]) && char_lower(s[i]) == s[i],
    ensures
        cleaned_of(s) == s,
    decreases s.len(),
{
    if s.len() > 0 {
        lemma_cleaned_of_fixed(s.drop_last());
        assert(cleaned_of(s.drop_last()).push(char_lower(s.last())) =~= s);
    } else {
        assert(cleaned_of(s) =~= s);
    }
}

/// Keeps only the alphanumeric characters of the string, ASCII-lowercased.
/// Cleaning is idempotent: the result is its own cleaned form.
pub fn remove_non_alphanumeric(s: &str) -> (r: String)
    ensures
        r@ == cleaned_of(s@),
        cleaned_of(r@) == r@,
{
    let n = s.unicode_len();
    let mut r = String::new();
    let mut i: usize = 0;
    while i < n
        invariant
            n == s@.len(),
            i <= n,
            r@ == cleaned_of(s@.take(i as int)),
            forall|k: int|
                0 <= k < r@.len() ==> unicode_alphanumeric(#[trigger] r@[k]) && char_lower(r@[k])
                    == r@[k],
        decreases n - i,
    {
        let c = s.get_char(i);
        if alphanumeric_char(c) {
            proof {
                // lowering is a fixpoint: a lowered character is not upper case
                assert(char_lower(char_lower(c)) == char_lower(c));
            }
            push_char(&mut r, lower_char(c));
        }
        i += 1;
        proof {
            assert(s@.take(i as int).drop_last() =~= s@.take(i as int - 1));
        }
    }
    proof {
        assert(s@.take(n as int) =~= s@);
        lemma_cleaned_of_fixed(r@);
    }
    r
}

/// A sequence of bytes that reads the same forwards and backwards.
pub open spec fn bytes_palindrome(b: Seq<u8>) -> bool {
    forall|i: int| 0 <= i < b.len() ==> #[trigger] b[i] == b[b.len() - 1 - i]
}

/// Palindrome test over the string's bytes, by a loop over the first half.
pub fn is_pal_loop(s: &str) -> (r: bool)
    ensures
        r == bytes_palindrome(s.spec_bytes()),
{
    let chars: Vec<u8> = s.as_bytes_vec();
    let len = chars.len();
    let mut i: usize = 0;
    while i < len / 2
        invariant
            chars@ == s.spec_bytes(),
            len == chars@.len(),
            i <= len,
            forall|j: int| 0 <= j < i ==> #[trigger] chars@[j] == chars@[len - 1 - j],
        decreases len / 2 - i,
    {
        if chars[i] != chars[len - 1 - i] {
            proof {
                assert(!bytes_palindrome(chars@)) by {
                    assert(chars@[i as int] != chars@[len - 1 - i as int]);
                }
            }
            return false;
        }
        i += 1;
    }
    proof {
        assert forall|j: int| 0 <= j < len implies #[trigger] chars@[j] == chars@[len - 1 - j] by {
            if j >= len - i {
                assert(chars@[len - 1 - j] == chars@[len - 1 - (len - 1 - j)]);
            }
        }
    }
    true
}

/// Whether the byte range `lo..=hi` is symmetric about its middle.
pub open spec fn sym_between(b: Seq<u8>, lo: int, hi: int) -> bool {
    forall|i: int| lo <= i <= hi ==> #[trigger] b[i] == b[hi - (i - lo)]
}

fn pal_range(chars: &Vec<u8>, start: usize, end: usize) -> (r: bool)
    requires
        end < chars@.len(),
    ensures
        r == sym_between(chars@, start as int, end as int),
    decreases end + 1 - start,
{
    if start >= end {
        return true;
    }
    if chars[start] != chars[end] {
        proof {
            assert(!sym_between(chars@, start as int, end as int)) by {
                assert(chars@[start as int] != chars@[end as int]);
            }
        }
        return false;
    }
    let r = pal_range(chars, start + 1, end - 1);
    proof {
        if r {
            assert forall|i: int| start <= i <= end implies #[trigger] chars@[i] == chars@[
                end - (i - start)
            ] by {
                if start < i < end {
                    assert(chars@[i] == chars@[(end - 1) - (i - (start + 1))]);
                }
            }
        } else {
            let w = choose|i: int|
                start + 1 <= i <= end - 1 && #[trigger] chars@[i] != chars@[(end - 1) - (i - (start
                    + 1))];
            assert(chars@[w] != chars@[end - (w - start)]);
        }
    }
    r
}

/// Palindrome test over the string's bytes, by recursion from both ends.
/// The original pairs the first and last byte, so the string may not be empty.
pub fn is_pal_recursion(s: &str) -> (r: bool)
    requires
        s@.len() > 0,
    ensures
        r == bytes_palindrome(s.spec_bytes()),
{
    let chars: Vec<u8> = s.as_bytes_vec();
    proof {
        // one character encodes to at least one byte
        assert(s.spec_bytes().len() > 0);
    }
    pal_range(&chars, 0, chars.len() - 1)
}

} // verus!
