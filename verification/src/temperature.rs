//! The temperature converter's unit handling: which inputs name a unit,
//! and the unit's canonical upper-case letter.

use vstd::prelude::*;

verus! {

/// The unit named by a trimmed input: `C`, `F` or `K` in either case,
/// anything else refused.
pub open spec fn spec_unit_of(s: Seq<char>) -> Option<char> {
    if s.len() == 1 && (s[0] == 'C' || s[0] == 'c') {
        Some('C')
    } else if s.len() == 1 && (s[0] == 'F' || s[0] == 'f') {
        Some('F')
    } else if s.len() == 1 && (s[0] == 'K' || s[0] == 'k') {
        Some('K')
    } else {
        None
    }
}

/// Recognizes a temperature-unit choice and returns its canonical letter.
pub fn unit_from_input(s: &str) -> (r: Option<char>)
    ensures
        r == spec_unit_of(s@),
{
    let v = crate::chars::to_char_vec(s);
    if v.len() != 1 {
        return None;
    }
    let c = v[0];
    if c == 'C' || c == 'c' {
        Some('C')
    } else if c == 'F' || c == 'f' {
        Some('F')
    } else if c == 'K' || c == 'k' {
        Some('K')
    } else {
        None
    }
}

} // verus!
