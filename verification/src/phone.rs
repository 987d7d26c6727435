//! Phone-number validation: classifies each line of a phone-list file as a
//! well-formed or malformed North-American phone number, applies the
//! numbering-plan rules to the well-formed ones, and builds the two report
//! lists (valid numbers with a masked international form, invalid numbers
//! with a reason).

use vstd::prelude::*;
use vstd::string::StringExecFns;
use crate::chars::{
    is_digit_char, digit_char, is_space_char, char_lower, to_char_vec, push_char, string_of_chars,
};
use crate::text::{trim_of, trim_start_of, trim_end_of, trim_chars};

verus! {

// ------------------------------------------------------------------
// Digit extraction (normalization)
// ------------------------------------------------------------------

/// The decimal digits of a sequence, in order, everything else removed.
pub open spec fn digits_of(s: Seq<char>) -> Seq<char>
    decreases s.len(),
{
    if s.len() == 0 {
        Seq::empty()
    } else if is_digit_char(s.last()) {
        digits_of(s.drop_last()).push(s.last())
    } else {
        digits_of(s.drop_last())
    }
}

/// Every character of an extracted digit string is a decimal digit.
pub proof fn lemma_digits_of_digits(s: Seq<char>)
    ensures
        forall|i: int| 0 <= i < digits_of(s).len() ==> is_digit_char(#[trigger] digits_of(s)[i]),
    decreases s.len(),
{
    if s.len() > 0 {
        lemma_digits_of_digits(s.drop_last());
        assert forall|i: int|
            0 <= i < digits_of(s).len() implies is_digit_char(#[trigger] digits_of(s)[i]) by {
            if is_digit_char(s.last()) && i == digits_of(s).len() - 1 {
                assert(digits_of(s)[i] == s.last());
            } else {
                assert(digits_of(s)[i] == digits_of(s.drop_last())[i]);
            }
        }
    }
}

/// A sequence that is all digits is its own digit string.
pub proof fn lemma_digits_of_identity(s: Seq<char>)
    requires
        forall|i: int| 0 <= i < s.len() ==> is_digit_char(#[trigger] s[i]),
    ensures
        digits_of(s) == s,
    decreases s.len(),
{
    if s.len() > 0 {
        lemma_digits_of_identity(s.drop_last());
        assert(digits_of(s.drop_last()).push(s.last()) =~= s);
    } else {
        assert(digits_of(s) =~= s);
    }
}

/// Digit extraction is idempotent: extracting from an already extracted
/// digit string gives it back unchanged.
pub proof fn lemma_normalize_idempotent(s: Seq<char>)
    ensures
        digits_of(digits_of(s)) == digits_of(s),
{
    lemma_digits_of_digits(s);
    lemma_digits_of_identity(digits_of(s));
}

/// Strips every non-digit character from the string.
pub fn clean_phone_number(phone_number: &str) -> (r: String)
    ensures
        r@ == digits_of(phone_number@),
{
    let v = to_char_vec(phone_number);
    let d = digit_chars(&v);
    string_of_chars(&d)
}

/// The digits of a character vector, as a vector.
fn digit_chars(v: &Vec<char>) -> (r: Vec<char>)
    ensures
        r@ == digits_of(v@),
{
    let mut r: Vec<char> = Vec::new();
    let mut i: usize = 0;
    while i < v.len()
        invariant
            i <= v@.len(),
            r@ == digits_of(v@.take(i as int)),
        decreases v@.len() - i,
    {
        if digit_char(v[i]) {
            r.push(v[i]);
        }
        i += 1;
        proof {
            assert(v@.take(i as int).drop_last() =~= v@.take(i as int - 1));
        }
    }
    proof {
        assert(v@.take(v@.len() as int) =~= v@);
    }
    r
}

// ------------------------------------------------------------------
// Coarse format recognition
// ------------------------------------------------------------------

/// `(DDD) DDD-DDDD`
pub open spec fn layout_paren(t: Seq<char>) -> bool {
    &&& t.len() == 14
    &&& t[0] == '('
    &&& is_digit_char(t[1])
    &&& is_digit_char(t[2])
    &&& is_digit_char(t[3])
    &&& t[4] == ')'
    &&& t[5] == ' '
    &&& is_digit_char(t[6])
    &&& is_digit_char(t[7])
    &&& is_digit_char(t[8])
    &&& t[9] == '-'
    &&& is_digit_char(t[10])
    &&& is_digit_char(t[11])
    &&& is_digit_char(t[12])
    &&& is_digit_char(t[13])
}

/// `DDD<sep>DDD<sep>DDDD` for a single separator character.
pub open spec fn layout_sep(t: Seq<char>, sep: char) -> bool {
    &&& t.len() == 12
    &&& is_digit_char(t[0])
    &&& is_digit_char(t[1])
    &&& is_digit_char(t[2])
    &&& t[3] == sep
    &&& is_digit_char(t[4])
    &&& is_digit_char(t[5])
    &&& is_digit_char(t[6])
    &&& t[7] == sep
    &&& is_digit_char(t[8])
    &&& is_digit_char(t[9])
    &&& is_digit_char(t[10])
    &&& is_digit_char(t[11])
}

/// `DDDDDDDDDD`: ten digits and nothing else.
pub open spec fn layout_plain(t: Seq<char>) -> bool {
    &&& t.len() == 10
    &&& forall|i: int| 0 <= i < 10 ==> is_digit_char(#[trigger] t[i])
}

/// The five accepted layouts of a trimmed candidate line.
pub open spec fn is_candidate(t: Seq<char>) -> bool {
    ||| layout_paren(t)
    ||| layout_sep(t, '-')
    ||| layout_sep(t, '.')
    ||| layout_sep(t, ' ')
    ||| layout_plain(t)
}

/// Whether the trimmed characters match one of the five accepted layouts.
pub fn candidate_format(t: &Vec<char>) -> (r: bool)
    ensures
        r == is_candidate(t@),
{
    if t.len() == 14 {
        t[0] == '(' && digit_char(t[1]) && digit_char(t[2]) && digit_char(t[3]) && t[4] == ')'
            && t[5] == ' ' && digit_char(t[6]) && digit_char(t[7]) && digit_char(t[8]) && t[9]
            == '-' && digit_char(t[10]) && digit_char(t[11]) && digit_char(t[12]) && digit_char(
            t[13],
        )
    } else if t.len() == 12 {
        let sep = t[3];
        (sep == '-' || sep == '.' || sep == ' ') && t[7] == sep && digit_char(t[0]) && digit_char(
            t[1],
        ) && digit_char(t[2]) && digit_char(t[4]) && digit_char(t[5]) && digit_char(t[6])
            && digit_char(t[8]) && digit_char(t[9]) && digit_char(t[10]) && digit_char(t[11])
    } else if t.len() == 10 {
        let mut i: usize = 0;
        let mut all: bool = true;
        while i < 10
            invariant
                i <= 10,
                t@.len() == 10,
                all == forall|j: int| 0 <= j < i ==> is_digit_char(#[trigger] t@[j]),
            decreases 10 - i,
        {
            if !digit_char(t[i]) {
                all = false;
            }
            i += 1;
        }
        all
    } else {
        false
    }
}

/// An accepted candidate yields exactly ten digits, all decimal.
pub proof fn lemma_candidate_digits(t: Seq<char>)
    requires
        is_candidate(t),
    ensures
        digits_of(t).len() == 10,
        forall|i: int| 0 <= i < digits_of(t).len() ==> is_digit_char(#[trigger] digits_of(t)[i]),
{
    lemma_digits_of_digits(t);
    if layout_plain(t) {
        lemma_digits_of_identity(t);
    } else {
        reveal_with_fuel(digits_of, 15);
        assert(digits_of(t).len() == 10);
    }
}

// ------------------------------------------------------------------
// Numbering-plan rules
// ------------------------------------------------------------------

/// Why a line is rejected.
#[derive(Clone, Copy, Debug, PartialEq, Eq, Structural)]
pub enum InvalidReason {
    /// The extracted digit string is not exactly ten digits long.
    InvalidLength,
    /// The area code breaks the numbering-plan pattern.
    InvalidAreaCode,
    /// The exchange code breaks the numbering-plan pattern.
    InvalidExchangeCode,
    /// The exchange code's second and third digits are both `1`.
    ExchangeCodeRepeatedOne,
    /// The line matches none of the accepted layouts.
    UnrecognizedFormat,
}

/// `'2'..='9'`.
pub open spec fn is_digit_2_to_9(c: char) -> bool {
    '2' as u32 <= c as u32 && c as u32 <= '9' as u32
}

/// `'0'..='8'`.
pub open spec fn is_digit_0_to_8(c: char) -> bool {
    '0' as u32 <= c as u32 && c as u32 <= '8' as u32
}

/// Area code rule over a ten-digit string: first digit `2-9`, second `0-8`,
/// third any digit.
pub open spec fn valid_area_code(d: Seq<char>) -> bool {
    is_digit_2_to_9(d[0]) && is_digit_0_to_8(d[1]) && is_digit_char(d[2])
}

/// Exchange code rule over a ten-digit string: fourth digit `2-9`, fifth and
/// sixth any digit.
pub open spec fn valid_exchange_code(d: Seq<char>) -> bool {
    is_digit_2_to_9(d[3]) && is_digit_char(d[4]) && is_digit_char(d[5])
}

/// The exchange code's second and third digits are both `1`.
pub open spec fn exchange_repeated_one(d: Seq<char>) -> bool {
    d[4] == '1' && d[5] == '1'
}

/// The numbering-plan rule chain over an extracted digit string; the first
/// failing rule wins.
pub open spec fn spec_validate(d: Seq<char>) -> Result<(), InvalidReason> {
    if d.len() != 10 {
        Err(InvalidReason::InvalidLength)
    } else if !valid_area_code(d) {
        Err(InvalidReason::InvalidAreaCode)
    } else if !valid_exchange_code(d) {
        Err(InvalidReason::InvalidExchangeCode)
    } else if exchange_repeated_one(d) {
        Err(InvalidReason::ExchangeCodeRepeatedOne)
    } else {
        Ok(())
    }
}

/// Applies the numbering-plan rules to the digits extracted from the text.
pub fn validate_phone_number(phone_number: &str) -> (r: Result<(), InvalidReason>)
    ensures
        r == spec_validate(digits_of(phone_number@)),
{
    let v = to_char_vec(phone_number);
    let d = digit_chars(&v);
    validate_digits(&d)
}

/// The rule chain over an already extracted digit vector.
pub fn validate_digits(d: &Vec<char>) -> (r: Result<(), InvalidReason>)
    ensures
        r == spec_validate(d@),
{
    if d.len() != 10 {
        return Err(InvalidReason::InvalidLength);
    }
    if !(digit_2_to_9(d[0]) && digit_0_to_8(d[1]) && digit_char(d[2])) {
        return Err(InvalidReason::InvalidAreaCode);
    }
    if !(digit_2_to_9(d[3]) && digit_char(d[4]) && digit_char(d[5])) {
        return Err(InvalidReason::InvalidExchangeCode);
    }
    if d[4] == '1' && d[5] == '1' {
        return Err(InvalidReason::ExchangeCodeRepeatedOne);
    }
    Ok(())
}

fn digit_2_to_9(c: char) -> (r: bool)
    ensures
        r == is_digit_2_to_9(c),
{
    '2' <= c && c <= '9'
}

fn digit_0_to_8(c: char) -> (r: bool)
    ensures
        r == is_digit_0_to_8(c),
{
    '0' <= c && c <= '8'
}

// ------------------------------------------------------------------
// Toll-free recognition
// ------------------------------------------------------------------

/// A separator accepted between the groups of a toll-free number.
pub open spec fn is_sep_char(c: char) -> bool {
    c == '-' || c == '.' || is_space_char(c)
}

/// The two digits that may follow the leading `8` of a toll-free area code:
/// `00`, `33`, `44`, `55`, `66`, `77` or `88`.
pub open spec fn toll_free_pair(c1: char, c2: char) -> bool {
    c1 == c2 && (c1 == '0' || c1 == '3' || c1 == '4' || c1 == '5' || c1 == '6' || c1 == '7' || c1
        == '8')
}

/// The toll-free shape over trimmed text: optional `(` before the area code,
/// `8` plus a repeated pair, optional `)`, then three digits and four digits,
/// each group preceded by at most one separator.
pub open spec fn is_toll_free_text(t: Seq<char>) -> bool {
    let lp: int = if t.len() > 0 && t[0] == '(' {
        1
    } else {
        0
    };
    &&& t.len() >= lp + 3
    &&& t[lp] == '8'
    &&& toll_free_pair(t[lp + 1], t[lp + 2])
    &&& ({
        let rp: int = if t.len() > lp + 3 && t[lp + 3] == ')' {
            1
        } else {
            0
        };
        let s1: int = if t.len() > lp + 3 + rp && is_sep_char(t[lp + 3 + rp]) {
            1
        } else {
            0
        };
        let q: int = lp + 3 + rp + s1;
        &&& t.len() >= q + 3
        &&& is_digit_char(t[q])
        &&& is_digit_char(t[q + 1])
        &&& is_digit_char(t[q + 2])
        &&& ({
            let s2: int = if t.len() > q + 3 && is_sep_char(t[q + 3]) {
                1
            } else {
                0
            };
            let f: int = q + 3 + s2;
            &&& t.len() == f + 4
            &&& is_digit_char(t[f])
            &&& is_digit_char(t[f + 1])
            &&& is_digit_char(t[f + 2])
            &&& is_digit_char(t[f + 3])
        })
    })
}

fn sep_char(c: char) -> (r: bool)
    ensures
        r == is_sep_char(c),
{
    c == '-' || c == '.' || crate::chars::space_char(c)
}

/// Whether the trimmed characters have the toll-free shape.
pub fn toll_free_format(t: &Vec<char>) -> (r: bool)
    ensures
        r == is_toll_free_text(t@),
{
    let n = t.len();
    let lp: usize = if n > 0 && t[0] == '(' {
        1
    } else {
        0
    };
    if !(n >= lp + 3) {
        return false;
    }
    if t[lp] != '8' {
        return false;
    }
    let c1 = t[lp + 1];
    let c2 = t[lp + 2];
    if !(c1 == c2 && (c1 == '0' || c1 == '3' || c1 == '4' || c1 == '5' || c1 == '6' || c1 == '7'
        || c1 == '8')) {
        return false;
    }
    let rp: usize = if n > lp + 3 && t[lp + 3] == ')' {
        1
    } else {
        0
    };
    let s1: usize = if n > lp + 3 + rp && sep_char(t[lp + 3 + rp]) {
        1
    } else {
        0
    };
    let q = lp + 3 + rp + s1;
    if !(n >= q + 3) {
        return false;
    }
    if !(digit_char(t[q]) && digit_char(t[q + 1]) && digit_char(t[q + 2])) {
        return false;
    }
    let s2: usize = if n > q + 3 && sep_char(t[q + 3]) {
        1
    } else {
        0
    };
    let f = q + 3 + s2;
    if n != f + 4 {
        return false;
    }
    digit_char(t[f]) && digit_char(t[f + 1]) && digit_char(t[f + 2]) && digit_char(t[f + 3])
}

// ------------------------------------------------------------------
// Line classification
// ------------------------------------------------------------------

/// A line that produces no report entry: blank, or its first non-whitespace
/// character is `#`.
pub open spec fn is_skippable_line(l: Seq<char>) -> bool {
    trim_of(l).len() == 0 || trim_of(l)[0] == '#'
}

/// What a single line of the input file turned out to be.
#[derive(Debug)]
pub enum LineClass {
    /// Blank or comment: no entry in either report.
    Skip,
    /// A well-formed number that passed every rule.
    Valid { number: String, digits: String, toll_free: bool },
    /// A rejected line, with the trimmed text and the reason.
    Invalid { number: String, reason: InvalidReason },
}

/// Classifies one line: skips blanks and comments, recognizes the coarse
/// format, extracts the digits, applies the numbering-plan rules and the
/// toll-free test.
pub fn classify_line(line: &str) -> (r: LineClass)
    ensures
        (r is Skip) == is_skippable_line(line@),
        (match r {
            LineClass::Skip => true,
            LineClass::Valid { number, digits, toll_free } => {
                &&& is_candidate(trim_of(line@))
                &&& spec_validate(digits_of(trim_of(line@))) is Ok
                &&& number@ == trim_of(line@)
                &&& digits@ == digits_of(trim_of(line@))
                &&& toll_free == is_toll_free_text(trim_of(line@))
            },
            LineClass::Invalid { number, reason } => {
                &&& number@ == trim_of(line@)
                &&& (if is_candidate(trim_of(line@)) {
                    spec_validate(digits_of(trim_of(line@))) == Err::<(), InvalidReason>(reason)
                } else {
                    reason == InvalidReason::UnrecognizedFormat
                })
            },
        }),
{
    let v = to_char_vec(line);
    let t = trim_chars(&v);
    if t.len() == 0 || t[0] == '#' {
        return LineClass::Skip;
    }
    let number = string_of_chars(&t);
    if !candidate_format(&t) {
        return LineClass::Invalid { number, reason: InvalidReason::UnrecognizedFormat };
    }
    let d = digit_chars(&t);
    match validate_digits(&d) {
        Ok(_) => {
            let toll_free = toll_free_format(&t);
            let digits = string_of_chars(&d);
            LineClass::Valid { number, digits, toll_free }
        },
        Err(reason) => LineClass::Invalid { number, reason },
    }
}

// ------------------------------------------------------------------
// Report generation
// ------------------------------------------------------------------

/// The message suffix for each rejection reason.
pub open spec fn spec_reason_message(e: InvalidReason) -> Seq<char> {
    match e {
        InvalidReason::InvalidLength => "has invalid length"@,
        InvalidReason::InvalidAreaCode => "has invalid format/digit(s)"@,
        InvalidReason::InvalidExchangeCode => "has invalid format/digit(s)"@,
        InvalidReason::ExchangeCodeRepeatedOne => "Exchange Code has '1' in both 2nd & 3rd digits"@,
        InvalidReason::UnrecognizedFormat => "has invalid format/digit(s)"@,
    }
}

/// Formats the message suffix for a rejection reason.
pub fn reason_message(e: &InvalidReason) -> (r: String)
    ensures
        r@ == spec_reason_message(*e),
{
    match e {
        InvalidReason::InvalidLength => String::from_str("has invalid length"),
        InvalidReason::InvalidAreaCode => String::from_str("has invalid format/digit(s)"),
        InvalidReason::InvalidExchangeCode => String::from_str("has invalid format/digit(s)"),
        InvalidReason::ExchangeCodeRepeatedOne => String::from_str(
            "Exchange Code has '1' in both 2nd & 3rd digits",
        ),
        InvalidReason::UnrecognizedFormat => String::from_str("has invalid format/digit(s)"),
    }
}

/// A run of `n` asterisks, masking the original text in the report.
pub open spec fn stars(n: nat) -> Seq<char> {
    Seq::new(n, |i: int| '*')
}

fn star_string(n: usize) -> (r: String)
    ensures
        r@ == stars(n as nat),
{
    let mut s = String::new();
    let mut i: usize = 0;
    while i < n
        invariant
            i <= n,
            s@ == stars(i as nat),
        decreases n - i,
    {
        push_char(&mut s, '*');
        i += 1;
        proof {
            assert(stars(i as nat) =~= stars((i - 1) as nat).push('*'));
        }
    }
    s
}

/// The first report line of a valid number: the trimmed text, annotated when
/// it is toll-free.
pub open spec fn valid_first_line(t: Seq<char>, toll_free: bool) -> Seq<char> {
    if toll_free {
        t + " \u{1b}[36mis a toll-free phone number\u{1b}[0m"@
    } else {
        t
    }
}

/// The second report line of a valid number: the text masked by asterisks,
/// then the international format.
pub open spec fn valid_second_line(t: Seq<char>) -> Seq<char> {
    stars(t.len()) + " international format: +1"@ + digits_of(t)
}

/// The report line of a rejected one.
pub open spec fn invalid_entry(t: Seq<char>, reason: InvalidReason) -> Seq<char> {
    "[ERROR] Phone number "@ + t + " "@ + spec_reason_message(reason)
}

/// What one line contributes to the valid report.
pub open spec fn line_valid_entries(l: Seq<char>) -> Seq<Seq<char>> {
    let t = trim_of(l);
    if is_skippable_line(l) {
        Seq::empty()
    } else if is_candidate(t) && spec_validate(digits_of(t)) is Ok {
        seq![valid_first_line(t, is_toll_free_text(t)), valid_second_line(t)]
    } else {
        Seq::empty()
    }
}

/// What one line contributes to the invalid report.
pub open spec fn line_invalid_entries(l: Seq<char>) -> Seq<Seq<char>> {
    let t = trim_of(l);
    if is_skippable_line(l) {
        Seq::empty()
    } else if !is_candidate(t) {
        seq![invalid_entry(t, InvalidReason::UnrecognizedFormat)]
    } else if spec_validate(digits_of(t)) is Ok {
        Seq::empty()
    } else {
        seq![invalid_entry(t, spec_validate(digits_of(t))->Err_0)]
    }
}

/// The valid report of a whole file, in input order.
pub open spec fn valid_report(lines: Seq<Seq<char>>) -> Seq<Seq<char>>
    decreases lines.len(),
{
    if lines.len() == 0 {
        Seq::empty()
    } else {
        valid_report(lines.drop_last()) + line_valid_entries(lines.last())
    }
}

/// The invalid report of a whole file, in input order.
pub open spec fn invalid_report(lines: Seq<Seq<char>>) -> Seq<Seq<char>>
    decreases lines.len(),
{
    if lines.len() == 0 {
        Seq::empty()
    } else {
        invalid_report(lines.drop_last()) + line_invalid_entries(lines.last())
    }
}

/// A blank or comment line contributes nothing to either report.
pub proof fn lemma_skippable_line_no_entries(l: Seq<char>)
    requires
        is_skippable_line(l),
    ensures
        line_valid_entries(l) == Seq::<Seq<char>>::empty(),
        line_invalid_entries(l) == Seq::<Seq<char>>::empty(),
{
}

/// A file of only blank and comment lines yields two empty reports.
pub proof fn lemma_all_skippable_empty_reports(lines: Seq<Seq<char>>)
    requires
        forall|i: int| 0 <= i < lines.len() ==> is_skippable_line(#[trigger] lines[i]),
    ensures
        valid_report(lines) == Seq::<Seq<char>>::empty(),
        invalid_report(lines) == Seq::<Seq<char>>::empty(),
    decreases lines.len(),
{
    if lines.len() > 0 {
        lemma_all_skippable_empty_reports(lines.drop_last());
        assert(valid_report(lines.drop_last()) + line_valid_entries(lines.last())
            =~= Seq::<Seq<char>>::empty());
        assert(invalid_report(lines.drop_last()) + line_invalid_entries(lines.last())
            =~= Seq::<Seq<char>>::empty());
    }
}

/// The two reports of one run.
pub struct PhoneReports {
    /// Lines for the valid numbers, two per number.
    pub valid: Vec<String>,
    /// Lines for the rejected ones, one per line.
    pub invalid: Vec<String>,
}

/// Builds both reports for the lines of a phone-list file.
pub fn process_phone_numbers(lines: &Vec<String>) -> (r: PhoneReports)
    ensures
        r.valid.deep_view() == valid_report(lines.deep_view()),
        r.invalid.deep_view() == invalid_report(lines.deep_view()),
{
    let mut valid: Vec<String> = Vec::new();
    let mut invalid: Vec<String> = Vec::new();
    let mut i: usize = 0;
    while i < lines.len()
        invariant
            i <= lines@.len(),
            valid.deep_view() == valid_report(lines.deep_view().take(i as int)),
            invalid.deep_view() == invalid_report(lines.deep_view().take(i as int)),
        decreases lines@.len() - i,
    {
        let ghost prefix = lines.deep_view().take(i as int);
        let ghost old_valid = valid.deep_view();
        let ghost old_invalid = invalid.deep_view();
        let line: &String = &lines[i];
        let ghost l = line@;
        proof {
            assert(lines.deep_view()[i as int] == l);
        }
        match classify_line(line.as_str()) {
            LineClass::Skip => {
                proof {
                    assert(old_valid + line_valid_entries(l) =~= old_valid);
                    assert(old_invalid + line_invalid_entries(l) =~= old_invalid);
                }
            },
            LineClass::Valid { number, digits, toll_free } => {
                let n = number.as_str().unicode_len();
                let first = if toll_free {
                    let mut s = number.clone();
                    s.append(" \u{1b}[36mis a toll-free phone number\u{1b}[0m");
                    s
                } else {
                    number
                };
                let mut second = star_string(n);
                second.append(" international format: +1");
                second.append(digits.as_str());
                proof {
                    assert(second@ =~= valid_second_line(trim_of(l)));
                }
                valid.push(first);
                valid.push(second);
                proof {
                    assert(valid.deep_view() =~= old_valid + line_valid_entries(l));
                    assert(invalid.deep_view() =~= old_invalid + line_invalid_entries(l));
                }
            },
            LineClass::Invalid { number, reason } => {
                let mut s = String::from_str("[ERROR] Phone number ");
                s.append(number.as_str());
                s.append(" ");
                let msg = reason_message(&reason);
                s.append(msg.as_str());
                proof {
                    assert(s@ =~= invalid_entry(trim_of(l), reason));
                }
                invalid.push(s);
                proof {
                    assert(valid.deep_view() =~= old_valid + line_valid_entries(l));
                    assert(invalid.deep_view() =~= old_invalid + line_invalid_entries(l));
                }
            },
        }
        i += 1;
        proof {
            assert(lines.deep_view().take(i as int).drop_last() =~= prefix);
            assert(lines.deep_view().take(i as int).last() == l);
        }
    }
    proof {
        assert(lines.deep_view().take(lines@.len() as int) =~= lines.deep_view());
    }
    PhoneReports { valid, invalid }
}

// ------------------------------------------------------------------
// Input-file checks
// ------------------------------------------------------------------

/// Why the phone-list file cannot be processed.
#[derive(Clone, Copy, Debug, PartialEq, Eq, Structural)]
pub enum FileError {
    /// The path does not exist.
    NotFound,
    /// The path names a directory, not a file.
    NotAFile,
    /// The file has no content.
    Empty,
}

/// The file check chain: a missing path is reported before a directory,
/// a directory before emptiness.
pub open spec fn spec_check_input_file(exists: bool, is_dir: bool, is_empty: bool) -> Result<
    (),
    FileError,
> {
    if !exists {
        Err(FileError::NotFound)
    } else if is_dir {
        Err(FileError::NotAFile)
    } else if is_empty {
        Err(FileError::Empty)
    } else {
        Ok(())
    }
}

/// Decides whether a phone-list file can be processed, from the facts the
/// caller gathered about its path.
pub fn check_input_file(exists: bool, is_dir: bool, is_empty: bool) -> (r: Result<(), FileError>)
    ensures
        r == spec_check_input_file(exists, is_dir, is_empty),
{
    if !exists {
        Err(FileError::NotFound)
    } else if is_dir {
        Err(FileError::NotAFile)
    } else if is_empty {
        Err(FileError::Empty)
    } else {
        Ok(())
    }
}

/// The diagnostic line for a failed file check.
pub open spec fn spec_file_error_message(path: Seq<char>, e: FileError) -> Seq<char> {
    match e {
        FileError::NotFound => "[ERROR] Invalid path, \""@ + path + "\" not found."@,
        FileError::NotAFile => "[ERROR] Invalid file, \""@ + path + "\" is not a file."@,
        FileError::Empty => "[ERROR] File \""@ + path + "\" is empty."@,
    }
}

/// Formats the diagnostic line for a failed file check.
pub fn file_error_message(path: &str, e: &FileError) -> (r: String)
    ensures
        r@ == spec_file_error_message(path@, *e),
{
    match e {
        FileError::NotFound => {
            let mut s = String::from_str("[ERROR] Invalid path, \"");
            s.append(path);
            s.append("\" not found.");
            s
        },
        FileError::NotAFile => {
            let mut s = String::from_str("[ERROR] Invalid file, \"");
            s.append(path);
            s.append("\" is not a file.");
            s
        },
        FileError::Empty => {
            let mut s = String::from_str("[ERROR] File \"");
            s.append(path);
            s.append("\" is empty.");
            s
        },
    }
}

} // verus!
