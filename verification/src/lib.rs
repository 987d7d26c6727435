//! Verified cores of a set of small line-oriented text tools: a North
//! American phone-number validator with its two-part report, a palindrome
//! checker, line/word/character counting, search-term tallying over a fixed
//! title list, and temperature-unit parsing.

pub mod chars;
pub mod counts;
pub mod palindrome;
pub mod phone;
pub mod search;
pub mod temperature;
pub mod text;
