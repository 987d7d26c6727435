use textutils::palindrome::{is_pal_loop, is_pal_recursion, remove_non_alphanumeric};

#[test]
fn cleaning_lowercases_and_drops_punctuation() {
    assert_eq!(remove_non_alphanumeric("Kayak"), "kayak");
    assert_eq!(remove_non_alphanumeric("race car"), "racecar");
    assert_eq!(remove_non_alphanumeric("a!b"), "ab");
    assert_eq!(remove_non_alphanumeric("161"), "161");
    assert_eq!(remove_non_alphanumeric("!?  ,"), "");
}

#[test]
fn cleaning_is_idempotent() {
    for s in ["Kayak!", "A man, a plan", "161", "", "\u{c9}\u{e9}!"] {
        let once = remove_non_alphanumeric(s);
        assert_eq!(remove_non_alphanumeric(&once), once);
    }
}

#[test]
fn loop_check_finds_palindromes() {
    assert!(is_pal_loop("kayak"));
    assert!(is_pal_loop("racecar"));
    assert!(is_pal_loop("161"));
    assert!(is_pal_loop(""));
    assert!(is_pal_loop("a"));
    assert!(!is_pal_loop("ab"));
    assert!(!is_pal_loop("kayaks"));
}

#[test]
fn recursive_check_agrees_with_loop_check() {
    for s in ["kayak", "racecar", "161", "a", "ab", "kayaks", "abba"] {
        assert_eq!(is_pal_recursion(s), is_pal_loop(s), "{s}");
    }
}

#[test]
fn full_flow_detects_phrase_palindrome() {
    let cleaned = remove_non_alphanumeric("A man, a plan, a canal: Panama");
    assert_eq!(cleaned, "amanaplanacanalpanama");
    assert!(is_pal_loop(&cleaned));
    assert!(is_pal_recursion(&cleaned));
}
