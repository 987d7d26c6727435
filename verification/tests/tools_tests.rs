use textutils::counts::count_text;
use textutils::search::{movie_titles, search_counts};
use textutils::temperature::unit_from_input;
use textutils::text::split_words;

fn lines(v: &[&str]) -> Vec<String> {
    v.iter().map(|s| s.to_string()).collect()
}

#[test]
fn counts_lines_words_and_chars() {
    let c = count_text(&lines(&["hello world", "", "a b  c"])).unwrap();
    assert_eq!(c.lines, 3);
    assert_eq!(c.chars, 17);
    assert_eq!(c.words, 5);
}

#[test]
fn counts_of_empty_file_are_zero() {
    let c = count_text(&lines(&[])).unwrap();
    assert_eq!(c.lines, 0);
    assert_eq!(c.chars, 0);
    assert_eq!(c.words, 0);
}

#[test]
fn splitting_ignores_extra_whitespace() {
    assert_eq!(split_words("  a  bb \t c "), vec!["a", "bb", "c"]);
    assert_eq!(split_words(""), Vec::<String>::new());
    assert_eq!(split_words("   "), Vec::<String>::new());
    assert_eq!(split_words("one"), vec!["one"]);
}

#[test]
fn unicode_whitespace_separates_words() {
    assert_eq!(split_words("a\u{a0}b"), vec!["a", "b"]);
    assert_eq!(split_words("\u{2028}x\u{3000}"), vec!["x"]);
    let c = count_text(&lines(&["a\u{a0}b"])).unwrap();
    assert_eq!(c.words, 2);
    assert_eq!(c.chars, 3);
}

#[test]
fn search_counts_star_across_titles() {
    let titles = movie_titles();
    let r = search_counts("star", &titles);
    assert_eq!(r.len(), 1);
    assert_eq!(r[0].word, "star");
    assert_eq!(r[0].count, 4);
}

#[test]
fn search_lowercases_the_input_words() {
    let titles = movie_titles();
    let r = search_counts("sTaR", &titles);
    assert_eq!(r.len(), 1);
    assert_eq!(r[0].word, "star");
    assert_eq!(r[0].count, 4);
}

#[test]
fn search_report_is_alphabetical_and_deduplicated() {
    let titles = movie_titles();
    let r = search_counts("star love STAR", &titles);
    assert_eq!(r.len(), 2);
    assert_eq!(r[0].word, "love");
    assert_eq!(r[0].count, 2);
    assert_eq!(r[1].word, "star");
    assert_eq!(r[1].count, 4);
}

#[test]
fn search_drops_words_found_nowhere() {
    let titles = movie_titles();
    let r = search_counts("zebra star", &titles);
    assert_eq!(r.len(), 1);
    assert_eq!(r[0].word, "star");
    let none = search_counts("zebra", &titles);
    assert!(none.is_empty());
}

#[test]
fn unit_parsing_accepts_both_cases() {
    assert_eq!(unit_from_input("C"), Some('C'));
    assert_eq!(unit_from_input("c"), Some('C'));
    assert_eq!(unit_from_input("F"), Some('F'));
    assert_eq!(unit_from_input("f"), Some('F'));
    assert_eq!(unit_from_input("K"), Some('K'));
    assert_eq!(unit_from_input("k"), Some('K'));
    assert_eq!(unit_from_input("x"), None);
    assert_eq!(unit_from_input(""), None);
    assert_eq!(unit_from_input("cc"), None);
}
