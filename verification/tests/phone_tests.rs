use textutils::phone::{
    check_input_file, classify_line, clean_phone_number, file_error_message,
    process_phone_numbers, validate_phone_number, FileError, InvalidReason, LineClass,
};

fn lines(v: &[&str]) -> Vec<String> {
    v.iter().map(|s| s.to_string()).collect()
}

#[test]
fn normalize_extracts_digits() {
    assert_eq!(clean_phone_number("(800) 555-0199"), "8005550199");
    assert_eq!(clean_phone_number("212.555.0199"), "2125550199");
    assert_eq!(clean_phone_number("abc"), "");
    assert_eq!(clean_phone_number(""), "");
}

#[test]
fn normalize_is_idempotent() {
    for s in ["(800) 555-0199", "212 555 0199", "abc123", ""] {
        let once = clean_phone_number(s);
        assert_eq!(clean_phone_number(&once), once);
    }
}

#[test]
fn toll_free_line_is_valid_and_annotated() {
    let r = process_phone_numbers(&lines(&["(800) 555-0199"]));
    assert_eq!(
        r.valid,
        vec![
            "(800) 555-0199 \x1b[36mis a toll-free phone number\x1b[0m".to_string(),
            "************** international format: +18005550199".to_string(),
        ]
    );
    assert!(r.invalid.is_empty());
}

#[test]
fn plain_valid_line_is_not_toll_free() {
    let r = process_phone_numbers(&lines(&["212-555-0199"]));
    assert_eq!(
        r.valid,
        vec![
            "212-555-0199".to_string(),
            "************ international format: +12125550199".to_string(),
        ]
    );
    assert!(r.invalid.is_empty());
    match classify_line("212-555-0199") {
        LineClass::Valid { number, digits, toll_free } => {
            assert_eq!(number, "212-555-0199");
            assert_eq!(digits, "2125550199");
            assert!(!toll_free);
        }
        other => panic!("expected a valid line, got {:?}", other),
    }
}

#[test]
fn area_code_starting_with_one_is_invalid() {
    assert_eq!(
        validate_phone_number("111-555-0199"),
        Err(InvalidReason::InvalidAreaCode)
    );
    let r = process_phone_numbers(&lines(&["111-555-0199"]));
    assert!(r.valid.is_empty());
    assert_eq!(
        r.invalid,
        vec!["[ERROR] Phone number 111-555-0199 has invalid format/digit(s)".to_string()]
    );
}

#[test]
fn area_code_311_is_accepted() {
    assert_eq!(validate_phone_number("311-555-0199"), Ok(()));
}

#[test]
fn exchange_code_repeated_one_is_invalid() {
    assert_eq!(
        validate_phone_number("212-511-0199"),
        Err(InvalidReason::ExchangeCodeRepeatedOne)
    );
    let r = process_phone_numbers(&lines(&["212-511-0199"]));
    assert!(r.valid.is_empty());
    assert_eq!(
        r.invalid,
        vec![
            "[ERROR] Phone number 212-511-0199 Exchange Code has '1' in both 2nd & 3rd digits"
                .to_string()
        ]
    );
}

#[test]
fn exchange_code_starting_low_is_invalid() {
    assert_eq!(
        validate_phone_number("212-155-0199"),
        Err(InvalidReason::InvalidExchangeCode)
    );
}

#[test]
fn short_number_has_invalid_length() {
    assert_eq!(validate_phone_number("123"), Err(InvalidReason::InvalidLength));
    assert_eq!(validate_phone_number(""), Err(InvalidReason::InvalidLength));
}

#[test]
fn unrecognized_format_is_reported() {
    match classify_line("555-0199") {
        LineClass::Invalid { number, reason } => {
            assert_eq!(number, "555-0199");
            assert_eq!(reason, InvalidReason::UnrecognizedFormat);
        }
        other => panic!("expected an invalid line, got {:?}", other),
    }
    let r = process_phone_numbers(&lines(&["just words"]));
    assert!(r.valid.is_empty());
    assert_eq!(
        r.invalid,
        vec!["[ERROR] Phone number just words has invalid format/digit(s)".to_string()]
    );
}

#[test]
fn blank_and_comment_lines_are_skipped() {
    let r = process_phone_numbers(&lines(&["", "   ", "# comment", "  # indented comment"]));
    assert!(r.valid.is_empty());
    assert!(r.invalid.is_empty());
    assert!(matches!(classify_line(""), LineClass::Skip));
    assert!(matches!(classify_line("# comment"), LineClass::Skip));
}

#[test]
fn comment_only_file_yields_two_empty_reports() {
    let r = process_phone_numbers(&lines(&["# first", "", "# second", "\t"]));
    assert!(r.valid.is_empty());
    assert!(r.invalid.is_empty());
}

#[test]
fn all_separator_layouts_are_accepted() {
    for s in [
        "(212) 555-0199",
        "212-555-0199",
        "212.555.0199",
        "212 555 0199",
        "2125550199",
    ] {
        assert!(matches!(classify_line(s), LineClass::Valid { .. }), "{s}");
    }
    for s in ["212-555.0199", "(212)555-0199", "212 5550199x"] {
        assert!(matches!(classify_line(s), LineClass::Invalid { .. }), "{s}");
    }
}

#[test]
fn toll_free_detection_covers_all_prefixes() {
    for s in [
        "(800) 555-0199",
        "833.555.0199",
        "844-555-0199",
        "855 555 0199",
        "8665550199",
        "877-555-0199",
        "(888) 555-0199",
    ] {
        match classify_line(s) {
            LineClass::Valid { toll_free, .. } => assert!(toll_free, "{s}"),
            other => panic!("expected a valid line for {s}, got {:?}", other),
        }
    }
    match classify_line("801-555-0199") {
        LineClass::Valid { toll_free, .. } => assert!(!toll_free),
        other => panic!("expected a valid line, got {:?}", other),
    }
}

#[test]
fn surrounding_whitespace_is_trimmed() {
    let r = process_phone_numbers(&lines(&["   212-555-0199\t"]));
    assert_eq!(r.valid[0], "212-555-0199");
}

#[test]
fn unicode_whitespace_is_trimmed_and_skipped() {
    // a line of only non-ASCII whitespace is blank
    let r = process_phone_numbers(&lines(&["\u{a0}\u{2002}", "\u{a0}# note"]));
    assert!(r.valid.is_empty());
    assert!(r.invalid.is_empty());
    // non-ASCII edge whitespace is stripped before classification
    match classify_line("212-555-0199\u{2002}") {
        LineClass::Valid { number, .. } => assert_eq!(number, "212-555-0199"),
        other => panic!("expected a valid line, got {:?}", other),
    }
    let r = process_phone_numbers(&lines(&["\u{a0}212-555-0199\u{3000}"]));
    assert_eq!(r.valid[0], "212-555-0199");
}

#[test]
fn ordering_of_reports_follows_input() {
    let r = process_phone_numbers(&lines(&[
        "212-555-0199",
        "bad line",
        "8005550199",
        "212-511-0199",
    ]));
    assert_eq!(r.valid.len(), 4);
    assert_eq!(r.valid[0], "212-555-0199");
    assert!(r.valid[2].starts_with("8005550199"));
    assert_eq!(r.invalid.len(), 2);
    assert!(r.invalid[0].contains("bad line"));
    assert!(r.invalid[1].contains("212-511-0199"));
}

#[test]
fn missing_path_gives_specific_diagnostic() {
    assert_eq!(check_input_file(false, false, false), Err(FileError::NotFound));
    assert_eq!(
        file_error_message("phones.txt", &FileError::NotFound),
        "[ERROR] Invalid path, \"phones.txt\" not found."
    );
}

#[test]
fn directory_and_empty_file_are_refused() {
    assert_eq!(check_input_file(true, true, false), Err(FileError::NotAFile));
    assert_eq!(check_input_file(true, false, true), Err(FileError::Empty));
    assert_eq!(check_input_file(true, false, false), Ok(()));
    assert_eq!(
        file_error_message("d", &FileError::NotAFile),
        "[ERROR] Invalid file, \"d\" is not a file."
    );
    assert_eq!(
        file_error_message("e.txt", &FileError::Empty),
        "[ERROR] File \"e.txt\" is empty."
    );
}
