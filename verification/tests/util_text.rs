use newt::notes_dir::{fresh_file_name, is_blank, new_file_name, truncate_line};
use newt::util::{dec_string, digits, parse_response};

#[test]
fn digits_counts_decimal_digits() {
    assert_eq!(digits(0), 1);
    assert_eq!(digits(9), 1);
    assert_eq!(digits(10), 2);
    assert_eq!(digits(99), 2);
    assert_eq!(digits(12345), 5);
}

#[test]
fn dec_string_renders_numbers() {
    assert_eq!(dec_string(0), "0");
    assert_eq!(dec_string(7), "7");
    assert_eq!(dec_string(42), "42");
    assert_eq!(dec_string(1200), "1200");
}

#[test]
fn parse_response_yes_and_no() {
    assert_eq!(parse_response("y", None), Some(true));
    assert_eq!(parse_response("YES", None), Some(true));
    assert_eq!(parse_response(" Yes ", None), Some(true));
    assert_eq!(parse_response("n", None), Some(false));
    assert_eq!(parse_response("No", None), Some(false));
}

#[test]
fn parse_response_blank_takes_default() {
    assert_eq!(parse_response("", Some(true)), Some(true));
    assert_eq!(parse_response("   ", Some(false)), Some(false));
    assert_eq!(parse_response("", None), None);
}

#[test]
fn parse_response_other_asks_again() {
    assert_eq!(parse_response("maybe", Some(true)), None);
    assert_eq!(parse_response("yep", None), None);
}

#[test]
fn fresh_file_name_starts_at_zero() {
    let existing: Vec<String> = Vec::new();
    assert_eq!(fresh_file_name("2020-01-01", &existing), "2020-01-01_0.md");
}

#[test]
fn fresh_file_name_skips_taken_names() {
    let existing = vec![
        String::from("2020-01-01_0.md"),
        String::from("2020-01-01_1.md"),
        String::from("unrelated.md"),
    ];
    assert_eq!(fresh_file_name("2020-01-01", &existing), "2020-01-01_2.md");
}

#[test]
fn new_file_name_avoids_existing() {
    let existing: Vec<String> = Vec::new();
    let name = new_file_name(&existing);
    assert!(name.ends_with("_0.md"));
    let taken = vec![name.clone()];
    let second = new_file_name(&taken);
    assert_ne!(second, name);
    assert!(!taken.contains(&second));
}

#[test]
fn is_blank_spots_whitespace_lines() {
    assert!(is_blank(""));
    assert!(is_blank(" \t "));
    assert!(!is_blank("  x  "));
}

#[test]
fn truncate_line_keeps_short_lines() {
    assert_eq!(truncate_line("short", 10), "short");
    assert_eq!(truncate_line("exact", 5), "exact");
}

#[test]
fn truncate_line_cuts_long_lines() {
    assert_eq!(truncate_line("abcdefghij", 5), "ab...");
    assert_eq!(truncate_line("hello world", 8), "hello...");
}
