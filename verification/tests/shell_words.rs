use newt::sh::{build_invocation, split_words};

fn test_for_expected(input: &str, expected: &[&str]) {
    let words = split_words(input);
    let expected: Vec<String> = expected.iter().map(|s| s.to_string()).collect();
    assert_eq!(words, expected);
}

#[test]
fn scan_basic() {
    test_for_expected("vim todo.txt", &["vim", "todo.txt"])
}

#[test]
fn scan_single_quoted() {
    test_for_expected(r#"vim 'whats up boyyy'"#, &["vim", "whats up boyyy"]);
}

#[test]
fn scan_double_quoted() {
    test_for_expected(r#"vim "whats up boyyy""#, &["vim", "whats up boyyy"]);
}

#[test]
fn scan_mixed_quotes() {
    test_for_expected(
        r#"vim "what's an apostrophe""#,
        &["vim", "what's an apostrophe"],
    );
}

#[test]
fn scan_backslash_space() {
    test_for_expected(r"vim\ up", &["vim up"]);
}

#[test]
fn scan_backslash_quote() {
    test_for_expected(r#"vim\"nope\""#, &[r#"vim"nope""#]);
}

#[test]
fn scan_backslash_space_at_beginning() {
    test_for_expected(r"vim \ who\ does\ this", &["vim", " who does this"]);
}

#[test]
fn scan_single_quote_raw_backslash() {
    test_for_expected(r"'hey\ guess\ what'", &[r"hey\ guess\ what"]);
}

#[test]
fn scan_double_quote_interpreted_backslash() {
    test_for_expected(r#""hey\ guess\ what""#, &["hey guess what"]);
}

#[test]
fn scan_single_quote_escaped() {
    test_for_expected(r"'hey what\'s that'", &["hey what's that"]);
}

#[test]
fn scan_trailing_backslash() {
    test_for_expected(r"word\", &[r"word\"]);
}

#[test]
fn scan_leading_and_trailing_spaces() {
    test_for_expected("  vim   todo.txt  ", &["vim", "todo.txt"]);
}

#[test]
fn build_invocation_program_and_args() {
    let inv = build_invocation("vim -e 'a b'", "note.md").unwrap();
    assert_eq!(inv.program, "vim");
    assert_eq!(inv.args, vec!["-e".to_string(), "a b".to_string(), "note.md".to_string()]);
}

#[test]
fn build_invocation_bare_program() {
    let inv = build_invocation("less", "note.md").unwrap();
    assert_eq!(inv.program, "less");
    assert_eq!(inv.args, vec!["note.md".to_string()]);
}

#[test]
fn build_invocation_empty_command() {
    assert!(build_invocation("", "note.md").is_none());
    assert!(build_invocation("   ", "note.md").is_none());
}
