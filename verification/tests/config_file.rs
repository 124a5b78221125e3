use newt::config::Config;
use newt::error::{illegal_token, unexpected_eof, unrecognized_key, unterminated_string};

#[test]
fn empty() {
    let conf = "";
    assert_eq!(Config::from_str(conf).unwrap(), Config::default());
}

#[test]
fn whitespace() {
    let conf = "    \n   \n";
    assert_eq!(Config::from_str(conf).unwrap(), Config::default());
}

#[test]
fn comments() {
    let conf = "#Here's a comment\n# And another one\n\n## Some# weird-add ## extra hashes\n";
    assert_eq!(Config::from_str(conf).unwrap(), Config::default());
}

#[test]
fn notes_dir() {
    let conf = "notes_dir ~/.notes\n";
    let expected = Config::default().with_notes_dir(Some(String::from("~/.notes")));
    assert_eq!(Config::from_str(conf).unwrap(), expected);
}

#[test]
fn editor() {
    let conf = "editor /usr/bin/fibbldee\n";
    let expected = Config::default().with_editor(Some(String::from("/usr/bin/fibbldee")));
    assert_eq!(Config::from_str(conf).unwrap(), expected);
}

#[test]
fn duplicate_keys() {
    let conf = "notes_dir ~/.notes\nnotes_dir ~/wait/no/this/one # Change it up\n";
    let expected = Config::default().with_notes_dir(Some(String::from("~/wait/no/this/one")));
    assert_eq!(Config::from_str(conf).unwrap(), expected);
}

#[test]
fn quoted_value() {
    let conf = "notes_dir \"~/My Documents/is this windows\"";
    let expected =
        Config::default().with_notes_dir(Some(String::from("~/My Documents/is this windows")));
    assert_eq!(Config::from_str(conf).unwrap(), expected);
}

#[test]
fn quoted_key() {
    let conf = "\"notes_dir\" ~ # Not really sure WHY you'd do this but hey";
    let expected = Config::default().with_notes_dir(Some(String::from("~")));
    assert_eq!(Config::from_str(conf).unwrap(), expected);
}

#[test]
fn missing_value() {
    let conf = "notes_dir # lol nope";
    assert_eq!(Config::from_str(conf), unexpected_eof(1));
}

#[test]
fn bad_key() {
    let conf = "not_a_key \"heya bish\"";
    assert_eq!(Config::from_str(conf), unrecognized_key("not_a_key", 1));
}

#[test]
fn bad_key_line_number() {
    let conf = "notes_dir x\nbad_key y\n";
    assert_eq!(Config::from_str(conf), unrecognized_key("bad_key", 2));
}

#[test]
fn unterminated_quote_at_eof() {
    let conf = "notes_dir \"never closed";
    assert_eq!(Config::from_str(conf), unterminated_string(1));
}

#[test]
fn unterminated_quote_at_newline() {
    let conf = "editor ok\nnotes_dir \"oops\npager less\n";
    assert_eq!(Config::from_str(conf), unterminated_string(2));
}

#[test]
fn illegal_escape() {
    let conf = "notes_dir \"a\\qb\"";
    assert_eq!(Config::from_str(conf), illegal_token("\\q", 1));
}

#[test]
fn illegal_escape_line_number() {
    let conf = "pager more\n\neditor \"x\\zy\"";
    assert_eq!(Config::from_str(conf), illegal_token("\\z", 3));
}

#[test]
fn value_missing_at_eof_after_lines() {
    let conf = "notes_dir a\neditor b\npager";
    assert_eq!(Config::from_str(conf), unexpected_eof(3));
}

#[test]
fn escaped_quote_and_backslash_in_value() {
    let conf = "editor \"run \\\"fancy\\\" \\\\now\"";
    let expected = Config::default().with_editor(Some(String::from("run \"fancy\" \\now")));
    assert_eq!(Config::from_str(conf).unwrap(), expected);
}

#[test]
fn line_continuation_in_value() {
    let conf = "notes_dir \"one\\\n   two\"";
    let expected = Config::default().with_notes_dir(Some(String::from("one two")));
    assert_eq!(Config::from_str(conf).unwrap(), expected);
}

#[test]
fn all_keys_last_wins() {
    let conf = "notes_dir a\neditor b\npager c\nnotes_dir d\n";
    let expected = Config::default()
        .with_notes_dir(Some(String::from("d")))
        .with_editor(Some(String::from("b")))
        .with_pager(Some(String::from("c")));
    assert_eq!(Config::from_str(conf).unwrap(), expected);
}
