use newt::parse::Lexer;

#[test]
fn scan_tracks_lines() {
    let mut lexer = Lexer::new("alpha beta\ngamma # comment\n\"delta\"\n");
    assert_eq!(lexer.line(), 1);
    assert_eq!(lexer.scan().unwrap().as_deref(), Some("alpha"));
    assert_eq!(lexer.line(), 1);
    assert_eq!(lexer.scan().unwrap().as_deref(), Some("beta"));
    assert_eq!(lexer.line(), 1);
    assert_eq!(lexer.scan().unwrap().as_deref(), Some("gamma"));
    assert_eq!(lexer.line(), 2);
    assert_eq!(lexer.scan().unwrap().as_deref(), Some("delta"));
    assert_eq!(lexer.line(), 3);
    assert_eq!(lexer.scan().unwrap(), None);
}

#[test]
fn scan_line_continuation_becomes_space() {
    let mut lexer = Lexer::new("\"one\\\n   two\" tail");
    assert_eq!(lexer.scan().unwrap().as_deref(), Some("one two"));
    assert_eq!(lexer.scan().unwrap().as_deref(), Some("tail"));
    assert_eq!(lexer.scan().unwrap(), None);
}

#[test]
fn scan_comment_only_input() {
    let mut lexer = Lexer::new("# nothing here\n# or here");
    assert_eq!(lexer.scan().unwrap(), None);
}
