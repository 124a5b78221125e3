use newt::env::{interpolate, Env, Lexer, Token};

fn text(s: &str) -> Token {
    Token::Text(String::from(s))
}

fn var(s: &str) -> Token {
    Token::Var(String::from(s))
}

fn collect_tokens(input: &str) -> Vec<Token> {
    let mut lexer = Lexer::new(input);
    let mut toks = Vec::new();
    while let Some(tok) = lexer.scan() {
        toks.push(tok);
    }
    toks
}

fn simple_test(input: &str, expected: &[Token]) {
    let toks = collect_tokens(input);
    assert_eq!(toks, expected.to_vec());
}

#[test]
fn just_text() {
    let input = "hey there just text here";
    simple_test(input, &[text(input)]);
}

#[test]
fn just_var_no_brace() {
    let input = "$HOME_HERE";
    simple_test(input, &[var("HOME_HERE")]);
}

#[test]
fn just_var_brace() {
    let input = "${HERES_A_VAR}";
    simple_test(input, &[var("HERES_A_VAR")]);
}

#[test]
fn mixed_var_no_brace() {
    let input = "/home/$USER/what";
    simple_test(input, &[text("/home/"), var("USER"), text("/what")]);
}

#[test]
fn mixed_var_brace() {
    let input = "/home/${USER}/what";
    simple_test(input, &[text("/home/"), var("USER"), text("/what")]);
}

#[test]
fn escaped_dollar() {
    let input = "$$what";
    simple_test(input, &[text("$what")]);
}

#[test]
fn trailing_dollar() {
    let input = "what$";
    simple_test(input, &[text(input)]);
}

#[test]
fn unterminated_brace() {
    let input = "what${gives";
    simple_test(input, &[text("what"), text("${gives")]);
}

#[test]
fn interpolate_vars_set() {
    let mut env = Env::new();
    env.set("FOO", "bar");
    let input = "/home/$FOO/baz";
    let res = interpolate(input, &env).unwrap();
    assert_eq!(res, "/home/bar/baz");
}

#[test]
fn interpolate_vars_unset() {
    let env = Env::new();
    let input = "/home/$FOO/baz";
    assert!(interpolate(input, &env).is_none());
}

#[test]
fn recursive_interpolation() {
    let mut env = Env::new();
    env.set("FOO", "$BAR/$BAZ");
    env.set("BAR", "bar");
    env.set("BAZ", "baz");
    let input = "/home/$FOO";
    let res = interpolate(input, &env).unwrap();
    assert_eq!(res, "/home/bar/baz");
}

#[test]
fn recursive_interpolation_subvars_unset() {
    let mut env = Env::new();
    env.set("FOO", "$BAR/$BAZ");
    env.set("BAR", "bar");
    let input = "/home/$FOO";
    assert!(interpolate(input, &env).is_none());
}

#[test]
fn interpolate_no_dollar_unchanged() {
    let env = Env::new();
    let input = "no references at all";
    assert_eq!(interpolate(input, &env).unwrap(), input);
}

#[test]
fn interpolate_escaped_dollar() {
    let env = Env::new();
    assert_eq!(interpolate("$$what", &env).unwrap(), "$what");
}

#[test]
fn interpolate_trailing_dollar() {
    let env = Env::new();
    assert_eq!(interpolate("what$", &env).unwrap(), "what$");
}

#[test]
fn interpolate_unterminated_brace_is_literal() {
    let env = Env::new();
    assert_eq!(interpolate("what${gives", &env).unwrap(), "what${gives");
}

#[test]
fn interpolate_braced_var() {
    let mut env = Env::new();
    env.set("USER", "pat");
    assert_eq!(interpolate("/home/${USER}/x", &env).unwrap(), "/home/pat/x");
}

#[test]
fn interpolate_shadowed_binding() {
    let mut env = Env::new();
    env.set("X", "old");
    env.set("X", "new");
    assert_eq!(interpolate("$X", &env).unwrap(), "new");
}

#[test]
fn env_lookup() {
    let mut env = Env::new();
    env.set("A", "1");
    assert_eq!(env.get("A").unwrap(), "1");
    assert!(env.get("B").is_none());
}

#[test]
fn interpolate_self_reference_fails() {
    let mut env = Env::new();
    env.set("LOOP", "$LOOP");
    assert!(interpolate("$LOOP", &env).is_none());
}
