use newt::cli::Options;
use newt::config::{conf_file_candidates, resolve, Config};
use newt::env::Env;
use newt::error::{ConfigErrorKind, Error};

#[test]
fn no_sources_no_notes_dir() {
    let env = Env::new();
    let dirs: Vec<String> = Vec::new();
    let res = Config::default().notes_dir(&env, &dirs);
    assert!(matches!(res, Err(Error::NoNotesDir)));
}

#[test]
fn no_sources_no_editor() {
    let env = Env::new();
    let exes: Vec<String> = Vec::new();
    let res = Config::default().editor(&env, &exes);
    assert!(matches!(res, Err(Error::NoEditor)));
}

#[test]
fn no_sources_no_pager() {
    let env = Env::new();
    let exes: Vec<String> = Vec::new();
    let res = Config::default().pager(&env, &exes);
    assert!(matches!(res, Err(Error::NoPager)));
}

#[test]
fn notes_dir_from_environment_candidate() {
    let mut env = Env::new();
    env.set("NEWT_NOTES_DIR", "/tmp/notes");
    let dirs = vec![String::from("/tmp/notes")];
    let res = Config::default().notes_dir(&env, &dirs).unwrap();
    assert_eq!(res, "/tmp/notes");
}

#[test]
fn notes_dir_candidate_must_exist() {
    let mut env = Env::new();
    env.set("NEWT_NOTES_DIR", "/tmp/notes");
    env.set("HOME", "/home/pat");
    let dirs = vec![String::from("/home/pat/.newt")];
    let res = Config::default().notes_dir(&env, &dirs).unwrap();
    assert_eq!(res, "/home/pat/.newt");
}

#[test]
fn configured_notes_dir_wins() {
    let mut env = Env::new();
    env.set("NEWT_NOTES_DIR", "/tmp/notes");
    let dirs = vec![String::from("/tmp/notes")];
    let config = Config::default().with_notes_dir(Some(String::from("/my/own")));
    assert_eq!(config.notes_dir(&env, &dirs).unwrap(), "/my/own");
}

#[test]
fn configured_editor_is_interpolated() {
    let mut env = Env::new();
    env.set("EDITOR", "emacs -nw");
    let exes: Vec<String> = Vec::new();
    let config = Config::default().with_editor(Some(String::from("$EDITOR")));
    assert_eq!(config.editor(&env, &exes).unwrap(), "emacs -nw");
}

#[test]
fn editor_falls_back_to_known_programs() {
    let env = Env::new();
    let exes = vec![String::from("vi")];
    assert_eq!(Config::default().editor(&env, &exes).unwrap(), "vi");
}

#[test]
fn editor_candidate_order() {
    let mut env = Env::new();
    env.set("EDITOR", "myedit");
    let exes = vec![String::from("vim"), String::from("myedit")];
    assert_eq!(Config::default().editor(&env, &exes).unwrap(), "myedit");
}

#[test]
fn pager_falls_back_to_known_programs() {
    let env = Env::new();
    let exes = vec![String::from("more"), String::from("cat")];
    assert_eq!(Config::default().pager(&env, &exes).unwrap(), "more");
}

#[test]
fn conf_candidates_with_no_variables() {
    let env = Env::new();
    assert_eq!(conf_file_candidates(&env), vec![String::from("/etc/newtrc")]);
}

#[test]
fn conf_candidates_with_explicit_config() {
    let mut env = Env::new();
    env.set("NEWT_CONFIG", "/cfg/newt");
    env.set("HOME", "/home/pat");
    assert_eq!(
        conf_file_candidates(&env),
        vec![
            String::from("/cfg/newt"),
            String::from("/home/pat/.config/newt/config"),
            String::from("/home/pat/.newtrc"),
            String::from("/etc/newtrc"),
        ]
    );
}

#[test]
fn resolve_without_file_is_default() {
    assert_eq!(resolve(None).unwrap(), Config::default());
}

#[test]
fn resolve_attaches_path_to_errors() {
    let res = resolve(Some(("/home/pat/.newtrc", "nope x")));
    match res {
        Err(Error::Config { line, path, kind }) => {
            assert_eq!(line, 1);
            assert_eq!(path.as_deref(), Some("/home/pat/.newtrc"));
            assert!(matches!(kind, ConfigErrorKind::UnrecognizedKey { key } if key == "nope"));
        },
        other => panic!("expected a config error, got {:?}", other),
    }
}

#[test]
fn options_override_wins() {
    let options = Options {
        config: None,
        notes_dir: Some(String::from("/override")),
        editor: None,
        verbose: false,
        command: None,
    };
    let config = options.config(Some(("conf", "notes_dir /from/file\neditor vi\n"))).unwrap();
    let expected = Config::default()
        .with_notes_dir(Some(String::from("/override")))
        .with_editor(Some(String::from("vi")));
    assert_eq!(config, expected);
}

#[test]
fn options_without_overrides_keep_file_values() {
    let options = Options {
        config: None,
        notes_dir: None,
        editor: None,
        verbose: false,
        command: None,
    };
    let config = options.config(Some(("conf", "pager less\n"))).unwrap();
    assert_eq!(config, Config::default().with_pager(Some(String::from("less"))));
}

#[test]
fn message_for_parse_error() {
    let err = Error::Config {
        line: 3,
        path: None,
        kind: ConfigErrorKind::UnexpectedEof,
    };
    assert_eq!(err.message(), "Error in configuration at line 3: file ended unexpectedly");
}

#[test]
fn message_with_path_and_key() {
    let err = ConfigErrorKind::UnrecognizedKey { key: String::from("wat") }
        .at_line(7, Some("/etc/newtrc"));
    assert_eq!(err.message(), "Error in /etc/newtrc at line 7: unrecognized key \"wat\"");
}

#[test]
fn message_for_missing_settings() {
    assert_eq!(Error::NoNotesDir.message(), "No notes directory configured or found");
    assert_eq!(Error::NoEditor.message(), "No editor configured or found");
    assert_eq!(Error::NoPager.message(), "No pager configured or found");
}

#[test]
fn message_for_cannot_invoke() {
    let err = newt::error::cannot_invoke("vim -e", Some(String::from("not found")));
    assert_eq!(err.message(), "Cannot invoke command `vim -e`: not found");
    let err = newt::error::cannot_invoke("vim -e", None);
    assert_eq!(err.message(), "Cannot invoke command `vim -e`");
}

#[test]
fn errors_compare_like_the_original() {
    // only Config errors are comparable; other variants are never equal
    assert_ne!(Error::NoNotesDir, Error::NoNotesDir);
    let a = Error::Config { line: 1, path: None, kind: ConfigErrorKind::UnexpectedEof };
    let b = Error::Config { line: 1, path: None, kind: ConfigErrorKind::UnexpectedEof };
    assert_eq!(a, b);
}
