//! The typed configuration record and its resolution rules.
//!
//! A [`Config`] holds the optional `notes_dir`, `editor` and `pager`
//! settings.  Each is resolved lazily: an explicit override wins, else the
//! value parsed from a configuration file, else the first usable entry of a
//! compiled-in candidate list, else a setting-specific error.

use vstd::prelude::*;

use crate::env::{interp_spec, interpolate, Env, INTERP_DEPTH};
use crate::error::{
    kind_error, unexpected_eof, unrecognized_key, Error, SpecConfigErrorKind, SpecError,
};
use crate::parse::{
    collect_bare, lemma_collect_bare_plain, lemma_scan_consumes, spec_scan, spec_skip_ws, Lexer,
    SpecScan,
};
use crate::text::{contains_str, is_space_spec, str_eq};

verus! {

/// A configuration record, at the specification level.
pub struct SpecConfig {
    /// The notes directory, if set.
    pub notes_dir: Option<Seq<char>>,
    /// The editor command, if set.
    pub editor: Option<Seq<char>>,
    /// The pager command, if set.
    pub pager: Option<Seq<char>>,
}

/// The configuration with no field set.
pub open spec fn spec_default_config() -> SpecConfig {
    SpecConfig { notes_dir: None, editor: None, pager: None }
}

/// Configuration options: notes directory, editor and pager, each unset
/// until a CLI override or a configuration file provides it.
#[derive(Debug, Clone, PartialEq, Eq)]
pub struct Config {
    notes_dir: Option<String>,
    editor: Option<String>,
    pager: Option<String>,
}

impl View for Config {
    type V = SpecConfig;

    closed spec fn view(&self) -> SpecConfig {
        SpecConfig {
            notes_dir: match &self.notes_dir {
                Some(s) => Some(s@),
                None => None,
            },
            editor: match &self.editor {
                Some(s) => Some(s@),
                None => None,
            },
            pager: match &self.pager {
                Some(s) => Some(s@),
                None => None,
            },
        }
    }
}

impl Default for Config {
    /// The configuration with no field set.
    fn default() -> (r: Config)
        ensures
            r@ == spec_default_config(),
    {
        Config { notes_dir: None, editor: None, pager: None }
    }
}

impl Config {
    /// Set the notes dir on this `Config`; `None` preserves the current
    /// value.
    pub fn with_notes_dir(self, notes_dir: Option<String>) -> (r: Config)
        ensures
            r@.notes_dir == match notes_dir {
                Some(v) => Some(v@),
                None => self@.notes_dir,
            },
            r@.editor == self@.editor,
            r@.pager == self@.pager,
    {
        Config {
            notes_dir: match notes_dir {
                Some(v) => Some(v),
                None => self.notes_dir,
            },
            ..self
        }
    }

    /// Set the editor on this `Config`; `None` preserves the current value.
    pub fn with_editor(self, editor: Option<String>) -> (r: Config)
        ensures
            r@.editor == match editor {
                Some(v) => Some(v@),
                None => self@.editor,
            },
            r@.notes_dir == self@.notes_dir,
            r@.pager == self@.pager,
    {
        Config {
            editor: match editor {
                Some(v) => Some(v),
                None => self.editor,
            },
            ..self
        }
    }

    /// Set the pager on this `Config`; `None` preserves the current value.
    pub fn with_pager(self, pager: Option<String>) -> (r: Config)
        ensures
            r@.pager == match pager {
                Some(v) => Some(v@),
                None => self@.pager,
            },
            r@.notes_dir == self@.notes_dir,
            r@.editor == self@.editor,
    {
        Config {
            pager: match pager {
                Some(v) => Some(v),
                None => self.pager,
            },
            ..self
        }
    }
}

/// `cfg` with the field named `key` set to `value` (recognized keys only).
pub open spec fn spec_set_key(cfg: SpecConfig, key: Seq<char>, value: Seq<char>) -> SpecConfig {
    if key == "notes_dir"@ {
        SpecConfig { notes_dir: Some(value), ..cfg }
    } else if key == "editor"@ {
        SpecConfig { editor: Some(value), ..cfg }
    } else {
        SpecConfig { pager: Some(value), ..cfg }
    }
}

/// Is `key` one of the recognized configuration keys?
pub open spec fn spec_recognized_key(key: Seq<char>) -> bool {
    key == "notes_dir"@ || key == "editor"@ || key == "pager"@
}

/// Parse the rest of a configuration file: read `key value` pairs from `s`
/// (counting lines from `line`) into `cfg`, later pairs overwriting earlier
/// ones for the same key.
pub open spec fn spec_parse(s: Seq<char>, line: nat, cfg: SpecConfig) -> Result<
    SpecConfig,
    SpecError,
>
    decreases s.len(),
    via spec_parse_dec
{
    match spec_scan(s, line) {
        SpecScan::Eof(_) => Ok(cfg),
        SpecScan::Fail(kind, l) => Err(kind_error(kind, l)),
        SpecScan::Tok(key, rest, l) => if !spec_recognized_key(key) {
            Err(kind_error(SpecConfigErrorKind::UnrecognizedKey(key), l))
        } else {
            match spec_scan(rest, l) {
                SpecScan::Eof(l2) => Err(kind_error(SpecConfigErrorKind::UnexpectedEof, l2)),
                SpecScan::Fail(kind, l2) => Err(kind_error(kind, l2)),
                SpecScan::Tok(value, rest2, l2) => spec_parse(
                    rest2,
                    l2,
                    spec_set_key(cfg, key, value),
                ),
            }
        },
    }
}

#[via_fn]
proof fn spec_parse_dec(s: Seq<char>, line: nat, cfg: SpecConfig) {
    lemma_scan_consumes(s, line);
    if let SpecScan::Tok(key, rest, l) = spec_scan(s, line) {
        lemma_scan_consumes(rest, l);
    }
}

/// The result of parsing a whole configuration file.
pub open spec fn spec_parse_config(s: Seq<char>) -> Result<SpecConfig, SpecError> {
    spec_parse(s, 1, spec_default_config())
}

impl Config {
    /// Parse a configuration file's contents.
    ///
    /// Returns the configuration holding exactly the fields the file sets
    /// (last occurrence winning), or the first parse error: an unrecognized
    /// key, an illegal escape, an unterminated string, or a key with no
    /// value before end of input — each at the line it was detected on.
    ///
    /// The length bound is a machine limit: the line counter must fit in a
    /// `usize`.
    pub fn from_str(contents: &str) -> (r: Result<Config, Error>)
        requires
            contents@.len() < usize::MAX,
        ensures
            match r {
                Ok(c) => spec_parse_config(contents@) == Ok::<SpecConfig, SpecError>(c@),
                Err(e) => spec_parse_config(contents@) == Err::<SpecConfig, SpecError>(e@),
            },
    {
        let mut lexer = Lexer::new(contents);
        let mut config = Config::default();
        loop
            invariant
                lexer.wf(),
                spec_parse_config(contents@) == spec_parse(
                    lexer.remaining(),
                    lexer.spec_line(),
                    config@,
                ),
            decreases lexer.remaining().len(),
        {
            proof {
                lemma_scan_consumes(lexer.remaining(), lexer.spec_line());
            }
            let tok = match lexer.scan() {
                Err(e) => {
                    return Err(e);
                },
                Ok(None) => {
                    return Ok(config);
                },
                Ok(Some(tok)) => tok,
            };
            proof {
                lemma_scan_consumes(lexer.remaining(), lexer.spec_line());
            }
            let is_notes_dir = str_eq(tok.as_str(), "notes_dir");
            let is_editor = str_eq(tok.as_str(), "editor");
            let is_pager = str_eq(tok.as_str(), "pager");
            if is_notes_dir || is_editor || is_pager {
                let value = match lexer.scan() {
                    Err(e) => {
                        return Err(e);
                    },
                    Ok(None) => {
                        return unexpected_eof(lexer.line());
                    },
                    Ok(Some(value)) => value,
                };
                if is_notes_dir {
                    config.notes_dir = Some(value);
                } else if is_editor {
                    config.editor = Some(value);
                } else {
                    config.pager = Some(value);
                }
            } else {
                return unrecognized_key(tok.as_str(), lexer.line());
            }
        }
    }
}

/// The compiled-in candidate locations of the configuration file, most
/// specific first, at the specification level.
pub open spec fn spec_config_paths() -> Seq<Seq<char>> {
    seq![
        "$NEWT_CONFIG"@,
        "$XDG_CONFIG_HOME/newt/config"@,
        "$HOME/.config/newt/config"@,
        "$HOME/.newtrc"@,
        "/etc/newtrc"@,
    ]
}

/// The compiled-in candidate locations of the notes directory.
pub open spec fn spec_notes_paths() -> Seq<Seq<char>> {
    seq!["$NEWT_NOTES_DIR"@, "$HOME/.newt"@]
}

/// The compiled-in editor candidates.
pub open spec fn spec_editors() -> Seq<Seq<char>> {
    seq!["$EDITOR"@, "vim"@, "vi"@, "nano"@]
}

/// The compiled-in pager candidates.
pub open spec fn spec_pagers() -> Seq<Seq<char>> {
    seq!["$PAGER"@, "less"@, "more"@, "cat"@]
}

/// The candidate locations of the configuration file.
pub fn config_paths() -> (r: Vec<String>)
    ensures
        r.deep_view() == spec_config_paths(),
{
    let mut v: Vec<String> = Vec::new();
    v.push("$NEWT_CONFIG".to_owned());
    v.push("$XDG_CONFIG_HOME/newt/config".to_owned());
    v.push("$HOME/.config/newt/config".to_owned());
    v.push("$HOME/.newtrc".to_owned());
    v.push("/etc/newtrc".to_owned());
    proof {
        assert(v.deep_view() =~= spec_config_paths());
    }
    v
}

/// The candidate locations of the notes directory.
pub fn notes_paths() -> (r: Vec<String>)
    ensures
        r.deep_view() == spec_notes_paths(),
{
    let mut v: Vec<String> = Vec::new();
    v.push("$NEWT_NOTES_DIR".to_owned());
    v.push("$HOME/.newt".to_owned());
    proof {
        assert(v.deep_view() =~= spec_notes_paths());
    }
    v
}

/// The editor candidates.
pub fn editors() -> (r: Vec<String>)
    ensures
        r.deep_view() == spec_editors(),
{
    let mut v: Vec<String> = Vec::new();
    v.push("$EDITOR".to_owned());
    v.push("vim".to_owned());
    v.push("vi".to_owned());
    v.push("nano".to_owned());
    proof {
        assert(v.deep_view() =~= spec_editors());
    }
    v
}

/// The pager candidates.
pub fn pagers() -> (r: Vec<String>)
    ensures
        r.deep_view() == spec_pagers(),
{
    let mut v: Vec<String> = Vec::new();
    v.push("$PAGER".to_owned());
    v.push("less".to_owned());
    v.push("more".to_owned());
    v.push("cat".to_owned());
    proof {
        assert(v.deep_view() =~= spec_pagers());
    }
    v
}

/// The first candidate whose interpolation succeeds, is non-empty and names
/// an entry of `avail` (the locations the embedding program found usable).
pub open spec fn spec_first_candidate(
    cands: Seq<Seq<char>>,
    env: Map<Seq<char>, Seq<char>>,
    avail: Seq<Seq<char>>,
) -> Option<Seq<char>>
    decreases cands.len(),
{
    if cands.len() == 0 {
        None
    } else {
        match interp_spec(cands[0], env, INTERP_DEPTH as nat) {
            Some(v) => if v.len() > 0 && avail.contains(v) {
                Some(v)
            } else {
                spec_first_candidate(cands.drop_first(), env, avail)
            },
            None => spec_first_candidate(cands.drop_first(), env, avail),
        }
    }
}

/// The value a setting resolves to: the configured value (interpolated) if
/// present and expandable, else the first usable candidate.
pub open spec fn spec_resolve_setting(
    field: Option<Seq<char>>,
    env: Map<Seq<char>, Seq<char>>,
    cands: Seq<Seq<char>>,
    avail: Seq<Seq<char>>,
) -> Option<Seq<char>> {
    match field {
        Some(v) => match interp_spec(v, env, INTERP_DEPTH as nat) {
            Some(p) => Some(p),
            None => spec_first_candidate(cands, env, avail),
        },
        None => spec_first_candidate(cands, env, avail),
    }
}

/// The first entry of `cands` whose interpolation against `env` succeeds,
/// is non-empty, and stands in `avail`.
fn first_candidate(cands: &Vec<String>, env: &Env, avail: &Vec<String>) -> (r: Option<String>)
    ensures
        match r {
            Some(p) => spec_first_candidate(cands.deep_view(), env@, avail.deep_view()) == Some(
                p@,
            ),
            None => spec_first_candidate(cands.deep_view(), env@, avail.deep_view()) is None,
        },
{
    let n = cands.len();
    let mut i: usize = 0;
    proof {
        assert(cands.deep_view().skip(0) =~= cands.deep_view());
    }
    while i < n
        invariant
            i <= n,
            n == cands.len(),
            spec_first_candidate(cands.deep_view(), env@, avail.deep_view())
                == spec_first_candidate(
                cands.deep_view().skip(i as int),
                env@,
                avail.deep_view(),
            ),
        decreases n - i,
    {
        proof {
            assert(cands.deep_view().skip(i as int)[0] == cands.deep_view()[i as int]);
            assert(cands.deep_view().skip(i as int).drop_first() =~= cands.deep_view().skip(
                i + 1,
            ));
        }
        match interpolate(cands[i].as_str(), env) {
            Some(p) => {
                if !p.as_str().is_empty() && contains_str(avail, p.as_str()) {
                    return Some(p);
                }
            },
            None => {},
        }
        i += 1;
    }
    proof {
        assert(cands.deep_view().skip(n as int).len() == 0);
    }
    None
}

impl Config {
    /// The notes directory this configuration resolves to.
    ///
    /// `env` is the variable table; `dirs` lists the candidate paths the
    /// embedding program found to exist as directories.  Returns the
    /// configured directory (interpolated) if set and expandable, else the
    /// first usable candidate of [`notes_paths`], else `NoNotesDir`.
    pub fn notes_dir(&self, env: &Env, dirs: &Vec<String>) -> (r: Result<String, Error>)
        ensures
            match spec_resolve_setting(self@.notes_dir, env@, spec_notes_paths(), dirs.deep_view(),
            ) {
                Some(p) => r matches Ok(s) && s@ == p,
                None => r matches Err(e) && e@ == SpecError::NoNotesDir,
            },
    {
        if let Some(v) = &self.notes_dir {
            if let Some(p) = interpolate(v.as_str(), env) {
                return Ok(p);
            }
        }
        let cands = notes_paths();
        match first_candidate(&cands, env, dirs) {
            Some(p) => Ok(p),
            None => Err(Error::NoNotesDir),
        }
    }

    /// The editor command this configuration resolves to.
    ///
    /// `env` is the variable table; `exes` lists the candidate commands the
    /// embedding program found on the executable search path.  Returns the
    /// configured editor (interpolated) if set and expandable, else the
    /// first usable candidate of [`editors`], else `NoEditor`.
    pub fn editor(&self, env: &Env, exes: &Vec<String>) -> (r: Result<String, Error>)
        ensures
            match spec_resolve_setting(self@.editor, env@, spec_editors(), exes.deep_view()) {
                Some(p) => r matches Ok(s) && s@ == p,
                None => r matches Err(e) && e@ == SpecError::NoEditor,
            },
    {
        if let Some(v) = &self.editor {
            if let Some(p) = interpolate(v.as_str(), env) {
                return Ok(p);
            }
        }
        let cands = editors();
        match first_candidate(&cands, env, exes) {
            Some(p) => Ok(p),
            None => Err(Error::NoEditor),
        }
    }

    /// The pager command this configuration resolves to.
    ///
    /// `env` is the variable table; `exes` lists the candidate commands the
    /// embedding program found on the executable search path.  Returns the
    /// configured pager (interpolated) if set and expandable, else the
    /// first usable candidate of [`pagers`], else `NoPager`.
    pub fn pager(&self, env: &Env, exes: &Vec<String>) -> (r: Result<String, Error>)
        ensures
            match spec_resolve_setting(self@.pager, env@, spec_pagers(), exes.deep_view()) {
                Some(p) => r matches Ok(s) && s@ == p,
                None => r matches Err(e) && e@ == SpecError::NoPager,
            },
    {
        if let Some(v) = &self.pager {
            if let Some(p) = interpolate(v.as_str(), env) {
                return Ok(p);
            }
        }
        let cands = pagers();
        match first_candidate(&cands, env, exes) {
            Some(p) => Ok(p),
            None => Err(Error::NoPager),
        }
    }
}

/// The candidate configuration-file paths whose interpolation against `env`
/// succeeds and is non-empty, in priority order.
pub open spec fn spec_interp_candidates(
    cands: Seq<Seq<char>>,
    env: Map<Seq<char>, Seq<char>>,
) -> Seq<Seq<char>>
    decreases cands.len(),
{
    if cands.len() == 0 {
        Seq::empty()
    } else {
        let rest = spec_interp_candidates(cands.drop_first(), env);
        match interp_spec(cands[0], env, INTERP_DEPTH as nat) {
            Some(v) => if v.len() > 0 {
                seq![v] + rest
            } else {
                rest
            },
            None => rest,
        }
    }
}

/// The configuration-file paths worth probing, in priority order: each
/// compiled-in candidate of [`config_paths`] that interpolates to a
/// non-empty string.  The embedding program stats each in turn and reads
/// the first that is a file.
pub fn conf_file_candidates(env: &Env) -> (r: Vec<String>)
    ensures
        r.deep_view() == spec_interp_candidates(spec_config_paths(), env@),
{
    let cands = config_paths();
    let n = cands.len();
    let mut out: Vec<String> = Vec::new();
    let mut i: usize = 0;
    proof {
        assert(cands.deep_view().skip(0) =~= cands.deep_view());
        assert(out.deep_view() + spec_interp_candidates(cands.deep_view(), env@)
            =~= spec_interp_candidates(cands.deep_view(), env@));
    }
    while i < n
        invariant
            i <= n,
            n == cands.len(),
            cands.deep_view() == spec_config_paths(),
            out.deep_view() + spec_interp_candidates(cands.deep_view().skip(i as int), env@)
                == spec_interp_candidates(spec_config_paths(), env@),
        decreases n - i,
    {
        proof {
            assert(cands.deep_view().skip(i as int)[0] == cands.deep_view()[i as int]);
            assert(cands.deep_view().skip(i as int).drop_first() =~= cands.deep_view().skip(
                i + 1,
            ));
        }
        let ghost out_prev = out.deep_view();
        match interpolate(cands[i].as_str(), env) {
            Some(p) => {
                if !p.as_str().is_empty() {
                    let ghost pv = p@;
                    out.push(p);
                    proof {
                        assert(out.deep_view() =~= out_prev.push(pv));
                        assert(out_prev.push(pv) + spec_interp_candidates(
                            cands.deep_view().skip(i + 1),
                            env@,
                        ) =~= out_prev + (seq![pv] + spec_interp_candidates(
                            cands.deep_view().skip(i + 1),
                            env@,
                        )));
                    }
                }
            },
            None => {},
        }
        i += 1;
    }
    proof {
        assert(spec_interp_candidates(cands.deep_view().skip(n as int), env@)
            == Seq::<Seq<char>>::empty());
        assert(out.deep_view() + Seq::<Seq<char>>::empty() =~= out.deep_view());
    }
    out
}

/// `e` with `path` recorded as the file it arose in, if it is a parse
/// error; other errors are returned unchanged.
pub open spec fn spec_with_path(e: SpecError, path: Seq<char>) -> SpecError {
    match e {
        SpecError::Config { line, path: _, kind } => SpecError::Config {
            line,
            path: Some(path),
            kind,
        },
        other => other,
    }
}

/// Record `path` on a parse error; other errors are returned unchanged.
pub fn with_path(e: Error, path: &str) -> (r: Error)
    ensures
        r@ == spec_with_path(e@, path@),
{
    match e {
        Error::Config { line, path: _, kind } => Error::Config {
            line,
            path: Some(path.to_owned()),
            kind,
        },
        other => other,
    }
}

/// Resolve the configuration from the file the embedding program found.
///
/// `file` is the configuration file's path and contents, or `None` when no
/// candidate of [`conf_file_candidates`] named an existing file; then the
/// default (empty) configuration is returned.  A parse error is reported
/// with the file's path attached.
pub fn resolve(file: Option<(&str, &str)>) -> (r: Result<Config, Error>)
    requires
        file matches Some(f) ==> f.1@.len() < usize::MAX,
    ensures
        match file {
            None => r matches Ok(c) && c@ == spec_default_config(),
            Some(f) => match spec_parse_config(f.1@) {
                Ok(sc) => r matches Ok(c) && c@ == sc,
                Err(e) => r matches Err(err) && err@ == spec_with_path(e, f.0@),
            },
        },
{
    match file {
        None => Ok(Config::default()),
        Some((path, contents)) => match Config::from_str(contents) {
            Ok(c) => Ok(c),
            Err(e) => Err(with_path(e, path)),
        },
    }
}

/// A string usable as an unquoted configuration token: non-empty, free of
/// blanks, and not starting a quote or a comment.
pub open spec fn spec_plain_token(t: Seq<char>) -> bool {
    t.len() > 0 && (forall|i: int| 0 <= i < t.len() ==> !is_space_spec(t[i])) && t[0] != '"'
        && t[0] != '#'
}

/// `key value` lines, rendered one pair per line.
pub open spec fn spec_render_pairs(pairs: Seq<(Seq<char>, Seq<char>)>) -> Seq<char>
    decreases pairs.len(),
{
    if pairs.len() == 0 {
        Seq::empty()
    } else {
        pairs[0].0 + " "@ + pairs[0].1 + "\n"@ + spec_render_pairs(pairs.drop_first())
    }
}

/// `cfg` after setting each pair's field in order: the last pair for a key
/// wins.
pub open spec fn spec_fold_pairs(pairs: Seq<(Seq<char>, Seq<char>)>, cfg: SpecConfig) -> SpecConfig
    decreases pairs.len(),
{
    if pairs.len() == 0 {
        cfg
    } else {
        spec_fold_pairs(pairs.drop_first(), spec_set_key(cfg, pairs[0].0, pairs[0].1))
    }
}

/// The value the last pair with key `key` carries, or `dflt` if none does.
pub open spec fn spec_last_value(
    pairs: Seq<(Seq<char>, Seq<char>)>,
    key: Seq<char>,
    dflt: Option<Seq<char>>,
) -> Option<Seq<char>>
    decreases pairs.len(),
{
    if pairs.len() == 0 {
        dflt
    } else {
        spec_last_value(
            pairs.drop_first(),
            key,
            if pairs[0].0 == key {
                Some(pairs[0].1)
            } else {
                dflt
            },
        )
    }
}

/// The recognized keys are usable as unquoted tokens.
proof fn lemma_keys_plain(key: Seq<char>)
    requires
        spec_recognized_key(key),
    ensures
        spec_plain_token(key),
{
    reveal_strlit("notes_dir");
    reveal_strlit("editor");
    reveal_strlit("pager");
}

/// A leading newline only moves the parser to the next line.
proof fn lemma_parse_skip_newline(x: Seq<char>, line: nat, cfg: SpecConfig)
    ensures
        spec_parse(seq!['\n'] + x, line, cfg) == spec_parse(x, line + 1, cfg),
{
    assert((seq!['\n'] + x).drop_first() =~= x);
    assert(spec_skip_ws(seq!['\n'] + x, line) == spec_skip_ws(x, line + 1));
    assert(spec_scan(seq!['\n'] + x, line) == spec_scan(x, line + 1));
}

proof fn lemma_parse_render(pairs: Seq<(Seq<char>, Seq<char>)>, line: nat, cfg: SpecConfig)
    requires
        forall|i: int|
            0 <= i < pairs.len() ==> spec_recognized_key(#[trigger] pairs[i].0)
                && spec_plain_token(pairs[i].1),
    ensures
        spec_parse(spec_render_pairs(pairs), line, cfg) == Ok::<SpecConfig, SpecError>(
            spec_fold_pairs(pairs, cfg),
        ),
    decreases pairs.len(),
{
    reveal_strlit(" ");
    reveal_strlit("\n");
    if pairs.len() == 0 {
        assert(spec_render_pairs(pairs).len() == 0);
    } else {
        let k = pairs[0].0;
        let v = pairs[0].1;
        let rest = spec_render_pairs(pairs.drop_first());
        let s = spec_render_pairs(pairs);
        lemma_keys_plain(k);
        let r1 = " "@ + (v + ("\n"@ + rest));
        assert(s =~= k + r1);
        assert(r1[0] == ' ');

        // the key lexes as one bare token
        lemma_collect_bare_plain(k, r1);
        assert(spec_skip_ws(s, line) == (s, line));
        assert(spec_scan(s, line) == SpecScan::Tok(k, r1, line));

        // the value lexes as the next bare token, on the same line
        let r2 = v + ("\n"@ + rest);
        assert(r1.drop_first() =~= r2);
        assert(spec_skip_ws(r1, line) == spec_skip_ws(r2, line));
        assert(spec_skip_ws(r2, line) == (r2, line));
        lemma_collect_bare_plain(v, "\n"@ + rest);
        assert(collect_bare(r2) == (v, "\n"@ + rest));
        assert(spec_scan(r1, line) == SpecScan::Tok(v, "\n"@ + rest, line));

        // the trailing newline, then the remaining pairs
        assert("\n"@ + rest =~= seq!['\n'] + rest);
        lemma_parse_skip_newline(rest, line, spec_set_key(cfg, k, v));
        assert(forall|i: int|
            0 <= i < pairs.drop_first().len() ==> #[trigger] pairs.drop_first()[i] == pairs[i
                + 1]);
        lemma_parse_render(pairs.drop_first(), line + 1, spec_set_key(cfg, k, v));
    }
}

/// Config parser round-trip: a file of well-formed `key value` lines with
/// recognized keys parses to exactly those fields, later lines overwriting
/// earlier ones for the same key.
pub proof fn lemma_config_round_trip(pairs: Seq<(Seq<char>, Seq<char>)>)
    requires
        forall|i: int|
            0 <= i < pairs.len() ==> spec_recognized_key(#[trigger] pairs[i].0)
                && spec_plain_token(pairs[i].1),
    ensures
        spec_parse_config(spec_render_pairs(pairs)) == Ok::<SpecConfig, SpecError>(
            spec_fold_pairs(pairs, spec_default_config()),
        ),
{
    lemma_parse_render(pairs, 1, spec_default_config());
}

/// Folding pairs sets each field to the last value given for its key.
pub proof fn lemma_fold_last_wins(pairs: Seq<(Seq<char>, Seq<char>)>, cfg: SpecConfig)
    requires
        forall|i: int| 0 <= i < pairs.len() ==> spec_recognized_key(#[trigger] pairs[i].0),
    ensures
        spec_fold_pairs(pairs, cfg).notes_dir == spec_last_value(pairs, "notes_dir"@, cfg.notes_dir),
        spec_fold_pairs(pairs, cfg).editor == spec_last_value(pairs, "editor"@, cfg.editor),
        spec_fold_pairs(pairs, cfg).pager == spec_last_value(pairs, "pager"@, cfg.pager),
    decreases pairs.len(),
{
    reveal_strlit("notes_dir");
    reveal_strlit("editor");
    reveal_strlit("pager");
    assert("notes_dir"@.len() == 9);
    assert("editor"@.len() == 6);
    assert("pager"@.len() == 5);
    if pairs.len() > 0 {
        let k = pairs[0].0;
        let v = pairs[0].1;
        let cfg2 = spec_set_key(cfg, k, v);
        assert(spec_recognized_key(k));
        if k == "notes_dir"@ {
            assert(cfg2.notes_dir == Some(v) && cfg2.editor == cfg.editor && cfg2.pager
                == cfg.pager);
        } else if k == "editor"@ {
            assert(cfg2.editor == Some(v) && cfg2.notes_dir == cfg.notes_dir && cfg2.pager
                == cfg.pager);
        } else {
            assert(cfg2.pager == Some(v) && cfg2.notes_dir == cfg.notes_dir && cfg2.editor
                == cfg.editor);
        }
        assert(forall|i: int|
            0 <= i < pairs.drop_first().len() ==> #[trigger] pairs.drop_first()[i] == pairs[i
                + 1]);
        lemma_fold_last_wins(pairs.drop_first(), cfg2);
    }
}

} // verus!
