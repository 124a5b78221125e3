//! Error types for configuration parsing and resolution.
//!
//! Every configuration-parse failure carries the 1-based line number at
//! which the offending token began and, once known, the path of the file
//! being read.  Resolution failures are one variant per setting.

use vstd::prelude::*;

use crate::text::{chars_to_string, str_chars, str_eq};
use crate::util::{dec_rep, dec_string};

verus! {

/// A configuration-parse error kind, at the specification level.
pub enum SpecConfigErrorKind {
    /// An unrecognized configuration key was specified.
    UnrecognizedKey(Seq<char>),
    /// An illegal or unexpected token was found.
    IllegalToken(Seq<char>),
    /// The file ended unexpectedly.
    UnexpectedEof,
    /// A string value was unterminated.
    UnterminatedString,
}

/// An error, at the specification level.
pub enum SpecError {
    /// An error parsing a configuration file.
    Config { line: nat, path: Option<Seq<char>>, kind: SpecConfigErrorKind },
    /// No notes directory was configured or could be found.
    NoNotesDir,
    /// No editor was configured or could be found.
    NoEditor,
    /// No pager program was configured or could be found.
    NoPager,
    /// The user specified a file index that does not exist.
    FileIndexOutOfRange(nat),
    /// A command could not be parsed or invoked.
    CannotInvoke { command: Seq<char>, source: Option<Seq<char>> },
    /// A system IO error.
    FileIo(Seq<char>),
}

/// The parse error whose kind is `kind`, detected at `line`, with no path
/// attached yet.
pub open spec fn kind_error(kind: SpecConfigErrorKind, line: nat) -> SpecError {
    SpecError::Config { line, path: None, kind }
}

/// Configuration error kinds.
#[derive(Debug, Clone)]
pub enum ConfigErrorKind {
    /// An unrecognized configuration key was specified.
    UnrecognizedKey {
        /// The unrecognized key.
        key: String,
    },
    /// An illegal or unexpected token was found.
    IllegalToken {
        /// The illegal token.
        token: String,
    },
    /// The file ended unexpectedly.
    UnexpectedEof,
    /// A string value was unterminated.
    UnterminatedString,
}

impl View for ConfigErrorKind {
    type V = SpecConfigErrorKind;

    open spec fn view(&self) -> SpecConfigErrorKind {
        match self {
            ConfigErrorKind::UnrecognizedKey { key } => SpecConfigErrorKind::UnrecognizedKey(key@),
            ConfigErrorKind::IllegalToken { token } => SpecConfigErrorKind::IllegalToken(token@),
            ConfigErrorKind::UnexpectedEof => SpecConfigErrorKind::UnexpectedEof,
            ConfigErrorKind::UnterminatedString => SpecConfigErrorKind::UnterminatedString,
        }
    }
}

/// Errors raised by configuration parsing, resolution and invocation.
#[derive(Debug, Clone)]
pub enum Error {
    /// An error parsing a configuration file.
    Config {
        /// The line of the file that contains the error.
        line: usize,
        /// The path to the configuration file, if available.
        path: Option<String>,
        /// The kind of error.
        kind: ConfigErrorKind,
    },
    /// No notes directory was configured or could be found.
    NoNotesDir,
    /// No editor was configured or could be found.
    NoEditor,
    /// No pager program was configured or could be found.
    NoPager,
    /// The user specified a file index that does not exist.
    FileIndexOutOfRange {
        /// The provided, out-of-range index.
        index: usize,
    },
    /// A command could not be parsed or invoked.
    CannotInvoke {
        /// The offending command.
        command: String,
        /// The underlying OS error message, if any.
        source: Option<String>,
    },
    /// A system IO error.
    FileIo {
        /// The source IO error's message.
        message: String,
    },
}

impl View for Error {
    type V = SpecError;

    open spec fn view(&self) -> SpecError {
        match self {
            Error::Config { line, path, kind } => SpecError::Config {
                line: *line as nat,
                path: match path {
                    Some(p) => Some(p@),
                    None => None,
                },
                kind: kind@,
            },
            Error::NoNotesDir => SpecError::NoNotesDir,
            Error::NoEditor => SpecError::NoEditor,
            Error::NoPager => SpecError::NoPager,
            Error::FileIndexOutOfRange { index } => SpecError::FileIndexOutOfRange(*index as nat),
            Error::CannotInvoke { command, source } => SpecError::CannotInvoke {
                command: command@,
                source: match source {
                    Some(s) => Some(s@),
                    None => None,
                },
            },
            Error::FileIo { message } => SpecError::FileIo(message@),
        }
    }
}

impl ConfigErrorKind {
    /// Build an [`Error::Config`] from this kind, at the given line, for the
    /// given file.
    pub fn at_line(self, line: usize, path: Option<&str>) -> (r: Error)
        ensures
            r@ == (SpecError::Config {
                line: line as nat,
                path: match path {
                    Some(p) => Some(p@),
                    None => None,
                },
                kind: self@,
            }),
    {
        Error::Config {
            line,
            path: match path {
                Some(p) => Some(p.to_owned()),
                None => None,
            },
            kind: self,
        }
    }
}

/// Are two optional strings character-for-character equal?
fn opt_str_eq(a: &Option<String>, b: &Option<String>) -> (r: bool)
    ensures
        r == match (a, b) {
            (Some(x), Some(y)) => x@ == y@,
            (None, None) => true,
            _ => false,
        },
{
    match (a, b) {
        (Some(x), Some(y)) => str_eq(x.as_str(), y.as_str()),
        (None, None) => true,
        _ => false,
    }
}

impl PartialEq for ConfigErrorKind {
    /// Kinds are equal when they have the same variant and payload.
    fn eq(&self, other: &Self) -> (r: bool) {
        match (self, other) {
            (
                ConfigErrorKind::UnrecognizedKey { key: k1 },
                ConfigErrorKind::UnrecognizedKey { key: k2 },
            ) => str_eq(k1.as_str(), k2.as_str()),
            (
                ConfigErrorKind::IllegalToken { token: t1 },
                ConfigErrorKind::IllegalToken { token: t2 },
            ) => str_eq(t1.as_str(), t2.as_str()),
            (ConfigErrorKind::UnexpectedEof, ConfigErrorKind::UnexpectedEof) => true,
            (ConfigErrorKind::UnterminatedString, ConfigErrorKind::UnterminatedString) => true,
            _ => false,
        }
    }
}

impl vstd::std_specs::cmp::PartialEqSpecImpl for ConfigErrorKind {
    open spec fn obeys_eq_spec() -> bool {
        true
    }

    open spec fn eq_spec(&self, other: &Self) -> bool {
        self@ == other@
    }
}

impl Eq for ConfigErrorKind {

}

impl PartialEq for Error {
    /// Two errors are equal only when both are `Config` errors with equal
    /// fields; every other pairing, even of a variant with itself, is
    /// unequal.
    fn eq(&self, other: &Self) -> (r: bool) {
        match (self, other) {
            (
                Error::Config { line: l1, path: p1, kind: k1 },
                Error::Config { line: l2, path: p2, kind: k2 },
            ) => *l1 == *l2 && k1.eq(k2) && opt_str_eq(p1, p2),
            _ => false,
        }
    }
}

impl vstd::std_specs::cmp::PartialEqSpecImpl for Error {
    open spec fn obeys_eq_spec() -> bool {
        true
    }

    open spec fn eq_spec(&self, other: &Self) -> bool {
        match (self, other) {
            (
                Error::Config { line: l1, path: p1, kind: k1 },
                Error::Config { line: l2, path: p2, kind: k2 },
            ) => l1 == l2 && k1@ == k2@ && match (p1, p2) {
                (Some(x), Some(y)) => x@ == y@,
                (None, None) => true,
                _ => false,
            },
            _ => false,
        }
    }
}

/// A `CannotInvoke` error for `command`, with an optional OS error message.
pub fn cannot_invoke(command: &str, source: Option<String>) -> (r: Error)
    ensures
        r@ == (SpecError::CannotInvoke {
            command: command@,
            source: match source {
                Some(s) => Some(s@),
                None => None,
            },
        }),
{
    Error::CannotInvoke { command: command.to_owned(), source }
}

/// An unrecognized-key parse error at the given line.
pub fn unrecognized_key<T>(key: &str, line: usize) -> (r: Result<T, Error>)
    ensures
        r matches Err(e) && e@ == kind_error(
            SpecConfigErrorKind::UnrecognizedKey(key@),
            line as nat,
        ),
{
    Err(Error::Config {
        line,
        path: None,
        kind: ConfigErrorKind::UnrecognizedKey { key: key.to_owned() },
    })
}

/// An illegal-token parse error at the given line.
pub fn illegal_token<T>(tok: &str, line: usize) -> (r: Result<T, Error>)
    ensures
        r matches Err(e) && e@ == kind_error(
            SpecConfigErrorKind::IllegalToken(tok@),
            line as nat,
        ),
{
    Err(Error::Config {
        line,
        path: None,
        kind: ConfigErrorKind::IllegalToken { token: tok.to_owned() },
    })
}

/// An unexpected-end-of-file parse error at the given line.
pub fn unexpected_eof<T>(line: usize) -> (r: Result<T, Error>)
    ensures
        r matches Err(e) && e@ == kind_error(SpecConfigErrorKind::UnexpectedEof, line as nat),
{
    Err(Error::Config { line, path: None, kind: ConfigErrorKind::UnexpectedEof })
}

/// An unterminated-string parse error at the given line.
pub fn unterminated_string<T>(line: usize) -> (r: Result<T, Error>)
    ensures
        r matches Err(e) && e@ == kind_error(SpecConfigErrorKind::UnterminatedString, line as nat),
{
    Err(Error::Config { line, path: None, kind: ConfigErrorKind::UnterminatedString })
}

/// The escape a character gets inside a quoted token rendering.
pub open spec fn esc_char(c: char) -> Seq<char> {
    if c == '"' {
        seq!['\\', '"']
    } else if c == '\\' {
        seq!['\\', '\\']
    } else if c == '\n' {
        seq!['\\', 'n']
    } else if c == '\t' {
        seq!['\\', 't']
    } else if c == '\r' {
        seq!['\\', 'r']
    } else {
        seq![c]
    }
}

/// `s` with each character escaped for a quoted rendering.
pub open spec fn spec_escaped(s: Seq<char>) -> Seq<char>
    decreases s.len(),
{
    if s.len() == 0 {
        Seq::empty()
    } else {
        spec_escaped(s.drop_last()) + esc_char(s.last())
    }
}

/// `s` rendered as a quoted token: double quotes around it, with
/// backslash escapes for quotes, backslashes and common control
/// characters.
pub open spec fn spec_quoted(s: Seq<char>) -> Seq<char> {
    seq!['"'] + spec_escaped(s) + seq!['"']
}

/// Render `s` as a quoted token.
fn quote_string(s: &str) -> (r: String)
    ensures
        r@ == spec_quoted(s@),
{
    let cs = str_chars(s);
    let n = cs.len();
    let mut acc: Vec<char> = Vec::new();
    acc.push('"');
    proof {
        assert(acc@ =~= seq!['"'] + spec_escaped(cs@.subrange(0, 0)));
    }
    let mut i: usize = 0;
    while i < n
        invariant
            i <= n,
            n == cs.len(),
            cs@ == s@,
            acc@ == seq!['"'] + spec_escaped(cs@.subrange(0, i as int)),
        decreases n - i,
    {
        let c = cs[i];
        if c == '"' {
            acc.push('\\');
            acc.push('"');
        } else if c == '\\' {
            acc.push('\\');
            acc.push('\\');
        } else if c == '\n' {
            acc.push('\\');
            acc.push('n');
        } else if c == '\t' {
            acc.push('\\');
            acc.push('t');
        } else if c == '\r' {
            acc.push('\\');
            acc.push('r');
        } else {
            acc.push(c);
        }
        proof {
            assert(cs@.subrange(0, i + 1).drop_last() =~= cs@.subrange(0, i as int));
            assert(cs@.subrange(0, i + 1).last() == c);
            assert(acc@ =~= seq!['"'] + spec_escaped(cs@.subrange(0, i + 1)));
        }
        i += 1;
    }
    acc.push('"');
    proof {
        assert(cs@.subrange(0, n as int) =~= s@);
        assert(acc@ =~= spec_quoted(s@));
    }
    chars_to_string(&acc)
}

/// The message a configuration error kind renders to.
pub open spec fn spec_kind_message(k: SpecConfigErrorKind) -> Seq<char> {
    match k {
        SpecConfigErrorKind::UnrecognizedKey(key) => "unrecognized key "@ + spec_quoted(key),
        SpecConfigErrorKind::IllegalToken(tok) => "illegal token "@ + spec_quoted(tok),
        SpecConfigErrorKind::UnexpectedEof => "file ended unexpectedly"@,
        SpecConfigErrorKind::UnterminatedString => "missing '\"' character at end of string"@,
    }
}

/// The message an error renders to.
pub open spec fn spec_message(e: SpecError) -> Seq<char> {
    match e {
        SpecError::Config { line, path, kind } => "Error in "@ + (match path {
            Some(p) => p,
            None => "configuration"@,
        }) + " at line "@ + dec_rep(line) + ": "@ + spec_kind_message(kind),
        SpecError::NoNotesDir => "No notes directory configured or found"@,
        SpecError::NoEditor => "No editor configured or found"@,
        SpecError::NoPager => "No pager configured or found"@,
        SpecError::FileIndexOutOfRange(i) => "No file with index "@ + dec_rep(i),
        SpecError::CannotInvoke { command, source } => "Cannot invoke command `"@ + command
            + "`"@ + (match source {
            Some(s) => ": "@ + s,
            None => Seq::empty(),
        }),
        SpecError::FileIo(m) => "File IO error: "@ + m,
    }
}

impl ConfigErrorKind {
    /// The human-readable message for this error kind.
    pub fn message(&self) -> (r: String)
        ensures
            r@ == spec_kind_message(self@),
    {
        match self {
            ConfigErrorKind::UnrecognizedKey { key } => {
                let mut m = "unrecognized key ".to_owned();
                let q = quote_string(key.as_str());
                m.append(q.as_str());
                m
            },
            ConfigErrorKind::IllegalToken { token } => {
                let mut m = "illegal token ".to_owned();
                let q = quote_string(token.as_str());
                m.append(q.as_str());
                m
            },
            ConfigErrorKind::UnexpectedEof => "file ended unexpectedly".to_owned(),
            ConfigErrorKind::UnterminatedString => {
                "missing '\"' character at end of string".to_owned()
            },
        }
    }
}

impl Error {
    /// The human-readable message for this error.
    pub fn message(&self) -> (r: String)
        ensures
            r@ == spec_message(self@),
    {
        match self {
            Error::Config { line, path, kind } => {
                let mut m = "Error in ".to_owned();
                match path {
                    Some(p) => m.append(p.as_str()),
                    None => m.append("configuration"),
                }
                m.append(" at line ");
                let ln = dec_string(*line);
                m.append(ln.as_str());
                m.append(": ");
                let km = kind.message();
                m.append(km.as_str());
                proof {
                    assert(m@ =~= spec_message(self@));
                }
                m
            },
            Error::NoNotesDir => "No notes directory configured or found".to_owned(),
            Error::NoEditor => "No editor configured or found".to_owned(),
            Error::NoPager => "No pager configured or found".to_owned(),
            Error::FileIndexOutOfRange { index } => {
                let mut m = "No file with index ".to_owned();
                let ix = dec_string(*index);
                m.append(ix.as_str());
                m
            },
            Error::CannotInvoke { command, source } => {
                let mut m = "Cannot invoke command `".to_owned();
                m.append(command.as_str());
                m.append("`");
                match source {
                    Some(src) => {
                        m.append(": ");
                        m.append(src.as_str());
                    },
                    None => {},
                }
                proof {
                    assert(m@ =~= spec_message(self@));
                }
                m
            },
            Error::FileIo { message } => {
                let mut m = "File IO error: ".to_owned();
                m.append(message.as_str());
                m
            },
        }
    }
}

} // verus!
