//! The configuration-file lexer.
//!
//! Tokenizes a `key value` configuration file into a flat stream of
//! whitespace/comment-delimited or quoted tokens, tracking 1-based line
//! numbers for diagnostics.  Quoted tokens may contain `\"`, `\\` and
//! `\<newline>` (line continuation) escapes; any other escape is an illegal
//! token, and a quote left open at end of line or end of input is an
//! unterminated string.

use vstd::prelude::*;

use crate::error::{
    illegal_token, kind_error, unexpected_eof, unterminated_string, Error, SpecConfigErrorKind,
};
use crate::text::{chars_to_string, is_space, is_space_spec, str_chars};

verus! {

/// The input after skipping to (but not over) the next newline.
pub open spec fn skip_line(s: Seq<char>) -> Seq<char>
    decreases s.len(),
{
    if s.len() == 0 {
        s
    } else if s[0] == '\n' {
        s
    } else {
        skip_line(s.drop_first())
    }
}

/// Skipping to a newline never lengthens the input, and consumes at least
/// one character unless the input is empty or already at a newline.
pub proof fn lemma_skip_line_len(s: Seq<char>)
    ensures
        skip_line(s).len() <= s.len(),
        s.len() > 0 && s[0] != '\n' ==> skip_line(s).len() < s.len(),
    decreases s.len(),
{
    if s.len() > 0 && s[0] != '\n' {
        lemma_skip_line_len(s.drop_first());
    }
}

/// The input and line number after skipping whitespace and `#` comments.
pub open spec fn spec_skip_ws(s: Seq<char>, line: nat) -> (Seq<char>, nat)
    decreases s.len(),
    via spec_skip_ws_dec
{
    if s.len() == 0 {
        (s, line)
    } else if s[0] == '#' {
        spec_skip_ws(skip_line(s), line)
    } else if !is_space_spec(s[0]) {
        (s, line)
    } else {
        spec_skip_ws(s.drop_first(), if s[0] == '\n' { line + 1 } else { line })
    }
}

#[via_fn]
proof fn spec_skip_ws_dec(s: Seq<char>, line: nat) {
    if s.len() > 0 && s[0] == '#' {
        lemma_skip_line_len(s);
    }
}

/// Skipping whitespace never lengthens the input.
pub proof fn lemma_skip_ws_len(s: Seq<char>, line: nat)
    ensures
        spec_skip_ws(s, line).0.len() <= s.len(),
    decreases s.len(),
{
    if s.len() > 0 {
        if s[0] == '#' {
            lemma_skip_line_len(s);
            lemma_skip_ws_len(skip_line(s), line);
        } else if is_space_spec(s[0]) {
            lemma_skip_ws_len(s.drop_first(), if s[0] == '\n' { line + 1 } else { line });
        }
    }
}

/// The maximal unquoted token at the head of the input, and what follows it.
pub open spec fn collect_bare(s: Seq<char>) -> (Seq<char>, Seq<char>)
    decreases s.len(),
{
    if s.len() == 0 || is_space_spec(s[0]) {
        (Seq::empty(), s)
    } else {
        let (tok, rest) = collect_bare(s.drop_first());
        (seq![s[0]] + tok, rest)
    }
}

/// How collecting the body of a quoted token can end.
pub enum QuotedRes {
    /// The closing quote was found: the token text, the input after the
    /// quote, and the line reached.
    Done(Seq<char>, Seq<char>, nat),
    /// An illegal escape was found: the offending two-character token and
    /// the line it sits on.
    Illegal(Seq<char>, nat),
    /// The input ended just after a backslash.
    Eof(nat),
    /// The line or the input ended before the closing quote.
    Unterminated(nat),
}

/// Collect the body of a quoted token from `s`, with `acc` gathered so far.
pub open spec fn collect_quoted(s: Seq<char>, line: nat, acc: Seq<char>) -> QuotedRes
    decreases s.len(),
    via collect_quoted_dec
{
    if s.len() == 0 {
        QuotedRes::Unterminated(line)
    } else if s[0] == '"' {
        QuotedRes::Done(acc, s.drop_first(), line)
    } else if s[0] == '\\' {
        let t = s.drop_first();
        if t.len() == 0 {
            QuotedRes::Eof(line)
        } else if t[0] == '\n' {
            let (s2, l2) = spec_skip_ws(t, line);
            collect_quoted(s2, l2, acc.push(' '))
        } else if t[0] == '"' {
            collect_quoted(t.drop_first(), line, acc.push('"'))
        } else if t[0] == '\\' {
            collect_quoted(t.drop_first(), line, acc.push('\\'))
        } else {
            QuotedRes::Illegal(seq!['\\', t[0]], line)
        }
    } else if s[0] == '\n' {
        QuotedRes::Unterminated(line)
    } else {
        collect_quoted(s.drop_first(), line, acc.push(s[0]))
    }
}

#[via_fn]
proof fn collect_quoted_dec(s: Seq<char>, line: nat, acc: Seq<char>) {
    if s.len() > 0 && s[0] == '\\' {
        let t = s.drop_first();
        if t.len() > 0 && t[0] == '\n' {
            lemma_skip_ws_len(t, line);
        }
    }
}

/// How one `scan` call can end.
pub enum SpecScan {
    /// A token: its text, the input after it, and the line then reached.
    Tok(Seq<char>, Seq<char>, nat),
    /// End of input, and the line then reached.
    Eof(nat),
    /// A parse error and the line it was detected on.
    Fail(SpecConfigErrorKind, nat),
}

/// The next token of `s`, counting lines from `line`.
pub open spec fn spec_scan(s: Seq<char>, line: nat) -> SpecScan {
    let (s1, l1) = spec_skip_ws(s, line);
    if s1.len() == 0 {
        SpecScan::Eof(l1)
    } else if s1[0] == '"' {
        match collect_quoted(s1.drop_first(), l1, Seq::empty()) {
            QuotedRes::Done(tok, rest, l2) => SpecScan::Tok(tok, rest, l2),
            QuotedRes::Illegal(t, l2) => SpecScan::Fail(SpecConfigErrorKind::IllegalToken(t), l2),
            QuotedRes::Eof(l2) => SpecScan::Fail(SpecConfigErrorKind::UnexpectedEof, l2),
            QuotedRes::Unterminated(l2) => SpecScan::Fail(
                SpecConfigErrorKind::UnterminatedString,
                l2,
            ),
        }
    } else {
        let (tok, rest) = collect_bare(s1);
        SpecScan::Tok(tok, rest, l1)
    }
}

/// The configuration-file lexer: a cursor over the input plus the current
/// 1-based line number and the token buffer being accumulated.
pub struct Lexer {
    input: Vec<char>,
    pos: usize,
    line: usize,
    buffer: Vec<char>,
}

impl Lexer {
    /// The input not yet consumed.
    pub closed spec fn remaining(&self) -> Seq<char> {
        self.input@.skip(self.pos as int)
    }

    /// The current 1-based line number.
    pub closed spec fn spec_line(&self) -> nat {
        self.line as nat
    }

    /// The accumulation buffer's contents.
    pub closed spec fn spec_buffer(&self) -> Seq<char> {
        self.buffer@
    }

    /// Structural soundness of the cursor and the line counter.
    pub closed spec fn wf(&self) -> bool {
        self.pos <= self.input.len() && self.input.len() < usize::MAX && 1 <= self.line
            && self.line <= 1 + self.pos
    }

    /// A lexer positioned at the start of `chars`, on line 1.
    ///
    /// The length bound is a machine limit: the line counter must fit in a
    /// `usize` even if every character is a newline.
    pub fn new(chars: &str) -> (r: Lexer)
        requires
            chars@.len() < usize::MAX,
        ensures
            r.wf(),
            r.remaining() == chars@,
            r.spec_line() == 1,
            r.spec_buffer() == Seq::<char>::empty(),
    {
        let input = str_chars(chars);
        let r = Lexer { input, pos: 0, line: 1, buffer: Vec::new() };
        proof {
            assert(r.remaining() =~= chars@);
        }
        r
    }

    /// The current 1-based line number.
    pub fn line(&self) -> (r: usize)
        ensures
            r == self.spec_line(),
    {
        self.line
    }

    /// The next unconsumed character, if any.
    fn lookahead(&self) -> (r: Option<char>)
        requires
            self.wf(),
        ensures
            match r {
                Some(c) => self.remaining().len() > 0 && c == self.remaining()[0],
                None => self.remaining().len() == 0,
            },
    {
        if self.pos < self.input.len() {
            Some(self.input[self.pos])
        } else {
            None
        }
    }

    /// Consume one character, counting a newline as a line boundary.
    fn advance(&mut self)
        requires
            old(self).wf(),
            old(self).remaining().len() > 0,
        ensures
            final(self).wf(),
            final(self).remaining() == old(self).remaining().drop_first(),
            final(self).spec_line() == if old(self).remaining()[0] == '\n' {
                old(self).spec_line() + 1
            } else {
                old(self).spec_line()
            },
            final(self).spec_buffer() == old(self).spec_buffer(),
    {
        if self.input[self.pos] == '\n' {
            self.line = self.line + 1;
        }
        self.pos = self.pos + 1;
        proof {
            assert(self.input@.skip(self.pos as int) =~= self.input@.skip(
                self.pos - 1,
            ).drop_first());
        }
    }

    /// Skip to (but not over) the next newline.
    fn skip_to_newline(&mut self)
        requires
            old(self).wf(),
        ensures
            final(self).wf(),
            final(self).remaining() == skip_line(old(self).remaining()),
            final(self).spec_line() == old(self).spec_line(),
            final(self).spec_buffer() == old(self).spec_buffer(),
    {
        loop
            invariant
                self.wf(),
                skip_line(old(self).remaining()) == skip_line(self.remaining()),
                self.spec_line() == old(self).spec_line(),
                self.spec_buffer() == old(self).spec_buffer(),
            ensures
                self.wf(),
                self.remaining() == skip_line(old(self).remaining()),
                self.spec_line() == old(self).spec_line(),
                self.spec_buffer() == old(self).spec_buffer(),
            decreases self.remaining().len(),
        {
            match self.lookahead() {
                Some(c) => {
                    if c == '\n' {
                        break;
                    } else {
                        self.advance();
                    }
                },
                None => {
                    break;
                },
            }
        }
    }

    /// Skip whitespace and `#`-to-end-of-line comments.
    fn skip_ws(&mut self)
        requires
            old(self).wf(),
        ensures
            final(self).wf(),
            (final(self).remaining(), final(self).spec_line()) == spec_skip_ws(
                old(self).remaining(),
                old(self).spec_line(),
            ),
            final(self).spec_buffer() == old(self).spec_buffer(),
    {
        loop
            invariant
                self.wf(),
                spec_skip_ws(old(self).remaining(), old(self).spec_line()) == spec_skip_ws(
                    self.remaining(),
                    self.spec_line(),
                ),
                self.spec_buffer() == old(self).spec_buffer(),
            ensures
                self.wf(),
                (self.remaining(), self.spec_line()) == spec_skip_ws(
                    old(self).remaining(),
                    old(self).spec_line(),
                ),
                self.spec_buffer() == old(self).spec_buffer(),
            decreases self.remaining().len(),
        {
            match self.lookahead() {
                Some(c) => {
                    if c == '#' {
                        proof {
                            lemma_skip_line_len(self.remaining());
                        }
                        self.skip_to_newline();
                    } else if !is_space(c) {
                        break;
                    } else {
                        self.advance();
                    }
                },
                None => {
                    break;
                },
            }
        }
    }

    /// Handle one backslash escape inside a quoted token.
    fn collect_backslash_escape(&mut self) -> (r: Result<(), Error>)
        requires
            old(self).wf(),
            old(self).remaining().len() > 0,
            old(self).remaining()[0] == '\\',
        ensures
            final(self).wf(),
            match r {
                Ok(()) => collect_quoted(
                    old(self).remaining(),
                    old(self).spec_line(),
                    old(self).spec_buffer(),
                ) == collect_quoted(
                    final(self).remaining(),
                    final(self).spec_line(),
                    final(self).spec_buffer(),
                ) && final(self).remaining().len() + 2 <= old(self).remaining().len(),
                Err(e) => match collect_quoted(
                    old(self).remaining(),
                    old(self).spec_line(),
                    old(self).spec_buffer(),
                ) {
                    QuotedRes::Illegal(t, l) => e@ == kind_error(
                        SpecConfigErrorKind::IllegalToken(t),
                        l,
                    ),
                    QuotedRes::Eof(l) => e@ == kind_error(SpecConfigErrorKind::UnexpectedEof, l),
                    _ => false,
                },
            },
    {
        self.advance();
        match self.lookahead() {
            Some(c) => {
                if c == '\n' {
                    self.buffer.push(' ');
                    proof {
                        let t = self.remaining();
                        assert(spec_skip_ws(t, self.spec_line()) == spec_skip_ws(
                            t.drop_first(),
                            self.spec_line() + 1,
                        ));
                        lemma_skip_ws_len(t.drop_first(), self.spec_line() + 1);
                    }
                    self.skip_ws();
                    Ok(())
                } else if c == '"' {
                    self.buffer.push('"');
                    self.advance();
                    Ok(())
                } else if c == '\\' {
                    self.buffer.push('\\');
                    self.advance();
                    Ok(())
                } else {
                    let mut tok: Vec<char> = Vec::new();
                    tok.push('\\');
                    tok.push(c);
                    proof {
                        assert(tok@ =~= seq!['\\', c]);
                    }
                    let tok_str = chars_to_string(&tok);
                    illegal_token(tok_str.as_str(), self.line)
                }
            },
            None => unexpected_eof(self.line),
        }
    }

    /// Collect the body of a quoted token up to the closing quote.
    fn collect_to_quote(&mut self) -> (r: Result<(), Error>)
        requires
            old(self).wf(),
        ensures
            final(self).wf(),
            match r {
                Ok(()) => match collect_quoted(
                    old(self).remaining(),
                    old(self).spec_line(),
                    old(self).spec_buffer(),
                ) {
                    QuotedRes::Done(tok, rest, l) => final(self).spec_buffer() == tok
                        && final(self).remaining() == rest && final(self).spec_line() == l,
                    _ => false,
                },
                Err(e) => match collect_quoted(
                    old(self).remaining(),
                    old(self).spec_line(),
                    old(self).spec_buffer(),
                ) {
                    QuotedRes::Illegal(t, l) => e@ == kind_error(
                        SpecConfigErrorKind::IllegalToken(t),
                        l,
                    ),
                    QuotedRes::Eof(l) => e@ == kind_error(SpecConfigErrorKind::UnexpectedEof, l),
                    QuotedRes::Unterminated(l) => e@ == kind_error(
                        SpecConfigErrorKind::UnterminatedString,
                        l,
                    ),
                    _ => false,
                },
            },
    {
        loop
            invariant
                self.wf(),
                collect_quoted(
                    old(self).remaining(),
                    old(self).spec_line(),
                    old(self).spec_buffer(),
                ) == collect_quoted(self.remaining(), self.spec_line(), self.spec_buffer()),
            ensures
                self.wf(),
                collect_quoted(
                    old(self).remaining(),
                    old(self).spec_line(),
                    old(self).spec_buffer(),
                ) == QuotedRes::Unterminated(self.spec_line()),
                self.remaining().len() == 0,
            decreases self.remaining().len(),
        {
            match self.lookahead() {
                Some(c) => {
                    if c == '"' {
                        self.advance();
                        return Ok(());
                    } else if c == '\\' {
                        let res = self.collect_backslash_escape();
                        if let Err(e) = res {
                            return Err(e);
                        }
                    } else if c == '\n' {
                        return unterminated_string(self.line);
                    } else {
                        self.buffer.push(c);
                        self.advance();
                    }
                },
                None => {
                    break;
                },
            }
        }
        unterminated_string(self.line)
    }

    /// Collect an unquoted token up to the next whitespace.
    fn collect_to_ws(&mut self)
        requires
            old(self).wf(),
        ensures
            final(self).wf(),
            final(self).spec_buffer() == old(self).spec_buffer() + collect_bare(
                old(self).remaining(),
            ).0,
            final(self).remaining() == collect_bare(old(self).remaining()).1,
            final(self).spec_line() == old(self).spec_line(),
    {
        loop
            invariant
                self.wf(),
                self.spec_line() == old(self).spec_line(),
                old(self).spec_buffer() + collect_bare(old(self).remaining()).0 == self
                    .spec_buffer() + collect_bare(self.remaining()).0,
                collect_bare(old(self).remaining()).1 == collect_bare(self.remaining()).1,
            ensures
                self.wf(),
                self.spec_line() == old(self).spec_line(),
                self.spec_buffer() == old(self).spec_buffer() + collect_bare(
                    old(self).remaining(),
                ).0,
                self.remaining() == collect_bare(old(self).remaining()).1,
            decreases self.remaining().len(),
        {
            match self.lookahead() {
                Some(c) => {
                    if is_space(c) {
                        proof {
                            assert(self.spec_buffer() + collect_bare(self.remaining()).0 =~= self
                                .spec_buffer());
                        }
                        break;
                    } else {
                        let ghost buf_prev = self.spec_buffer();
                        let ghost rem_prev = self.remaining();
                        self.buffer.push(c);
                        self.advance();
                        proof {
                            assert(buf_prev + (seq![c] + collect_bare(self.remaining()).0)
                                =~= (buf_prev.push(c)) + collect_bare(self.remaining()).0);
                        }
                    }
                },
                None => {
                    proof {
                        assert(self.spec_buffer() + collect_bare(self.remaining()).0 =~= self
                            .spec_buffer());
                    }
                    break;
                },
            }
        }
    }

    /// The next token of the file, `Ok(None)` at end of input, or the parse
    /// error (with its line) that the input begins with.
    pub fn scan(&mut self) -> (r: Result<Option<String>, Error>)
        requires
            old(self).wf(),
        ensures
            final(self).wf(),
            match r {
                Ok(Some(tok)) => spec_scan(old(self).remaining(), old(self).spec_line())
                    matches SpecScan::Tok(t, rest, l) && tok@ == t && final(self).remaining()
                    == rest && final(self).spec_line() == l,
                Ok(None) => spec_scan(old(self).remaining(), old(self).spec_line())
                    matches SpecScan::Eof(l) && final(self).spec_line() == l
                    && final(self).remaining().len() == 0,
                Err(e) => spec_scan(old(self).remaining(), old(self).spec_line())
                    matches SpecScan::Fail(kind, l) && e@ == kind_error(kind, l),
            },
    {
        self.buffer.clear();
        self.skip_ws();
        match self.lookahead() {
            Some(c) => {
                if c == '"' {
                    self.advance();
                    let res = self.collect_to_quote();
                    if let Err(e) = res {
                        return Err(e);
                    }
                } else {
                    self.collect_to_ws();
                    proof {
                        assert(Seq::<char>::empty() + collect_bare(self.remaining()).0
                            =~= collect_bare(self.remaining()).0);
                    }
                }
                Ok(Some(chars_to_string(&self.buffer)))
            },
            None => Ok(None),
        }
    }
}

/// A bare token never lengthens the input, and consumes at least one
/// character when the input starts with a non-blank character.
pub proof fn lemma_collect_bare_len(s: Seq<char>)
    ensures
        collect_bare(s).1.len() <= s.len(),
        s.len() > 0 && !is_space_spec(s[0]) ==> collect_bare(s).1.len() < s.len(),
    decreases s.len(),
{
    if s.len() > 0 && !is_space_spec(s[0]) {
        lemma_collect_bare_len(s.drop_first());
    }
}

/// A quoted token that closes consumes at least one character.
pub proof fn lemma_collect_quoted_consumes(s: Seq<char>, line: nat, acc: Seq<char>)
    ensures
        collect_quoted(s, line, acc) matches QuotedRes::Done(tok, rest, l) ==> rest.len()
            < s.len(),
    decreases s.len(),
{
    if s.len() > 0 && s[0] == '\\' {
        let t = s.drop_first();
        if t.len() > 0 {
            if t[0] == '\n' {
                let (s2, l2) = spec_skip_ws(t, line);
                lemma_skip_ws_len(t, line);
                lemma_collect_quoted_consumes(s2, l2, acc.push(' '));
            } else if t[0] == '"' {
                lemma_collect_quoted_consumes(t.drop_first(), line, acc.push('"'));
            } else if t[0] == '\\' {
                lemma_collect_quoted_consumes(t.drop_first(), line, acc.push('\\'));
            }
        }
    } else if s.len() > 0 && s[0] != '"' && s[0] != '\n' {
        lemma_collect_quoted_consumes(s.drop_first(), line, acc.push(s[0]));
    }
}

/// Skipping whitespace stops at end of input or at a non-blank character
/// other than `#`.
pub proof fn lemma_skip_ws_stops(s: Seq<char>, line: nat)
    ensures
        spec_skip_ws(s, line).0.len() > 0 ==> !is_space_spec(spec_skip_ws(s, line).0[0])
            && spec_skip_ws(s, line).0[0] != '#',
    decreases s.len(),
{
    if s.len() > 0 {
        if s[0] == '#' {
            lemma_skip_line_len(s);
            lemma_skip_ws_stops(skip_line(s), line);
        } else if is_space_spec(s[0]) {
            lemma_skip_ws_stops(s.drop_first(), if s[0] == '\n' { line + 1 } else { line });
        }
    }
}

/// Scanning a token consumes at least one character.
pub proof fn lemma_scan_consumes(s: Seq<char>, line: nat)
    ensures
        spec_scan(s, line) matches SpecScan::Tok(tok, rest, l) ==> rest.len() < s.len(),
{
    let (s1, l1) = spec_skip_ws(s, line);
    lemma_skip_ws_len(s, line);
    if s1.len() > 0 {
        if s1[0] == '"' {
            lemma_collect_quoted_consumes(s1.drop_first(), l1, Seq::empty());
        } else {
            lemma_skip_ws_stops(s, line);
            lemma_collect_bare_len(s1);
        }
    }
}

/// A run of non-blank characters followed by a blank (or nothing) lexes as
/// one bare token.
pub proof fn lemma_collect_bare_plain(t: Seq<char>, r: Seq<char>)
    requires
        forall|i: int| 0 <= i < t.len() ==> !is_space_spec(t[i]),
        r.len() > 0 ==> is_space_spec(r[0]),
    ensures
        collect_bare(t + r) == (t, r),
    decreases t.len(),
{
    if t.len() == 0 {
        assert(t + r =~= r);
    } else {
        assert((t + r)[0] == t[0]);
        assert((t + r).drop_first() =~= t.drop_first() + r);
        lemma_collect_bare_plain(t.drop_first(), r);
        assert(seq![t[0]] + t.drop_first() =~= t);
    }
}

} // verus!
