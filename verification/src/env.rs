//! Variable interpolation for configuration strings.
//!
//! Expands `$NAME` and `${NAME}` references against an explicit variable
//! table ([`Env`]), recursively: the value found for a variable is itself
//! interpolated before being spliced in.  `$$` escapes to a literal `$`;
//! a trailing lone `$` and an unterminated `${...` are kept as plain text.
//! If any referenced variable is absent, the whole interpolation fails.

use vstd::prelude::*;

use crate::text::{chars_to_string, str_chars, str_eq};

verus! {

/// Is `c` an identifier character (part of a bare `$NAME` reference)?
pub open spec fn is_id_spec(c: char) -> bool {
    (65 <= c as u32 && c as u32 <= 90)  // 'A'..='Z'
    || (97 <= c as u32 && c as u32 <= 122)  // 'a'..='z'
    || (48 <= c as u32 && c as u32 <= 57)  // '0'..='9'
    || c == '_'
}

/// Executable test for [`is_id_spec`].
#[verifier::when_used_as_spec(is_id_spec)]
pub fn is_id(c: char) -> (r: bool)
    ensures
        r == is_id_spec(c),
{
    let u = c as u32;
    (65 <= u && u <= 90) || (97 <= u && u <= 122) || (48 <= u && u <= 57) || c == '_'
}

/// A lexed piece of an interpolation string, at the specification level.
pub enum SpecToken {
    /// Literal text, spliced through unchanged.
    Text(Seq<char>),
    /// A variable reference, to be resolved and recursively expanded.
    Var(Seq<char>),
}

/// A lexed piece of an interpolation string: literal text or a variable name.
#[derive(Debug, Clone, PartialEq, Eq)]
pub enum Token {
    /// Literal text, spliced through unchanged.
    Text(String),
    /// A variable reference, to be resolved and recursively expanded.
    Var(String),
}

impl View for Token {
    type V = SpecToken;

    open spec fn view(&self) -> SpecToken {
        match self {
            Token::Text(s) => SpecToken::Text(s@),
            Token::Var(s) => SpecToken::Var(s@),
        }
    }
}

/// The buffered text, as the token it is flushed into (nothing if empty).
pub open spec fn flush_text(buf: Seq<char>) -> Seq<SpecToken> {
    if buf.len() == 0 {
        Seq::empty()
    } else {
        seq![SpecToken::Text(buf)]
    }
}

/// Tokens produced from `s` in the plain-text state, with `buf` accumulated.
pub open spec fn lex_text(s: Seq<char>, buf: Seq<char>) -> Seq<SpecToken>
    decreases s.len(), 1int,
{
    if s.len() == 0 {
        flush_text(buf)
    } else if s[0] == '$' {
        lex_dollar(s.drop_first(), buf)
    } else {
        lex_text(s.drop_first(), buf.push(s[0]))
    }
}

/// Tokens produced from `s` just after a `$`, with `buf` accumulated.
pub open spec fn lex_dollar(s: Seq<char>, buf: Seq<char>) -> Seq<SpecToken>
    decreases s.len(), 3int,
{
    if s.len() == 0 {
        flush_text(buf.push('$'))
    } else if s[0] == '$' {
        lex_text(s.drop_first(), buf.push('$'))
    } else if s[0] == '{' {
        flush_text(buf) + lex_brace(s.drop_first(), Seq::empty())
    } else if is_id_spec(s[0]) {
        flush_text(buf) + lex_nobrace(s, Seq::empty())
    } else {
        lex_text(s, buf.push('$'))
    }
}

/// Tokens produced from `s` inside a bare `$NAME`, the name so far in `buf`.
pub open spec fn lex_nobrace(s: Seq<char>, buf: Seq<char>) -> Seq<SpecToken>
    decreases s.len(), 2int,
{
    if s.len() == 0 {
        seq![SpecToken::Var(buf)]
    } else if is_id_spec(s[0]) {
        lex_nobrace(s.drop_first(), buf.push(s[0]))
    } else {
        seq![SpecToken::Var(buf)] + lex_text(s, Seq::empty())
    }
}

/// Tokens produced from `s` inside `${NAME`, the name so far in `buf`.
pub open spec fn lex_brace(s: Seq<char>, buf: Seq<char>) -> Seq<SpecToken>
    decreases s.len(), 2int,
{
    if s.len() == 0 {
        seq![SpecToken::Text(seq!['$', '{'] + buf)]
    } else if s[0] == '}' {
        seq![SpecToken::Var(buf)] + lex_text(s.drop_first(), Seq::empty())
    } else {
        lex_brace(s.drop_first(), buf.push(s[0]))
    }
}

/// The full token sequence of an interpolation string.
pub open spec fn lex_interp(s: Seq<char>) -> Seq<SpecToken> {
    lex_text(s, Seq::empty())
}

/// The lexer's control state.
#[derive(Debug, Clone, Copy, PartialEq, Eq, Structural)]
pub enum LexerState {
    /// Plain text.
    Text,
    /// Just saw a `$`.
    Dollar,
    /// Inside a bare `$NAME` reference.
    VarNameNoBrace,
    /// Inside a `${NAME}` reference.
    VarNameBrace,
    /// Input exhausted.
    End,
}

/// A streaming lexer over an interpolation string.
pub struct Lexer {
    input: Vec<char>,
    pos: usize,
    buffer: Vec<char>,
    state: LexerState,
}

/// Rank of a state for the lexer's progress measure.
pub open spec fn state_rank(st: LexerState) -> int {
    match st {
        LexerState::End => 0,
        LexerState::Text => 1,
        LexerState::VarNameNoBrace => 2,
        LexerState::VarNameBrace => 2,
        LexerState::Dollar => 3,
    }
}

impl Lexer {
    /// The input not yet consumed.
    pub closed spec fn remaining(&self) -> Seq<char> {
        self.input@.skip(self.pos as int)
    }

    /// The lexer's control state.
    pub closed spec fn spec_state(&self) -> LexerState {
        self.state
    }

    /// Structural soundness of the cursor.
    pub closed spec fn wf(&self) -> bool {
        self.pos <= self.input.len()
    }

    /// The tokens this lexer will still emit.
    pub open spec fn pending(&self) -> Seq<SpecToken> {
        match self.spec_state() {
            LexerState::Text => lex_text(self.remaining(), self.spec_buffer()),
            LexerState::Dollar => lex_dollar(self.remaining(), self.spec_buffer()),
            LexerState::VarNameNoBrace => lex_nobrace(self.remaining(), self.spec_buffer()),
            LexerState::VarNameBrace => lex_brace(self.remaining(), self.spec_buffer()),
            LexerState::End => Seq::empty(),
        }
    }

    /// The accumulation buffer's contents.
    pub closed spec fn spec_buffer(&self) -> Seq<char> {
        self.buffer@
    }

    /// A lexer positioned at the start of `input`.
    pub fn new(input: &str) -> (r: Lexer)
        ensures
            r.wf(),
            r.pending() == lex_interp(input@),
    {
        let r = Lexer { input: str_chars(input), pos: 0, buffer: Vec::new(), state: LexerState::Text };
        proof {
            assert(r.remaining() =~= input@);
        }
        r
    }

    /// Consume one character.
    fn get_next(&mut self)
        requires
            old(self).pos < old(self).input.len(),
        ensures
            final(self).wf(),
            final(self).input == old(self).input,
            final(self).pos == old(self).pos + 1,
            final(self).buffer == old(self).buffer,
            final(self).state == old(self).state,
            final(self).remaining() == old(self).remaining().drop_first(),
    {
        self.pos = self.pos + 1;
        proof {
            assert(self.input@.skip(self.pos as int) =~= self.input@.skip(
                self.pos - 1,
            ).drop_first());
        }
    }

    /// The next unconsumed character, if any.
    fn lookahead(&self) -> (r: Option<char>)
        requires
            self.wf(),
        ensures
            match r {
                Some(c) => self.remaining().len() > 0 && c == self.remaining()[0],
                None => self.remaining().len() == 0,
            },
    {
        if self.pos < self.input.len() {
            Some(self.input[self.pos])
        } else {
            None
        }
    }

    /// Take the buffered text out, leaving the buffer empty.
    fn clear_buf(&mut self) -> (r: String)
        ensures
            r@ == old(self).spec_buffer(),
            final(self).spec_buffer() == Seq::<char>::empty(),
            final(self).input == old(self).input,
            final(self).pos == old(self).pos,
            final(self).state == old(self).state,
            final(self).remaining() == old(self).remaining(),
            final(self).wf() == old(self).wf(),
    {
        let contents = chars_to_string(&self.buffer);
        self.buffer.clear();
        contents
    }

    /// One step in the plain-text state.
    fn advance_text(&mut self) -> (r: Option<Token>)
        requires
            old(self).wf(),
            old(self).spec_state() == LexerState::Text,
        ensures
            final(self).wf(),
            old(self).pending() == opt_token_seq(r) + final(self).pending(),
            r is None ==> lexer_measure_lt(*final(self), *old(self)),
    {
        match self.lookahead() {
            Some(c) => {
                if c == '$' {
                    self.state = LexerState::Dollar;
                } else {
                    self.buffer.push(c);
                }
                self.get_next();
                proof {
                    lemma_empty_plus(self.pending());
                }
                None
            },
            None => {
                self.state = LexerState::End;
                if self.buffer.len() == 0 {
                    proof {
                        lemma_empty_plus(self.pending());
                    }
                    None
                } else {
                    Some(Token::Text(self.clear_buf()))
                }
            },
        }
    }

    /// One step just after a `$`.
    fn advance_dollar(&mut self) -> (r: Option<Token>)
        requires
            old(self).wf(),
            old(self).spec_state() == LexerState::Dollar,
        ensures
            final(self).wf(),
            old(self).pending() == opt_token_seq(r) + final(self).pending(),
            r is None ==> lexer_measure_lt(*final(self), *old(self)),
    {
        match self.lookahead() {
            Some(c) => {
                if c == '$' {
                    self.state = LexerState::Text;
                    self.buffer.push('$');
                    self.get_next();
                    proof {
                        lemma_empty_plus(self.pending());
                    }
                    None
                } else if c == '{' {
                    self.state = LexerState::VarNameBrace;
                    self.get_next();
                    if self.buffer.len() == 0 {
                        proof {
                            assert(self.spec_buffer() =~= Seq::<char>::empty());
                            lemma_empty_plus(self.pending());
                        }
                        None
                    } else {
                        Some(Token::Text(self.clear_buf()))
                    }
                } else if is_id(c) {
                    self.state = LexerState::VarNameNoBrace;
                    if self.buffer.len() == 0 {
                        proof {
                            assert(self.spec_buffer() =~= Seq::<char>::empty());
                            lemma_empty_plus(self.pending());
                        }
                        None
                    } else {
                        Some(Token::Text(self.clear_buf()))
                    }
                } else {
                    self.state = LexerState::Text;
                    self.buffer.push('$');
                    proof {
                        lemma_empty_plus(self.pending());
                    }
                    None
                }
            },
            None => {
                self.state = LexerState::End;
                self.buffer.push('$');
                let tok = Token::Text(self.clear_buf());
                proof {
                    lemma_plus_empty(seq![tok@]);
                }
                Some(tok)
            },
        }
    }

    /// One step inside a bare `$NAME` reference.
    fn advance_no_brace(&mut self) -> (r: Option<Token>)
        requires
            old(self).wf(),
            old(self).spec_state() == LexerState::VarNameNoBrace,
        ensures
            final(self).wf(),
            old(self).pending() == opt_token_seq(r) + final(self).pending(),
            r is None ==> lexer_measure_lt(*final(self), *old(self)),
    {
        match self.lookahead() {
            Some(c) => {
                if is_id(c) {
                    self.buffer.push(c);
                    self.get_next();
                    proof {
                        lemma_empty_plus(self.pending());
                    }
                    None
                } else {
                    self.state = LexerState::Text;
                    Some(Token::Var(self.clear_buf()))
                }
            },
            None => {
                self.state = LexerState::End;
                Some(Token::Var(self.clear_buf()))
            },
        }
    }

    /// One step inside a `${NAME}` reference.
    fn advance_brace(&mut self) -> (r: Option<Token>)
        requires
            old(self).wf(),
            old(self).spec_state() == LexerState::VarNameBrace,
        ensures
            final(self).wf(),
            old(self).pending() == opt_token_seq(r) + final(self).pending(),
            r is None ==> lexer_measure_lt(*final(self), *old(self)),
    {
        match self.lookahead() {
            Some(c) => {
                self.get_next();
                if c == '}' {
                    self.state = LexerState::Text;
                    Some(Token::Var(self.clear_buf()))
                } else {
                    self.buffer.push(c);
                    proof {
                        lemma_empty_plus(self.pending());
                    }
                    None
                }
            },
            None => {
                self.state = LexerState::End;
                let mut text: Vec<char> = Vec::new();
                text.push('$');
                text.push('{');
                let mut rest = self.buffer.clone();
                text.append(&mut rest);
                self.buffer.clear();
                proof {
                    assert(text@ =~= seq!['$', '{'] + old(self).spec_buffer());
                }
                Some(Token::Text(chars_to_string(&text)))
            },
        }
    }

    /// One step of the automaton.
    fn advance(&mut self) -> (r: Option<Token>)
        requires
            old(self).wf(),
        ensures
            final(self).wf(),
            old(self).pending() == opt_token_seq(r) + final(self).pending(),
            r is None && old(self).spec_state() != LexerState::End ==> lexer_measure_lt(*final(self), *old(self)),
    {
        match self.state {
            LexerState::Text => self.advance_text(),
            LexerState::Dollar => self.advance_dollar(),
            LexerState::VarNameNoBrace => self.advance_no_brace(),
            LexerState::VarNameBrace => self.advance_brace(),
            LexerState::End => {
                proof {
                    lemma_empty_plus(self.pending());
                }
                None
            },
        }
    }

    /// The next token, or `None` once the input is exhausted.
    pub fn scan(&mut self) -> (r: Option<Token>)
        requires
            old(self).wf(),
        ensures
            final(self).wf(),
            match r {
                Some(t) => old(self).pending().len() > 0 && t@ == old(self).pending()[0]
                    && final(self).pending() == old(self).pending().drop_first(),
                None => old(self).pending().len() == 0 && final(self).pending() == old(self).pending(),
            },
    {
        loop
            invariant
                self.wf(),
                self.pending() == old(self).pending(),
            decreases self.remaining().len(), state_rank(self.spec_state()),
        {
            if self.state == LexerState::End {
                return None;
            } else {
                let ghost prev = *self;
                let tok = self.advance();
                if let Some(t) = tok {
                    proof {
                        assert(prev.pending() == seq![t@] + self.pending());
                        assert(prev.pending()[0] == t@);
                        assert(prev.pending().drop_first() =~= self.pending());
                    }
                    return Some(t);
                }
                proof {
                    assert(prev.pending() =~= self.pending());
                }
            }
        }
    }
}

/// The token, if any, as a (possibly empty) token sequence.
pub open spec fn opt_token_seq(r: Option<Token>) -> Seq<SpecToken> {
    match r {
        Some(t) => seq![t@],
        None => Seq::empty(),
    }
}

/// Concatenating no token on the left leaves a token stream unchanged.
proof fn lemma_empty_plus(s: Seq<SpecToken>)
    ensures
        Seq::<SpecToken>::empty() + s == s,
{
    assert(Seq::<SpecToken>::empty() + s =~= s);
}

/// Concatenating nothing on the right leaves a token stream unchanged.
proof fn lemma_plus_empty(s: Seq<SpecToken>)
    ensures
        s + Seq::<SpecToken>::empty() == s,
{
    assert(s + Seq::<SpecToken>::empty() =~= s);
}

/// Does `a` stand strictly closer to the end of the input than `b`?
pub open spec fn lexer_measure_lt(a: Lexer, b: Lexer) -> bool {
    a.remaining().len() < b.remaining().len() || (a.remaining().len() == b.remaining().len()
        && state_rank(a.spec_state()) < state_rank(b.spec_state()))
}

/// An explicit table of variables, the interpolator's lookup capability.
///
/// Entries added later shadow earlier ones with the same name.
#[derive(Debug)]
pub struct Env {
    vars: Vec<(String, String)>,
}

/// The mapping an entry list denotes: the earliest entry for a name wins.
pub closed spec fn env_map(s: Seq<(String, String)>) -> Map<Seq<char>, Seq<char>>
    decreases s.len(),
{
    if s.len() == 0 {
        Map::empty()
    } else {
        env_map(s.drop_first()).insert(s[0].0@, s[0].1@)
    }
}

proof fn lemma_env_map_skip(s: Seq<(String, String)>, k: Seq<char>, i: int)
    requires
        0 <= i <= s.len(),
        forall|j: int| 0 <= j < i ==> s[j].0@ != k,
    ensures
        env_map(s).contains_key(k) == env_map(s.skip(i)).contains_key(k),
        env_map(s).contains_key(k) ==> env_map(s)[k] == env_map(s.skip(i))[k],
    decreases i,
{
    if i > 0 {
        assert(s[0].0@ != k);
        assert(forall|j: int|
            0 <= j < i - 1 ==> #[trigger] s.drop_first()[j].0@ == s[j + 1].0@ && s[j + 1].0@ != k);
        lemma_env_map_skip(s.drop_first(), k, i - 1);
        assert(s.drop_first().skip(i - 1) =~= s.skip(i));
    } else {
        assert(s.skip(0) =~= s);
    }
}

impl View for Env {
    type V = Map<Seq<char>, Seq<char>>;

    closed spec fn view(&self) -> Map<Seq<char>, Seq<char>> {
        env_map(self.vars@)
    }
}

impl Env {
    /// An empty table.
    pub fn new() -> (r: Env)
        ensures
            r@ == Map::<Seq<char>, Seq<char>>::empty(),
    {
        Env { vars: Vec::new() }
    }

    /// Bind `name` to `value`, shadowing any earlier binding.
    pub fn set(&mut self, name: &str, value: &str)
        ensures
            final(self)@ == old(self)@.insert(name@, value@),
    {
        self.vars.insert(0, (name.to_owned(), value.to_owned()));
        proof {
            assert(self.vars@.drop_first() =~= old(self).vars@);
        }
    }

    /// The value bound to `name`, if any.
    pub fn get(&self, name: &str) -> (r: Option<String>)
        ensures
            match r {
                Some(v) => self@.contains_key(name@) && v@ == self@[name@],
                None => !self@.contains_key(name@),
            },
    {
        let n = self.vars.len();
        let mut i: usize = 0;
        while i < n
            invariant
                i <= n,
                n == self.vars.len(),
                forall|j: int| 0 <= j < i ==> self.vars@[j].0@ != name@,
            decreases n - i,
        {
            if str_eq(self.vars[i].0.as_str(), name) {
                proof {
                    lemma_env_map_skip(self.vars@, name@, i as int);
                    assert(self.vars@.skip(i as int)[0] == self.vars@[i as int]);
                    assert(self.vars@.skip(i as int).drop_first() =~= self.vars@.skip(i + 1));
                }
                return Some(self.vars[i].1.clone());
            }
            i += 1;
        }
        proof {
            lemma_env_map_skip(self.vars@, name@, n as int);
            assert(self.vars@.skip(n as int).len() == 0);
        }
        None
    }
}

/// How deep the interpolator will follow variable indirections before it
/// gives up; a guard against self-referential variable tables.
pub const INTERP_DEPTH: u32 = 64;

/// The result of expanding a token stream: the concatenation of its parts,
/// or nothing if a referenced variable is absent (or indirections exceed
/// `depth`).
pub open spec fn interp_tokens(
    toks: Seq<SpecToken>,
    env: Map<Seq<char>, Seq<char>>,
    depth: nat,
) -> Option<Seq<char>>
    decreases depth, 0nat, toks.len(),
{
    if toks.len() == 0 {
        Some(Seq::empty())
    } else {
        match toks[0] {
            SpecToken::Text(t) => match interp_tokens(toks.drop_first(), env, depth) {
                Some(rest) => Some(t + rest),
                None => None,
            },
            SpecToken::Var(n) => if !env.contains_key(n) {
                None
            } else if depth == 0 {
                None
            } else {
                match interp_spec(env[n], env, (depth - 1) as nat) {
                    Some(v) => match interp_tokens(toks.drop_first(), env, depth) {
                        Some(rest) => Some(v + rest),
                        None => None,
                    },
                    None => None,
                }
            },
        }
    }
}

/// The result of interpolating `s` against `env`, following at most `depth`
/// levels of variable indirection.
pub open spec fn interp_spec(s: Seq<char>, env: Map<Seq<char>, Seq<char>>, depth: nat) -> Option<
    Seq<char>,
>
    decreases depth, 1nat, 0nat,
{
    interp_tokens(lex_interp(s), env, depth)
}

/// Expand `$NAME` / `${NAME}` references in `text` against `env`, following
/// at most `depth` levels of indirection.  Returns `None` exactly when a
/// referenced variable is absent or the indirection budget runs out.
pub fn interpolate_depth(text: &str, env: &Env, depth: u32) -> (r: Option<String>)
    ensures
        match r {
            Some(v) => interp_spec(text@, env@, depth as nat) == Some(v@),
            None => interp_spec(text@, env@, depth as nat) is None,
        },
    decreases depth,
{
    let mut lexer = Lexer::new(text);
    let mut out = String::new();
    loop
        invariant
            lexer.wf(),
            match interp_tokens(lexer.pending(), env@, depth as nat) {
                Some(rest) => interp_spec(text@, env@, depth as nat) == Some(out@ + rest),
                None => interp_spec(text@, env@, depth as nat) is None,
            },
        ensures
            lexer.pending().len() == 0,
            match interp_tokens(lexer.pending(), env@, depth as nat) {
                Some(rest) => interp_spec(text@, env@, depth as nat) == Some(out@ + rest),
                None => interp_spec(text@, env@, depth as nat) is None,
            },
        decreases lexer.pending().len(),
    {
        let ghost pending_prev = lexer.pending();
        let ghost out_prev = out@;
        match lexer.scan() {
            None => {
                break;
            },
            Some(Token::Text(t)) => {
                out.append(t.as_str());
                proof {
                    if interp_tokens(lexer.pending(), env@, depth as nat) is Some {
                        let rest = interp_tokens(lexer.pending(), env@, depth as nat)->Some_0;
                        assert(out_prev + (t@ + rest) =~= out@ + rest);
                    }
                }
            },
            Some(Token::Var(n)) => {
                match env.get(n.as_str()) {
                    None => {
                        return None;
                    },
                    Some(v) => {
                        if depth == 0 {
                            return None;
                        }
                        match interpolate_depth(v.as_str(), env, depth - 1) {
                            None => {
                                return None;
                            },
                            Some(iv) => {
                                out.append(iv.as_str());
                                proof {
                                    if interp_tokens(lexer.pending(), env@, depth as nat)
                                        is Some {
                                        let rest = interp_tokens(
                                            lexer.pending(),
                                            env@,
                                            depth as nat,
                                        )->Some_0;
                                        assert(out_prev + (iv@ + rest) =~= out@ + rest);
                                    }
                                }
                            },
                        }
                    },
                }
            },
        }
    }
    proof {
        assert(out@ + Seq::<char>::empty() =~= out@);
    }
    Some(out)
}

/// Expand `$NAME` / `${NAME}` references in `text` against `env`.
pub fn interpolate(text: &str, env: &Env) -> (r: Option<String>)
    ensures
        match r {
            Some(v) => interp_spec(text@, env@, INTERP_DEPTH as nat) == Some(v@),
            None => interp_spec(text@, env@, INTERP_DEPTH as nat) is None,
        },
{
    interpolate_depth(text, env, INTERP_DEPTH)
}

/// Lexing a `$`-free string yields its text as one token.
proof fn lemma_lex_text_no_dollar(s: Seq<char>, buf: Seq<char>)
    requires
        forall|i: int| 0 <= i < s.len() ==> s[i] != '$',
    ensures
        lex_text(s, buf) == flush_text(buf + s),
    decreases s.len(),
{
    if s.len() == 0 {
        assert(buf + s =~= buf);
    } else {
        lemma_lex_text_no_dollar(s.drop_first(), buf.push(s[0]));
        assert(buf.push(s[0]) + s.drop_first() =~= buf + s);
    }
}

/// Interpolation idempotence: a string containing no `$` interpolates to
/// itself, whatever the variable table and depth budget.
pub proof fn lemma_interp_no_dollar(s: Seq<char>, env: Map<Seq<char>, Seq<char>>, depth: nat)
    requires
        forall|i: int| 0 <= i < s.len() ==> s[i] != '$',
    ensures
        interp_spec(s, env, depth) == Some(s),
{
    lemma_lex_text_no_dollar(s, Seq::empty());
    assert(Seq::<char>::empty() + s =~= s);
    if s.len() == 0 {
        assert(lex_interp(s) == Seq::<SpecToken>::empty());
        assert(interp_tokens(Seq::<SpecToken>::empty(), env, depth) == Some(Seq::<char>::empty()));
    } else {
        let toks = seq![SpecToken::Text(s)];
        assert(lex_interp(s) == toks);
        assert(toks.drop_first() =~= Seq::<SpecToken>::empty());
        assert(interp_tokens(toks.drop_first(), env, depth) == Some(Seq::<char>::empty()));
        assert(s + Seq::<char>::empty() =~= s);
    }
}

} // verus!
