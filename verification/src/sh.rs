//! The shell-word lexer and command builder.
//!
//! Splits a command-line string into argv-style words.  Whitespace outside
//! quotes separates words.  Inside single quotes a backslash is literal
//! (except before a closing quote); inside double quotes and outside quotes
//! a backslash escapes the following character.  A backslash at end of
//! input is kept literally.

use vstd::prelude::*;

use crate::text::{chars_to_string, is_space, is_space_spec, str_chars};

verus! {

/// Which kind of quote the lexer is inside.
#[derive(Debug, Clone, Copy, PartialEq, Eq, Structural)]
pub enum Quote {
    /// Single quotes: backslash is (mostly) literal.
    Single,
    /// Double quotes: backslash escapes the next character.
    Double,
}

/// The state a backslash was met in, to return to afterwards.
#[derive(Debug, Clone, Copy, PartialEq, Eq, Structural)]
pub enum PrevState {
    /// A bare word.
    Text,
    /// Inside quotes of the given kind.
    Quote(Quote),
}

/// The lexer's control state.
#[derive(Debug, Clone, Copy, PartialEq, Eq, Structural)]
pub enum LexerState {
    /// Between words.
    Space,
    /// Inside a bare word.
    Text,
    /// Inside quotes of the given kind.
    Quote(Quote),
    /// Just after a backslash, met in the given state.
    Backslash(PrevState),
    /// Input exhausted.
    End,
}

/// The buffered word, as the (possibly empty) word list it flushes into.
pub open spec fn flush_word(buf: Seq<char>) -> Seq<Seq<char>> {
    if buf.len() == 0 {
        Seq::empty()
    } else {
        seq![buf]
    }
}

/// Words produced from `s` between words.
pub open spec fn words_space(s: Seq<char>) -> Seq<Seq<char>>
    decreases s.len(),
{
    if s.len() == 0 {
        Seq::empty()
    } else if is_space_spec(s[0]) {
        words_space(s.drop_first())
    } else if s[0] == '"' {
        words_quote(Quote::Double, s.drop_first(), Seq::empty())
    } else if s[0] == '\'' {
        words_quote(Quote::Single, s.drop_first(), Seq::empty())
    } else if s[0] == '\\' {
        words_backslash(PrevState::Text, s.drop_first(), Seq::empty())
    } else {
        words_text(s.drop_first(), seq![s[0]])
    }
}

/// Words produced from `s` inside a bare word, with `buf` accumulated.
pub open spec fn words_text(s: Seq<char>, buf: Seq<char>) -> Seq<Seq<char>>
    decreases s.len(),
{
    if s.len() == 0 {
        flush_word(buf)
    } else if is_space_spec(s[0]) {
        flush_word(buf) + words_space(s.drop_first())
    } else if s[0] == '"' {
        words_quote(Quote::Double, s.drop_first(), buf)
    } else if s[0] == '\'' {
        words_quote(Quote::Single, s.drop_first(), buf)
    } else if s[0] == '\\' {
        words_backslash(PrevState::Text, s.drop_first(), buf)
    } else {
        words_text(s.drop_first(), buf.push(s[0]))
    }
}

/// Words produced from `s` inside quotes, with `buf` accumulated.
pub open spec fn words_quote(q: Quote, s: Seq<char>, buf: Seq<char>) -> Seq<Seq<char>>
    decreases s.len(),
{
    if s.len() == 0 {
        flush_word(buf)
    } else if (s[0] == '\'' && q == Quote::Single) || (s[0] == '"' && q == Quote::Double) {
        words_text(s.drop_first(), buf)
    } else if s[0] == '\\' {
        words_backslash(PrevState::Quote(q), s.drop_first(), buf)
    } else {
        words_quote(q, s.drop_first(), buf.push(s[0]))
    }
}

/// Words produced from `s` just after a backslash met in `prev`.
pub open spec fn words_backslash(prev: PrevState, s: Seq<char>, buf: Seq<char>) -> Seq<Seq<char>>
    decreases s.len(),
{
    if s.len() == 0 {
        seq![buf.push('\\')]
    } else {
        let buf2 = if prev == PrevState::Quote(Quote::Single) && s[0] != '\'' {
            buf.push('\\').push(s[0])
        } else {
            buf.push(s[0])
        };
        match prev {
            PrevState::Text => words_text(s.drop_first(), buf2),
            PrevState::Quote(q) => words_quote(q, s.drop_first(), buf2),
        }
    }
}

/// The words of a command line.
pub open spec fn spec_words(s: Seq<char>) -> Seq<Seq<char>> {
    words_space(s)
}

/// A streaming lexer over a command line.
pub struct Lexer {
    input: Vec<char>,
    pos: usize,
    buffer: Vec<char>,
    state: LexerState,
}

/// Rank of a state for the lexer's progress measure.
pub open spec fn state_rank(st: LexerState) -> int {
    match st {
        LexerState::End => 0,
        _ => 1,
    }
}

impl Lexer {
    /// The input not yet consumed.
    pub closed spec fn remaining(&self) -> Seq<char> {
        self.input@.skip(self.pos as int)
    }

    /// The lexer's control state.
    pub closed spec fn spec_state(&self) -> LexerState {
        self.state
    }

    /// The accumulation buffer's contents.
    pub closed spec fn spec_buffer(&self) -> Seq<char> {
        self.buffer@
    }

    /// Structural soundness of the cursor: between words the buffer is
    /// empty.
    pub closed spec fn wf(&self) -> bool {
        self.pos <= self.input.len() && (self.state == LexerState::Space ==> self.buffer@.len()
            == 0)
    }

    /// The words this lexer will still emit.
    pub open spec fn pending(&self) -> Seq<Seq<char>> {
        match self.spec_state() {
            LexerState::Space => words_space(self.remaining()),
            LexerState::Text => words_text(self.remaining(), self.spec_buffer()),
            LexerState::Quote(q) => words_quote(q, self.remaining(), self.spec_buffer()),
            LexerState::Backslash(prev) => words_backslash(
                prev,
                self.remaining(),
                self.spec_buffer(),
            ),
            LexerState::End => Seq::empty(),
        }
    }

    /// A lexer positioned at the start of `input`.
    pub fn new(input: &str) -> (r: Lexer)
        ensures
            r.wf(),
            r.pending() == spec_words(input@),
    {
        let r = Lexer {
            input: str_chars(input),
            pos: 0,
            buffer: Vec::new(),
            state: LexerState::Space,
        };
        proof {
            assert(r.remaining() =~= input@);
        }
        r
    }

    /// Consume one character.
    fn get_next(&mut self)
        requires
            old(self).pos < old(self).input.len(),
        ensures
            final(self).pos <= final(self).input.len(),
            final(self).input == old(self).input,
            final(self).pos == old(self).pos + 1,
            final(self).buffer == old(self).buffer,
            final(self).state == old(self).state,
            final(self).remaining() == old(self).remaining().drop_first(),
    {
        self.pos = self.pos + 1;
        proof {
            assert(self.input@.skip(self.pos as int) =~= self.input@.skip(
                self.pos - 1,
            ).drop_first());
        }
    }

    /// The next unconsumed character, if any.
    fn lookahead(&self) -> (r: Option<char>)
        requires
            self.wf(),
        ensures
            match r {
                Some(c) => self.remaining().len() > 0 && c == self.remaining()[0],
                None => self.remaining().len() == 0,
            },
    {
        if self.pos < self.input.len() {
            Some(self.input[self.pos])
        } else {
            None
        }
    }

    /// Take the buffered word out if it is non-empty, leaving the buffer
    /// empty.
    fn clear_buf(&mut self) -> (r: Option<String>)
        ensures
            final(self).spec_buffer() == Seq::<char>::empty(),
            final(self).input == old(self).input,
            final(self).pos == old(self).pos,
            final(self).state == old(self).state,
            final(self).remaining() == old(self).remaining(),
            match r {
                Some(w) => w@ == old(self).spec_buffer() && old(self).spec_buffer().len() > 0,
                None => old(self).spec_buffer().len() == 0,
            },
    {
        if self.buffer.len() == 0 {
            None
        } else {
            let contents = chars_to_string(&self.buffer);
            self.buffer.clear();
            Some(contents)
        }
    }

    /// One step between words.
    fn advance_space(&mut self) -> (r: Option<String>)
        requires
            old(self).wf(),
            old(self).spec_state() == LexerState::Space,
        ensures
            final(self).wf(),
            old(self).pending() == opt_word_seq(r) + final(self).pending(),
            r is None ==> lexer_measure_lt(*final(self), *old(self)),
    {
        match self.lookahead() {
            Some(c) => {
                if !is_space(c) {
                    if c == '"' {
                        self.state = LexerState::Quote(Quote::Double);
                    } else if c == '\'' {
                        self.state = LexerState::Quote(Quote::Single);
                    } else if c == '\\' {
                        self.state = LexerState::Backslash(PrevState::Text);
                    } else {
                        self.buffer.push(c);
                        proof {
                            assert(old(self).spec_buffer() =~= Seq::<char>::empty());
                            assert(self.spec_buffer() =~= seq![c]);
                        }
                        self.state = LexerState::Text;
                    }
                }
                self.get_next();
                proof {
                    assert(old(self).spec_buffer() =~= Seq::<char>::empty());
                    lemma_empty_plus(self.pending());
                }
                None
            },
            None => {
                self.state = LexerState::End;
                proof {
                    lemma_empty_plus(self.pending());
                }
                None
            },
        }
    }

    /// One step inside a bare word.
    fn advance_text(&mut self) -> (r: Option<String>)
        requires
            old(self).wf(),
            old(self).spec_state() == LexerState::Text,
        ensures
            final(self).wf(),
            old(self).pending() == opt_word_seq(r) + final(self).pending(),
            r is None ==> lexer_measure_lt(*final(self), *old(self)),
    {
        match self.lookahead() {
            Some(c) => {
                let res: Option<String>;
                if is_space(c) {
                    self.state = LexerState::Space;
                    res = self.clear_buf();
                } else {
                    if c == '"' {
                        self.state = LexerState::Quote(Quote::Double);
                    } else if c == '\'' {
                        self.state = LexerState::Quote(Quote::Single);
                    } else if c == '\\' {
                        self.state = LexerState::Backslash(PrevState::Text);
                    } else {
                        self.buffer.push(c);
                    }
                    res = None;
                }
                self.get_next();
                proof {
                    if res is None {
                        lemma_empty_plus(self.pending());
                    } else {
                        assert(self.spec_buffer() =~= Seq::<char>::empty());
                    }
                }
                res
            },
            None => {
                self.state = LexerState::End;
                let r = self.clear_buf();
                proof {
                    match &r {
                        Some(w) => lemma_plus_empty(seq![w@]),
                        None => lemma_empty_plus(self.pending()),
                    }
                }
                r
            },
        }
    }

    /// One step inside quotes.
    fn advance_quote(&mut self, quote: Quote) -> (r: Option<String>)
        requires
            old(self).wf(),
            old(self).spec_state() == LexerState::Quote(quote),
        ensures
            final(self).wf(),
            old(self).pending() == opt_word_seq(r) + final(self).pending(),
            r is None ==> lexer_measure_lt(*final(self), *old(self)),
    {
        match self.lookahead() {
            Some(c) => {
                if (c == '\'' && matches!(quote, Quote::Single)) || (c == '"' && matches!(
                    quote,
                    Quote::Double,
                )) {
                    self.state = LexerState::Text;
                } else if c == '\\' {
                    self.state = LexerState::Backslash(PrevState::Quote(quote));
                } else {
                    self.buffer.push(c);
                }
                self.get_next();
                proof {
                    lemma_empty_plus(self.pending());
                }
                None
            },
            None => {
                self.state = LexerState::End;
                let r = self.clear_buf();
                proof {
                    match &r {
                        Some(w) => lemma_plus_empty(seq![w@]),
                        None => lemma_empty_plus(self.pending()),
                    }
                }
                r
            },
        }
    }

    /// One step just after a backslash.
    fn advance_backslash(&mut self, prev_state: PrevState) -> (r: Option<String>)
        requires
            old(self).wf(),
            old(self).spec_state() == LexerState::Backslash(prev_state),
        ensures
            final(self).wf(),
            old(self).pending() == opt_word_seq(r) + final(self).pending(),
            r is None ==> lexer_measure_lt(*final(self), *old(self)),
    {
        match self.lookahead() {
            Some(c) => {
                if matches!(prev_state, PrevState::Quote(Quote::Single)) && c != '\'' {
                    self.buffer.push('\\');
                }
                self.buffer.push(c);
                self.get_next();
                self.state = match prev_state {
                    PrevState::Text => LexerState::Text,
                    PrevState::Quote(quote) => LexerState::Quote(quote),
                };
                proof {
                    lemma_empty_plus(self.pending());
                }
                None
            },
            None => {
                self.state = LexerState::End;
                self.buffer.push('\\');
                let r = self.clear_buf();
                proof {
                    match &r {
                        Some(w) => lemma_plus_empty(seq![w@]),
                        None => lemma_empty_plus(self.pending()),
                    }
                }
                r
            },
        }
    }

    /// One step of the automaton.
    fn advance(&mut self) -> (r: Option<String>)
        requires
            old(self).wf(),
        ensures
            final(self).wf(),
            old(self).pending() == opt_word_seq(r) + final(self).pending(),
            r is None && old(self).spec_state() != LexerState::End ==> lexer_measure_lt(
                *final(self),
                *old(self),
            ),
    {
        match self.state {
            LexerState::Space => self.advance_space(),
            LexerState::Text => self.advance_text(),
            LexerState::Quote(quote) => self.advance_quote(quote),
            LexerState::Backslash(prev_state) => self.advance_backslash(prev_state),
            LexerState::End => {
                proof {
                    lemma_empty_plus(self.pending());
                }
                None
            },
        }
    }

    /// The next word, or `None` once the input is exhausted.
    pub fn scan(&mut self) -> (r: Option<String>)
        requires
            old(self).wf(),
        ensures
            final(self).wf(),
            match r {
                Some(w) => old(self).pending().len() > 0 && w@ == old(self).pending()[0]
                    && final(self).pending() == old(self).pending().drop_first(),
                None => old(self).pending().len() == 0 && final(self).pending() == old(self).pending(),
            },
    {
        loop
            invariant
                self.wf(),
                self.pending() == old(self).pending(),
            decreases self.remaining().len(), state_rank(self.spec_state()),
        {
            if self.state == LexerState::End {
                return None;
            } else {
                let ghost prev = *self;
                let word = self.advance();
                if let Some(w) = word {
                    proof {
                        assert(prev.pending()[0] == w@);
                        assert(prev.pending().drop_first() =~= self.pending());
                    }
                    return Some(w);
                }
                proof {
                    assert(prev.pending() =~= self.pending());
                }
            }
        }
    }
}

/// The word, if any, as a (possibly empty) word list.
pub open spec fn opt_word_seq(r: Option<String>) -> Seq<Seq<char>> {
    match r {
        Some(w) => seq![w@],
        None => Seq::empty(),
    }
}

/// Concatenating no word on the left leaves a word list unchanged.
proof fn lemma_empty_plus(s: Seq<Seq<char>>)
    ensures
        Seq::<Seq<char>>::empty() + s == s,
{
    assert(Seq::<Seq<char>>::empty() + s =~= s);
}

/// Concatenating nothing on the right leaves a word list unchanged.
proof fn lemma_plus_empty(s: Seq<Seq<char>>)
    ensures
        s + Seq::<Seq<char>>::empty() == s,
{
    assert(s + Seq::<Seq<char>>::empty() =~= s);
}

/// Does `a` stand strictly closer to the end of the input than `b`?
pub open spec fn lexer_measure_lt(a: Lexer, b: Lexer) -> bool {
    a.remaining().len() < b.remaining().len() || (a.remaining().len() == b.remaining().len()
        && state_rank(a.spec_state()) < state_rank(b.spec_state()))
}

/// All the words of a command line, in order.
pub fn split_words(line: &str) -> (r: Vec<String>)
    ensures
        r.deep_view() == spec_words(line@),
{
    let mut lexer = Lexer::new(line);
    let mut out: Vec<String> = Vec::new();
    proof {
        assert(out.deep_view() + lexer.pending() =~= lexer.pending());
    }
    loop
        invariant
            lexer.wf(),
            out.deep_view() + lexer.pending() == spec_words(line@),
        ensures
            lexer.pending().len() == 0,
            out.deep_view() + lexer.pending() == spec_words(line@),
        decreases lexer.pending().len(),
    {
        let ghost out_prev = out.deep_view();
        let ghost pending_prev = lexer.pending();
        match lexer.scan() {
            None => {
                break;
            },
            Some(w) => {
                let ghost wv = w@;
                out.push(w);
                proof {
                    assert(out.deep_view() =~= out_prev.push(wv));
                    assert(out_prev.push(wv) + lexer.pending() =~= out_prev + (seq![wv]
                        + lexer.pending()));
                    assert(seq![wv] + lexer.pending() =~= pending_prev);
                }
            },
        }
    }
    proof {
        assert(out.deep_view() + lexer.pending() =~= out.deep_view());
    }
    out
}

/// A ready-to-spawn process description: a program and its arguments.
#[derive(Debug, Clone, PartialEq, Eq)]
pub struct Invocation {
    /// The program to run: the command line's first word.
    pub program: String,
    /// The arguments, in order: the command line's remaining words, then
    /// the extra argument the invocation was built with.
    pub args: Vec<String>,
}

/// Build a process invocation from a command line: the first word is the
/// program, the remaining words its arguments, and `extra_arg` (the target
/// file's path) is appended last.  Returns `None` when the command line
/// holds no words.
pub fn build_invocation(line: &str, extra_arg: &str) -> (r: Option<Invocation>)
    ensures
        match r {
            Some(inv) => spec_words(line@).len() > 0 && inv.program@ == spec_words(line@)[0]
                && inv.args.deep_view() == spec_words(line@).drop_first().push(extra_arg@),
            None => spec_words(line@).len() == 0,
        },
{
    let mut words = split_words(line);
    if words.len() == 0 {
        return None;
    }
    let ghost all = words.deep_view();
    let program = words.remove(0);
    let mut args = words;
    proof {
        assert(args.deep_view() =~= all.drop_first());
    }
    args.push(extra_arg.to_owned());
    proof {
        assert(args.deep_view() =~= all.drop_first().push(extra_arg@));
    }
    Some(Invocation { program, args })
}

} // verus!
