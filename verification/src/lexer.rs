//! Lexical classification.
//!
//! The lexer consumes the tokenizer's stream and reduces it to the closed
//! lexical vocabulary of the grammar: identifiers, string literals, numbers
//! (their digit text with apostrophe group separators removed), and a fixed
//! set of punctuation kinds.  Space and newline symbols are dropped; any
//! other unrecognized symbol is an unsupported-character error.
//!
//! `spec_lex_step` is the mathematical mirror: it says exactly which lexical
//! item or error the next call produces and how the cursor state moves.

use crate::tokenizer::{
    advance1, chars_vec, lemma_token_step_bounds, push_char, spec_token_step, st_wf, TokState,
    Token, TokenKind, TokenKindV, TokenizerError, TokenizerErrorKind, TokenizerErrorV, Tokenizer,
    TResult,
};
use vstd::prelude::*;

verus! {

use vstd::string::StrSliceExecFns;

#[derive(Debug, PartialEq)]
pub enum LexemKind {
    Ident(String),
    Number(String),
    StringLiteral(String),
    LParen,
    RParen,
    LBrace,
    RBrace,
    Dot,
    Comma,
    Colon,
    Semicolon,
    Equals,
    Or,
    And,
    Less,
    Greater,
    Slash,
    Asterisk,
    Minus,
    Plus,
}

/// The mathematical value of a lexical item kind.
pub ghost enum LexemKindV {
    Ident(Seq<char>),
    Number(Seq<char>),
    StringLiteral(Seq<char>),
    LParen,
    RParen,
    LBrace,
    RBrace,
    Dot,
    Comma,
    Colon,
    Semicolon,
    Equals,
    Or,
    And,
    Less,
    Greater,
    Slash,
    Asterisk,
    Minus,
    Plus,
}

impl View for LexemKind {
    type V = LexemKindV;

    open spec fn view(&self) -> LexemKindV {
        match self {
            LexemKind::Ident(s) => LexemKindV::Ident(s@),
            LexemKind::Number(s) => LexemKindV::Number(s@),
            LexemKind::StringLiteral(s) => LexemKindV::StringLiteral(s@),
            LexemKind::LParen => LexemKindV::LParen,
            LexemKind::RParen => LexemKindV::RParen,
            LexemKind::LBrace => LexemKindV::LBrace,
            LexemKind::RBrace => LexemKindV::RBrace,
            LexemKind::Dot => LexemKindV::Dot,
            LexemKind::Comma => LexemKindV::Comma,
            LexemKind::Colon => LexemKindV::Colon,
            LexemKind::Semicolon => LexemKindV::Semicolon,
            LexemKind::Equals => LexemKindV::Equals,
            LexemKind::Or => LexemKindV::Or,
            LexemKind::And => LexemKindV::And,
            LexemKind::Less => LexemKindV::Less,
            LexemKind::Greater => LexemKindV::Greater,
            LexemKind::Slash => LexemKindV::Slash,
            LexemKind::Asterisk => LexemKindV::Asterisk,
            LexemKind::Minus => LexemKindV::Minus,
            LexemKind::Plus => LexemKindV::Plus,
        }
    }
}

impl Clone for LexemKind {
    /// A clone carries the same mathematical value.
    fn clone(&self) -> (r: Self)
        ensures
            r@ == self@,
    {
        match self {
            LexemKind::Ident(s) => LexemKind::Ident(s.clone()),
            LexemKind::Number(s) => LexemKind::Number(s.clone()),
            LexemKind::StringLiteral(s) => LexemKind::StringLiteral(s.clone()),
            LexemKind::LParen => LexemKind::LParen,
            LexemKind::RParen => LexemKind::RParen,
            LexemKind::LBrace => LexemKind::LBrace,
            LexemKind::RBrace => LexemKind::RBrace,
            LexemKind::Dot => LexemKind::Dot,
            LexemKind::Comma => LexemKind::Comma,
            LexemKind::Colon => LexemKind::Colon,
            LexemKind::Semicolon => LexemKind::Semicolon,
            LexemKind::Equals => LexemKind::Equals,
            LexemKind::Or => LexemKind::Or,
            LexemKind::And => LexemKind::And,
            LexemKind::Less => LexemKind::Less,
            LexemKind::Greater => LexemKind::Greater,
            LexemKind::Slash => LexemKind::Slash,
            LexemKind::Asterisk => LexemKind::Asterisk,
            LexemKind::Minus => LexemKind::Minus,
            LexemKind::Plus => LexemKind::Plus,
        }
    }
}

#[derive(Debug)]
pub struct Lexem {
    line: usize,
    column: usize,
    kind: LexemKind,
}

pub ghost struct LexemV {
    pub line: nat,
    pub column: nat,
    pub kind: LexemKindV,
}

impl View for Lexem {
    type V = LexemV;

    closed spec fn view(&self) -> LexemV {
        LexemV { line: self.line as nat, column: self.column as nat, kind: self.kind@ }
    }
}

impl Lexem {
    pub fn line(&self) -> (r: usize)
        ensures
            r as nat == self@.line,
    {
        self.line
    }

    pub fn column(&self) -> (r: usize)
        ensures
            r as nat == self@.column,
    {
        self.column
    }

    pub fn token(&self) -> (r: &LexemKind)
        ensures
            r@ == self@.kind,
    {
        &self.kind
    }

    pub fn is_ident(&self) -> (r: bool)
        ensures
            r == (self@.kind is Ident),
    {
        match &self.kind {
            LexemKind::Ident(_) => true,
            _ => false,
        }
    }

    pub fn is_ident_equals(&self, value: &str) -> (r: bool)
        ensures
            r == (self@.kind matches LexemKindV::Ident(s) && s == value@),
    {
        match &self.kind {
            LexemKind::Ident(x) => str_eq(x.as_str(), value),
            _ => false,
        }
    }

    pub fn ident(&self) -> (r: Option<&String>)
        ensures
            match r {
                Some(s) => self@.kind == LexemKindV::Ident(s@),
                None => !(self@.kind is Ident),
            },
    {
        match &self.kind {
            LexemKind::Ident(x) => Some(x),
            _ => None,
        }
    }
}

/// Character-by-character equality of two string slices.
fn str_eq(a: &str, b: &str) -> (r: bool)
    ensures
        r == (a@ == b@),
{
    let la = a.unicode_len();
    let lb = b.unicode_len();
    if la != lb {
        return false;
    }
    let mut i: usize = 0;
    while i < la
        invariant
            la == a@.len(),
            la == b@.len(),
            0 <= i <= la,
            forall|j: int| 0 <= j < i ==> a@[j] == b@[j],
        decreases la - i,
    {
        if a.get_char(i) != b.get_char(i) {
            return false;
        }
        i = i + 1;
    }
    proof {
        assert(a@ =~= b@);
    }
    true
}

/// The digit text of a number with the apostrophe group separators removed.
pub open spec fn strip_apostrophes(s: Seq<char>) -> Seq<char>
    decreases s.len(),
{
    if s.len() == 0 {
        Seq::<char>::empty()
    } else if s[0] == '\'' {
        strip_apostrophes(s.drop_first())
    } else {
        seq![s[0]] + strip_apostrophes(s.drop_first())
    }
}

/// The fixed symbol-to-punctuation table; `None` is an unsupported symbol.
pub open spec fn symbol_kind(c: char) -> Option<LexemKindV> {
    if c == '(' {
        Some(LexemKindV::LParen)
    } else if c == ')' {
        Some(LexemKindV::RParen)
    } else if c == '{' {
        Some(LexemKindV::LBrace)
    } else if c == '}' {
        Some(LexemKindV::RBrace)
    } else if c == '=' {
        Some(LexemKindV::Equals)
    } else if c == '|' {
        Some(LexemKindV::Or)
    } else if c == '&' {
        Some(LexemKindV::And)
    } else if c == '<' {
        Some(LexemKindV::Less)
    } else if c == '>' {
        Some(LexemKindV::Greater)
    } else if c == ';' {
        Some(LexemKindV::Semicolon)
    } else if c == '+' {
        Some(LexemKindV::Plus)
    } else if c == '-' {
        Some(LexemKindV::Minus)
    } else if c == '*' {
        Some(LexemKindV::Asterisk)
    } else if c == '/' {
        Some(LexemKindV::Slash)
    } else if c == '.' {
        Some(LexemKindV::Dot)
    } else if c == ',' {
        Some(LexemKindV::Comma)
    } else if c == ':' {
        Some(LexemKindV::Colon)
    } else {
        None
    }
}

/// What one lexer step produces: the next token reduced to a lexical item,
/// with space and newline symbols dropped, an unrecognized symbol reported
/// as an unsupported character, and tokenizer errors passed through.
pub open spec fn spec_lex_step(text: Seq<char>, st: TokState) -> (Option<
    Result<LexemV, TokenizerErrorV>,
>, TokState)
    decreases text.len() - st.pos,
        when 0 <= st.pos <= text.len()
{
    let (out, st2) = spec_token_step(text, st);
    match out {
        None => (None, st2),
        Some(Err(e)) => (Some(Err(e)), st2),
        Some(Ok(tok)) => match tok.kind {
            TokenKindV::Ident(s) => (
                Some(
                    Ok(LexemV { line: tok.line, column: tok.column, kind: LexemKindV::Ident(s) }),
                ),
                st2,
            ),
            TokenKindV::StringLiteral(s) => (
                Some(
                    Ok(
                        LexemV {
                            line: tok.line,
                            column: tok.column,
                            kind: LexemKindV::StringLiteral(s),
                        },
                    ),
                ),
                st2,
            ),
            TokenKindV::Number(s) => (
                Some(
                    Ok(
                        LexemV {
                            line: tok.line,
                            column: tok.column,
                            kind: LexemKindV::Number(strip_apostrophes(s)),
                        },
                    ),
                ),
                st2,
            ),
            TokenKindV::Symbol(c) => {
                if c == ' ' || c == '\n' {
                    spec_lex_step(text, clamp_after(st2, st.pos + 1, text.len() as int))
                } else {
                    match symbol_kind(c) {
                        Some(k) => (
                            Some(Ok(LexemV { line: tok.line, column: tok.column, kind: k })),
                            st2,
                        ),
                        None => (
                            Some(
                                Err(
                                    TokenizerErrorV {
                                        line: tok.line,
                                        column: tok.column,
                                        kind: TokenizerErrorKind::UnsupportedCharacter(c),
                                    },
                                ),
                            ),
                            st2,
                        ),
                    }
                }
            },
        },
    }
}

/// The state with its position clamped into `[lo, hi]`.  A tokenizer step
/// that produced a token has in fact moved forward, so where this is applied
/// the clamping never changes anything; it only makes the recursion above
/// visibly well-founded.
pub open spec fn clamp_after(st: TokState, lo: int, hi: int) -> TokState {
    if st.pos < lo {
        TokState { pos: lo, line: st.line, column: st.column }
    } else if st.pos > hi {
        TokState { pos: hi, line: st.line, column: st.column }
    } else {
        st
    }
}

pub struct Lexer {
    input: Tokenizer,
}

impl Lexer {
    /// The text under the lexer, as a character sequence.
    pub closed spec fn text(&self) -> Seq<char> {
        self.input.text()
    }

    /// The current cursor state of the underlying tokenizer.
    pub closed spec fn st(&self) -> TokState {
        self.input.st()
    }

    pub open spec fn wf(&self) -> bool {
        st_wf(self.text(), self.st())
    }

    pub fn new(input: Tokenizer) -> (r: Self)
        ensures
            r.text() == input.text(),
            r.st() == input.st(),
    {
        Self { input }
    }

    /// The next raw token, handed through from the tokenizer.
    pub fn next(&mut self) -> (r: Option<TResult<Token>>)
        requires
            old(self).wf(),
        ensures
            final(self).text() == old(self).text(),
            final(self).wf(),
            ({
                let (out, st2) = spec_token_step(old(self).text(), old(self).st());
                &&& final(self).st() == st2
                &&& match (r, out) {
                    (None, None) => true,
                    (Some(Ok(t)), Some(Ok(tv))) => t@ == tv,
                    (Some(Err(e)), Some(Err(ev))) => e@ == ev,
                    _ => false,
                }
            }),
    {
        self.input.next()
    }

    /// One lexer step, as `spec_lex_step` describes it.
    pub fn lex(&mut self) -> (r: Option<TResult<Lexem>>)
        requires
            old(self).wf(),
        ensures
            final(self).text() == old(self).text(),
            final(self).wf(),
            ({
                let (out, st2) = spec_lex_step(old(self).text(), old(self).st());
                &&& final(self).st() == st2
                &&& match (r, out) {
                    (None, None) => true,
                    (Some(Ok(l)), Some(Ok(lv))) => l@ == lv,
                    (Some(Err(e)), Some(Err(ev))) => e@ == ev,
                    _ => false,
                }
            }),
    {
        let ghost text0 = self.text();
        let ghost st0 = self.st();
        loop
            invariant
                self.wf(),
                self.text() == text0,
                text0 == old(self).text(),
                spec_lex_step(text0, self.st()) == spec_lex_step(text0, st0),
                st0 == old(self).st(),
                st_wf(text0, st0),
            decreases text0.len() - self.st().pos,
        {
            let ghost stp = self.st();
            proof {
                lemma_token_step_bounds(text0, stp);
            }
            match self.next() {
                None => {
                    return None;
                },
                Some(Err(e)) => {
                    return Some(Err(e));
                },
                Some(Ok(token)) => {
                    let Token { line, column, kind: token_kind } = token;
                    let kind = match token_kind {
                        TokenKind::Ident(id) => LexemKind::Ident(id),
                        TokenKind::StringLiteral(s) => LexemKind::StringLiteral(s),
                        TokenKind::Number(nr) => LexemKind::Number(strip_apostrophes_exec(&nr)),
                        TokenKind::Symbol(sym) => {
                            if sym == '\n' || sym == ' ' {
                                proof {
                                    let (out2, st2) = spec_token_step(text0, stp);
                                    assert(clamp_after(st2, stp.pos + 1, text0.len() as int)
                                        == st2);
                                }
                                continue ;
                            } else {
                                match symbol_char_kind(sym) {
                                    Some(k) => k,
                                    None => {
                                        return Some(
                                            Err(
                                                TokenizerError::new(
                                                    line,
                                                    column,
                                                    TokenizerErrorKind::UnsupportedCharacter(sym),
                                                ),
                                            ),
                                        );
                                    },
                                }
                            }
                        },
                    };
                    return Some(
                        Ok(Lexem { line, column, kind }),
                    );
                },
            }
        }
    }
}

/// One lexer step stays inside the text; it consumes at least one
/// character whenever it produces an item or an error, and it stops
/// exactly at the end of the text when it produces nothing.
pub proof fn lemma_lex_step_bounds(text: Seq<char>, st: TokState)
    requires
        st_wf(text, st),
    ensures
        ({
            let (out, st2) = spec_lex_step(text, st);
            &&& st_wf(text, st2)
            &&& st2.pos >= st.pos
            &&& out is Some ==> st2.pos > st.pos
            &&& out is None ==> st2.pos == text.len()
        }),
    decreases text.len() - st.pos,
{
    lemma_token_step_bounds(text, st);
    let (out, st2) = spec_token_step(text, st);
    match out {
        Some(Ok(tok)) => match tok.kind {
            TokenKindV::Symbol(c) => {
                if c == ' ' || c == '\n' {
                    assert(clamp_after(st2, st.pos + 1, text.len() as int) == st2);
                    lemma_lex_step_bounds(text, st2);
                }
            },
            _ => {},
        },
        _ => {},
    }
}

/// The executable symbol table, matching `symbol_kind`.
fn symbol_char_kind(c: char) -> (r: Option<LexemKind>)
    ensures
        match (r, symbol_kind(c)) {
            (Some(k), Some(kv)) => k@ == kv,
            (None, None) => true,
            _ => false,
        },
{
    match c {
        '(' => Some(LexemKind::LParen),
        ')' => Some(LexemKind::RParen),
        '{' => Some(LexemKind::LBrace),
        '}' => Some(LexemKind::RBrace),
        '=' => Some(LexemKind::Equals),
        '|' => Some(LexemKind::Or),
        '&' => Some(LexemKind::And),
        '<' => Some(LexemKind::Less),
        '>' => Some(LexemKind::Greater),
        ';' => Some(LexemKind::Semicolon),
        '+' => Some(LexemKind::Plus),
        '-' => Some(LexemKind::Minus),
        '*' => Some(LexemKind::Asterisk),
        '/' => Some(LexemKind::Slash),
        '.' => Some(LexemKind::Dot),
        ',' => Some(LexemKind::Comma),
        ':' => Some(LexemKind::Colon),
        _ => None,
    }
}

/// Removes apostrophe digit-group separators from number text.
fn strip_apostrophes_exec(s: &String) -> (r: String)
    ensures
        r@ == strip_apostrophes(s@),
{
    let cs = chars_vec(s.as_str());
    let mut r = String::new();
    proof {
        assert(s@.skip(0) =~= s@);
    }
    let mut i: usize = 0;
    while i < cs.len()
        invariant
            cs@ == s@,
            0 <= i <= cs@.len(),
            strip_apostrophes(s@) == r@ + strip_apostrophes(s@.skip(i as int)),
        decreases cs@.len() - i,
    {
        let ghost pre = r@;
        let c = cs[i];
        proof {
            assert(s@.skip(i as int)[0] == s@[i as int]);
            assert(s@.skip(i as int).drop_first() =~= s@.skip(i as int + 1));
        }
        if c != '\'' {
            push_char(&mut r, c);
            proof {
                assert(pre + (seq![c] + strip_apostrophes(s@.skip(i as int + 1))) =~= pre.push(c)
                    + strip_apostrophes(s@.skip(i as int + 1)));
            }
        }
        i = i + 1;
    }
    proof {
        assert(s@.skip(s@.len() as int) =~= Seq::<char>::empty());
        assert(r@ + Seq::<char>::empty() =~= r@);
    }
    r
}

} // verus!
