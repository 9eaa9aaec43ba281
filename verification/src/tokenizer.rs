//! Character-level tokenization.
//!
//! The tokenizer scans raw text into a flat sequence of positioned tokens:
//! identifiers, numbers (kept as raw digit text), string literals (with
//! escapes decoded), and single-character symbols.  It tracks line and
//! column through arbitrary Unicode text and reports string-literal errors.
//!
//! Every step is specified against a mathematical mirror: `spec_token_step`
//! says exactly which token or error the next call produces and how the
//! cursor state moves.

use crate::chars::{
    alphabetic, alphanumeric, char_is_alphabetic, char_is_alphanumeric, char_is_numeric,
    char_is_whitespace, numeric, whitespace,
};
use vstd::prelude::*;

verus! {

pub type TResult<T> = Result<T, TokenizerError>;

#[derive(Debug, PartialEq)]
pub enum TokenKind {
    Ident(String),
    StringLiteral(String),
    Number(String),
    Symbol(char),
}

/// The mathematical value of a token kind: text as a character sequence.
pub ghost enum TokenKindV {
    Ident(Seq<char>),
    StringLiteral(Seq<char>),
    Number(Seq<char>),
    Symbol(char),
}

impl View for TokenKind {
    type V = TokenKindV;

    open spec fn view(&self) -> TokenKindV {
        match self {
            TokenKind::Ident(s) => TokenKindV::Ident(s@),
            TokenKind::StringLiteral(s) => TokenKindV::StringLiteral(s@),
            TokenKind::Number(s) => TokenKindV::Number(s@),
            TokenKind::Symbol(c) => TokenKindV::Symbol(*c),
        }
    }
}

#[derive(Debug, PartialEq)]
pub struct Token {
    pub line: usize,
    pub column: usize,
    pub kind: TokenKind,
}

pub ghost struct TokenV {
    pub line: nat,
    pub column: nat,
    pub kind: TokenKindV,
}

impl View for Token {
    type V = TokenV;

    open spec fn view(&self) -> TokenV {
        TokenV { line: self.line as nat, column: self.column as nat, kind: self.kind@ }
    }
}

#[derive(Clone, Copy, Debug, PartialEq, Eq, Structural)]
pub enum TokenizerErrorKind {
    UnterminatedString,
    InvalidEscapeSequence,
    UnsupportedCharacter(char),
}

#[derive(Debug, PartialEq)]
pub struct TokenizerError {
    pub(crate) line: usize,
    pub(crate) column: usize,
    pub(crate) kind: TokenizerErrorKind,
}

pub ghost struct TokenizerErrorV {
    pub line: nat,
    pub column: nat,
    pub kind: TokenizerErrorKind,
}

impl View for TokenizerError {
    type V = TokenizerErrorV;

    closed spec fn view(&self) -> TokenizerErrorV {
        TokenizerErrorV {
            line: self.line as nat,
            column: self.column as nat,
            kind: self.kind,
        }
    }
}

impl TokenizerError {
    pub(crate) fn new(line: usize, column: usize, kind: TokenizerErrorKind) -> (r: Self)
        ensures
            r@ == (TokenizerErrorV { line: line as nat, column: column as nat, kind }),
    {
        TokenizerError { line, column, kind }
    }

    pub fn line(&self) -> (r: usize)
        ensures
            r as nat == self@.line,
    {
        self.line
    }

    pub fn column(&self) -> (r: usize)
        ensures
            r as nat == self@.column,
    {
        self.column
    }

    pub fn kind(&self) -> (r: TokenizerErrorKind)
        ensures
            r == self@.kind,
    {
        self.kind
    }
}

/// The tokenizer's cursor state: a character position plus the line and
/// column it corresponds to.
pub ghost struct TokState {
    pub pos: int,
    pub line: nat,
    pub column: nat,
}

/// Well-formed state: the position is inside the text, and line and column
/// can each have grown by at most one per consumed character.  The length
/// bound keeps the line and column counters below `usize::MAX`.
pub open spec fn st_wf(text: Seq<char>, st: TokState) -> bool {
    &&& text.len() < usize::MAX
    &&& 0 <= st.pos <= text.len()
    &&& 1 <= st.line <= st.pos + 1
    &&& 1 <= st.column <= st.pos + 1
}

pub open spec fn start_state() -> TokState {
    TokState { pos: 0, line: 1, column: 1 }
}

/// One consumed character: a newline starts the next line at column 1, any
/// other character moves one column; at the end of the text nothing moves.
pub open spec fn advance1(text: Seq<char>, st: TokState) -> TokState {
    if 0 <= st.pos < text.len() {
        if text[st.pos] == '\n' {
            TokState { pos: st.pos + 1, line: (st.line + 1) as nat, column: 1 }
        } else {
            TokState { pos: st.pos + 1, line: st.line, column: (st.column + 1) as nat }
        }
    } else {
        st
    }
}

pub open spec fn advance_n(text: Seq<char>, st: TokState, n: nat) -> TokState
    decreases n,
{
    if n == 0 {
        st
    } else {
        advance1(text, advance_n(text, st, (n - 1) as nat))
    }
}

/// Intra-line whitespace is skipped; newlines are not (they become symbol
/// tokens).
pub open spec fn spec_skip_ws(text: Seq<char>, st: TokState) -> TokState
    decreases text.len() - st.pos,
        when 0 <= st.pos <= text.len()
{
    if st.pos < text.len() && whitespace(text[st.pos]) && text[st.pos] != '\n' {
        spec_skip_ws(text, advance1(text, st))
    } else {
        st
    }
}

pub open spec fn word_char(c: char) -> bool {
    alphanumeric(c) || c == '_'
}

pub open spec fn number_char(c: char) -> bool {
    numeric(c) || c == '\''
}

/// End of the maximal run of identifier characters starting at `pos`.
pub open spec fn ident_end(text: Seq<char>, pos: int) -> int
    decreases text.len() - pos,
        when 0 <= pos <= text.len()
{
    if pos < text.len() && word_char(text[pos]) {
        ident_end(text, pos + 1)
    } else {
        pos
    }
}

/// End of the maximal run of number characters (digits and apostrophe
/// digit-group separators) starting at `pos`.
pub open spec fn number_end(text: Seq<char>, pos: int) -> int
    decreases text.len() - pos,
        when 0 <= pos <= text.len()
{
    if pos < text.len() && number_char(text[pos]) {
        number_end(text, pos + 1)
    } else {
        pos
    }
}

/// String-literal scanning, starting just after the opening quote: the
/// decoded contents up to an unescaped closing quote, or the error the
/// scan stops on, together with the state after the scan.
pub open spec fn spec_scan_string(text: Seq<char>, st: TokState) -> (Result<
    Seq<char>,
    TokenizerErrorV,
>, TokState)
    decreases text.len() - st.pos,
        when 0 <= st.pos <= text.len()
{
    if st.pos >= text.len() {
        (
            Err(
                TokenizerErrorV {
                    line: st.line,
                    column: st.column,
                    kind: TokenizerErrorKind::UnterminatedString,
                },
            ),
            st,
        )
    } else if text[st.pos] == '"' {
        (Ok(Seq::<char>::empty()), advance1(text, st))
    } else if text[st.pos] == '\\' {
        let st1 = advance1(text, st);
        if st1.pos < text.len() && (text[st1.pos] == '"' || text[st1.pos] == '\\' || text[st1.pos]
            == 'n') {
            let decoded = if text[st1.pos] == 'n' {
                '\n'
            } else {
                text[st1.pos]
            };
            let (r, st2) = spec_scan_string(text, advance1(text, st1));
            match r {
                Ok(s) => (Ok(seq![decoded] + s), st2),
                Err(e) => (Err(e), st2),
            }
        } else {
            (
                Err(
                    TokenizerErrorV {
                        line: st1.line,
                        column: st1.column,
                        kind: TokenizerErrorKind::InvalidEscapeSequence,
                    },
                ),
                st1,
            )
        }
    } else {
        let (r, st2) = spec_scan_string(text, advance1(text, st));
        match r {
            Ok(s) => (Ok(seq![text[st.pos]] + s), st2),
            Err(e) => (Err(e), st2),
        }
    }
}

/// What one tokenizer step produces: `None` at the end of the text, and
/// otherwise the token or error determined by the leading character, with
/// the state after the step.  A token's recorded line and column are those
/// of the state after the token, as the tokenizer reports them.
pub open spec fn spec_token_step(text: Seq<char>, st: TokState) -> (Option<
    Result<TokenV, TokenizerErrorV>,
>, TokState) {
    let st1 = spec_skip_ws(text, st);
    if st1.pos >= text.len() {
        (None, st1)
    } else {
        let c = text[st1.pos];
        if alphabetic(c) {
            let end = ident_end(text, st1.pos);
            let st2 = advance_n(text, st1, (end - st1.pos) as nat);
            (
                Some(
                    Ok(
                        TokenV {
                            line: st2.line,
                            column: st2.column,
                            kind: TokenKindV::Ident(text.subrange(st1.pos, end)),
                        },
                    ),
                ),
                st2,
            )
        } else if numeric(c) {
            let end = number_end(text, st1.pos);
            let st2 = advance_n(text, st1, (end - st1.pos) as nat);
            (
                Some(
                    Ok(
                        TokenV {
                            line: st2.line,
                            column: st2.column,
                            kind: TokenKindV::Number(text.subrange(st1.pos, end)),
                        },
                    ),
                ),
                st2,
            )
        } else if c == '"' {
            let (r, st2) = spec_scan_string(text, advance1(text, st1));
            match r {
                Ok(s) => (
                    Some(
                        Ok(
                            TokenV {
                                line: st2.line,
                                column: st2.column,
                                kind: TokenKindV::StringLiteral(s),
                            },
                        ),
                    ),
                    st2,
                ),
                Err(e) => (Some(Err(e)), st2),
            }
        } else {
            let st2 = advance1(text, st1);
            (
                Some(
                    Ok(TokenV { line: st2.line, column: st2.column, kind: TokenKindV::Symbol(c) }),
                ),
                st2,
            )
        }
    }
}

/// Relies on `String::push`: appends exactly the one character.
#[verifier::external_body]
pub(crate) fn push_char(s: &mut String, c: char)
    ensures
        final(s)@ == old(s)@.push(c),
{
    s.push(c);
}

pub struct Tokenizer {
    data: Vec<char>,
    position: usize,
    line: usize,
    column: usize,
}

impl Tokenizer {
    /// The text under the tokenizer, as a character sequence.
    pub closed spec fn text(&self) -> Seq<char> {
        self.data@
    }

    /// The current cursor state.
    pub closed spec fn st(&self) -> TokState {
        TokState { pos: self.position as int, line: self.line as nat, column: self.column as nat }
    }

    pub open spec fn wf(&self) -> bool {
        st_wf(self.text(), self.st())
    }

    pub fn new(data: &str) -> (r: Self)
        requires
            data@.len() < usize::MAX,
        ensures
            r.text() == data@,
            r.st() == start_state(),
            r.wf(),
    {
        Self { data: chars_vec(data), position: 0, line: 1, column: 1 }
    }

    fn current_char(&self) -> (r: Option<char>)
        requires
            self.wf(),
        ensures
            r == (if self.st().pos < self.text().len() {
                Some(self.text()[self.st().pos])
            } else {
                None::<char>
            }),
    {
        if self.position < self.data.len() {
            Some(self.data[self.position])
        } else {
            None
        }
    }

    fn advance(&mut self, count: usize)
        requires
            old(self).wf(),
        ensures
            final(self).text() == old(self).text(),
            final(self).wf(),
            final(self).st() == advance_n(old(self).text(), old(self).st(), count as nat),
            count == 1 ==> final(self).st() == advance1(old(self).text(), old(self).st()),
    {
        let ghost text0 = self.text();
        let ghost st0 = self.st();
        let mut i: usize = 0;
        while i < count
            invariant
                self.wf(),
                self.text() == text0,
                i <= count,
                self.st() == advance_n(text0, st0, i as nat),
            decreases count - i,
        {
            if let Some(ch) = self.current_char() {
                if ch == '\n' {
                    self.line = self.line + 1;
                    self.column = 1;
                } else {
                    self.column = self.column + 1;
                }
                self.position = self.position + 1;
            }
            i = i + 1;
        }
    }

    fn skip_whitespace(&mut self)
        requires
            old(self).wf(),
        ensures
            final(self).text() == old(self).text(),
            final(self).wf(),
            final(self).st() == spec_skip_ws(old(self).text(), old(self).st()),
    {
        let ghost text0 = self.text();
        let ghost st0 = self.st();
        loop
            invariant_except_break
                self.wf(),
                self.text() == text0,
                spec_skip_ws(text0, self.st()) == spec_skip_ws(text0, st0),
            ensures
                self.wf(),
                self.text() == text0,
                self.st() == spec_skip_ws(text0, st0),
            decreases text0.len() - self.st().pos,
        {
            match self.current_char() {
                Some(ch) => {
                    if char_is_whitespace(ch) && ch != '\n' {
                        self.advance(1);
                    } else {
                        break ;
                    }
                },
                None => {
                    break ;
                },
            }
        }
    }

    fn read_identifier(&mut self) -> (r: String)
        requires
            old(self).wf(),
        ensures
            final(self).text() == old(self).text(),
            final(self).wf(),
            r@ == old(self).text().subrange(
                old(self).st().pos,
                ident_end(old(self).text(), old(self).st().pos),
            ),
            final(self).st() == advance_n(
                old(self).text(),
                old(self).st(),
                (ident_end(old(self).text(), old(self).st().pos) - old(self).st().pos) as nat,
            ),
    {
        let ghost text0 = self.text();
        let ghost st0 = self.st();
        let mut ident = String::new();
        loop
            invariant_except_break
                self.wf(),
                self.text() == text0,
                st_wf(text0, st0),
                st0.pos <= self.st().pos <= text0.len(),
                ident@ == text0.subrange(st0.pos, self.st().pos),
                ident_end(text0, self.st().pos) == ident_end(text0, st0.pos),
                self.st() == advance_n(text0, st0, (self.st().pos - st0.pos) as nat),
            ensures
                self.wf(),
                self.text() == text0,
                ident@ == text0.subrange(st0.pos, ident_end(text0, st0.pos)),
                self.st() == advance_n(text0, st0, (ident_end(text0, st0.pos) - st0.pos) as nat),
            decreases text0.len() - self.st().pos,
        {
            let take = match self.current_char() {
                Some(ch) => if char_is_alphanumeric(ch) || ch == '_' {
                    Some(ch)
                } else {
                    None
                },
                None => None,
            };
            match take {
                Some(ch) => {
                    let ghost stp = self.st();
                    push_char(&mut ident, ch);
                    self.advance(1);
                    proof {
                        assert(text0.subrange(st0.pos, stp.pos + 1) =~= text0.subrange(
                            st0.pos,
                            stp.pos,
                        ).push(ch));
                    }
                },
                None => {
                    break ;
                },
            }
        }
        ident
    }

    fn read_number(&mut self) -> (r: String)
        requires
            old(self).wf(),
        ensures
            final(self).text() == old(self).text(),
            final(self).wf(),
            r@ == old(self).text().subrange(
                old(self).st().pos,
                number_end(old(self).text(), old(self).st().pos),
            ),
            final(self).st() == advance_n(
                old(self).text(),
                old(self).st(),
                (number_end(old(self).text(), old(self).st().pos) - old(self).st().pos) as nat,
            ),
    {
        let ghost text0 = self.text();
        let ghost st0 = self.st();
        let mut digits = String::new();
        loop
            invariant_except_break
                self.wf(),
                self.text() == text0,
                st_wf(text0, st0),
                st0.pos <= self.st().pos <= text0.len(),
                digits@ == text0.subrange(st0.pos, self.st().pos),
                number_end(text0, self.st().pos) == number_end(text0, st0.pos),
                self.st() == advance_n(text0, st0, (self.st().pos - st0.pos) as nat),
            ensures
                self.wf(),
                self.text() == text0,
                digits@ == text0.subrange(st0.pos, number_end(text0, st0.pos)),
                self.st() == advance_n(text0, st0, (number_end(text0, st0.pos) - st0.pos) as nat),
            decreases text0.len() - self.st().pos,
        {
            let take = match self.current_char() {
                Some(ch) => if char_is_numeric(ch) || ch == '\'' {
                    Some(ch)
                } else {
                    None
                },
                None => None,
            };
            match take {
                Some(ch) => {
                    let ghost stp = self.st();
                    push_char(&mut digits, ch);
                    self.advance(1);
                    proof {
                        assert(text0.subrange(st0.pos, stp.pos + 1) =~= text0.subrange(
                            st0.pos,
                            stp.pos,
                        ).push(ch));
                    }
                },
                None => {
                    break ;
                },
            }
        }
        digits
    }

    fn read_string(&mut self) -> (r: TResult<String>)
        requires
            old(self).wf(),
        ensures
            final(self).text() == old(self).text(),
            final(self).wf(),
            ({
                let (sr, st2) = spec_scan_string(
                    old(self).text(),
                    advance1(old(self).text(), old(self).st()),
                );
                &&& final(self).st() == st2
                &&& match (r, sr) {
                    (Ok(s), Ok(sv)) => s@ == sv,
                    (Err(e), Err(ev)) => e@ == ev,
                    _ => false,
                }
            }),
    {
        let ghost text0 = self.text();
        let mut string = String::new();
        self.advance(1);  // step past the opening quote
        let ghost st0 = self.st();
        loop
            invariant
                self.wf(),
                self.text() == text0,
                text0 == old(self).text(),
                st_wf(text0, st0),
                st0 == advance1(text0, old(self).st()),
                ({
                    let (sr, stf) = spec_scan_string(text0, self.st());
                    match sr {
                        Ok(s) => spec_scan_string(text0, st0) == (
                            Ok::<Seq<char>, TokenizerErrorV>(string@ + s),
                            stf,
                        ),
                        Err(e) => spec_scan_string(text0, st0) == (
                            Err::<Seq<char>, TokenizerErrorV>(e),
                            stf,
                        ),
                    }
                }),
            decreases text0.len() - self.st().pos,
        {
            let ghost stp = self.st();
            let ghost acc0 = string@;
            match self.current_char() {
                Some(ch) => {
                    if ch == '"' {
                        self.advance(1);
                        proof {
                            assert(acc0 + Seq::<char>::empty() =~= acc0);
                        }
                        return Ok(string);
                    } else if ch == '\\' {
                        self.advance(1);
                        let escaped = match self.current_char() {
                            Some('"') => Some('"'),
                            Some('\\') => Some('\\'),
                            Some('n') => Some('\n'),
                            _ => None,
                        };
                        match escaped {
                            Some(decoded) => {
                                push_char(&mut string, decoded);
                                self.advance(1);
                                proof {
                                    let (sr, stf) = spec_scan_string(text0, self.st());
                                    if sr is Ok {
                                        assert((string@ + sr->Ok_0) =~= (acc0 + (seq![decoded]
                                            + sr->Ok_0)));
                                    }
                                }
                            },
                            None => {
                                return Err(
                                    TokenizerError {
                                        line: self.line,
                                        column: self.column,
                                        kind: TokenizerErrorKind::InvalidEscapeSequence,
                                    },
                                );
                            },
                        }
                    } else {
                        push_char(&mut string, ch);
                        self.advance(1);
                        proof {
                            let (sr, stf) = spec_scan_string(text0, self.st());
                            if sr is Ok {
                                assert((string@ + sr->Ok_0) =~= (acc0 + (seq![ch] + sr->Ok_0)));
                            }
                        }
                    }
                },
                None => {
                    return Err(
                        TokenizerError {
                            line: self.line,
                            column: self.column,
                            kind: TokenizerErrorKind::UnterminatedString,
                        },
                    );
                },
            }
        }
    }

    /// One tokenizer step, as `spec_token_step` describes it: skips
    /// intra-line whitespace, then classifies by the leading character.
    pub fn next(&mut self) -> (r: Option<TResult<Token>>)
        requires
            old(self).wf(),
        ensures
            final(self).text() == old(self).text(),
            final(self).wf(),
            ({
                let (out, st2) = spec_token_step(old(self).text(), old(self).st());
                &&& final(self).st() == st2
                &&& match (r, out) {
                    (None, None) => true,
                    (Some(Ok(t)), Some(Ok(tv))) => t@ == tv,
                    (Some(Err(e)), Some(Err(ev))) => e@ == ev,
                    _ => false,
                }
            }),
    {
        self.skip_whitespace();

        let ch = match self.current_char() {
            Some(ch) => ch,
            None => {
                return None;
            },
        };

        if char_is_alphabetic(ch) {
            let ident = self.read_identifier();
            Some(
                Ok(Token { line: self.line, column: self.column, kind: TokenKind::Ident(ident) }),
            )
        } else if char_is_numeric(ch) {
            let number = self.read_number();
            Some(
                Ok(Token { line: self.line, column: self.column, kind: TokenKind::Number(number) }),
            )
        } else if ch == '"' {
            match self.read_string() {
                Ok(s) => Some(
                    Ok(
                        Token {
                            line: self.line,
                            column: self.column,
                            kind: TokenKind::StringLiteral(s),
                        },
                    ),
                ),
                Err(e) => Some(Err(e)),
            }
        } else {
            self.advance(1);
            Some(
                Ok(Token { line: self.line, column: self.column, kind: TokenKind::Symbol(ch) }),
            )
        }
    }
}

/// Collects the characters of a string slice, one by one.
/// Skipping whitespace stays inside the text and never moves backwards.
pub proof fn lemma_skip_ws_bounds(text: Seq<char>, st: TokState)
    requires
        st_wf(text, st),
    ensures
        st_wf(text, spec_skip_ws(text, st)),
        spec_skip_ws(text, st).pos >= st.pos,
    decreases text.len() - st.pos,
{
    if st.pos < text.len() && whitespace(text[st.pos]) && text[st.pos] != '\n' {
        lemma_skip_ws_bounds(text, advance1(text, st));
    }
}

/// The end of a character run lies between its start and the end of the text.
pub proof fn lemma_ident_end_bounds(text: Seq<char>, pos: int)
    requires
        0 <= pos <= text.len(),
    ensures
        pos <= ident_end(text, pos) <= text.len(),
    decreases text.len() - pos,
{
    if pos < text.len() && word_char(text[pos]) {
        lemma_ident_end_bounds(text, pos + 1);
    }
}

/// The end of a number run lies between its start and the end of the text.
pub proof fn lemma_number_end_bounds(text: Seq<char>, pos: int)
    requires
        0 <= pos <= text.len(),
    ensures
        pos <= number_end(text, pos) <= text.len(),
    decreases text.len() - pos,
{
    if pos < text.len() && number_char(text[pos]) {
        lemma_number_end_bounds(text, pos + 1);
    }
}

/// Advancing `n` characters moves the position forward by exactly `n`,
/// stopping at the end of the text.
pub proof fn lemma_advance_n_bounds(text: Seq<char>, st: TokState, n: nat)
    requires
        st_wf(text, st),
    ensures
        st_wf(text, advance_n(text, st, n)),
        advance_n(text, st, n).pos == if st.pos + n <= text.len() {
            st.pos + n
        } else {
            text.len() as int
        },
    decreases n,
{
    if n > 0 {
        lemma_advance_n_bounds(text, st, (n - 1) as nat);
    }
}

/// String scanning stays inside the text and never moves backwards.
pub proof fn lemma_scan_string_bounds(text: Seq<char>, st: TokState)
    requires
        st_wf(text, st),
    ensures
        st_wf(text, spec_scan_string(text, st).1),
        spec_scan_string(text, st).1.pos >= st.pos,
    decreases text.len() - st.pos,
{
    if st.pos >= text.len() {
    } else if text[st.pos] == '"' {
    } else if text[st.pos] == '\\' {
        let st1 = advance1(text, st);
        if st1.pos < text.len() && (text[st1.pos] == '"' || text[st1.pos] == '\\' || text[st1.pos]
            == 'n') {
            lemma_scan_string_bounds(text, advance1(text, st1));
        }
    } else {
        lemma_scan_string_bounds(text, advance1(text, st));
    }
}

/// One tokenizer step stays inside the text; it consumes at least one
/// character whenever it produces a token or an error, and it stops exactly
/// at the end of the text when it produces nothing.
pub proof fn lemma_token_step_bounds(text: Seq<char>, st: TokState)
    requires
        st_wf(text, st),
    ensures
        ({
            let (out, st2) = spec_token_step(text, st);
            &&& st_wf(text, st2)
            &&& st2.pos >= st.pos
            &&& out is Some ==> st2.pos > st.pos
            &&& out is None ==> st2.pos == text.len()
        }),
{
    lemma_skip_ws_bounds(text, st);
    let st1 = spec_skip_ws(text, st);
    if st1.pos < text.len() {
        let c = text[st1.pos];
        if alphabetic(c) {
            lemma_ident_end_bounds(text, st1.pos + 1);
            assert(ident_end(text, st1.pos) == ident_end(text, st1.pos + 1));
            lemma_advance_n_bounds(text, st1, (ident_end(text, st1.pos) - st1.pos) as nat);
        } else if numeric(c) {
            lemma_number_end_bounds(text, st1.pos + 1);
            assert(number_end(text, st1.pos) == number_end(text, st1.pos + 1));
            lemma_advance_n_bounds(text, st1, (number_end(text, st1.pos) - st1.pos) as nat);
        } else if c == '"' {
            lemma_scan_string_bounds(text, advance1(text, st1));
        }
    }
}

pub(crate) fn chars_vec(s: &str) -> (v: Vec<char>)
    ensures
        v@ == s@,
{
    broadcast use vstd::string::next_postcondition;
    broadcast use vstd::string::axiom_spec_iter;

    let mut v: Vec<char> = Vec::new();
    let mut it = s.chars();
    proof {
        assert(Seq::<char>::empty() + s@ =~= s@);
    }
    loop
        invariant_except_break
            v@ + vstd::std_specs::iter::IteratorSpec::remaining(&it) == s@,
            vstd::std_specs::iter::IteratorSpec::decrease(&it) is Some,
        ensures
            v@ == s@,
        decreases vstd::std_specs::iter::IteratorSpec::decrease(&it)->0,
    {
        let ghost v0 = v@;
        let ghost rem0 = vstd::std_specs::iter::IteratorSpec::remaining(&it);
        match it.next() {
            Some(c) => {
                v.push(c);
                proof {
                    assert(v0.push(c) + rem0.drop_first() =~= v0 + rem0);
                }
            },
            None => {
                proof {
                    assert(v@ + rem0 =~= v@);
                }
                break ;
            },
        }
    }
    v
}

} // verus!
