//! General properties of the front end, proved once and for all inputs.

use crate::chars::{alphabetic, alphanumeric, ascii_digit, numeric, whitespace};
use crate::lexer::{spec_lex_step, strip_apostrophes, LexemKindV};
use crate::tokenizer::{
    advance1, advance_n, ident_end, number_char, number_end, spec_scan_string, spec_skip_ws,
    spec_token_step, start_state, word_char, TokState, TokenKindV, TokenizerErrorKind,
};
use vstd::prelude::*;

verus! {

/// Advancing over `n` available characters moves the position forward by
/// exactly `n`.
proof fn lemma_advance_n_pos(text: Seq<char>, st: TokState, n: nat)
    requires
        0 <= st.pos,
        st.pos + n <= text.len(),
    ensures
        advance_n(text, st, n).pos == st.pos + n,
    decreases n,
{
    if n > 0 {
        lemma_advance_n_pos(text, st, (n - 1) as nat);
    }
}

/// Advancing `n` characters is one step and then `n - 1` more.
proof fn lemma_advance_n_shift(text: Seq<char>, st: TokState, n: nat)
    requires
        n >= 1,
    ensures
        advance_n(text, st, n) == advance_n(text, advance1(text, st), (n - 1) as nat),
    decreases n,
{
    let st1 = advance1(text, st);
    if n == 1 {
        assert(advance_n(text, st, 1) == advance1(text, advance_n(text, st, 0)));
        assert(advance_n(text, st, 0) == st);
        assert(advance_n(text, st1, 0) == st1);
    } else {
        lemma_advance_n_shift(text, st, (n - 1) as nat);
        assert(advance_n(text, st, n) == advance1(text, advance_n(text, st, (n - 1) as nat)));
        assert(advance_n(text, st1, (n - 1) as nat) == advance1(
            text,
            advance_n(text, st1, (n - 2) as nat),
        ));
    }
}

/// A run of identifier characters reaching the end of the text scans to
/// the end of the text.
proof fn lemma_word_run(text: Seq<char>, pos: int)
    requires
        0 <= pos <= text.len(),
        forall|i: int| pos <= i < text.len() ==> word_char(text[i]),
    ensures
        ident_end(text, pos) == text.len(),
    decreases text.len() - pos,
{
    if pos < text.len() {
        lemma_word_run(text, pos + 1);
    }
}

/// A run of number characters reaching the end of the text scans to the
/// end of the text.
proof fn lemma_number_run(text: Seq<char>, pos: int)
    requires
        0 <= pos <= text.len(),
        forall|i: int| pos <= i < text.len() ==> number_char(text[i]),
    ensures
        number_end(text, pos) == text.len(),
    decreases text.len() - pos,
{
    if pos < text.len() {
        lemma_number_run(text, pos + 1);
    }
}

/// For all input texts consisting solely of letters, the tokenizer yields
/// exactly one identifier token spanning the whole text: the token's text
/// is the input itself, the step ends at the end of the input, and the
/// next step yields nothing.
pub proof fn lemma_letters_single_ident(text: Seq<char>)
    requires
        text.len() > 0,
        forall|i: int| 0 <= i < text.len() ==> alphabetic(text[i]),
    ensures
        ({
            let (out, st2) = spec_token_step(text, start_state());
            &&& out matches Some(res) && res matches Ok(t) && t.kind == TokenKindV::Ident(text)
            &&& st2.pos == text.len()
            &&& spec_token_step(text, st2).0 is None
        }),
{
    let st0 = start_state();
    assert(!whitespace(text[0]));
    assert(spec_skip_ws(text, st0) == st0);
    assert forall|i: int| 0 <= i < text.len() implies word_char(text[i]) by {
        assert(alphabetic(text[i]));
    }
    lemma_word_run(text, 0);
    lemma_advance_n_pos(text, st0, text.len());
    let st2 = advance_n(text, st0, (ident_end(text, 0) - 0) as nat);
    assert(text.subrange(0, text.len() as int) =~= text);
    assert(spec_skip_ws(text, st2) == st2);
}

/// For all input texts in number syntax, a digit followed by digits and
/// apostrophe group separators, the lexer yields exactly one number item
/// whose digit text is the input with the apostrophes removed.
pub proof fn lemma_number_single_lexem(text: Seq<char>)
    requires
        text.len() > 0,
        ascii_digit(text[0]),
        forall|i: int| 0 <= i < text.len() ==> ascii_digit(text[i]) || text[i] == '\'',
    ensures
        ({
            let (out, st2) = spec_lex_step(text, start_state());
            &&& out matches Some(res) && res matches Ok(l) && l.kind == LexemKindV::Number(
                strip_apostrophes(text),
            )
            &&& st2.pos == text.len()
            &&& spec_lex_step(text, st2).0 is None
        }),
{
    let st0 = start_state();
    assert(!whitespace(text[0]));
    assert(!alphabetic(text[0]));
    assert(numeric(text[0]));
    assert(spec_skip_ws(text, st0) == st0);
    assert forall|i: int| 0 <= i < text.len() implies number_char(text[i]) by {
        if text[i] != '\'' {
            assert(ascii_digit(text[i]));
            assert(numeric(text[i]));
        }
    }
    lemma_number_run(text, 0);
    lemma_advance_n_pos(text, st0, text.len());
    let st2 = advance_n(text, st0, (number_end(text, 0) - 0) as nat);
    assert(text.subrange(0, text.len() as int) =~= text);
    assert(spec_skip_ws(text, st2) == st2);
}

/// Scanning a string body past characters that are neither a quote nor a
/// backslash accumulates exactly those characters.
proof fn lemma_scan_past_plain(text: Seq<char>, st: TokState, j: int)
    requires
        0 <= st.pos <= j <= text.len(),
        forall|i: int| st.pos <= i < j ==> text[i] != '"' && text[i] != '\\',
    ensures
        ({
            let stj = advance_n(text, st, (j - st.pos) as nat);
            let (r2, se) = spec_scan_string(text, stj);
            &&& stj.pos == j
            &&& match r2 {
                Ok(s2) => spec_scan_string(text, st) == (
                    Ok::<Seq<char>, crate::tokenizer::TokenizerErrorV>(
                        text.subrange(st.pos, j) + s2,
                    ),
                    se,
                ),
                Err(e) => spec_scan_string(text, st) == (
                    Err::<Seq<char>, crate::tokenizer::TokenizerErrorV>(e),
                    se,
                ),
            }
        }),
    decreases j - st.pos,
{
    lemma_advance_n_pos(text, st, (j - st.pos) as nat);
    if st.pos == j {
        let stj = advance_n(text, st, 0);
        let (r2, se) = spec_scan_string(text, stj);
        match r2 {
            Ok(s2) => {
                assert(text.subrange(st.pos, j) + s2 =~= s2);
            },
            Err(e) => {},
        }
    } else {
        let st1 = advance1(text, st);
        lemma_advance_n_shift(text, st, (j - st.pos) as nat);
        lemma_scan_past_plain(text, st1, j);
        let stj = advance_n(text, st, (j - st.pos) as nat);
        let (r2, se) = spec_scan_string(text, stj);
        match r2 {
            Ok(s2) => {
                assert(seq![text[st.pos]] + (text.subrange(st1.pos, j) + s2) =~= text.subrange(
                    st.pos,
                    j,
                ) + s2);
            },
            Err(e) => {},
        }
    }
}

/// A string literal whose body holds neither a quote nor a backslash
/// tokenizes to a string-literal token carrying exactly that body.
pub proof fn lemma_string_literal_token(text: Seq<char>, k: int)
    requires
        0 <= k,
        k + 2 <= text.len(),
        text[0] == '"',
        text[k + 1] == '"',
        forall|i: int| 1 <= i <= k ==> text[i] != '"' && text[i] != '\\',
    ensures
        ({
            let (out, st2) = spec_token_step(text, start_state());
            &&& out matches Some(res) && res matches Ok(t) && t.kind == TokenKindV::StringLiteral(
                text.subrange(1, k + 1),
            )
            &&& st2.pos == k + 2
        }),
{
    let st0 = start_state();
    assert(!whitespace(text[0]));
    assert(!alphabetic(text[0]));
    assert(!numeric(text[0]));
    assert(spec_skip_ws(text, st0) == st0);
    let st1 = advance1(text, st0);
    lemma_scan_past_plain(text, st1, k + 1);
    let stj = advance_n(text, st1, (k + 1 - st1.pos) as nat);
    let (r2, se) = spec_scan_string(text, stj);
    assert(text.subrange(1, k + 1) + Seq::<char>::empty() =~= text.subrange(1, k + 1));
}

/// A string literal that reaches the end of the input before a closing
/// quote, its body holding neither a quote nor a backslash, yields an
/// unterminated-string error.
pub proof fn lemma_unterminated_string(text: Seq<char>)
    requires
        text.len() >= 1,
        text[0] == '"',
        forall|i: int| 1 <= i < text.len() ==> text[i] != '"' && text[i] != '\\',
    ensures
        ({
            let (out, st2) = spec_token_step(text, start_state());
            out matches Some(res) && res matches Err(e) && e.kind
                == TokenizerErrorKind::UnterminatedString
        }),
{
    let st0 = start_state();
    assert(!whitespace(text[0]));
    assert(!alphabetic(text[0]));
    assert(!numeric(text[0]));
    assert(spec_skip_ws(text, st0) == st0);
    let st1 = advance1(text, st0);
    lemma_scan_past_plain(text, st1, text.len() as int);
}

/// A string literal whose first escape is not one of `\"`, `\\`, `\n`,
/// everything before the backslash being neither a quote nor a backslash,
/// yields an invalid-escape error.
pub proof fn lemma_invalid_escape(text: Seq<char>, j: int)
    requires
        1 <= j < text.len(),
        text[0] == '"',
        text[j] == '\\',
        forall|i: int| 1 <= i < j ==> text[i] != '"' && text[i] != '\\',
        j + 1 < text.len() ==> text[j + 1] != '"' && text[j + 1] != '\\' && text[j + 1] != 'n',
    ensures
        ({
            let (out, st2) = spec_token_step(text, start_state());
            out matches Some(res) && res matches Err(e) && e.kind
                == TokenizerErrorKind::InvalidEscapeSequence
        }),
{
    let st0 = start_state();
    assert(!whitespace(text[0]));
    assert(!alphabetic(text[0]));
    assert(!numeric(text[0]));
    assert(spec_skip_ws(text, st0) == st0);
    let st1 = advance1(text, st0);
    lemma_scan_past_plain(text, st1, j);
}

} // verus!
