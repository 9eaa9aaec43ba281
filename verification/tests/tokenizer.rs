use maaray::tokenizer::{Token, TokenKind, Tokenizer, TokenizerErrorKind};

fn all_tokens(source: &str) -> Vec<Token> {
    let mut t = Tokenizer::new(source);
    let mut out = Vec::new();
    while let Some(item) = t.next() {
        out.push(item.expect("tokenizer error"));
    }
    out
}

#[test]
fn letters_make_one_identifier_token() {
    let tokens = all_tokens("abc");
    assert_eq!(
        tokens,
        vec![Token { line: 1, column: 4, kind: TokenKind::Ident(String::from("abc")) }]
    );
}

#[test]
fn unicode_letters_make_one_identifier_token() {
    let tokens = all_tokens("h\u{e9}llo");
    assert_eq!(tokens.len(), 1);
    assert_eq!(tokens[0].kind, TokenKind::Ident(String::from("h\u{e9}llo")));
}

#[test]
fn identifier_runs_take_digits_and_underscores() {
    let tokens = all_tokens("a1_b2");
    assert_eq!(tokens.len(), 1);
    assert_eq!(tokens[0].kind, TokenKind::Ident(String::from("a1_b2")));
}

#[test]
fn spaces_and_tabs_are_skipped() {
    let tokens = all_tokens(" \ta");
    assert_eq!(
        tokens,
        vec![Token { line: 1, column: 4, kind: TokenKind::Ident(String::from("a")) }]
    );
}

#[test]
fn unicode_whitespace_is_skipped() {
    let tokens = all_tokens("\u{a0}a");
    assert_eq!(tokens.len(), 1);
    assert_eq!(tokens[0].kind, TokenKind::Ident(String::from("a")));
}

#[test]
fn newline_stays_as_a_symbol_token_and_tracks_lines() {
    let tokens = all_tokens("a\nb");
    assert_eq!(
        tokens,
        vec![
            Token { line: 1, column: 2, kind: TokenKind::Ident(String::from("a")) },
            Token { line: 2, column: 1, kind: TokenKind::Symbol('\n') },
            Token { line: 2, column: 2, kind: TokenKind::Ident(String::from("b")) },
        ]
    );
}

#[test]
fn number_token_keeps_raw_text_with_apostrophes() {
    let tokens = all_tokens("1'000");
    assert_eq!(tokens.len(), 1);
    assert_eq!(tokens[0].kind, TokenKind::Number(String::from("1'000")));
}

#[test]
fn symbol_token_for_punctuation() {
    let tokens = all_tokens("(");
    assert_eq!(tokens, vec![Token { line: 1, column: 2, kind: TokenKind::Symbol('(') }]);
}

#[test]
fn string_literal_decodes_escapes() {
    // "a\"b\\c\nd" with a quote, a backslash, and an escaped newline
    let tokens = all_tokens("\"a\\\"b\\\\c\\nd\"");
    assert_eq!(tokens.len(), 1);
    assert_eq!(tokens[0].kind, TokenKind::StringLiteral(String::from("a\"b\\c\nd")));
}

#[test]
fn unterminated_string_is_reported() {
    let mut t = Tokenizer::new("\"abc");
    let item = t.next().expect("one item").expect_err("must be an error");
    assert_eq!(item.kind(), TokenizerErrorKind::UnterminatedString);
    assert_eq!(item.line(), 1);
    assert_eq!(item.column(), 5);
}

#[test]
fn invalid_escape_is_reported() {
    let mut t = Tokenizer::new("\"a\\q\"");
    let item = t.next().expect("one item").expect_err("must be an error");
    assert_eq!(item.kind(), TokenizerErrorKind::InvalidEscapeSequence);
    assert_eq!(item.line(), 1);
    assert_eq!(item.column(), 4);
}

#[test]
fn mixed_source_tokens_in_order() {
    let tokens = all_tokens("let x = 5;");
    let kinds: Vec<&TokenKind> = tokens.iter().map(|t| &t.kind).collect();
    assert_eq!(
        kinds,
        vec![
            &TokenKind::Ident(String::from("let")),
            &TokenKind::Ident(String::from("x")),
            &TokenKind::Symbol('='),
            &TokenKind::Number(String::from("5")),
            &TokenKind::Symbol(';'),
        ]
    );
}
