use maaray::lexer::{Lexem, LexemKind, Lexer};
use maaray::tokenizer::{Tokenizer, TokenizerErrorKind};

fn all_lexems(source: &str) -> Vec<Lexem> {
    let mut lexer = Lexer::new(Tokenizer::new(source));
    let mut out = Vec::new();
    while let Some(item) = lexer.lex() {
        out.push(item.expect("lexer error"));
    }
    out
}

#[test]
fn number_lexem_strips_apostrophes() {
    let lexems = all_lexems("1'000'000");
    assert_eq!(lexems.len(), 1);
    assert_eq!(lexems[0].token(), &LexemKind::Number(String::from("1000000")));
}

#[test]
fn number_lexem_value_parses_as_decimal_float() {
    let lexems = all_lexems("1'000");
    let LexemKind::Number(digits) = lexems[0].token() else {
        panic!("expected a number");
    };
    let value: f64 = digits.parse().expect("digit text parses");
    assert_eq!(value, 1000.0);
}

#[test]
fn plain_number_lexem_keeps_its_digits() {
    let lexems = all_lexems("5");
    assert_eq!(lexems[0].token(), &LexemKind::Number(String::from("5")));
}

#[test]
fn punctuation_maps_through_the_fixed_table() {
    let lexems = all_lexems("(){}.,:;=|&<>/*-+");
    let kinds: Vec<&LexemKind> = lexems.iter().map(|l| l.token()).collect();
    assert_eq!(
        kinds,
        vec![
            &LexemKind::LParen,
            &LexemKind::RParen,
            &LexemKind::LBrace,
            &LexemKind::RBrace,
            &LexemKind::Dot,
            &LexemKind::Comma,
            &LexemKind::Colon,
            &LexemKind::Semicolon,
            &LexemKind::Equals,
            &LexemKind::Or,
            &LexemKind::And,
            &LexemKind::Less,
            &LexemKind::Greater,
            &LexemKind::Slash,
            &LexemKind::Asterisk,
            &LexemKind::Minus,
            &LexemKind::Plus,
        ]
    );
}

#[test]
fn whitespace_and_newlines_never_become_lexems() {
    let lexems = all_lexems("a b\nc");
    let kinds: Vec<&LexemKind> = lexems.iter().map(|l| l.token()).collect();
    assert_eq!(
        kinds,
        vec![
            &LexemKind::Ident(String::from("a")),
            &LexemKind::Ident(String::from("b")),
            &LexemKind::Ident(String::from("c")),
        ]
    );
}

#[test]
fn string_literal_passes_through_decoded() {
    let lexems = all_lexems("\"a\\\"b\\\\c\\nd\"");
    assert_eq!(lexems[0].token(), &LexemKind::StringLiteral(String::from("a\"b\\c\nd")));
}

#[test]
fn unsupported_symbol_is_an_error() {
    let mut lexer = Lexer::new(Tokenizer::new("#"));
    let item = lexer.lex().expect("one item").expect_err("must be an error");
    assert_eq!(item.kind(), TokenizerErrorKind::UnsupportedCharacter('#'));
    assert_eq!(item.line(), 1);
    assert_eq!(item.column(), 2);
}

#[test]
fn tokenizer_errors_pass_through() {
    let mut lexer = Lexer::new(Tokenizer::new("\"oops"));
    let item = lexer.lex().expect("one item").expect_err("must be an error");
    assert_eq!(item.kind(), TokenizerErrorKind::UnterminatedString);
}

#[test]
fn lexem_accessors_report_kind_and_position() {
    let lexems = all_lexems("abc");
    let l = &lexems[0];
    assert_eq!(l.line(), 1);
    assert_eq!(l.column(), 4);
    assert!(l.is_ident());
    assert!(l.is_ident_equals("abc"));
    assert!(!l.is_ident_equals("abd"));
    assert_eq!(l.ident(), Some(&String::from("abc")));

    let punct = all_lexems(";");
    assert!(!punct[0].is_ident());
    assert!(!punct[0].is_ident_equals("abc"));
    assert_eq!(punct[0].ident(), None);
}
