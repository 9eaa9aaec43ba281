use maaray::ast::Node;
use maaray::parser::ParseErrorKind;
use maaray::pipeline::{parse_to_ast, PipelineError};
use maaray::tokenizer::TokenizerErrorKind;

fn parsed(source: &str) -> Node {
    parse_to_ast(source).expect("source must parse")
}

#[test]
fn function_definition_with_arguments_and_return() {
    let ast = parsed("func add(a, b) { return a + b; }");
    let expected = Node::Function {
        name: String::from("add"),
        arguments: vec![Node::Ident(String::from("a")), Node::Ident(String::from("b"))],
        code: Box::new(Node::Return(Box::new(Node::Add(
            Box::new(Node::Ident(String::from("a"))),
            Box::new(Node::Ident(String::from("b"))),
        )))),
    };
    assert_eq!(ast, expected);
}

#[test]
fn let_declaration_yields_assignment() {
    let ast = parsed("let x = 5;");
    let expected = Node::Assignment {
        name: String::from("x"),
        value: Box::new(Node::Number(String::from("5"))),
    };
    assert_eq!(ast, expected);
    let Node::Assignment { value, .. } = ast else {
        panic!("expected an assignment");
    };
    let Node::Number(digits) = *value else {
        panic!("expected a number value");
    };
    assert_eq!(digits.parse::<f64>().expect("digit text parses"), 5.0);
}

#[test]
fn if_with_call_body_and_empty_alternative() {
    let ast = parsed("if cond { foo(); }");
    let expected = Node::If {
        condition: Box::new(Node::Ident(String::from("cond"))),
        alternative: Box::new(Node::Program(Vec::new())),
        block: Box::new(Node::Call {
            callee: Box::new(Node::Ident(String::from("foo"))),
            arguments: Vec::new(),
        }),
    };
    assert_eq!(ast, expected);
}

#[test]
fn empty_source_is_an_empty_program() {
    assert_eq!(parsed(""), Node::Program(Vec::new()));
}

#[test]
fn two_statements_wrap_in_a_program() {
    let ast = parsed("let a = 1; let b = 2;");
    let expected = Node::Program(vec![
        Node::Assignment {
            name: String::from("a"),
            value: Box::new(Node::Number(String::from("1"))),
        },
        Node::Assignment {
            name: String::from("b"),
            value: Box::new(Node::Number(String::from("2"))),
        },
    ]);
    assert_eq!(ast, expected);
}

#[test]
fn call_with_arguments() {
    let ast = parsed("f(1, 2)");
    let expected = Node::Call {
        callee: Box::new(Node::Ident(String::from("f"))),
        arguments: vec![
            Node::Number(String::from("1")),
            Node::Number(String::from("2")),
        ],
    };
    assert_eq!(ast, expected);
}

#[test]
fn trailing_comma_in_arguments_is_tolerated() {
    let ast = parsed("f(1,)");
    let expected = Node::Call {
        callee: Box::new(Node::Ident(String::from("f"))),
        arguments: vec![Node::Number(String::from("1"))],
    };
    assert_eq!(ast, expected);
}

#[test]
fn dotted_access_is_right_associative() {
    let ast = parsed("a.b.c");
    let expected = Node::AttributeResolve {
        parent: Box::new(Node::Ident(String::from("a"))),
        value: Box::new(Node::AttributeResolve {
            parent: Box::new(Node::Ident(String::from("b"))),
            value: Box::new(Node::Ident(String::from("c"))),
        }),
    };
    assert_eq!(ast, expected);
}

#[test]
fn double_equals_makes_an_equality_node() {
    let ast = parsed("a == b");
    let expected = Node::Equals(
        Box::new(Node::Ident(String::from("a"))),
        Box::new(Node::Ident(String::from("b"))),
    );
    assert_eq!(ast, expected);
}

#[test]
fn plus_minus_and_double_or_suffixes() {
    assert_eq!(
        parsed("a + b"),
        Node::Add(
            Box::new(Node::Ident(String::from("a"))),
            Box::new(Node::Ident(String::from("b"))),
        )
    );
    assert_eq!(
        parsed("a - b"),
        Node::Subtract(
            Box::new(Node::Ident(String::from("a"))),
            Box::new(Node::Ident(String::from("b"))),
        )
    );
    assert_eq!(
        parsed("a || b"),
        Node::Or(
            Box::new(Node::Ident(String::from("a"))),
            Box::new(Node::Ident(String::from("b"))),
        )
    );
}

#[test]
fn string_literal_statement() {
    assert_eq!(parsed("\"hi\""), Node::String(String::from("hi")));
}

#[test]
fn semicolons_separate_expression_statements() {
    let ast = parsed("foo(); bar();");
    let expected = Node::Program(vec![
        Node::Call {
            callee: Box::new(Node::Ident(String::from("foo"))),
            arguments: Vec::new(),
        },
        Node::Call {
            callee: Box::new(Node::Ident(String::from("bar"))),
            arguments: Vec::new(),
        },
    ]);
    assert_eq!(ast, expected);
}

#[test]
fn multi_statement_block_stays_a_program() {
    let ast = parsed("{ let x = 1; let y = 2; }");
    let expected = Node::Program(vec![
        Node::Assignment {
            name: String::from("x"),
            value: Box::new(Node::Number(String::from("1"))),
        },
        Node::Assignment {
            name: String::from("y"),
            value: Box::new(Node::Number(String::from("2"))),
        },
    ]);
    assert_eq!(ast, expected);
}

#[test]
fn grouped_number_in_declaration() {
    let ast = parsed("let x = 1'000;");
    let expected = Node::Assignment {
        name: String::from("x"),
        value: Box::new(Node::Number(String::from("1000"))),
    };
    assert_eq!(ast, expected);
}

#[test]
fn unexpected_token_is_a_parse_error() {
    let err = parse_to_ast(":").expect_err("must fail");
    let PipelineError::Parse(e) = err else {
        panic!("expected a parse error");
    };
    assert_eq!(e.line, 1);
    assert_eq!(e.column, 2);
    assert!(matches!(e.kind, ParseErrorKind::UnexpectedToken(_)));
}

#[test]
fn func_without_name_is_unexpected_end() {
    let err = parse_to_ast("func").expect_err("must fail");
    let PipelineError::Parse(e) = err else {
        panic!("expected a parse error");
    };
    assert!(matches!(e.kind, ParseErrorKind::UnexpectedEndOfInput));
}

#[test]
fn single_equals_in_expression_is_an_error() {
    let err = parse_to_ast("a = 1").expect_err("must fail");
    assert!(matches!(err, PipelineError::Parse(_)));
}

#[test]
fn tokenizer_error_surfaces_from_the_pipeline() {
    let err = parse_to_ast("let s = \"oops").expect_err("must fail");
    let PipelineError::Tokenize(e) = err else {
        panic!("expected a tokenizer error");
    };
    assert_eq!(e.kind(), TokenizerErrorKind::UnterminatedString);
}

#[test]
fn empty_block_is_an_empty_program() {
    assert_eq!(parsed("{}"), Node::Program(Vec::new()));
}

#[test]
fn function_with_condition_and_nested_calls() {
    let source = "func fib(n) { if n == 0 { return 0; } return fib(n - 1) + fib(n - 2); }";
    let ident = |s: &str| Node::Ident(String::from(s));
    let number = |s: &str| Node::Number(String::from(s));
    let expected = Node::Function {
        name: String::from("fib"),
        arguments: vec![ident("n")],
        code: Box::new(Node::Program(vec![
            Node::If {
                condition: Box::new(Node::Equals(
                    Box::new(ident("n")),
                    Box::new(number("0")),
                )),
                alternative: Box::new(Node::Program(Vec::new())),
                block: Box::new(Node::Return(Box::new(number("0")))),
            },
            Node::Return(Box::new(Node::Add(
                Box::new(Node::Call {
                    callee: Box::new(ident("fib")),
                    arguments: vec![Node::Subtract(
                        Box::new(ident("n")),
                        Box::new(number("1")),
                    )],
                }),
                Box::new(Node::Call {
                    callee: Box::new(ident("fib")),
                    arguments: vec![Node::Subtract(
                        Box::new(ident("n")),
                        Box::new(number("2")),
                    )],
                }),
            ))),
        ])),
    };
    assert_eq!(parsed(source), expected);
}

#[test]
fn node_ident_accessor() {
    let node = Node::Ident(String::from("x"));
    assert_eq!(node.ident(), Some(&String::from("x")));
    assert_eq!(Node::Number(String::from("1")).ident(), None);
}
