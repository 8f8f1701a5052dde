//! The lexer and parser from outside: token streams, spans, lines, the
//! parser's error taxonomy, and the hoisting passes.

use tonic::ast::Statement;
use tonic::parser::{Parser, ParserErrorType};
use tonic::token::TokenKind;

#[test]
fn lexes_kinds_and_payloads() {
    let toks = tonic::lex("let x1 = 42; \"hi\" == <= < ! fn");
    let kinds: Vec<TokenKind> = toks.into_iter().map(|t| t.kind).collect();
    assert_eq!(
        kinds,
        vec![
            TokenKind::Let,
            TokenKind::Identifier("x1".to_string()),
            TokenKind::Equals,
            TokenKind::Number(42),
            TokenKind::Semicolon,
            TokenKind::String("hi".to_string()),
            TokenKind::EqualsEquals,
            TokenKind::LessThanEquals,
            TokenKind::LessThan,
            TokenKind::Unknown('!'),
            TokenKind::Fn,
        ]
    );
}

#[test]
fn spans_partition_the_input() {
    let src = "let a = 1;\nwhile a { a = a - 1; }";
    let toks = tonic::lex(src);
    let bytes: Vec<char> = src.chars().collect();
    let mut at = 0usize;
    for t in toks.iter() {
        assert!(t.span.0 >= at);
        for k in at..t.span.0 {
            assert!(bytes[k].is_whitespace());
        }
        assert!(t.span.0 < t.span.1 && t.span.1 <= bytes.len());
        at = t.span.1;
    }
    for k in at..bytes.len() {
        assert!(bytes[k].is_whitespace());
    }
}

#[test]
fn lines_are_non_decreasing() {
    let toks = tonic::lex("a\nb\n\nc d\ne");
    let mut last = 0usize;
    for t in toks.iter() {
        assert!(t.line >= last);
        last = t.line;
    }
    assert_eq!(last, 5);
}

#[test]
fn parses_let_with_type() {
    let prog = tonic::parser::parse("let x: number = 1;").unwrap();
    assert_eq!(prog.len(), 1);
    assert!(matches!(prog[0], Statement::Let { .. }));
}

#[test]
fn rejects_nested_function() {
    let err = tonic::parser::parse("fn f() { fn g() { } }").unwrap_err();
    assert!(matches!(err.err, ParserErrorType::NestedFunctionDefinition));
}

#[test]
fn rejects_break_outside_loop() {
    let err = tonic::parser::parse("break;").unwrap_err();
    assert!(matches!(err.err, ParserErrorType::InvalidBreakableScope));
}

#[test]
fn rejects_continue_outside_loop() {
    let err = tonic::parser::parse("if 1 == 1 { continue; }").unwrap_err();
    assert!(matches!(err.err, ParserErrorType::InvalidContinuableScope));
}

#[test]
fn rejects_missing_identifier() {
    let err = tonic::parser::parse("let = 1;").unwrap_err();
    assert!(matches!(err.err, ParserErrorType::ExpectedIdentifier));
}

#[test]
fn rejects_unexpected_token_with_span_in_bounds() {
    let src = "let x = ;";
    let err = tonic::parser::parse(src).unwrap_err();
    assert!(matches!(err.err, ParserErrorType::UnexpectedToken(..)));
    assert!(err.span.0 <= err.span.1 && err.span.1 <= src.chars().count());
}

#[test]
fn rejects_unknown_character() {
    let src = "let x = 1 ? 2;";
    let err = tonic::parser::parse(src).unwrap_err();
    assert!(matches!(
        err.err,
        ParserErrorType::UnexpectedToken(TokenKind::Unknown('?'), _)
    ));
}

#[test]
fn parser_type_gives_one_error() {
    let lexer = tonic::lexer::Lexer::new("let 1 = x;");
    let parser = Parser::new(lexer);
    assert!(parser.parse().is_err());
}

#[test]
fn pass_hoists_functions_then_imports() {
    let mut prog = tonic::parser::parse(
        "let a = 1; fn f() { return 1; } use \"@std/fs\"; fn g() { return 2; } let b = 2;",
    )
    .unwrap();
    tonic::passes::pass(&mut prog);
    // Imports first, then functions in their original order, then the rest.
    assert!(matches!(prog[0], Statement::Use { .. }));
    match (&prog[1], &prog[2]) {
        (
            Statement::Function { identifier: f1, .. },
            Statement::Function { identifier: f2, .. },
        ) => {
            assert_eq!(f1, "f");
            assert_eq!(f2, "g");
        },
        _ => panic!("functions should follow the imports"),
    }
    assert!(matches!(prog[3], Statement::Let { .. }));
    assert!(matches!(prog[4], Statement::Let { .. }));
}

#[test]
fn hoisting_is_idempotent_here() {
    let src = "let a = 1; fn f() { return 1; } use \"m\"; let b = 2;";
    let mut once = tonic::parser::parse(src).unwrap();
    tonic::passes::pass(&mut once);
    let mut twice = tonic::parser::parse(src).unwrap();
    tonic::passes::pass(&mut twice);
    tonic::passes::pass(&mut twice);
    assert_eq!(once, twice);
}

#[test]
fn type_names() {
    assert!(tonic::ast::Type::valid("string"));
    assert!(tonic::ast::Type::valid("bool"));
    assert!(tonic::ast::Type::valid("number"));
    assert!(!tonic::ast::Type::valid("float"));
    assert!(matches!(
        tonic::ast::Type::string("bool".to_string()),
        tonic::ast::Type::Bool
    ));
}

#[test]
fn op_math_classification() {
    assert!(tonic::ast::Op::Add.math());
    assert!(tonic::ast::Op::Divide.math());
    assert!(!tonic::ast::Op::Equals.math());
    assert!(!tonic::ast::Op::Assign.math());
}

#[test]
fn number_literal_too_large_is_rejected() {
    let src = "let x = 99999999999999999999;";
    let err = tonic::parser::parse(src).unwrap_err();
    assert!(matches!(
        err.err,
        ParserErrorType::UnexpectedToken(TokenKind::Unknown(_), _)
    ));
}
