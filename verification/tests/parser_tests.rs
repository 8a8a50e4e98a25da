use rlisp::ast::Expr;
use rlisp::lexer::TokenTag;
use rlisp::parser::{Parser, ParserError};

fn parse_source(code: &str) -> Result<rlisp::ast::Program, ParserError> {
    let mut parser = Parser::new(code);
    parser.init().expect("lexing the first token failed");
    parser.parse()
}

#[test]
fn define_parses_to_one_define_expr() {
    let program = parse_source("(define a 12)").expect("parsing failed");
    assert_eq!(program.exprs.len(), 1);
    match &*program.exprs[0] {
        Expr::Define(d) => {
            assert_eq!(d.identifier.name, "a");
            assert_eq!(d.identifier.location.offset, 8);
            match &*d.value {
                Expr::Integer(i) => assert_eq!(i.value, 12),
                other => panic!("expected an integer literal, got {:?}", other),
            }
            assert_eq!(d.location.offset, 0);
            assert_eq!(d.location.row, 1);
            assert_eq!(d.location.col, 1);
        },
        other => panic!("expected a definition, got {:?}", other),
    }
    assert_eq!(program.location.offset, 0);
}

#[test]
fn call_parses_with_two_parameters() {
    let program = parse_source("(foo 1 2)").expect("parsing failed");
    assert_eq!(program.exprs.len(), 1);
    match &*program.exprs[0] {
        Expr::Call(c) => {
            match &*c.function {
                Expr::Identifier(id) => assert_eq!(id.name, "foo"),
                other => panic!("expected an identifier callee, got {:?}", other),
            }
            assert_eq!(c.parameters.len(), 2);
            match &*c.parameters[0] {
                Expr::Integer(i) => assert_eq!(i.value, 1),
                other => panic!("expected an integer, got {:?}", other),
            }
            match &*c.parameters[1] {
                Expr::Integer(i) => assert_eq!(i.value, 2),
                other => panic!("expected an integer, got {:?}", other),
            }
            assert_eq!(c.location.offset, 0);
        },
        other => panic!("expected a call, got {:?}", other),
    }
}

#[test]
fn nested_calls_and_literals_parse() {
    let program = parse_source("(f (g 1) \"s\")").expect("parsing failed");
    match &*program.exprs[0] {
        Expr::Call(c) => {
            assert_eq!(c.parameters.len(), 2);
            match &*c.parameters[0] {
                Expr::Call(inner) => {
                    match &*inner.function {
                        Expr::Identifier(id) => assert_eq!(id.name, "g"),
                        other => panic!("expected an identifier, got {:?}", other),
                    }
                    assert_eq!(inner.parameters.len(), 1);
                },
                other => panic!("expected a nested call, got {:?}", other),
            }
            match &*c.parameters[1] {
                Expr::String(s) => assert_eq!(s.value, "s"),
                other => panic!("expected a string literal, got {:?}", other),
            }
        },
        other => panic!("expected a call, got {:?}", other),
    }
}

#[test]
fn empty_source_is_an_empty_program() {
    let program = parse_source("").expect("parsing failed");
    assert_eq!(program.exprs.len(), 0);
    assert_eq!(program.location.offset, -1);
    assert_eq!(program.location.row, 1);
    assert_eq!(program.location.col, 0);
}

#[test]
fn two_top_level_forms_parse_in_order() {
    let program = parse_source("(define a 1)(define b 2)").expect("parsing failed");
    assert_eq!(program.exprs.len(), 2);
    match (&*program.exprs[0], &*program.exprs[1]) {
        (Expr::Define(d1), Expr::Define(d2)) => {
            assert_eq!(d1.identifier.name, "a");
            assert_eq!(d2.identifier.name, "b");
        },
        other => panic!("expected two definitions, got {:?}", other),
    }
}

#[test]
fn stray_closing_paren_is_a_syntatic_error() {
    let err = parse_source(")").expect_err("a stray ) must fail");
    match err {
        ParserError::SyntaticError { location, message } => {
            assert_eq!(message, "unexpected token when parsing expression. ");
            assert_eq!(location.offset, 0);
        },
        other => panic!("expected a syntatic error, got {:?}", other),
    }
}

#[test]
fn literal_callee_is_a_syntatic_error() {
    let err = parse_source("(1 2)").expect_err("a literal callee must fail");
    match err {
        ParserError::SyntaticError { location, message } => {
            assert_eq!(message, "unexpected token when parsing call-like expression. ");
            assert_eq!(location.offset, 1);
        },
        other => panic!("expected a syntatic error, got {:?}", other),
    }
}

#[test]
fn unclosed_define_is_a_syntatic_error() {
    let err = parse_source("(define a 12").expect_err("a missing ) must fail");
    match err {
        ParserError::SyntaticError { message, .. } => {
            assert_eq!(message, "expecting ')' at the end of define expression ");
        },
        other => panic!("expected a syntatic error, got {:?}", other),
    }
}

#[test]
fn define_needs_an_identifier() {
    let err = parse_source("(define 1 2)").expect_err("a numeric name must fail");
    match err {
        ParserError::SyntaticError { message, .. } => {
            assert_eq!(message, "unexpected token when parsing identifier. ");
        },
        other => panic!("expected a syntatic error, got {:?}", other),
    }
}

#[test]
fn lexical_errors_are_wrapped() {
    let err = parse_source("(debug \"abc").expect_err("an unterminated string must fail");
    match err {
        ParserError::LexicalError(le) => {
            assert_eq!(le.message, "unexpected EOF when parsing string");
        },
        other => panic!("expected a wrapped lexical error, got {:?}", other),
    }
}

#[test]
fn lexical_error_on_first_token_fails_init() {
    let mut parser = Parser::new("\"abc");
    assert!(parser.init().is_err());
}

#[test]
fn next_token_advances_the_lookahead() {
    let mut parser = Parser::new("(a)");
    parser.init().expect("lexing the first token failed");
    let t0 = parser.cur_token();
    assert!(matches!(t0.tag, TokenTag::LParen));
    let t1 = parser.next_token().expect("lexing failed");
    assert!(matches!(&t1.tag, TokenTag::Identifier(s) if s == "a"));
    assert_eq!(parser.cur_token(), t1);
    let t2 = parser.next_token().expect("lexing failed");
    assert!(matches!(t2.tag, TokenTag::RParen));
}
