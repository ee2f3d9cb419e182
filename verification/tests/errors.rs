use env_function::func::EnvFunction;
use env_function::parser::error::{ErrorKind, ParseError};
use env_function::parser::parse_func;

fn err(input: &str) -> ParseError {
    parse_func(input).unwrap_err()
}

fn conversion(kind: ErrorKind) -> ParseError {
    ParseError { kind, line: 0, column: 0, snippet: String::new() }
}

#[test]
fn empty_input_is_unexpected_eof() {
    let e = err("");
    assert_eq!(e, ParseError { kind: ErrorKind::UnexpectedEof, line: 1, column: 1, snippet: String::new() });
    assert_eq!(e.message(), "error: 1|1: unexpected end of file");
    let e = err("  ; only a comment\n");
    assert_eq!((e.kind, e.line, e.column), (ErrorKind::UnexpectedEof, 2, 1));
}

#[test]
fn closing_paren_first_is_unexpected() {
    let e = err(")");
    assert_eq!(e.kind, ErrorKind::UnexpectedChar('?'));
    assert_eq!((e.line, e.column), (1, 2));
}

#[test]
fn unclosed_list_is_mismatched() {
    let e = err("(sin arg");
    assert_eq!(e.kind, ErrorKind::MismatchedParens);
    assert_eq!((e.line, e.column), (1, 9));
    assert_eq!(e.message(), "error: 1|9: mismatched parentheses");
    assert_eq!(err("(").kind, ErrorKind::MismatchedParens);
    assert_eq!(err("((sin arg)").kind, ErrorKind::MismatchedParens);
}

#[test]
fn unknown_symbols() {
    assert_eq!(err("foo"), conversion(ErrorKind::UnknownSymbol("foo".to_string())));
    assert_eq!(err("(bogus arg)"), conversion(ErrorKind::UnknownSymbol("bogus".to_string())));
    assert_eq!(err("(+ foo bar)"), conversion(ErrorKind::UnknownSymbol("foo".to_string())));
    assert_eq!(err("(1 2)"), conversion(ErrorKind::UnknownSymbol("<non-symbol>".to_string())));
    assert_eq!(err("((sin arg) 2)"), conversion(ErrorKind::UnknownSymbol("<non-symbol>".to_string())));
    assert_eq!(err("foo").message(), "error: 0|0: unknown symbol \"foo\"");
}

#[test]
fn empty_list_is_unexpected_eof() {
    assert_eq!(err("()"), conversion(ErrorKind::UnexpectedEof));
}

#[test]
fn wrong_arity() {
    let e = err("(sin)");
    assert_eq!(
        e,
        conversion(ErrorKind::WrongArity { symbol: "sin".to_string(), expected: 1, got: 0 })
    );
    assert_eq!(e.message(), "error: 0|0: \"sin\" expected 1 argument(s), got 0");
    assert_eq!(
        err("(sin arg arg)").kind,
        ErrorKind::WrongArity { symbol: "sin".to_string(), expected: 1, got: 2 }
    );
    assert_eq!(
        err("(linear arg 1)").kind,
        ErrorKind::WrongArity { symbol: "linear".to_string(), expected: 3, got: 2 }
    );
    assert_eq!(
        err("(+ arg)").kind,
        ErrorKind::WrongArity { symbol: "+".to_string(), expected: 2, got: 1 }
    );
    assert_eq!(
        err("(powi arg 1 2 3 4 5 6 7 8 9 10 11)").message(),
        "error: 0|0: \"powi\" expected 2 argument(s), got 12"
    );
}

#[test]
fn number_arguments_must_be_numbers() {
    let f32_expected = conversion(ErrorKind::ConversionError("expected f32 literal".to_string()));
    assert_eq!(err("(const-mul arg arg)"), f32_expected);
    assert_eq!(err("(const-mul foo x)"), f32_expected);
    assert_eq!(err("(linear arg 1 x)"), f32_expected);
    assert_eq!(err("(periodic arg (sin arg))"), f32_expected);
    assert_eq!(
        err("(powi arg x)"),
        conversion(ErrorKind::ConversionError("expected integer literal".to_string()))
    );
    assert_eq!(
        err("(powf arg x)").message(),
        "error: 0|0: conversion error: expected f32 literal"
    );
}

#[test]
fn expression_arguments_are_converted_after_number_arguments() {
    assert_eq!(err("(powf foo 2)"), conversion(ErrorKind::UnknownSymbol("foo".to_string())));
    assert_eq!(err("(* arg (bad 1))"), conversion(ErrorKind::UnknownSymbol("bad".to_string())));
}

#[test]
fn lexing_errors_come_first() {
    let e = err("(bogus #)");
    assert_eq!(e.kind, ErrorKind::UnexpectedChar('#'));
    assert_eq!((e.line, e.column), (1, 8));
}

#[test]
fn text_after_the_expression_is_not_parsed() {
    assert!(matches!(parse_func("arg extra )").unwrap(), EnvFunction::Arg));
    assert!(matches!(parse_func("(sin arg) (cos").unwrap(), EnvFunction::Sin(_)));
    assert_eq!(err("arg #").kind, ErrorKind::UnexpectedChar('#'));
}
