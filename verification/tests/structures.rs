use env_function::func::EnvFunction;
use env_function::parser::ast::{Atom, Parser, SExpr};
use env_function::parser::convert::to_env;
use env_function::parser::error::ErrorKind;
use env_function::parser::lexer::Token;
use env_function::parser::parse_func;

fn constant(f: &EnvFunction) -> String {
    match f {
        EnvFunction::Constant(n) => n.clone(),
        other => panic!("expected Constant, got {:?}", other),
    }
}

#[test]
fn named_constants() {
    assert_eq!(constant(&parse_func("PI").unwrap()), "3.1415927");
    assert_eq!(constant(&parse_func("π").unwrap()), "3.1415927");
    assert_eq!(constant(&parse_func("TAU").unwrap()), "6.2831855");
    assert_eq!(constant(&parse_func("TWOPI").unwrap()), "6.2831855");
    assert_eq!(constant(&parse_func("τ").unwrap()), "6.2831855");
    assert_eq!(constant(&parse_func("E").unwrap()), "2.7182817");
    assert_eq!(constant(&parse_func("PHI").unwrap()), "1.618034");
    assert_eq!(constant(&parse_func("φ").unwrap()), "1.618034");
    assert_eq!("3.1415927".parse::<f32>().unwrap(), std::f32::consts::PI);
    assert_eq!("6.2831855".parse::<f32>().unwrap(), std::f32::consts::TAU);
    assert_eq!("2.7182817".parse::<f32>().unwrap(), std::f32::consts::E);
    assert_eq!("1.618034".parse::<f32>().unwrap(), 1.618033988749895f64 as f32);
}

#[test]
fn inputs_and_parameters() {
    assert!(matches!(parse_func("prval").unwrap(), EnvFunction::PrevVal));
    assert!(matches!(parse_func("vel").unwrap(), EnvFunction::Velocity));
    assert!(matches!(parse_func("freq").unwrap(), EnvFunction::Frequency));
    assert!(matches!(parse_func("p1").unwrap(), EnvFunction::P1));
    assert!(matches!(parse_func("p2").unwrap(), EnvFunction::P2));
    assert!(matches!(parse_func("p3").unwrap(), EnvFunction::P3));
    assert!(matches!(parse_func("p4").unwrap(), EnvFunction::P4));
}

#[test]
fn oct_takes_a_number_as_its_second_operand() {
    let f = parse_func("(oct arg 2)").unwrap();
    if let EnvFunction::Oct(a, b) = f {
        assert!(matches!(*a, EnvFunction::Arg));
        assert_eq!(constant(&b), "2");
    } else {
        panic!("expected Oct");
    }
}

#[test]
fn numerals_are_kept_as_written() {
    let f = parse_func("(linear (powi freq -3) 1e2 -.5)").unwrap();
    if let EnvFunction::Linear(inner, k, b) = f {
        assert_eq!((k.as_str(), b.as_str()), ("1e2", "-.5"));
        if let EnvFunction::Powi(x, p) = *inner {
            assert!(matches!(*x, EnvFunction::Frequency));
            assert_eq!(p, "-3");
        } else {
            panic!("expected Powi");
        }
    } else {
        panic!("expected Linear");
    }
}

#[test]
fn comments_before_the_expression() {
    let f = parse_func("; a sine\n(sin arg) ; done").unwrap();
    assert!(matches!(f, EnvFunction::Sin(_)));
}

#[test]
fn parser_reads_one_expression_from_tokens() {
    let tokens = vec![
        Token::LParen,
        Token::Symbol("sin".to_string()),
        Token::Number("2".to_string()),
        Token::RParen,
        Token::RParen,
    ];
    let mut parser = Parser::from_tokens(tokens, 4, 7);
    let e = parser.parse().unwrap();
    assert_eq!(
        e,
        SExpr::List(vec![
            SExpr::Atom(Atom::Symbol("sin".to_string())),
            SExpr::Atom(Atom::Number("2".to_string())),
        ])
    );
    let err = parser.parse().unwrap_err();
    assert_eq!((err.kind, err.line, err.column), (ErrorKind::UnexpectedChar('?'), 4, 7));
    let err = parser.parse().unwrap_err();
    assert_eq!(err.kind, ErrorKind::UnexpectedEof);
}

#[test]
fn to_env_builds_the_tree() {
    let e = SExpr::List(vec![
        SExpr::Atom(Atom::Symbol("*".to_string())),
        SExpr::Atom(Atom::Symbol("arg".to_string())),
        SExpr::Atom(Atom::Number("0.5".to_string())),
    ]);
    let f = to_env(e.clone()).unwrap();
    assert_eq!(
        f,
        EnvFunction::Mul(
            Box::new(EnvFunction::Arg),
            Box::new(EnvFunction::Constant("0.5".to_string()))
        )
    );
    assert_eq!(e.clone(), e);
}

#[test]
fn clone_and_default() {
    let f = parse_func("(linear (sin (const-mul arg 440.0)) 0.5 0.0)").unwrap();
    assert_eq!(f.clone(), f);
    assert!(matches!(EnvFunction::default(), EnvFunction::Arg));
    let a = Atom::Number("1".to_string());
    assert_eq!(a.clone(), a);
}
