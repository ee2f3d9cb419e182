use env_function::func::EnvFunction;
use env_function::parser::ast::Parser;
use env_function::parser::lexer::{Lexer, Token};
use env_function::parser::{parse_env_batch, parse_func};

#[test]
fn leading_blanks_change_nothing() {
    let texts = ["(sin arg)", "(linear (powi freq 2) 1e2 -.5)", "PI", "(+ arg", "(bogus 1)", "1e"];
    for s in texts {
        for p in [" ", "\n\n", " \t\r\n  "] {
            let with = parse_func(&format!("{}{}", p, s));
            let without = parse_func(s);
            assert_eq!(with.is_ok(), without.is_ok(), "{:?} + {:?}", p, s);
            if let Ok(f) = without {
                assert_eq!(with.unwrap(), f);
            }
        }
    }
}

fn tokens(input: &str) -> Result<Vec<Token>, ()> {
    Lexer::new(input).tokenize().map_err(|_| ())
}

#[test]
fn blanks_and_comments_between_tokens_change_nothing() {
    // Each text with the places, in characters, that lie between two tokens.
    let texts: [(&str, &[usize]); 4] = [
        ("(sin arg)", &[0, 1, 4, 8, 9]),
        ("(+ (powi freq 2) -.5)", &[0, 1, 2, 3, 8, 13, 15, 16, 20, 21]),
        ("arg (cos arg) 1e2", &[0, 3, 4, 5, 8, 12, 13, 14, 17]),
        ("(* arg ; note\n 2)", &[0, 1, 2, 6, 13, 14, 16, 17]),
    ];
    let fillers = [" ", "\n", "; a comment\n", " \t; one\n;two\n\r\n  "];
    for (s, places) in texts {
        let chars: Vec<char> = s.chars().collect();
        for &k in places {
            for w in fillers {
                let before: String = chars[..k].iter().collect();
                let after: String = chars[k..].iter().collect();
                let with = format!("{}{}{}", before, w, after);
                assert_eq!(tokens(&with), tokens(s), "{:?} at {} in {:?}", w, k, s);
                assert_eq!(parse_func(&with).ok(), parse_func(s).ok(), "{:?} at {} in {:?}", w, k, s);
                assert_eq!(parse_env_batch(&with).ok(), parse_env_batch(s).ok());
            }
        }
        // All places at once.
        let mut with = String::new();
        for (k, c) in chars.iter().enumerate() {
            if places.contains(&k) {
                with.push_str(fillers[k % fillers.len()]);
            }
            with.push(*c);
        }
        if places.contains(&chars.len()) {
            with.push_str("; end\n");
        }
        assert_eq!(tokens(&with), tokens(s), "{:?}", with);
        assert_eq!(parse_func(&with).ok(), parse_func(s).ok(), "{:?}", with);
    }
}

#[test]
fn every_numeral_of_a_parsed_function_is_a_float_literal() {
    fn check(f: &EnvFunction) {
        match f {
            EnvFunction::Constant(n) => assert!(n.parse::<f32>().is_ok(), "{}", n),
            EnvFunction::ConstMul(a, c) | EnvFunction::Powf(a, c) | EnvFunction::Powi(a, c)
            | EnvFunction::Periodic(a, c) => {
                assert!(c.parse::<f32>().is_ok(), "{}", c);
                check(a);
            }
            EnvFunction::Linear(a, k, b) => {
                assert!(k.parse::<f32>().is_ok() && b.parse::<f32>().is_ok());
                check(a);
            }
            EnvFunction::Id(a) | EnvFunction::Exp(a) | EnvFunction::Sigmoid(a)
            | EnvFunction::Ln(a) | EnvFunction::Sin(a) | EnvFunction::Cos(a)
            | EnvFunction::InvVal(a) | EnvFunction::Neg(a) | EnvFunction::Abs(a) => check(a),
            EnvFunction::Oct(a, b) | EnvFunction::Sum(a, b) | EnvFunction::Dif(a, b)
            | EnvFunction::Mul(a, b) | EnvFunction::Div(a, b) => {
                check(a);
                check(b);
            }
            _ => {}
        }
    }
    let f = parse_func(
        "(+ (linear (powi arg -3) 1e2 -.5) (* (oct PI 7.) (/ (periodic τ .25E-3) (const-mul φ 2E+2))))",
    )
    .unwrap();
    check(&f);
}

#[test]
fn lexer_ends_at_the_line_and_column_after_the_input() {
    let input = "(sin ; a comment\n  arg)\n\t(cos\r\n arg)";
    let mut lexer = Lexer::new(input);
    lexer.tokenize().unwrap();
    let lines = 1 + input.matches('\n').count();
    let last = input.rsplit('\n').next().unwrap().chars().count();
    assert_eq!((lexer.line(), lexer.column()), (lines, last + 1));
}

#[test]
fn parser_ignores_tokens_after_the_expression() {
    let head = vec![Token::LParen, Token::Symbol("neg".to_string()), Token::Symbol("arg".to_string()), Token::RParen];
    let mut tail = head.clone();
    tail.extend(vec![Token::RParen, Token::LParen, Token::Number("1".to_string())]);
    let a = Parser::from_tokens(head, 1, 1).parse().unwrap();
    let b = Parser::from_tokens(tail, 1, 1).parse().unwrap();
    assert_eq!(a, b);
}
