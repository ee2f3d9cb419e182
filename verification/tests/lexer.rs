use env_function::parser::error::{ErrorKind, ParseError};
use env_function::parser::lexer::{is_float_literal, Lexer, Token};

fn sym(s: &str) -> Token {
    Token::Symbol(s.to_string())
}

fn number(s: &str) -> Token {
    Token::Number(s.to_string())
}

fn lex(input: &str) -> Result<(Vec<Token>, usize, usize), ParseError> {
    let mut lexer = Lexer::new(input);
    let tokens = lexer.tokenize()?;
    Ok((tokens, lexer.line(), lexer.column()))
}

#[test]
fn lexer_starts_at_line_one_column_one() {
    let lexer = Lexer::new("(sin arg)");
    assert_eq!(lexer.line, 1);
    assert_eq!(lexer.column, 1);
    assert_eq!(lexer.line(), 1);
    assert_eq!(lexer.column(), 1);
}

#[test]
fn tokens_of_a_difference() {
    let (tokens, line, column) = lex("(- arg 1)").unwrap();
    assert_eq!(tokens, vec![Token::LParen, sym("-"), sym("arg"), number("1"), Token::RParen]);
    assert_eq!((line, column), (1, 10));
}

#[test]
fn blanks_newlines_and_comments_are_skipped() {
    let (tokens, line, column) = lex("(+ arg\n  -2.5) ; the rest\n").unwrap();
    assert_eq!(
        tokens,
        vec![Token::LParen, sym("+"), sym("arg"), number("-2.5"), Token::RParen]
    );
    assert_eq!((line, column), (3, 1));
}

#[test]
fn lines_and_columns_count_every_character() {
    let (_, line, column) = lex("a\nbb\n ccc").unwrap();
    assert_eq!((line, column), (3, 5));
    let (_, line, column) = lex("\t\r x").unwrap();
    assert_eq!((line, column), (1, 5));
}

#[test]
fn a_second_dot_starts_a_new_number() {
    let (tokens, _, _) = lex("1.2.3").unwrap();
    assert_eq!(tokens, vec![number("1.2"), number(".3")]);
}

#[test]
fn minus_begins_a_symbol_unless_a_digit_or_dot_follows() {
    let (tokens, _, _) = lex("-x - -.5 -").unwrap();
    assert_eq!(tokens, vec![sym("-x"), sym("-"), number("-.5"), sym("-")]);
}

#[test]
fn a_numeral_ends_where_its_grammar_ends() {
    let (tokens, _, _) = lex("1e5x 2E-3 7.").unwrap();
    assert_eq!(tokens, vec![number("1e5"), sym("x"), number("2E-3"), number("7.")]);
}

#[test]
fn symbols_take_digits_dots_and_dashes() {
    let (tokens, _, _) = lex("inv-val p1 a.b π").unwrap();
    assert_eq!(tokens, vec![sym("inv-val"), sym("p1"), sym("a.b"), sym("π")]);
}

#[test]
fn unexpected_character_is_reported_where_it_stands() {
    let e = lex("(a # b)").unwrap_err();
    assert_eq!(e.kind, ErrorKind::UnexpectedChar('#'));
    assert_eq!((e.line, e.column), (1, 4));
    assert_eq!(e.snippet, "(a # b)");
    assert_eq!(e.message(), "error: 1|4: unexpected character '#'");
}

#[test]
fn unexpected_character_on_a_later_line() {
    let e = lex("arg\n  @").unwrap_err();
    assert_eq!(e.kind, ErrorKind::UnexpectedChar('@'));
    assert_eq!((e.line, e.column), (2, 3));
    assert_eq!(e.snippet, "  @");
}

#[test]
fn snippet_drops_the_carriage_return_of_a_line() {
    let e = lex("# \r\nfoo").unwrap_err();
    assert_eq!((e.line, e.column), (1, 1));
    assert_eq!(e.snippet, "# ");
    let e = lex("arg\r\n #").unwrap_err();
    assert_eq!((e.line, e.column), (2, 2));
    assert_eq!(e.snippet, " #");
}

#[test]
fn snippet_is_cut_ten_characters_after_the_column() {
    let input = "aaaaaaaaaaaaaaaaaaaa #bbbbbbbbbbbbbb";
    let e = lex(input).unwrap_err();
    assert_eq!((e.line, e.column), (1, 22));
    assert_eq!(e.snippet, &input[..32]);
}

#[test]
fn invalid_numbers() {
    let e = lex("1e").unwrap_err();
    assert_eq!(e.kind, ErrorKind::InvalidNumber("1e".to_string()));
    assert_eq!((e.line, e.column), (1, 1));
    assert_eq!(e.snippet, "1e");
    assert_eq!(e.message(), "error: 1|1: invalid number \"1e\"");

    let e = lex("(* (+ arg .-) 0.3)").unwrap_err();
    assert_eq!(e.kind, ErrorKind::InvalidNumber(".".to_string()));
    assert_eq!((e.line, e.column), (1, 11));
    assert_eq!(e.message(), "error: 1|11: invalid number \".\"");

    let e = lex("x -.e5").unwrap_err();
    assert_eq!(e.kind, ErrorKind::InvalidNumber("-.e5".to_string()));
    assert_eq!((e.line, e.column), (1, 3));

    let e = lex("3e+").unwrap_err();
    assert_eq!(e.kind, ErrorKind::InvalidNumber("3e+".to_string()));
}

#[test]
fn float_literals() {
    let yes = ["1", "1.", ".5", "-.5", "+1e-3", "1E5", "0.25e+10", "-0"];
    let no = ["", "1e", ".", "-", "e5", "1.2.3", "1e+", "+", "1e5.", "--1"];
    for s in yes {
        let chars: Vec<char> = s.chars().collect();
        assert!(is_float_literal(&chars), "'{}' should be a float literal", s);
        assert!(s.parse::<f32>().is_ok());
    }
    for s in no {
        let chars: Vec<char> = s.chars().collect();
        assert!(!is_float_literal(&chars), "'{}' should not be a float literal", s);
        assert!(s.parse::<f32>().is_err());
    }
}

#[test]
fn every_number_token_parses_as_f32() {
    let (tokens, _, _) = lex("(linear (powi arg 3) 1e2 -.5) 7. .25E-3").unwrap();
    for t in tokens {
        if let Token::Number(n) = t {
            assert!(n.parse::<f32>().is_ok(), "{}", n);
        }
    }
}

#[test]
fn snippet_is_the_error_line_cut_ten_characters_after_the_column() {
    let inputs = [
        "(a # b)",
        "arg\n  @",
        "arg\r\n #",
        "x\n\n\n   (sin $)",
        "first line\r\nsecond ! line that is rather long indeed #",
        "(+ arg 1e)\nnext",
        "(sin arg)\n(cos 2.e)",
        "\n\n\n\n#",
        "aaaaaaaaaaaaaaaaaaaaaaaaaaaaaaaaaaaaaaaaaaaaa %",
    ];
    for input in inputs {
        let e = lex(input).unwrap_err();
        let column = match e.kind {
            ErrorKind::InvalidNumber(ref n) => e.column + n.chars().count(),
            _ => e.column,
        };
        let expected: String = input
            .lines()
            .nth(e.line - 1)
            .unwrap_or("")
            .chars()
            .take(column + 10)
            .collect();
        assert_eq!(e.snippet, expected, "input {:?}", input);
    }
}
