//! Parsing envelope functions from s-expression text.
pub mod ast;
pub mod convert;
pub mod error;
pub mod filler;
pub mod lexer;

use vstd::prelude::*;
use crate::func::{EnvFunction, EnvFunctionV};
use crate::parser::ast::{
    Parser, SExprV, lemma_parse_extend, lemma_parse_numbers_are_literals, lemma_parse_progress,
    lemma_parse_shift, parse_at,
};
use crate::parser::convert::{
    convert, lemma_convert_numerals_are_literals, numerals_are_literals, to_env,
};
use crate::parser::error::{ErrorKindV, ParseErrorV, ParseResult};
use crate::parser::filler::{filler, insert_all, lemma_fillers_between_tokens, reaches};
use crate::parser::lexer::{
    Lexer, TokenV, is_blank, lemma_lex_leading_blanks, lemma_lex_numbers_are_literals, lex,
};

verus! {

/// The `EnvFunction` that the text `s` denotes, or the first error found:
/// lexing errors first, then parsing errors (which carry the line and
/// column where lexing ended), then conversion errors. Text after the first
/// s-expression is lexed but not parsed.
pub open spec fn parse_text(s: Seq<char>) -> Result<EnvFunctionV, ParseErrorV> {
    match lex(s, 0, 1, 1) {
        Err(e) => Err(e),
        Ok((ts, line, col)) => match parse_at(ts, 0) {
            Err(k) => Err(
                ParseErrorV { kind: k, line: line as usize, column: col as usize, snippet: Seq::empty() },
            ),
            Ok((e, _)) => convert(e),
        },
    }
}

/// Every numeral of a parsed function is a float literal, so that
/// `str::parse::<f32>` accepts it.
pub proof fn lemma_parsed_numerals_are_literals(s: Seq<char>)
    ensures
        parse_text(s) matches Ok(f) ==> numerals_are_literals(f),
{
    lemma_lex_numbers_are_literals(s, 0, 1, 1);
    if let Ok((ts, line, col)) = lex(s, 0, 1, 1) {
        lemma_parse_numbers_are_literals(ts, 0);
        if let Ok((e, j)) = parse_at(ts, 0) {
            lemma_convert_numerals_are_literals(e);
        }
    }
}

/// Blanks (spaces, tabs, carriage returns, newlines) before the text change
/// nothing of what it parses to: it parses exactly when the text alone
/// does, to the same function.
pub proof fn lemma_leading_blanks(p: Seq<char>, s: Seq<char>)
    requires
        forall|k: int| 0 <= k < p.len() ==> is_blank(#[trigger] p[k]),
    ensures
        parse_text(p + s) is Ok == parse_text(s) is Ok,
        parse_text(s) is Ok ==> parse_text(p + s) == parse_text(s),
{
    lemma_lex_leading_blanks(p, s);
}

/// Parses an envelope function written as an s-expression (see
/// `parse_text`).
pub fn parse_func(input: &str) -> (res: ParseResult<EnvFunction>)
    requires
        input@.len() + 11 <= usize::MAX,
    ensures
        match parse_text(input@) {
            Ok(f) => res matches Ok(x) && x@ == f,
            Err(e) => res matches Err(x) && x@ == e,
        },
{
    let mut lexer = Lexer::new(input);
    let tokens = match lexer.tokenize() {
        Ok(t) => t,
        Err(e) => {
            return Err(e);
        },
    };
    let line = lexer.line();
    let col = lexer.column();
    let mut parser = Parser::from_tokens(tokens, line, col);
    let sexpr = match parser.parse() {
        Ok(e) => e,
        Err(e) => {
            return Err(e);
        },
    };
    to_env(sexpr)
}

/// The functions that the s-expressions of the tokens `t` from index `i` on
/// denote, in order, or the first error: s-expressions are parsed one after
/// another until no token is left, and each is converted as soon as it is
/// parsed. There is at least one: with no token at `i` the parse fails with
/// `UnexpectedEof`. Parse errors carry `line` and `col`.
pub open spec fn batch_from(t: Seq<TokenV>, i: int, line: usize, col: usize) -> Result<
    Seq<EnvFunctionV>,
    ParseErrorV,
>
    decreases t.len() - i,
{
    match parse_at(t, i) {
        Err(k) => Err(ParseErrorV { kind: k, line, column: col, snippet: Seq::empty() }),
        Ok((e, j)) => match convert(e) {
            Err(x) => Err(x),
            Ok(f) => if i < j < t.len() {
                prepend_funcs(seq![f], batch_from(t, j, line, col))
            } else {
                Ok(seq![f])
            },
        },
    }
}

/// `fs` in front of the functions of `r`, or the error of `r`.
pub open spec fn prepend_funcs(
    fs: Seq<EnvFunctionV>,
    r: Result<Seq<EnvFunctionV>, ParseErrorV>,
) -> Result<Seq<EnvFunctionV>, ParseErrorV> {
    match r {
        Ok(rest) => Ok(fs + rest),
        Err(x) => Err(x),
    }
}

/// The functions that the text `s` denotes, one per s-expression, in order,
/// or the first error found: lexing errors first, then the parsing and
/// conversion errors of the s-expressions in turn (parsing errors carry the
/// line and column where lexing ended).
pub open spec fn batch_text(s: Seq<char>) -> Result<Seq<EnvFunctionV>, ParseErrorV> {
    match lex(s, 0, 1, 1) {
        Err(e) => Err(e),
        Ok((ts, line, col)) => batch_from(ts, 0, line as usize, col as usize),
    }
}

/// The views of the functions `v`.
pub open spec fn funcs_view(v: Seq<EnvFunction>) -> Seq<EnvFunctionV> {
    v.map_values(|f: EnvFunction| f@)
}

/// A batch starts with the function that `parse_text` reads from the same
/// text, and fails with its error where it fails.
pub proof fn lemma_batch_starts_with_parse_text(s: Seq<char>)
    ensures
        batch_text(s) matches Ok(fs) ==> fs.len() >= 1 && parse_text(s) == Ok::<
            EnvFunctionV,
            ParseErrorV,
        >(fs[0]),
        parse_text(s) matches Err(e) ==> batch_text(s) == Err::<Seq<EnvFunctionV>, ParseErrorV>(
            e,
        ),
{
    if let Ok((ts, line, col)) = lex(s, 0, 1, 1) {
        if let Ok((e, j)) = parse_at(ts, 0) {
            if let Ok(f) = convert(e) {
                if 0 < j < ts.len() {
                    if let Ok(rest) = batch_from(ts, j, line as usize, col as usize) {
                        assert((seq![f] + rest)[0] == f);
                    }
                }
            }
        }
    }
}

/// Whether a batch succeeds, and the functions it gives, do not depend on
/// the line and column that its parse errors carry.
pub proof fn lemma_batch_ignores_position(
    t: Seq<TokenV>,
    i: int,
    l1: usize,
    c1: usize,
    l2: usize,
    c2: usize,
)
    ensures
        batch_from(t, i, l1, c1) is Ok == batch_from(t, i, l2, c2) is Ok,
        batch_from(t, i, l1, c1) is Ok ==> batch_from(t, i, l1, c1) == batch_from(t, i, l2, c2),
    decreases t.len() - i,
{
    if let Ok((e, j)) = parse_at(t, i) {
        if i < j < t.len() {
            lemma_batch_ignores_position(t, j, l1, c1, l2, c2);
        }
    }
}

/// Blanks and comments inserted between tokens of a text (or before the
/// first, or after the last), at any number of places, change nothing of
/// what it parses to: the text parses exactly when it did, to the same
/// function and to the same batch of functions.
pub proof fn lemma_fillers_between_tokens_parse_the_same(
    s: Seq<char>,
    ks: Seq<int>,
    ws: Seq<Seq<char>>,
)
    requires
        ks.len() == ws.len(),
        forall|j: int| 0 <= j < ks.len() ==> reaches(s, 0, #[trigger] ks[j]),
        forall|j: int| 0 <= j < ws.len() ==> filler(#[trigger] ws[j], 0),
        forall|j: int, l: int| 0 <= j < l < ks.len() ==> ks[j] < ks[l],
    ensures
        parse_text(insert_all(s, ks, ws)) is Ok == parse_text(s) is Ok,
        parse_text(s) is Ok ==> parse_text(insert_all(s, ks, ws)) == parse_text(s),
        batch_text(insert_all(s, ks, ws)) is Ok == batch_text(s) is Ok,
        batch_text(s) is Ok ==> batch_text(insert_all(s, ks, ws)) == batch_text(s),
{
    let s2 = insert_all(s, ks, ws);
    lemma_fillers_between_tokens(s, ks, ws);
    if let Ok((ts, l1, c1)) = lex(s, 0, 1, 1) {
        if let Ok((ts2, l2, c2)) = lex(s2, 0, 1, 1) {
            assert(ts2 == ts);
            lemma_batch_ignores_position(ts, 0, l1 as usize, c1 as usize, l2 as usize, c2 as usize);
        }
    }
}

/// The batch of the s-expressions `us`, after the tokens `p`, gives the
/// functions `fs`.
proof fn lemma_batch_of(
    us: Seq<Seq<TokenV>>,
    es: Seq<SExprV>,
    fs: Seq<EnvFunctionV>,
    p: Seq<TokenV>,
    line: usize,
    col: usize,
)
    requires
        us.len() == es.len(),
        us.len() == fs.len(),
        us.len() >= 1,
        forall|k: int|
            0 <= k < us.len() ==> parse_at(#[trigger] us[k], 0) == Ok::<(SExprV, int), ErrorKindV>(
                (es[k], us[k].len() as int),
            ),
        forall|k: int|
            0 <= k < us.len() ==> convert(#[trigger] es[k]) == Ok::<EnvFunctionV, ParseErrorV>(
                fs[k],
            ),
    ensures
        batch_from(p + us.flatten(), p.len() as int, line, col) == Ok::<
            Seq<EnvFunctionV>,
            ParseErrorV,
        >(fs),
    decreases us.len(),
{
    let u0 = us[0];
    let rest = us.drop_first();
    let t = p + us.flatten();
    assert(us.flatten() == u0 + rest.flatten());
    assert(t =~= p + (u0 + rest.flatten()));
    assert(parse_at(us[0], 0) == Ok::<(SExprV, int), ErrorKindV>((es[0], u0.len() as int)));
    assert(convert(es[0]) == Ok::<EnvFunctionV, ParseErrorV>(fs[0]));
    lemma_parse_extend(u0, rest.flatten(), 0);
    lemma_parse_shift(p, u0 + rest.flatten(), 0);
    assert(u0.len() > 0);
    if rest.len() == 0 {
        assert(rest.flatten() =~= Seq::<TokenV>::empty());
        assert(fs =~= seq![fs[0]]);
    } else {
        let p2 = p + u0;
        assert(t =~= p2 + rest.flatten());
        assert(rest.flatten() == rest[0] + rest.drop_first().flatten());
        assert(parse_at(us[1], 0) == Ok::<(SExprV, int), ErrorKindV>((es[1], us[1].len() as int)));
        assert(rest[0] == us[1]);
        assert(rest[0].len() > 0);
        let rest_es = es.drop_first();
        let rest_fs = fs.drop_first();
        assert forall|k: int| 0 <= k < rest.len() implies parse_at(#[trigger] rest[k], 0) == Ok::<
            (SExprV, int),
            ErrorKindV,
        >((rest_es[k], rest[k].len() as int)) by {
            assert(rest[k] == us[k + 1]);
            assert(rest_es[k] == es[k + 1]);
        }
        assert forall|k: int| 0 <= k < rest.len() implies convert(#[trigger] rest_es[k]) == Ok::<
            EnvFunctionV,
            ParseErrorV,
        >(rest_fs[k]) by {
            assert(rest_es[k] == es[k + 1]);
            assert(rest_fs[k] == fs[k + 1]);
        }
        lemma_batch_of(rest, rest_es, rest_fs, p2, line, col);
        assert(seq![fs[0]] + rest_fs =~= fs);
    }
}

/// A batch gives the functions of its s-expressions in the order they are
/// written: when the tokens are those of the s-expressions `us` one after
/// another, each parsing whole and converting to the function of the same
/// index in `fs`, the batch is `fs`.
pub proof fn lemma_batch_in_order(
    us: Seq<Seq<TokenV>>,
    es: Seq<SExprV>,
    fs: Seq<EnvFunctionV>,
    line: usize,
    col: usize,
)
    requires
        us.len() == es.len(),
        us.len() == fs.len(),
        us.len() >= 1,
        forall|k: int|
            0 <= k < us.len() ==> parse_at(#[trigger] us[k], 0) == Ok::<(SExprV, int), ErrorKindV>(
                (es[k], us[k].len() as int),
            ),
        forall|k: int|
            0 <= k < us.len() ==> convert(#[trigger] es[k]) == Ok::<EnvFunctionV, ParseErrorV>(
                fs[k],
            ),
    ensures
        batch_from(us.flatten(), 0, line, col) == Ok::<Seq<EnvFunctionV>, ParseErrorV>(fs),
{
    lemma_batch_of(us, es, fs, Seq::empty(), line, col);
    assert(Seq::<TokenV>::empty() + us.flatten() =~= us.flatten());
}

/// Parses a batch of envelope functions: the s-expressions of the text, one
/// after another, separated by blanks, newlines or comments (see
/// `batch_text`).
pub fn parse_env_batch(input: &str) -> (res: ParseResult<Vec<EnvFunction>>)
    requires
        input@.len() + 11 <= usize::MAX,
    ensures
        match batch_text(input@) {
            Ok(fs) => res matches Ok(v) && funcs_view(v@) == fs,
            Err(e) => res matches Err(x) && x@ == e,
        },
{
    let mut lexer = Lexer::new(input);
    let tokens = match lexer.tokenize() {
        Ok(t) => t,
        Err(e) => {
            return Err(e);
        },
    };
    let line = lexer.line();
    let col = lexer.column();
    let mut parser = Parser::from_tokens(tokens, line, col);
    let ghost t = parser.token_seq();
    let mut v: Vec<EnvFunction> = Vec::new();
    proof {
        if let Ok(all) = batch_from(t, 0, line, col) {
            assert(funcs_view(v@) + all =~= all);
        }
    }
    loop
        invariant
            parser.inv(),
            parser.token_seq() == t,
            parser.line_at() == line,
            parser.column_at() == col,
            0 <= parser.cursor() <= t.len(),
            batch_text(input@) == batch_from(t, 0, line, col),
            batch_from(t, 0, line, col) == prepend_funcs(
                funcs_view(v@),
                batch_from(t, parser.cursor(), line, col),
            ),
        decreases t.len() - parser.cursor(),
    {
        let ghost i = parser.cursor();
        proof {
            lemma_parse_progress(t, i);
        }
        let e = match parser.parse() {
            Ok(e) => e,
            Err(x) => {
                return Err(x);
            },
        };
        let f = match to_env(e) {
            Ok(f) => f,
            Err(x) => {
                return Err(x);
            },
        };
        let ghost before = funcs_view(v@);
        v.push(f);
        proof {
            assert(funcs_view(v@) =~= before + seq![f@]);
            if let Ok(rest) = batch_from(t, parser.cursor(), line, col) {
                assert(before + (seq![f@] + rest) =~= funcs_view(v@) + rest);
            }
        }
        if parser.at_end() {
            proof {
                assert(funcs_view(v@) =~= before + seq![f@]);
            }
            return Ok(v);
        }
    }
}

} // verus!
