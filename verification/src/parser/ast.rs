//! S-expressions and the parser that builds them from tokens.
use vstd::prelude::*;
use crate::func::Numeral;
use crate::parser::error::{ErrorKind, ErrorKindV, ParseError, ParseErrorV, ParseResult};
use crate::parser::lexer::{Token, TokenV, float_literal, numbers_are_literals, tokens_view};

verus! {

/// An s-expression: an atom or a parenthesized list.
///
/// `==` compares numbers by their text, not by their value: `1` and `1.0`,
/// or `0` and `-0`, are different numerals of the same number.
#[derive(Debug, PartialEq)]
pub enum SExpr {
    Atom(Atom),
    List(Vec<SExpr>),
}

/// A symbol or a number.
///
/// `==` compares numbers by their text, not by their value: `1` and `1.0`,
/// or `0` and `-0`, are different numerals of the same number.
#[derive(Debug, PartialEq)]
pub enum Atom {
    Symbol(String),
    Number(Numeral),
}

/// `Atom` with its strings taken as character sequences.
pub enum AtomV {
    Symbol(Seq<char>),
    Number(Seq<char>),
}

/// `SExpr` with its strings taken as character sequences.
pub enum SExprV {
    Atom(AtomV),
    List(Seq<SExprV>),
}

impl View for Atom {
    type V = AtomV;

    open spec fn view(&self) -> AtomV {
        match self {
            Atom::Symbol(s) => AtomV::Symbol(s@),
            Atom::Number(n) => AtomV::Number(n@),
        }
    }
}

impl View for SExpr {
    type V = SExprV;

    open spec fn view(&self) -> SExprV
        decreases self,
    {
        match self {
            SExpr::Atom(a) => SExprV::Atom(a@),
            SExpr::List(v) => SExprV::List(
                Seq::new(
                    v@.len(),
                    |i: int|
                        if 0 <= i < v@.len() {
                            v@[i].view()
                        } else {
                            SExprV::List(Seq::empty())
                        },
                ),
            ),
        }
    }
}

/// The views of a sequence of s-expressions.
pub open spec fn items_view(v: Seq<SExpr>) -> Seq<SExprV> {
    v.map_values(|e: SExpr| e@)
}

/// The view of a list is the list of the views of its items.
pub proof fn lemma_list_view(v: Vec<SExpr>)
    ensures
        SExpr::List(v)@ == SExprV::List(items_view(v@)),
{
    let e = SExpr::List(v);
    if let SExprV::List(items) = e@ {
        assert(items =~= items_view(v@));
    }
}

/// A copy of `a`.
fn copy_atom(a: &Atom) -> (r: Atom)
    ensures
        r@ == a@,
{
    match a {
        Atom::Symbol(s) => Atom::Symbol(s.clone()),
        Atom::Number(n) => Atom::Number(n.clone()),
    }
}

impl Clone for Atom {
    fn clone(&self) -> (r: Atom)
        ensures
            r@ == self@,
    {
        copy_atom(self)
    }
}

/// A copy of `e`.
fn copy_sexpr(e: &SExpr) -> (r: SExpr)
    ensures
        r@ == e@,
    decreases e,
{
    match e {
        SExpr::Atom(a) => SExpr::Atom(copy_atom(a)),
        SExpr::List(v) => {
            let mut out: Vec<SExpr> = Vec::with_capacity(v.len());
            let mut i: usize = 0;
            while i < v.len()
                invariant
                    *e == SExpr::List(*v),
                    i <= v@.len(),
                    items_view(out@) == items_view(v@).take(i as int),
                decreases v@.len() - i,
            {
                proof {
                    broadcast use vstd::std_specs::vec::axiom_vec_decreases_to_view;

                    assert(decreases_to!(*v => v@));
                    assert(decreases_to!(v@ => v@[i as int]));
                    assert(decreases_to!(*e => (*e)->List_0));
                    assert(decreases_to!(*e => v@[i as int]));
                }
                let c = copy_sexpr(&v[i]);
                let ghost prev = out@;
                out.push(c);
                proof {
                    assert(items_view(out@) =~= items_view(prev).push(c@));
                    assert(items_view(v@).take(i + 1) =~= items_view(v@).take(i as int).push(v@[i as int]@));
                }
                i = i + 1;
            }
            proof {
                lemma_list_view(out);
                lemma_list_view(*v);
                assert(items_view(v@).take(v@.len() as int) =~= items_view(v@));
            }
            SExpr::List(out)
        },
    }
}

impl Clone for SExpr {
    fn clone(&self) -> (r: SExpr)
        ensures
            r@ == self@,
    {
        copy_sexpr(self)
    }
}

/// Parsing one s-expression from the tokens `t` at index `i`: the
/// s-expression and the index after it, or what went wrong. A number or a
/// symbol is an atom; `(` starts a list of s-expressions that a matching `)`
/// ends (`MismatchedParens` if none does); a `)` where an s-expression
/// should start is an `UnexpectedChar('?')`, and no token at all an
/// `UnexpectedEof`. Tokens after the s-expression are not read.
pub open spec fn parse_at(t: Seq<TokenV>, i: int) -> Result<(SExprV, int), ErrorKindV>
    decreases t.len() - i, 0int,
{
    if i < 0 || i >= t.len() {
        Err(ErrorKindV::UnexpectedEof)
    } else {
        match t[i] {
            TokenV::LParen => match parse_items(t, i + 1) {
                Ok((items, j)) => Ok((SExprV::List(items), j + 1)),
                Err(k) => Err(k),
            },
            TokenV::Number(n) => Ok((SExprV::Atom(AtomV::Number(n)), i + 1)),
            TokenV::Symbol(s) => Ok((SExprV::Atom(AtomV::Symbol(s)), i + 1)),
            TokenV::RParen => Err(ErrorKindV::UnexpectedChar('?')),
        }
    }
}

/// Parsing the items of a list from index `i` up to its closing `)`: the
/// items and the index of that `)`.
pub open spec fn parse_items(t: Seq<TokenV>, i: int) -> Result<(Seq<SExprV>, int), ErrorKindV>
    decreases t.len() - i, 1int,
{
    if i < 0 || i >= t.len() {
        Err(ErrorKindV::MismatchedParens)
    } else if t[i] is RParen {
        Ok((Seq::empty(), i))
    } else {
        match parse_at(t, i) {
            Ok((e, j)) => if i < j <= t.len() {
                match parse_items(t, j) {
                    Ok((rest, k)) => Ok((seq![e] + rest, k)),
                    Err(k) => Err(k),
                }
            } else {
                Err(ErrorKindV::MismatchedParens)
            },
            Err(k) => Err(k),
        }
    }
}

/// A parse moves forward and stays within the tokens; the items of a list
/// end at a `)`.
pub proof fn lemma_parse_progress(t: Seq<TokenV>, i: int)
    ensures
        parse_at(t, i) matches Ok((e, j)) ==> i < j <= t.len(),
        parse_items(t, i) matches Ok((items, j)) ==> i <= j < t.len() && t[j] is RParen,
    decreases t.len() - i,
{
    if 0 <= i < t.len() {
        if t[i] is LParen {
            lemma_parse_progress(t, i + 1);
        }
        if !(t[i] is RParen) {
            if let Ok((e, j)) = parse_at(t, i) {
                if i < j <= t.len() {
                    lemma_parse_progress(t, j);
                }
            }
        }
    }
}

/// Parsing from a point of `t` goes the same way whatever tokens come
/// before `t`; only the indexes move.
pub proof fn lemma_parse_shift(p: Seq<TokenV>, t: Seq<TokenV>, i: int)
    requires
        0 <= i,
    ensures
        parse_at(p + t, p.len() + i) == match parse_at(t, i) {
            Ok((e, j)) => Ok::<(SExprV, int), ErrorKindV>((e, p.len() + j)),
            Err(k) => Err::<(SExprV, int), ErrorKindV>(k),
        },
        parse_items(p + t, p.len() + i) == match parse_items(t, i) {
            Ok((items, j)) => Ok::<(Seq<SExprV>, int), ErrorKindV>((items, p.len() + j)),
            Err(k) => Err::<(Seq<SExprV>, int), ErrorKindV>(k),
        },
    decreases t.len() - i,
{
    let pt = p + t;
    if i < t.len() {
        assert(pt[p.len() + i] == t[i]);
        if t[i] is LParen {
            lemma_parse_shift(p, t, i + 1);
        }
        if !(t[i] is RParen) {
            lemma_parse_progress(t, i);
            if let Ok((e, j)) = parse_at(t, i) {
                lemma_parse_shift(p, t, j);
            }
        }
    }
}

/// The items `us`, each parsing whole to the s-expression of the same
/// index in `es`, followed by a `)`, parse as the items `es` up to that `)`.
proof fn lemma_parse_items_of(
    us: Seq<Seq<TokenV>>,
    es: Seq<SExprV>,
    p: Seq<TokenV>,
    q: Seq<TokenV>,
)
    requires
        us.len() == es.len(),
        forall|k: int|
            0 <= k < us.len() ==> parse_at(#[trigger] us[k], 0) == Ok::<(SExprV, int), ErrorKindV>(
                (es[k], us[k].len() as int),
            ),
    ensures
        parse_items(p + us.flatten() + seq![TokenV::RParen] + q, p.len() as int) == Ok::<
            (Seq<SExprV>, int),
            ErrorKindV,
        >((es, (p.len() + us.flatten().len()) as int)),
    decreases us.len(),
{
    let t = p + us.flatten() + seq![TokenV::RParen] + q;
    if us.len() == 0 {
        assert(t[p.len() as int] == TokenV::RParen);
        assert(es =~= Seq::<SExprV>::empty());
    } else {
        let u0 = us[0];
        let rest = us.drop_first();
        let rest_es = es.drop_first();
        assert(us.flatten() == u0 + rest.flatten());
        let tail = rest.flatten() + seq![TokenV::RParen] + q;
        assert(t =~= p + (u0 + tail));
        let p2 = p + u0;
        assert(t =~= p2 + rest.flatten() + seq![TokenV::RParen] + q);
        assert(parse_at(us[0], 0) == Ok::<(SExprV, int), ErrorKindV>((es[0], u0.len() as int)));
        lemma_parse_extend(u0, tail, 0);
        lemma_parse_shift(p, u0 + tail, 0);
        assert(u0.len() > 0);
        assert((u0 + tail)[0] == u0[0]);
        assert(t[p.len() as int] == u0[0]);
        assert forall|k: int| 0 <= k < rest.len() implies parse_at(#[trigger] rest[k], 0) == Ok::<
            (SExprV, int),
            ErrorKindV,
        >((rest_es[k], rest[k].len() as int)) by {
            assert(rest[k] == us[k + 1]);
            assert(rest_es[k] == es[k + 1]);
        }
        lemma_parse_items_of(rest, rest_es, p2, q);
        assert(seq![es[0]] + rest_es =~= es);
    }
}

/// A list parses to the s-expressions of its items, in the order they are
/// written: item `k` of the list is what the `k`-th item's tokens parse to
/// alone, whatever the items are.
pub proof fn lemma_parse_list(us: Seq<Seq<TokenV>>, es: Seq<SExprV>)
    requires
        us.len() == es.len(),
        forall|k: int|
            0 <= k < us.len() ==> parse_at(#[trigger] us[k], 0) == Ok::<(SExprV, int), ErrorKindV>(
                (es[k], us[k].len() as int),
            ),
    ensures
        parse_at(seq![TokenV::LParen] + us.flatten() + seq![TokenV::RParen], 0) == Ok::<
            (SExprV, int),
            ErrorKindV,
        >((SExprV::List(es), us.flatten().len() + 2int)),
{
    let t = seq![TokenV::LParen] + us.flatten() + seq![TokenV::RParen];
    lemma_parse_items_of(us, es, seq![TokenV::LParen], Seq::empty());
    assert(seq![TokenV::LParen] + us.flatten() + seq![TokenV::RParen] + Seq::<TokenV>::empty() =~= t);
}

/// The items `us`, each parsing whole, with no `)` after them, leave the
/// list open.
proof fn lemma_parse_items_unclosed(us: Seq<Seq<TokenV>>, es: Seq<SExprV>, p: Seq<TokenV>)
    requires
        us.len() == es.len(),
        forall|k: int|
            0 <= k < us.len() ==> parse_at(#[trigger] us[k], 0) == Ok::<(SExprV, int), ErrorKindV>(
                (es[k], us[k].len() as int),
            ),
    ensures
        parse_items(p + us.flatten(), p.len() as int) == Err::<(Seq<SExprV>, int), ErrorKindV>(
            ErrorKindV::MismatchedParens,
        ),
    decreases us.len(),
{
    let t = p + us.flatten();
    if us.len() > 0 {
        let u0 = us[0];
        let rest = us.drop_first();
        let rest_es = es.drop_first();
        assert(us.flatten() == u0 + rest.flatten());
        assert(t =~= p + (u0 + rest.flatten()));
        let p2 = p + u0;
        assert(t =~= p2 + rest.flatten());
        assert(parse_at(us[0], 0) == Ok::<(SExprV, int), ErrorKindV>((es[0], u0.len() as int)));
        lemma_parse_extend(u0, rest.flatten(), 0);
        lemma_parse_shift(p, u0 + rest.flatten(), 0);
        assert(u0.len() > 0);
        assert((u0 + rest.flatten())[0] == u0[0]);
        assert forall|k: int| 0 <= k < rest.len() implies parse_at(#[trigger] rest[k], 0) == Ok::<
            (SExprV, int),
            ErrorKindV,
        >((rest_es[k], rest[k].len() as int)) by {
            assert(rest[k] == us[k + 1]);
            assert(rest_es[k] == es[k + 1]);
        }
        lemma_parse_items_unclosed(rest, rest_es, p2);
    } else {
        assert(t =~= p);
    }
}

/// Where no token is left the parse fails with `UnexpectedEof`; a `)` where
/// an s-expression should start is an `UnexpectedChar('?')`; and a list
/// whose items are never followed by its `)` is `MismatchedParens`.
pub proof fn lemma_parse_errors(t: Seq<TokenV>, i: int, us: Seq<Seq<TokenV>>, es: Seq<SExprV>)
    requires
        us.len() == es.len(),
        forall|k: int|
            0 <= k < us.len() ==> parse_at(#[trigger] us[k], 0) == Ok::<(SExprV, int), ErrorKindV>(
                (es[k], us[k].len() as int),
            ),
    ensures
        i >= t.len() ==> parse_at(t, i) == Err::<(SExprV, int), ErrorKindV>(
            ErrorKindV::UnexpectedEof,
        ),
        0 <= i < t.len() && t[i] is RParen ==> parse_at(t, i) == Err::<(SExprV, int), ErrorKindV>(
            ErrorKindV::UnexpectedChar('?'),
        ),
        parse_at(seq![TokenV::LParen] + us.flatten(), 0) == Err::<(SExprV, int), ErrorKindV>(
            ErrorKindV::MismatchedParens,
        ),
{
    lemma_parse_items_unclosed(us, es, seq![TokenV::LParen]);
}

/// Parsing does not look past the s-expression it parses: more tokens after
/// it change nothing.
pub proof fn lemma_parse_extend(t: Seq<TokenV>, u: Seq<TokenV>, i: int)
    ensures
        parse_at(t, i) is Ok ==> parse_at(t + u, i) == parse_at(t, i),
        parse_items(t, i) is Ok ==> parse_items(t + u, i) == parse_items(t, i),
    decreases t.len() - i,
{
    let tu = t + u;
    if 0 <= i < t.len() {
        assert(tu[i] == t[i]);
        if t[i] is LParen {
            lemma_parse_extend(t, u, i + 1);
        }
        if !(t[i] is RParen) {
            lemma_parse_progress(t, i);
            if let Ok((e, j)) = parse_at(t, i) {
                lemma_parse_extend(t, u, j);
            }
        }
    }
}

/// Every number atom in `e` holds a float literal.
pub open spec fn numbers_in_sexpr_are_literals(e: SExprV) -> bool
    decreases e, 0int,
{
    match e {
        SExprV::Atom(AtomV::Number(n)) => float_literal(n),
        SExprV::Atom(AtomV::Symbol(_)) => true,
        SExprV::List(items) => numbers_in_items_are_literals(items, items.len() as int),
    }
}

/// Every number atom in the first `k` of `items` holds a float literal.
pub open spec fn numbers_in_items_are_literals(items: Seq<SExprV>, k: int) -> bool
    decreases items, k,
{
    if k <= 0 || k > items.len() {
        true
    } else {
        numbers_in_items_are_literals(items, k - 1) && numbers_in_sexpr_are_literals(items[k - 1])
    }
}

/// The per-item reading of `numbers_in_items_are_literals`.
pub proof fn lemma_items_literals(items: Seq<SExprV>, k: int)
    requires
        0 <= k <= items.len(),
    ensures
        numbers_in_items_are_literals(items, k) <==> forall|m: int|
            0 <= m < k ==> #[trigger] numbers_in_sexpr_are_literals(items[m]),
    decreases k,
{
    if k > 0 {
        lemma_items_literals(items, k - 1);
        if forall|m: int| 0 <= m < k ==> #[trigger] numbers_in_sexpr_are_literals(items[m]) {
            assert(numbers_in_sexpr_are_literals(items[k - 1]));
        }
    }
}

/// Number atoms come from number tokens.
pub proof fn lemma_parse_numbers_are_literals(t: Seq<TokenV>, i: int)
    requires
        numbers_are_literals(t),
    ensures
        parse_at(t, i) matches Ok((e, j)) ==> numbers_in_sexpr_are_literals(e),
        parse_items(t, i) matches Ok((items, j)) ==> forall|k: int|
            0 <= k < items.len() ==> #[trigger] numbers_in_sexpr_are_literals(items[k]),
    decreases t.len() - i,
{
    if 0 <= i < t.len() {
        assert(t[i] matches TokenV::Number(x) ==> float_literal(x));
        if t[i] is LParen {
            lemma_parse_numbers_are_literals(t, i + 1);
            if let Ok((items, j)) = parse_items(t, i + 1) {
                assert(forall|k: int|
                    0 <= k < items.len() ==> #[trigger] numbers_in_sexpr_are_literals(items[k]));
                lemma_items_literals(items, items.len() as int);
                assert(numbers_in_sexpr_are_literals(SExprV::List(items)));
            }
        }
        if let Ok((e, j)) = parse_at(t, i) {
            assert(numbers_in_sexpr_are_literals(e));
        }
        if !(t[i] is RParen) {
            lemma_parse_progress(t, i);
            if let Ok((e, j)) = parse_at(t, i) {
                lemma_parse_numbers_are_literals(t, j);
                if let Ok((rest, k)) = parse_items(t, j) {
                    let items = seq![e] + rest;
                    assert forall|m: int| 0 <= m < items.len() implies #[trigger] numbers_in_sexpr_are_literals(
                        items[m],
                    ) by {
                        if m > 0 {
                            assert(items[m] == rest[m - 1]);
                            assert(numbers_in_sexpr_are_literals(rest[m - 1]));
                        } else {
                            assert(items[0] == e);
                        }
                    }
                }
            }
        }
    }
}

/// Items parsed so far, before the items still to parse.
pub open spec fn prepend_items(
    done: Seq<SExprV>,
    r: Result<(Seq<SExprV>, int), ErrorKindV>,
) -> Result<(Seq<SExprV>, int), ErrorKindV> {
    match r {
        Ok((rest, k)) => Ok((done + rest, k)),
        Err(k) => Err(k),
    }
}

/// Builds s-expressions from tokens. Every error carries the line and column
/// that the parser was made with and an empty snippet. After an error the
/// parser has no current token.
pub struct Parser {
    tokens: Vec<Token>,
    /// Index of the current token.
    pos: usize,
    /// The current token has been taken: there is none until the parser
    /// moves on.
    taken: bool,
    line: usize,
    column: usize,
}

impl Parser {
    /// The tokens.
    pub closed spec fn token_seq(&self) -> Seq<TokenV> {
        tokens_view(self.tokens@)
    }

    /// The index of the current token, or the number of tokens if there is
    /// no current token.
    pub closed spec fn cursor(&self) -> int {
        if self.taken || self.pos >= self.tokens@.len() {
            self.tokens@.len() as int
        } else {
            self.pos as int
        }
    }

    /// The line that errors carry.
    pub closed spec fn line_at(&self) -> usize {
        self.line
    }

    /// The column that errors carry.
    pub closed spec fn column_at(&self) -> usize {
        self.column
    }

    pub closed spec fn inv(&self) -> bool {
        self.pos <= self.tokens@.len()
    }

    /// The error of kind `kind` that this parser reports.
    pub open spec fn error_of(&self, kind: ErrorKindV) -> ParseErrorV {
        ParseErrorV {
            kind,
            line: self.line_at(),
            column: self.column_at(),
            snippet: Seq::empty(),
        }
    }

    /// A parser at the first of `tokens`; its errors carry `line` and `col`.
    pub fn from_tokens(tokens: Vec<Token>, line: usize, col: usize) -> (p: Self)
        ensures
            p.inv(),
            p.token_seq() == tokens_view(tokens@),
            p.cursor() == 0,
            p.line_at() == line,
            p.column_at() == col,
    {
        Self { tokens, pos: 0, taken: false, line, column: col }
    }

    /// Parses one s-expression from the current token on (see `parse_at`)
    /// and moves past it; after an error there is no current token.
    pub fn parse(&mut self) -> (res: ParseResult<SExpr>)
        requires
            old(self).inv(),
        ensures
            final(self).inv(),
            final(self).token_seq() == old(self).token_seq(),
            final(self).line_at() == old(self).line_at(),
            final(self).column_at() == old(self).column_at(),
            match parse_at(old(self).token_seq(), old(self).cursor()) {
                Ok((e, j)) => res matches Ok(x) && x@ == e && final(self).cursor() == j,
                Err(k) => res matches Err(x) && x@ == old(self).error_of(k) && final(self).cursor()
                    == final(self).token_seq().len(),
            },
    {
        self.skip_to_next();
        self.parse_expr()
    }

    /// Whether every token has been read: there is no current token.
    pub fn at_end(&self) -> (r: bool)
        requires
            self.inv(),
        ensures
            r == (self.cursor() == self.token_seq().len()),
    {
        self.taken || self.pos >= self.tokens.len()
    }

    fn parse_expr(&mut self) -> (res: ParseResult<SExpr>)
        requires
            old(self).inv(),
        ensures
            final(self).inv(),
            final(self).tokens == old(self).tokens,
            final(self).line == old(self).line,
            final(self).column == old(self).column,
            match parse_at(old(self).token_seq(), old(self).cursor()) {
                Ok((e, j)) => res matches Ok(x) && x@ == e && final(self).cursor() == j
                    && !final(self).taken,
                Err(k) => res matches Err(x) && x@ == old(self).error_of(k) && final(self).cursor()
                    == final(self).token_seq().len(),
            },
        decreases old(self).tokens@.len() - old(self).pos, if old(self).taken { 0int } else { 1int },
    {
        let ghost t = self.token_seq();
        let start = self.pos;
        if self.taken || self.pos >= self.tokens.len() {
            self.taken = true;
            return Err(self.error(ErrorKind::UnexpectedEof));
        }
        self.taken = true;
        match &self.tokens[self.pos] {
            Token::LParen => {
                let mut list: Vec<SExpr> = Vec::with_capacity(8);
                proof {
                    assert(t[start as int] == self.tokens@[start as int]@);
                }
                self.advance();
                proof {
                    lemma_parse_progress(t, start + 1);
                }
                loop
                    invariant
                        self.inv(),
                        self.tokens == old(self).tokens,
                        self.line == old(self).line,
                        self.column == old(self).column,
                        t == self.token_seq(),
                        start < self.pos,
                        start == old(self).pos,
                        !old(self).taken,
                        !self.taken,
                        t[start as int] == TokenV::LParen,
                        parse_items(t, start + 1) == prepend_items(
                            items_view(list@),
                            parse_items(t, self.pos as int),
                        ),
                    ensures
                        self.inv(),
                        self.tokens == old(self).tokens,
                        self.line == old(self).line,
                        self.column == old(self).column,
                        t == self.token_seq(),
                        start < self.pos,
                        !self.taken,
                        parse_items(t, start + 1) == prepend_items(
                            items_view(list@),
                            parse_items(t, self.pos as int),
                        ),
                        self.pos >= self.tokens@.len() || self.tokens@[self.pos as int] is RParen,
                    decreases self.tokens@.len() - self.pos,
                {
                    if self.pos >= self.tokens.len() {
                        break ;
                    }
                    if let Token::RParen = &self.tokens[self.pos] {
                        break ;
                    }
                    let ghost p = self.pos as int;
                    proof {
                        lemma_parse_progress(t, p);
                    }
                    match self.parse_expr() {
                        Ok(e) => {
                            let ghost prev = list@;
                            list.push(e);
                            proof {
                                assert(items_view(list@) =~= items_view(prev) + seq![e@]);
                                match parse_items(t, self.pos as int) {
                                    Ok((rest, k)) => {
                                        assert(items_view(prev) + (seq![e@] + rest) =~= items_view(
                                            list@,
                                        ) + rest);
                                    },
                                    Err(k) => {},
                                }
                            }
                        },
                        Err(e) => {
                            proof {
                                assert(!(t[p] is RParen));
                                assert(parse_at(t, p) is Err);
                                assert(parse_items(t, p) == Err::<(Seq<SExprV>, int), ErrorKindV>(
                                    parse_at(t, p)->Err_0,
                                ));
                            }
                            return Err(e);
                        },
                    }
                    self.skip_to_next();
                }
                if self.pos < self.tokens.len() {
                    self.advance();
                    proof {
                        lemma_list_view(list);
                    }
                    Ok(SExpr::List(list))
                } else {
                    Err(self.error(ErrorKind::MismatchedParens))
                }
            },
            Token::Number(n) => {
                let n = n.clone();
                self.advance();
                Ok(SExpr::Atom(Atom::Number(n)))
            },
            Token::Symbol(s) => {
                let s = s.clone();
                self.advance();
                Ok(SExpr::Atom(Atom::Symbol(s)))
            },
            Token::RParen => Err(self.error(ErrorKind::UnexpectedChar('?'))),
        }
    }

    /// Moves to the next token.
    fn advance(&mut self)
        requires
            old(self).pos < old(self).tokens.len(),
        ensures
            final(self).pos == old(self).pos + 1,
            !final(self).taken,
            final(self).tokens == old(self).tokens,
            final(self).line == old(self).line,
            final(self).column == old(self).column,
    {
        self.pos = self.pos + 1;
        self.taken = false;
    }

    /// Nothing to skip: the lexer leaves no blanks or comments among the
    /// tokens.
    fn skip_to_next(&mut self)
        ensures
            *final(self) == *old(self),
    {
    }

    /// The error of kind `kind` at this parser's line and column.
    fn error(&self, kind: ErrorKind) -> (e: ParseError)
        ensures
            e@ == self.error_of(kind@),
    {
        ParseError { kind, line: self.line, column: self.column, snippet: String::new() }
    }
}

} // verus!
