//! The lexer: from the characters of an input to tokens.
use vstd::prelude::*;
use crate::func::Numeral;
use crate::parser::error::{ErrorKind, ErrorKindV, ParseError, ParseErrorV, ParseResult};
use crate::text::{is_alphabetic, char_is_alphabetic, chars_of, is_ascii_digit, is_digit, push_char, string_from_chars};

verus! {

/// A token of the input.
///
/// `==` compares numbers by their text, not by their value: `1` and `1.0`,
/// or `0` and `-0`, are different numerals of the same number.
#[derive(Debug, PartialEq)]
pub enum Token {
    LParen,
    RParen,
    Symbol(String),
    /// A decimal literal; its text is always one that `str::parse::<f32>`
    /// accepts.
    Number(Numeral),
}

/// `Token` with its strings taken as character sequences.
pub enum TokenV {
    LParen,
    RParen,
    Symbol(Seq<char>),
    Number(Seq<char>),
}

impl View for Token {
    type V = TokenV;

    open spec fn view(&self) -> TokenV {
        match self {
            Token::LParen => TokenV::LParen,
            Token::RParen => TokenV::RParen,
            Token::Symbol(s) => TokenV::Symbol(s@),
            Token::Number(n) => TokenV::Number(n@),
        }
    }
}

impl Clone for Token {
    fn clone(&self) -> (r: Token)
        ensures
            r@ == self@,
    {
        match self {
            Token::LParen => Token::LParen,
            Token::RParen => Token::RParen,
            Token::Symbol(s) => Token::Symbol(s.clone()),
            Token::Number(n) => Token::Number(n.clone()),
        }
    }
}

/// The views of a sequence of tokens.
pub open spec fn tokens_view(ts: Seq<Token>) -> Seq<TokenV> {
    ts.map_values(|t: Token| t@)
}

/// Characters that may begin a symbol.
pub open spec fn symbol_start(c: char) -> bool {
    is_alphabetic(c) || c == '_' || c == '+' || c == '*' || c == '/' || c == '=' || c == '!'
        || c == '<' || c == '>' || c == '?'
}

/// Characters that may continue a symbol.
pub open spec fn symbol_char(c: char) -> bool {
    symbol_start(c) || is_digit(c) || c == '-' || c == '.'
}

/// Classes of characters that the lexer consumes in runs.
#[derive(Clone, Copy)]
pub enum CharClass {
    Digit,
    SymbolChar,
    NotNewline,
}

pub open spec fn in_class(k: CharClass, c: char) -> bool {
    match k {
        CharClass::Digit => is_digit(c),
        CharClass::SymbolChar => symbol_char(c),
        CharClass::NotNewline => c != '\n',
    }
}

/// The length of the longest run of characters of class `k` in `s` that
/// starts at index `i`.
pub open spec fn span(s: Seq<char>, i: int, k: CharClass) -> nat
    decreases s.len() - i,
{
    if 0 <= i < s.len() && in_class(k, s[i]) {
        1 + span(s, i + 1, k)
    } else {
        0
    }
}

/// 1 if `s[i]` is a sign, else 0.
pub open spec fn sign_len(s: Seq<char>, i: int) -> int {
    if 0 <= i < s.len() && (s[i] == '+' || s[i] == '-') {
        1
    } else {
        0
    }
}

/// Whether `t` is a decimal float literal as `str::parse::<f32>` documents
/// them: `Sign? (Digit+ | Digit+ '.' Digit* | Digit* '.' Digit+) Exp?` with
/// `Exp ::= ('e' | 'E') Sign? Digit+`.
pub open spec fn float_literal(t: Seq<char>) -> bool {
    let a = sign_len(t, 0);
    let b = a + span(t, a, CharClass::Digit);
    let has_dot = b < t.len() && t[b] == '.';
    let c = if has_dot { b + 1 + span(t, b + 1, CharClass::Digit) } else { b };
    let frac = if has_dot { c - b - 1 } else { 0 };
    &&& (b - a) + frac >= 1
    &&& (c == t.len() || ((t[c] == 'e' || t[c] == 'E') && ({
        let d = c + 1 + sign_len(t, c + 1);
        let e = d + span(t, d, CharClass::Digit);
        e == t.len() && e > d
    })))
}

/// Where the numeral that starts at `i` ends: an optional `-`, digits, an
/// optional `.` with digits, and an optional exponent marker `e`/`E` with an
/// optional sign and digits.
pub open spec fn numeral_end(s: Seq<char>, i: int) -> int {
    let a = if 0 <= i < s.len() && s[i] == '-' { i + 1 } else { i };
    let b = a + span(s, a, CharClass::Digit);
    let c = if 0 <= b < s.len() && s[b] == '.' { b + 1 + span(s, b + 1, CharClass::Digit) } else { b };
    if 0 <= c < s.len() && (s[c] == 'e' || s[c] == 'E') {
        let d = c + 1 + sign_len(s, c + 1);
        d + span(s, d, CharClass::Digit)
    } else {
        c
    }
}

/// Whether a numeral starts at `i`: a digit or `.`, or `-` followed by one.
pub open spec fn numeral_starts(s: Seq<char>, i: int) -> bool {
    0 <= i < s.len() && (is_digit(s[i]) || s[i] == '.' || (s[i] == '-' && i + 1 < s.len() && (
    is_digit(s[i + 1]) || s[i + 1] == '.')))
}

/// The range `[b, e)` of the `k`-th line of `s` (counting from the line that
/// starts at `i`) as `str::lines` gives it: lines end at `\n`, a `\r` before
/// that `\n` is dropped, and a final empty line after a last `\n` is no line.
pub open spec fn line_range(s: Seq<char>, i: int, k: nat) -> Option<(int, int)>
    decreases s.len() - i,
{
    if i < 0 || i >= s.len() {
        None
    } else {
        let j = i + span(s, i, CharClass::NotNewline);
        if k == 0 {
            if j < s.len() && j > i && s[j - 1] == '\r' {
                Some((i, j - 1))
            } else {
                Some((i, j))
            }
        } else if j >= s.len() {
            None
        } else {
            line_range(s, j + 1, (k - 1) as nat)
        }
    }
}

/// The text shown with an error at `line`, `col`: the first `col + 10`
/// characters of that line of `s`, or nothing if there is no such line.
pub open spec fn snippet_of(s: Seq<char>, line: int, col: int) -> Seq<char> {
    match line_range(s, 0, (line - 1) as nat) {
        Some((b, e)) => if e - b <= col + 10 {
            s.subrange(b, e)
        } else {
            s.subrange(b, b + col + 10)
        },
        None => Seq::empty(),
    }
}

/// Tokens, with the line and column reached after the last character, or the
/// error that stopped lexing.
pub type LexResult = Result<(Seq<TokenV>, int, int), ParseErrorV>;

pub open spec fn prepend_tokens(ts: Seq<TokenV>, r: LexResult) -> LexResult {
    match r {
        Ok((rest, l, c)) => Ok((ts + rest, l, c)),
        Err(e) => Err(e),
    }
}

/// Lexing `s` from index `i`, at line `line` and column `col`.
///
/// Blanks, tabs and carriage returns are skipped; a newline starts the next
/// line at column 1; `;` starts a comment that runs to the end of the line.
/// Parentheses are tokens. A numeral (see `numeral_starts`) is a `Number`
/// token when its text is a float literal, else an `InvalidNumber` error at
/// its first character. A `-` not followed by a digit or `.`, and any
/// character of `symbol_start`, begin a maximal run of `symbol_char`s, which
/// is a `Symbol`. Any other character is an `UnexpectedChar` error. Every
/// character moves the column by one.
pub open spec fn lex(s: Seq<char>, i: int, line: int, col: int) -> LexResult
    decreases s.len() - i,
{
    if i < 0 || i >= s.len() {
        Ok((Seq::empty(), line, col))
    } else {
        let ch = s[i];
        if ch == ' ' || ch == '\t' || ch == '\r' {
            lex(s, i + 1, line, col + 1)
        } else if ch == '\n' {
            lex(s, i + 1, line + 1, 1)
        } else if ch == ';' {
            let n = span(s, i, CharClass::NotNewline);
            proof {
                lemma_span_bound(s, i, CharClass::NotNewline);
            }
            lex(s, i + n, line, col + n)
        } else if ch == '(' {
            prepend_tokens(seq![TokenV::LParen], lex(s, i + 1, line, col + 1))
        } else if ch == ')' {
            prepend_tokens(seq![TokenV::RParen], lex(s, i + 1, line, col + 1))
        } else if numeral_starts(s, i) {
            let e = numeral_end(s, i);
            let t = s.subrange(i, e);
            proof {
                lemma_numeral_end_progress(s, i);
            }
            if float_literal(t) {
                prepend_tokens(seq![TokenV::Number(t)], lex(s, e, line, col + (e - i)))
            } else {
                Err(
                    ParseErrorV {
                        kind: ErrorKindV::InvalidNumber(t),
                        line: line as usize,
                        column: col as usize,
                        snippet: snippet_of(s, line, col + (e - i)),
                    },
                )
            }
        } else if ch == '-' || symbol_start(ch) {
            let n = span(s, i, CharClass::SymbolChar);
            proof {
                lemma_span_bound(s, i, CharClass::SymbolChar);
            }
            prepend_tokens(
                seq![TokenV::Symbol(s.subrange(i, i + n))],
                lex(s, i + n, line, col + n),
            )
        } else {
            Err(
                ParseErrorV {
                    kind: ErrorKindV::UnexpectedChar(ch),
                    line: line as usize,
                    column: col as usize,
                    snippet: snippet_of(s, line, col),
                },
            )
        }
    }
}

/// Where lexing `s` from index `i` (at line `line`, column `col`) stops:
/// the index, line and column after the last character it consumes. That is
/// the end of the input, or, at an error, the first character after an
/// invalid numeral, or the unexpected character.
pub open spec fn lex_end(s: Seq<char>, i: int, line: int, col: int) -> (int, int, int)
    decreases s.len() - i,
{
    if i < 0 || i >= s.len() {
        (i, line, col)
    } else {
        let ch = s[i];
        if ch == ' ' || ch == '\t' || ch == '\r' {
            lex_end(s, i + 1, line, col + 1)
        } else if ch == '\n' {
            lex_end(s, i + 1, line + 1, 1)
        } else if ch == ';' {
            let n = span(s, i, CharClass::NotNewline);
            proof {
                lemma_span_bound(s, i, CharClass::NotNewline);
            }
            lex_end(s, i + n, line, col + n)
        } else if ch == '(' || ch == ')' {
            lex_end(s, i + 1, line, col + 1)
        } else if numeral_starts(s, i) {
            let e = numeral_end(s, i);
            proof {
                lemma_numeral_end_progress(s, i);
            }
            if float_literal(s.subrange(i, e)) {
                lex_end(s, e, line, col + (e - i))
            } else {
                (e, line, col + (e - i))
            }
        } else if ch == '-' || symbol_start(ch) {
            let n = span(s, i, CharClass::SymbolChar);
            proof {
                lemma_span_bound(s, i, CharClass::SymbolChar);
            }
            lex_end(s, i + n, line, col + n)
        } else {
            (i, line, col)
        }
    }
}

/// A numeral ends after it starts.
pub proof fn lemma_numeral_end_progress(s: Seq<char>, i: int)
    requires
        numeral_starts(s, i),
    ensures
        i < numeral_end(s, i) <= s.len(),
{
    let a = if 0 <= i < s.len() && s[i] == '-' { i + 1 } else { i };
    lemma_span_bound(s, a, CharClass::Digit);
    let b = a + span(s, a, CharClass::Digit);
    lemma_span_bound(s, b + 1, CharClass::Digit);
    let c = if 0 <= b < s.len() && s[b] == '.' { b + 1 + span(s, b + 1, CharClass::Digit) } else { b };
    let d = c + 1 + sign_len(s, c + 1);
    lemma_span_bound(s, d, CharClass::Digit);
}

/// A run never passes the end of the sequence.
pub proof fn lemma_span_bound(s: Seq<char>, i: int, k: CharClass)
    ensures
        0 <= i <= s.len() ==> i + span(s, i, k) <= s.len(),
        !(0 <= i < s.len()) ==> span(s, i, k) == 0,
    decreases s.len() - i,
{
    if 0 <= i < s.len() && in_class(k, s[i]) {
        lemma_span_bound(s, i + 1, k);
    }
}

/// The line reached after the characters of `s` from index `i` on, starting
/// at line `line`: one line further for each newline.
pub open spec fn line_after(s: Seq<char>, i: int, line: int) -> int
    decreases s.len() - i,
{
    if i < 0 || i >= s.len() {
        line
    } else if s[i] == '\n' {
        line_after(s, i + 1, line + 1)
    } else {
        line_after(s, i + 1, line)
    }
}

/// The column reached after the characters of `s` from index `i` on,
/// starting at column `col`: a newline goes back to column 1, any other
/// character one column further.
pub open spec fn column_after(s: Seq<char>, i: int, col: int) -> int
    decreases s.len() - i,
{
    if i < 0 || i >= s.len() {
        col
    } else if s[i] == '\n' {
        column_after(s, i + 1, 1)
    } else {
        column_after(s, i + 1, col + 1)
    }
}

/// Every character of a run is of the run's class.
pub proof fn lemma_span_all(s: Seq<char>, i: int, k: CharClass)
    requires
        0 <= i,
    ensures
        forall|j: int| i <= j < i + span(s, i, k) ==> #[trigger] in_class(k, s[j]),
    decreases s.len() - i,
{
    if 0 <= i < s.len() && in_class(k, s[i]) {
        lemma_span_all(s, i + 1, k);
    }
}

/// Characters other than newlines move the column and keep the line.
pub proof fn lemma_no_newline_run(s: Seq<char>, i: int, n: int, line: int, col: int)
    requires
        0 <= i,
        0 <= n,
        i + n <= s.len(),
        forall|j: int| i <= j < i + n ==> s[j] != '\n',
    ensures
        line_after(s, i, line) == line_after(s, i + n, line),
        column_after(s, i, col) == column_after(s, i + n, col + n),
    decreases n,
{
    if n > 0 {
        lemma_no_newline_run(s, i + 1, n - 1, line, col + 1);
    }
}

/// A numeral holds no newline.
pub proof fn lemma_numeral_no_newline(s: Seq<char>, i: int)
    requires
        numeral_starts(s, i),
    ensures
        forall|j: int| i <= j < numeral_end(s, i) ==> s[j] != '\n',
{
    lemma_numeral_end_progress(s, i);
    let a = if 0 <= i < s.len() && s[i] == '-' { i + 1 } else { i };
    lemma_span_all(s, a, CharClass::Digit);
    lemma_span_bound(s, a, CharClass::Digit);
    let b = a + span(s, a, CharClass::Digit);
    lemma_span_all(s, b + 1, CharClass::Digit);
    lemma_span_bound(s, b + 1, CharClass::Digit);
    let c = if 0 <= b < s.len() && s[b] == '.' { b + 1 + span(s, b + 1, CharClass::Digit) } else { b };
    let d = c + 1 + sign_len(s, c + 1);
    lemma_span_all(s, d, CharClass::Digit);
    lemma_span_bound(s, d, CharClass::Digit);
    assert forall|j: int| i <= j < numeral_end(s, i) implies s[j] != '\n' by {
        if a <= j < b {
            assert(in_class(CharClass::Digit, s[j]));
        } else if b + 1 <= j < c {
            assert(in_class(CharClass::Digit, s[j]));
        } else if d <= j < numeral_end(s, i) {
            assert(in_class(CharClass::Digit, s[j]));
        }
    }
}

/// Lexing counts lines and columns over every character it reads: on
/// success it ends at the line and column that `line_after` and
/// `column_after` give for the whole rest of the input.
pub proof fn lemma_lex_position(s: Seq<char>, i: int, line: int, col: int)
    requires
        0 <= i <= s.len(),
    ensures
        lex(s, i, line, col) matches Ok((ts, l, c)) ==> l == line_after(s, i, line) && c
            == column_after(s, i, col),
    decreases s.len() - i,
{
    if i < s.len() {
        let ch = s[i];
        if ch == ' ' || ch == '\t' || ch == '\r' {
            lemma_lex_position(s, i + 1, line, col + 1);
        } else if ch == '\n' {
            lemma_lex_position(s, i + 1, line + 1, 1);
        } else if ch == ';' {
            let n = span(s, i, CharClass::NotNewline);
            lemma_span_bound(s, i, CharClass::NotNewline);
            lemma_span_all(s, i, CharClass::NotNewline);
            assert forall|j: int| i <= j < i + n implies s[j] != '\n' by {
                assert(in_class(CharClass::NotNewline, s[j]));
            }
            lemma_no_newline_run(s, i, n as int, line, col);
            lemma_lex_position(s, i + n, line, col + n);
        } else if ch == '(' || ch == ')' {
            lemma_lex_position(s, i + 1, line, col + 1);
        } else if numeral_starts(s, i) {
            let e = numeral_end(s, i);
            lemma_numeral_end_progress(s, i);
            lemma_numeral_no_newline(s, i);
            lemma_no_newline_run(s, i, e - i, line, col);
            lemma_lex_position(s, e, line, col + (e - i));
        } else if ch == '-' || symbol_start(ch) {
            let n = span(s, i, CharClass::SymbolChar);
            lemma_span_bound(s, i, CharClass::SymbolChar);
            lemma_span_all(s, i, CharClass::SymbolChar);
            assert forall|j: int| i <= j < i + n implies s[j] != '\n' by {
                assert(in_class(CharClass::SymbolChar, s[j]));
            }
            lemma_no_newline_run(s, i, n as int, line, col);
            lemma_lex_position(s, i + n, line, col + n);
        }
    }
}

/// Every `Number` token holds a float literal.
pub open spec fn numbers_are_literals(ts: Seq<TokenV>) -> bool {
    forall|k: int|
        0 <= k < ts.len() ==> (#[trigger] ts[k] matches TokenV::Number(t) ==> float_literal(t))
}

/// The lexer only makes `Number` tokens of float literals, which
/// `str::parse::<f32>` accepts.
pub proof fn lemma_lex_numbers_are_literals(s: Seq<char>, i: int, line: int, col: int)
    ensures
        lex(s, i, line, col) matches Ok((ts, l, c)) ==> numbers_are_literals(ts),
    decreases s.len() - i,
{
    if 0 <= i < s.len() {
        let ch = s[i];
        if ch == ' ' || ch == '\t' || ch == '\r' {
            lemma_lex_numbers_are_literals(s, i + 1, line, col + 1);
        } else if ch == '\n' {
            lemma_lex_numbers_are_literals(s, i + 1, line + 1, 1);
        } else if ch == ';' {
            let n = span(s, i, CharClass::NotNewline);
            lemma_span_bound(s, i, CharClass::NotNewline);
            lemma_lex_numbers_are_literals(s, i + n, line, col + n);
        } else if ch == '(' || ch == ')' {
            lemma_lex_numbers_are_literals(s, i + 1, line, col + 1);
            lemma_prepend_literals(
                if ch == '(' { TokenV::LParen } else { TokenV::RParen },
                lex(s, i + 1, line, col + 1),
            );
        } else if numeral_starts(s, i) {
            let e = numeral_end(s, i);
            lemma_numeral_end_progress(s, i);
            lemma_lex_numbers_are_literals(s, e, line, col + (e - i));
            if float_literal(s.subrange(i, e)) {
                lemma_prepend_literals(
                    TokenV::Number(s.subrange(i, e)),
                    lex(s, e, line, col + (e - i)),
                );
            }
        } else if ch == '-' || symbol_start(ch) {
            let n = span(s, i, CharClass::SymbolChar);
            lemma_span_bound(s, i, CharClass::SymbolChar);
            lemma_lex_numbers_are_literals(s, i + n, line, col + n);
            lemma_prepend_literals(TokenV::Symbol(s.subrange(i, i + n)), lex(s, i + n, line, col + n));
        }
    }
}

proof fn lemma_prepend_literals(t: TokenV, r: LexResult)
    requires
        t matches TokenV::Number(x) ==> float_literal(x),
        r matches Ok((ts, l, c)) ==> numbers_are_literals(ts),
    ensures
        prepend_tokens(seq![t], r) matches Ok((ts, l, c)) ==> numbers_are_literals(ts),
{
    if let Ok((rest, l, c)) = r {
        let ts = seq![t] + rest;
        assert forall|k: int| 0 <= k < ts.len() implies (#[trigger] ts[k] matches TokenV::Number(
            x,
        ) ==> float_literal(x)) by {
            if k > 0 {
                assert(ts[k] == rest[k - 1]);
            }
        }
    }
}

/// The tokens that lexing gives, if it succeeds.
pub open spec fn lexed_tokens(r: LexResult) -> Seq<TokenV> {
    match r {
        Ok((ts, l, c)) => ts,
        Err(e) => Seq::empty(),
    }
}

pub proof fn lemma_prepend_tokens_same(t: TokenV, r1: LexResult, r2: LexResult)
    requires
        r1 is Ok == r2 is Ok,
        lexed_tokens(r1) == lexed_tokens(r2),
    ensures
        prepend_tokens(seq![t], r1) is Ok == prepend_tokens(seq![t], r2) is Ok,
        lexed_tokens(prepend_tokens(seq![t], r1)) == lexed_tokens(prepend_tokens(seq![t], r2)),
{
}

/// Which tokens lexing gives, and whether it succeeds, does not depend on
/// the line and column it starts at.
pub proof fn lemma_lex_tokens_ignore_position(
    s: Seq<char>,
    i: int,
    l1: int,
    c1: int,
    l2: int,
    c2: int,
)
    ensures
        lex(s, i, l1, c1) is Ok == lex(s, i, l2, c2) is Ok,
        lexed_tokens(lex(s, i, l1, c1)) == lexed_tokens(lex(s, i, l2, c2)),
    decreases s.len() - i,
{
    if 0 <= i < s.len() {
        let ch = s[i];
        if ch == ' ' || ch == '\t' || ch == '\r' {
            lemma_lex_tokens_ignore_position(s, i + 1, l1, c1 + 1, l2, c2 + 1);
        } else if ch == '\n' {
            lemma_lex_tokens_ignore_position(s, i + 1, l1 + 1, 1, l2 + 1, 1);
        } else if ch == ';' {
            let n = span(s, i, CharClass::NotNewline);
            lemma_span_bound(s, i, CharClass::NotNewline);
            lemma_lex_tokens_ignore_position(s, i + n, l1, c1 + n, l2, c2 + n);
        } else if ch == '(' || ch == ')' {
            lemma_lex_tokens_ignore_position(s, i + 1, l1, c1 + 1, l2, c2 + 1);
            lemma_prepend_tokens_same(
                if ch == '(' { TokenV::LParen } else { TokenV::RParen },
                lex(s, i + 1, l1, c1 + 1),
                lex(s, i + 1, l2, c2 + 1),
            );
        } else if numeral_starts(s, i) {
            let e = numeral_end(s, i);
            lemma_numeral_end_progress(s, i);
            lemma_lex_tokens_ignore_position(s, e, l1, c1 + (e - i), l2, c2 + (e - i));
            lemma_prepend_tokens_same(
                TokenV::Number(s.subrange(i, e)),
                lex(s, e, l1, c1 + (e - i)),
                lex(s, e, l2, c2 + (e - i)),
            );
        } else if ch == '-' || symbol_start(ch) {
            let n = span(s, i, CharClass::SymbolChar);
            lemma_span_bound(s, i, CharClass::SymbolChar);
            lemma_lex_tokens_ignore_position(s, i + n, l1, c1 + n, l2, c2 + n);
            lemma_prepend_tokens_same(
                TokenV::Symbol(s.subrange(i, i + n)),
                lex(s, i + n, l1, c1 + n),
                lex(s, i + n, l2, c2 + n),
            );
        }
    }
}

/// A run in `p + s` that starts inside `s` is the run in `s`.
pub proof fn lemma_span_shift(p: Seq<char>, s: Seq<char>, i: int, k: CharClass)
    requires
        0 <= i,
    ensures
        span(p + s, p.len() + i, k) == span(s, i, k),
    decreases s.len() - i,
{
    if i < s.len() {
        assert((p + s)[p.len() + i] == s[i]);
        lemma_span_shift(p, s, i + 1, k);
    }
}

/// A numeral in `p + s` that starts inside `s` is the numeral in `s`.
pub proof fn lemma_numeral_shift(p: Seq<char>, s: Seq<char>, i: int)
    requires
        0 <= i,
    ensures
        numeral_starts(p + s, p.len() + i) == numeral_starts(s, i),
        numeral_starts(s, i) ==> numeral_end(p + s, p.len() + i) == p.len() + numeral_end(s, i),
{
    let ps = p + s;
    let q = p.len() as int;
    if i < s.len() {
        assert(ps[q + i] == s[i]);
    }
    if i + 1 < s.len() {
        assert(ps[q + i + 1] == s[i + 1]);
    }
    if numeral_starts(s, i) {
        let a = if s[i] == '-' { i + 1 } else { i };
        lemma_span_shift(p, s, a, CharClass::Digit);
        lemma_span_bound(s, a, CharClass::Digit);
        let b = a + span(s, a, CharClass::Digit);
        if b < s.len() {
            assert(ps[q + b] == s[b]);
        }
        lemma_span_shift(p, s, b + 1, CharClass::Digit);
        lemma_span_bound(s, b + 1, CharClass::Digit);
        let c = if 0 <= b < s.len() && s[b] == '.' { b + 1 + span(s, b + 1, CharClass::Digit) } else { b };
        if c < s.len() {
            assert(ps[q + c] == s[c]);
        }
        if c + 1 < s.len() {
            assert(ps[q + c + 1] == s[c + 1]);
        }
        let d = c + 1 + sign_len(s, c + 1);
        lemma_span_shift(p, s, d, CharClass::Digit);
    }
}

/// Lexing from a point of `s` goes the same way whatever text comes before
/// `s`, but for the snippets of errors.
pub proof fn lemma_lex_shift(p: Seq<char>, s: Seq<char>, i: int, line: int, col: int)
    requires
        0 <= i,
    ensures
        lex(p + s, p.len() + i, line, col) is Ok == lex(s, i, line, col) is Ok,
        lex(s, i, line, col) is Ok ==> lex(p + s, p.len() + i, line, col) == lex(s, i, line, col),
    decreases s.len() - i,
{
    let ps = p + s;
    let q = p.len() as int;
    if i < s.len() {
        let ch = s[i];
        assert(ps[q + i] == ch);
        lemma_numeral_shift(p, s, i);
        if ch == ' ' || ch == '\t' || ch == '\r' {
            lemma_lex_shift(p, s, i + 1, line, col + 1);
        } else if ch == '\n' {
            lemma_lex_shift(p, s, i + 1, line + 1, 1);
        } else if ch == ';' {
            let n = span(s, i, CharClass::NotNewline);
            lemma_span_bound(s, i, CharClass::NotNewline);
            lemma_span_shift(p, s, i, CharClass::NotNewline);
            lemma_lex_shift(p, s, i + n, line, col + n);
        } else if ch == '(' || ch == ')' {
            lemma_lex_shift(p, s, i + 1, line, col + 1);
        } else if numeral_starts(s, i) {
            let e = numeral_end(s, i);
            lemma_numeral_end_progress(s, i);
            assert(ps.subrange(q + i, q + e) =~= s.subrange(i, e));
            lemma_lex_shift(p, s, e, line, col + (e - i));
        } else if ch == '-' || symbol_start(ch) {
            let n = span(s, i, CharClass::SymbolChar);
            lemma_span_bound(s, i, CharClass::SymbolChar);
            lemma_span_shift(p, s, i, CharClass::SymbolChar);
            assert(ps.subrange(q + i, q + i + n) =~= s.subrange(i, i + n));
            lemma_lex_shift(p, s, i + n, line, col + n);
        }
    } else {
        assert(q + i >= ps.len());
    }
}

/// A blank: a space, a tab, a carriage return or a newline.
pub open spec fn is_blank(c: char) -> bool {
    c == ' ' || c == '\t' || c == '\r' || c == '\n'
}

/// Blanks before `s` change neither whether lexing succeeds nor the tokens
/// it gives.
pub proof fn lemma_lex_leading_blanks(p: Seq<char>, s: Seq<char>)
    requires
        forall|k: int| 0 <= k < p.len() ==> is_blank(#[trigger] p[k]),
    ensures
        lex(p + s, 0, 1, 1) is Ok == lex(s, 0, 1, 1) is Ok,
        lexed_tokens(lex(p + s, 0, 1, 1)) == lexed_tokens(lex(s, 0, 1, 1)),
{
    lemma_skip_blanks(p, s, 0, 1, 1);
    lemma_lex_shift(p, s, 0, 1, 1);
}

proof fn lemma_skip_blanks(p: Seq<char>, s: Seq<char>, i: int, line: int, col: int)
    requires
        0 <= i <= p.len(),
        forall|k: int| 0 <= k < p.len() ==> is_blank(#[trigger] p[k]),
    ensures
        lex(p + s, i, line, col) is Ok == lex(p + s, p.len() as int, 1, 1) is Ok,
        lexed_tokens(lex(p + s, i, line, col)) == lexed_tokens(lex(p + s, p.len() as int, 1, 1)),
    decreases p.len() - i,
{
    let ps = p + s;
    if i < p.len() {
        assert(ps[i] == p[i]);
        assert(is_blank(p[i]));
        if p[i] == '\n' {
            lemma_skip_blanks(p, s, i + 1, line + 1, 1);
        } else {
            lemma_skip_blanks(p, s, i + 1, line, col + 1);
        }
    } else {
        lemma_lex_tokens_ignore_position(ps, i, line, col, 1, 1);
    }
}

/// Adjacent subranges join.
pub proof fn lemma_subrange_concat(s: Seq<char>, i: int, j: int, k: int)
    requires
        0 <= i <= j <= k <= s.len(),
    ensures
        s.subrange(i, j) + s.subrange(j, k) == s.subrange(i, k),
{
    assert(s.subrange(i, j) + s.subrange(j, k) =~= s.subrange(i, k));
}

/// Pushing a token onto the tokens produced so far.
pub proof fn lemma_push_token(prev: Seq<Token>, t: Token, r: LexResult)
    ensures
        prepend_tokens(tokens_view(prev), prepend_tokens(seq![t@], r)) == prepend_tokens(
            tokens_view(prev.push(t)),
            r,
        ),
{
    assert(tokens_view(prev.push(t)) =~= tokens_view(prev) + seq![t@]);
    match r {
        Ok((rest, l, c)) => {
            assert(tokens_view(prev) + (seq![t@] + rest) =~= tokens_view(prev.push(t)) + rest);
        },
        Err(e) => {},
    }
}

/// Whether `c` can begin a symbol.
fn is_symbol_start(c: char) -> (r: bool)
    ensures
        r == symbol_start(c),
{
    char_is_alphabetic(c) || c == '_' || c == '+' || c == '*' || c == '/' || c == '=' || c == '!'
        || c == '<' || c == '>' || c == '?'
}

/// Whether `c` can continue a symbol.
fn is_symbol_char(c: char) -> (r: bool)
    ensures
        r == symbol_char(c),
{
    is_symbol_start(c) || is_ascii_digit(c) || c == '-' || c == '.'
}

fn in_class_exec(k: CharClass, c: char) -> (r: bool)
    ensures
        r == in_class(k, c),
{
    match k {
        CharClass::Digit => is_ascii_digit(c),
        CharClass::SymbolChar => is_symbol_char(c),
        CharClass::NotNewline => c != '\n',
    }
}

/// The end of the run of characters of class `k` in `t` that starts at `i`.
fn run_end(t: &[char], i: usize, k: CharClass) -> (j: usize)
    requires
        i <= t@.len(),
    ensures
        j == i + span(t@, i as int, k),
{
    let mut j = i;
    while j < t.len() && in_class_exec(k, t[j])
        invariant
            i <= j <= t@.len(),
            span(t@, i as int, k) == (j - i) + span(t@, j as int, k),
        decreases t@.len() - j,
    {
        j = j + 1;
    }
    j
}

/// Whether `t` is a decimal float literal (see `float_literal`).
pub fn is_float_literal(t: &[char]) -> (r: bool)
    ensures
        r == float_literal(t@),
{
    proof {
        lemma_span_bound(t@, 0, CharClass::Digit);
        lemma_span_bound(t@, 1, CharClass::Digit);
    }
    let a: usize = if t.len() > 0 && (t[0] == '+' || t[0] == '-') { 1 } else { 0 };
    let b = run_end(t, a, CharClass::Digit);
    let has_dot = b < t.len() && t[b] == '.';
    let c = if has_dot {
        proof {
            lemma_span_bound(t@, b + 1, CharClass::Digit);
        }
        run_end(t, b + 1, CharClass::Digit)
    } else {
        b
    };
    let frac: usize = if has_dot { c - b - 1 } else { 0 };
    if (b - a) + frac == 0 {
        return false;
    }
    if c == t.len() {
        return true;
    }
    if t[c] != 'e' && t[c] != 'E' {
        return false;
    }
    let d: usize = if c + 1 < t.len() && (t[c + 1] == '+' || t[c + 1] == '-') { c + 2 } else { c + 1 };
    proof {
        lemma_span_bound(t@, d as int, CharClass::Digit);
    }
    let e = run_end(t, d, CharClass::Digit);
    e == t.len() && e > d
}

/// Turns an input string into tokens, keeping track of the line and column
/// it has reached.
pub struct Lexer<'a> {
    input: &'a str,
    chars: Vec<char>,
    pos: usize,
    pub line: usize,
    pub column: usize,
}

impl<'a> Lexer<'a> {
    /// The characters of the input.
    pub closed spec fn text(&self) -> Seq<char> {
        self.chars@
    }

    /// How many characters have been consumed.
    pub closed spec fn position(&self) -> int {
        self.pos as int
    }

    pub closed spec fn inv(&self) -> bool {
        &&& self.chars@ == self.input@
        &&& self.pos <= self.chars@.len()
        &&& self.chars@.len() + 11 <= usize::MAX
    }

    /// The value of the field `line`. Outside this module Verus sees the
    /// lexer's fields as hidden (some are private), so contracts speak of
    /// the field through this function, and `line()` reads it.
    pub closed spec fn line_at(&self) -> int {
        self.line as int
    }

    /// The value of the field `column` (read it with `column()`, as for
    /// `line_at`).
    pub closed spec fn column_at(&self) -> int {
        self.column as int
    }

    /// How many characters are left.
    pub closed spec fn remaining(&self) -> int {
        self.text().len() - self.position()
    }

    /// The lexer can go on: its line is at least 1 and neither the line nor
    /// the column can overflow on the rest of the input.
    pub closed spec fn wf(&self) -> bool {
        &&& self.inv()
        &&& 0 <= self.position() <= self.text().len()
        &&& 1 <= self.line
        &&& self.line + self.remaining() <= usize::MAX
        &&& self.column + self.remaining() + 10 <= usize::MAX
    }

    /// A lexer at the start of `input`: line 1, column 1.
    pub fn new(input: &'a str) -> (l: Self)
        requires
            input@.len() + 11 <= usize::MAX,
        ensures
            l.wf(),
            l.text() == input@,
            l.position() == 0,
            l.line_at() == 1,
            l.column_at() == 1,
    {
        Self { input, chars: chars_of(input), pos: 0, line: 1, column: 1 }
    }

    /// The line reached.
    pub fn line(&self) -> (l: usize)
        ensures
            l == self.line_at(),
    {
        self.line
    }

    /// The column reached.
    pub fn column(&self) -> (c: usize)
        ensures
            c == self.column_at(),
    {
        self.column
    }

    /// The next character, if any.
    fn peek(&self) -> (r: Option<char>)
        requires
            self.inv(),
        ensures
            r == (if self.pos < self.chars@.len() {
                Some(self.chars@[self.pos as int])
            } else {
                None
            }),
    {
        if self.pos < self.chars.len() {
            Some(self.chars[self.pos])
        } else {
            None
        }
    }

    /// The character after the next one, if any.
    fn peek_second(&self) -> (r: Option<char>)
        requires
            self.inv(),
        ensures
            r == (if self.pos + 1 < self.chars@.len() {
                Some(self.chars@[self.pos + 1])
            } else {
                None
            }),
    {
        if self.pos + 1 < self.chars.len() {
            Some(self.chars[self.pos + 1])
        } else {
            None
        }
    }

    /// Consumes the next character, moving one column on.
    fn advance(&mut self) -> (r: Option<char>)
        requires
            old(self).wf(),
        ensures
            final(self).wf(),
            final(self).text() == old(self).text(),
            final(self).line == old(self).line,
            old(self).pos < old(self).chars@.len() ==> {
                &&& r == Some(old(self).chars@[old(self).pos as int])
                &&& final(self).pos == old(self).pos + 1
                &&& final(self).column == old(self).column + 1
            },
            old(self).pos >= old(self).chars@.len() ==> r is None && final(self).pos == old(self).pos
                && final(self).column == old(self).column,
    {
        if self.pos < self.chars.len() {
            let c = self.chars[self.pos];
            self.pos = self.pos + 1;
            self.column = self.column + 1;
            Some(c)
        } else {
            None
        }
    }

    /// Consumes a newline: the next line starts at column 1.
    fn advance_line(&mut self)
        requires
            old(self).wf(),
            old(self).pos < old(self).chars@.len(),
        ensures
            final(self).wf(),
            final(self).text() == old(self).text(),
            final(self).pos == old(self).pos + 1,
            final(self).line == old(self).line + 1,
            final(self).column == 1,
    {
        self.pos = self.pos + 1;
        self.line = self.line + 1;
        self.column = 1;
    }

    /// Consumes the run of characters of class `k` that starts here,
    /// appending them to `out`.
    fn take_run(&mut self, k: CharClass, out: &mut Vec<char>)
        requires
            old(self).wf(),
        ensures
            final(self).wf(),
            final(self).text() == old(self).text(),
            final(self).line == old(self).line,
            final(self).pos == old(self).pos + span(old(self).text(), old(self).pos as int, k),
            final(self).column == old(self).column + span(old(self).text(), old(self).pos as int, k),
            final(out)@ == old(out)@ + old(self).text().subrange(old(self).pos as int, final(self).pos as int),
    {
        let ghost s = self.chars@;
        let ghost pos0 = self.pos as int;
        let ghost col0 = self.column as int;
        let ghost out0 = out@;
        loop
            invariant
                self.wf(),
                self.text() == s,
                self.line == old(self).line,
                pos0 <= self.pos <= s.len(),
                self.column == col0 + (self.pos - pos0),
                span(s, pos0, k) == (self.pos - pos0) + span(s, self.pos as int, k),
                out@ == out0 + s.subrange(pos0, self.pos as int),
            ensures
                self.wf(),
                self.text() == s,
                self.line == old(self).line,
                self.pos == pos0 + span(s, pos0, k),
                self.column == col0 + span(s, pos0, k),
                out@ == out0 + s.subrange(pos0, self.pos as int),
            decreases s.len() - self.pos,
        {
            match self.peek() {
                Some(c) => {
                    if in_class_exec(k, c) {
                        self.advance();
                        out.push(c);
                        proof {
                            assert(s.subrange(pos0, self.pos as int) == s.subrange(
                                pos0,
                                self.pos - 1,
                            ).push(c));
                        }
                    } else {
                        break ;
                    }
                },
                None => {
                    break ;
                },
            }
        }
    }

    /// Consumes the next character if it is `c1` or `c2`, appending it to
    /// `out`.
    fn take_char_if(&mut self, c1: char, c2: char, out: &mut Vec<char>) -> (taken: bool)
        requires
            old(self).wf(),
        ensures
            final(self).wf(),
            final(self).text() == old(self).text(),
            final(self).line == old(self).line,
            taken == (old(self).pos < old(self).text().len() && (old(self).text()[old(self).pos as int]
                == c1 || old(self).text()[old(self).pos as int] == c2)),
            taken ==> final(self).pos == old(self).pos + 1 && final(self).column == old(self).column
                + 1,
            !taken ==> final(self).pos == old(self).pos && final(self).column == old(self).column,
            final(out)@ == old(out)@ + old(self).text().subrange(old(self).pos as int, final(self).pos as int),
    {
        match self.peek() {
            Some(c) => {
                if c == c1 || c == c2 {
                    self.advance();
                    out.push(c);
                    proof {
                        assert(self.chars@.subrange(self.pos - 1, self.pos as int) == seq![c]);
                    }
                    true
                } else {
                    proof {
                        assert(self.chars@.subrange(self.pos as int, self.pos as int) =~= Seq::<char>::empty());
                    }
                    false
                }
            },
            None => {
                proof {
                    assert(self.chars@.subrange(self.pos as int, self.pos as int) =~= Seq::<char>::empty());
                }
                false
            },
        }
    }

    /// Consumes a comment, up to (not including) the end of its line.
    fn skip_comment(&mut self)
        requires
            old(self).wf(),
        ensures
            final(self).wf(),
            final(self).text() == old(self).text(),
            final(self).line == old(self).line,
            final(self).pos == old(self).pos + span(old(self).text(), old(self).pos as int, CharClass::NotNewline),
            final(self).column == old(self).column + span(old(self).text(), old(self).pos as int, CharClass::NotNewline),
    {
        let ghost s = self.chars@;
        let ghost pos0 = self.pos as int;
        let ghost col0 = self.column as int;
        loop
            invariant
                self.wf(),
                self.text() == s,
                self.line == old(self).line,
                pos0 <= self.pos <= s.len(),
                self.column == col0 + (self.pos - pos0),
                span(s, pos0, CharClass::NotNewline) == (self.pos - pos0) + span(s, self.pos as int, CharClass::NotNewline),
            ensures
                self.wf(),
                self.text() == s,
                self.line == old(self).line,
                self.pos == pos0 + span(s, pos0, CharClass::NotNewline),
                self.column == col0 + span(s, pos0, CharClass::NotNewline),
            decreases s.len() - self.pos,
        {
            match self.peek() {
                Some(c) => {
                    if c == '\n' {
                        break ;
                    }
                    proof {
                        assert(in_class(CharClass::NotNewline, s[self.pos as int]));
                    }
                    self.advance();
                },
                None => {
                    break ;
                },
            }
        }
    }

    /// The first `column + 10` characters of the current line of the input
    /// (see `snippet_of`).
    fn snippet(&self) -> (r: String)
        requires
            self.wf(),
        ensures
            r@ == snippet_of(self.text(), self.line as int, self.column as int),
    {
        let ghost s = self.chars@;
        let len = self.chars.len();
        let mut start: usize = 0;
        let mut k: usize = self.line - 1;
        loop
            invariant
                self.wf(),
                s == self.chars@,
                len == s.len(),
                start <= len,
                line_range(s, 0, (self.line - 1) as nat) == line_range(s, start as int, k as nat),
            decreases len - start,
        {
            if start >= len {
                return String::new();
            }
            let j = run_end(self.chars.as_slice(), start, CharClass::NotNewline);
            proof {
                lemma_span_bound(s, start as int, CharClass::NotNewline);
            }
            if k == 0 {
                let end = if j < len && j > start && self.chars[j - 1] == '\r' {
                    j - 1
                } else {
                    j
                };
                let avail = end - start;
                let take = if avail <= self.column + 10 {
                    avail
                } else {
                    self.column + 10
                };
                let mut out = String::new();
                let mut p = start;
                while p < start + take
                    invariant
                        start <= p <= start + take,
                        start + take <= len,
                        len == s.len(),
                        s == self.chars@,
                        out@ == s.subrange(start as int, p as int),
                    decreases start + take - p,
                {
                    push_char(&mut out, self.chars[p]);
                    proof {
                        assert(s.subrange(start as int, p + 1) == s.subrange(start as int, p as int).push(
                            s[p as int],
                        ));
                    }
                    p = p + 1;
                }
                return out;
            }
            if j >= len {
                return String::new();
            }
            start = j + 1;
            k = k - 1;
        }
    }

    /// Consumes a symbol: the run of symbol characters that starts here.
    fn parse_symbol(&mut self) -> (res: ParseResult<Token>)
        requires
            old(self).wf(),
        ensures
            final(self).wf(),
            final(self).text() == old(self).text(),
            final(self).line == old(self).line,
            final(self).pos == old(self).pos + span(old(self).text(), old(self).pos as int, CharClass::SymbolChar),
            final(self).column == old(self).column + span(old(self).text(), old(self).pos as int, CharClass::SymbolChar),
            res matches Ok(t) && t@ == TokenV::Symbol(
                old(self).text().subrange(old(self).pos as int, final(self).pos as int),
            ),
    {
        let mut sym: Vec<char> = Vec::with_capacity(32);
        self.take_run(CharClass::SymbolChar, &mut sym);
        Ok(Token::Symbol(string_from_chars(sym.as_slice())))
    }

    /// Consumes a numeral (see `numeral_end`); it is a `Number` token if its
    /// text is a float literal, else an `InvalidNumber` error at its start.
    fn parse_number(&mut self) -> (res: ParseResult<Token>)
        requires
            old(self).wf(),
            numeral_starts(old(self).text(), old(self).pos as int),
        ensures
            final(self).wf(),
            final(self).text() == old(self).text(),
            final(self).line == old(self).line,
            final(self).pos == numeral_end(old(self).text(), old(self).pos as int),
            final(self).column == old(self).column + (final(self).pos - old(self).pos),
            ({
                let t = old(self).text().subrange(old(self).pos as int, final(self).pos as int);
                if float_literal(t) {
                    res matches Ok(tok) && tok@ == TokenV::Number(t)
                } else {
                    res matches Err(e) && e@ == ParseErrorV {
                        kind: ErrorKindV::InvalidNumber(t),
                        line: old(self).line,
                        column: old(self).column,
                        snippet: snippet_of(
                            old(self).text(),
                            old(self).line as int,
                            final(self).column as int,
                        ),
                    }
                }
            }),
    {
        let ghost s = self.chars@;
        let ghost i = self.pos as int;
        let start_line = self.line;
        let start_col = self.column;
        let mut lexeme: Vec<char> = Vec::with_capacity(16);
        self.take_char_if('-', '-', &mut lexeme);
        let ghost a = self.pos as int;
        self.take_run(CharClass::Digit, &mut lexeme);
        proof {
            lemma_subrange_concat(s, i, a, self.pos as int);
        }
        let ghost b = self.pos as int;
        if self.take_char_if('.', '.', &mut lexeme) {
            proof {
                lemma_subrange_concat(s, i, b, self.pos as int);
            }
            let ghost b1 = self.pos as int;
            self.take_run(CharClass::Digit, &mut lexeme);
            proof {
                lemma_subrange_concat(s, i, b1, self.pos as int);
            }
        }
        let ghost c = self.pos as int;
        if self.take_char_if('e', 'E', &mut lexeme) {
            proof {
                lemma_subrange_concat(s, i, c, self.pos as int);
            }
            let ghost c1 = self.pos as int;
            self.take_char_if('+', '-', &mut lexeme);
            proof {
                lemma_subrange_concat(s, i, c1, self.pos as int);
            }
            let ghost d = self.pos as int;
            self.take_run(CharClass::Digit, &mut lexeme);
            proof {
                lemma_subrange_concat(s, i, d, self.pos as int);
            }
        }
        assert(self.pos == numeral_end(s, i));
        let num = string_from_chars(lexeme.as_slice());
        if is_float_literal(lexeme.as_slice()) {
            Ok(Token::Number(num))
        } else {
            Err(
                ParseError {
                    kind: ErrorKind::InvalidNumber(num),
                    line: start_line,
                    column: start_col,
                    snippet: self.snippet(),
                },
            )
        }
    }

    /// Turns the rest of the input into tokens (see `lex`). The lexer ends
    /// where `lex_end` says: on success at the end of the input, at the line
    /// and column `lex` reaches.
    pub fn tokenize(&mut self) -> (res: ParseResult<Vec<Token>>)
        requires
            old(self).wf(),
        ensures
            final(self).wf(),
            final(self).text() == old(self).text(),
            (final(self).position(), final(self).line_at(), final(self).column_at()) == lex_end(
                old(self).text(),
                old(self).position(),
                old(self).line_at(),
                old(self).column_at(),
            ),
            match lex(
                old(self).text(),
                old(self).position(),
                old(self).line_at(),
                old(self).column_at(),
            ) {
                Ok((ts, l, c)) => res matches Ok(v) && tokens_view(v@) == ts && final(self).line_at()
                    == l && final(self).column_at() == c && final(self).position()
                    == final(self).text().len(),
                Err(e) => res matches Err(x) && x@ == e,
            },
    {
        let ghost s = self.chars@;
        let ghost start = lex(s, self.pos as int, self.line as int, self.column as int);
        let ghost stop = lex_end(s, self.pos as int, self.line as int, self.column as int);
        let mut tokens: Vec<Token> = Vec::with_capacity(64);
        loop
            invariant
                self.wf(),
                self.text() == s,
                s == old(self).text(),
                start == lex(
                    old(self).text(),
                    old(self).position(),
                    old(self).line_at(),
                    old(self).column_at(),
                ),
                stop == lex_end(
                    old(self).text(),
                    old(self).position(),
                    old(self).line_at(),
                    old(self).column_at(),
                ),
                stop == lex_end(s, self.pos as int, self.line as int, self.column as int),
                start == prepend_tokens(
                    tokens_view(tokens@),
                    lex(s, self.pos as int, self.line as int, self.column as int),
                ),
            ensures
                self.wf(),
                self.text() == s,
                self.pos == s.len(),
                stop == lex_end(s, self.pos as int, self.line as int, self.column as int),
                start == prepend_tokens(
                    tokens_view(tokens@),
                    lex(s, self.pos as int, self.line as int, self.column as int),
                ),
            decreases s.len() - self.pos,
        {
            let ghost prev = tokens@;
            let ghost p = self.pos as int;
            let ghost l = self.line as int;
            let ghost c = self.column as int;
            let ch = match self.peek() {
                Some(ch) => ch,
                None => {
                    break ;
                },
            };
            if ch == ' ' || ch == '\t' || ch == '\r' {
                self.advance();
            } else if ch == '\n' {
                self.advance_line();
            } else if ch == ';' {
                self.skip_comment();
            } else if ch == '(' {
                tokens.push(Token::LParen);
                self.advance();
                proof {
                    assert(tokens@ == prev.push(tokens@.last()));
                    lemma_push_token(prev, tokens@.last(), lex(s, p + 1, l, c + 1));
                }
            } else if ch == ')' {
                tokens.push(Token::RParen);
                self.advance();
                proof {
                    assert(tokens@ == prev.push(tokens@.last()));
                    lemma_push_token(prev, tokens@.last(), lex(s, p + 1, l, c + 1));
                }
            } else if ch == '-' {
                match self.peek_second() {
                    Some(next) => {
                        if is_ascii_digit(next) || next == '.' {
                            match self.parse_number() {
                                Ok(t) => {
                                    tokens.push(t);
                                    proof {
                                        assert(tokens@ == prev.push(tokens@.last()));
                                        lemma_push_token(
                                            prev,
                                            tokens@.last(),
                                            lex(s, self.pos as int, l, self.column as int),
                                        );
                                    }
                                },
                                Err(e) => {
                                    return Err(e);
                                },
                            }
                        } else {
                            match self.parse_symbol() {
                                Ok(t) => {
                                    tokens.push(t);
                                    proof {
                                        assert(tokens@ == prev.push(tokens@.last()));
                                        lemma_push_token(
                                            prev,
                                            tokens@.last(),
                                            lex(s, self.pos as int, l, self.column as int),
                                        );
                                    }
                                },
                                Err(e) => {
                                    return Err(e);
                                },
                            }
                        }
                    },
                    None => {
                        let mut minus = String::new();
                        push_char(&mut minus, '-');
                        tokens.push(Token::Symbol(minus));
                        self.advance();
                        proof {
                            assert(span(s, p + 1, CharClass::SymbolChar) == 0);
                            assert(s.subrange(p, p + 1) =~= seq!['-']);
                            assert(tokens@ == prev.push(tokens@.last()));
                            lemma_push_token(prev, tokens@.last(), lex(s, p + 1, l, c + 1));
                        }
                    },
                }
            } else if is_ascii_digit(ch) || ch == '.' {
                match self.parse_number() {
                    Ok(t) => {
                        tokens.push(t);
                        proof {
                            assert(tokens@ == prev.push(tokens@.last()));
                            lemma_push_token(
                                prev,
                                tokens@.last(),
                                lex(s, self.pos as int, l, self.column as int),
                            );
                        }
                    },
                    Err(e) => {
                        return Err(e);
                    },
                }
            } else if is_symbol_start(ch) {
                match self.parse_symbol() {
                    Ok(t) => {
                        tokens.push(t);
                        proof {
                            assert(tokens@ == prev.push(tokens@.last()));
                            lemma_push_token(
                                prev,
                                tokens@.last(),
                                lex(s, self.pos as int, l, self.column as int),
                            );
                        }
                    },
                    Err(e) => {
                        return Err(e);
                    },
                }
            } else {
                return Err(
                    ParseError {
                        kind: ErrorKind::UnexpectedChar(ch),
                        line: self.line,
                        column: self.column,
                        snippet: self.snippet(),
                    },
                );
            }
        }
        Ok(tokens)
    }
}

} // verus!
