//! Blanks and comments between tokens: where lexing can be split, and why
//! text of blanks and comments inserted there leaves the tokens as they were.
use vstd::prelude::*;
use crate::parser::lexer::{
    CharClass, TokenV, float_literal, in_class, is_blank, lemma_lex_shift,
    lemma_lex_tokens_ignore_position, lemma_numeral_end_progress, lemma_prepend_tokens_same,
    lemma_span_all, lemma_span_bound, lemma_span_shift, lex, lexed_tokens, numeral_end,
    numeral_starts, sign_len, span, symbol_start,
};

verus! {

/// Where one step of lexing `s` at index `i` ends: after a blank, a
/// parenthesis, a comment, a numeral that is a float literal or a symbol.
/// `None` at the end of `s` and where lexing fails.
pub open spec fn lex_step(s: Seq<char>, i: int) -> Option<int> {
    if i < 0 || i >= s.len() {
        None
    } else {
        let ch = s[i];
        if is_blank(ch) || ch == '(' || ch == ')' {
            Some(i + 1)
        } else if ch == ';' {
            Some(i + span(s, i, CharClass::NotNewline))
        } else if numeral_starts(s, i) {
            if float_literal(s.subrange(i, numeral_end(s, i))) {
                Some(numeral_end(s, i))
            } else {
                None
            }
        } else if ch == '-' || symbol_start(ch) {
            Some(i + span(s, i, CharClass::SymbolChar))
        } else {
            None
        }
    }
}

/// Whether lexing `s` from index `i` passes index `k` between two of its
/// steps: `k` is `i`, or the first step from `i` succeeds and lexing passes
/// `k` from where that step ends. From index 0 these are the start, the end
/// of a text that lexes, and the places between its tokens, blanks and
/// comments.
pub open spec fn reaches(s: Seq<char>, i: int, k: int) -> bool
    decreases k - i,
{
    if i == k {
        true
    } else if i < k {
        match lex_step(s, i) {
            Some(n) => if i < n <= k {
                reaches(s, n, k)
            } else {
                false
            },
            None => false,
        }
    } else {
        false
    }
}

/// Whether `w` from index `j` on is made of blanks and comments only, each
/// comment (a `;` and what follows it on its line) ended by a newline of
/// `w`.
pub open spec fn filler(w: Seq<char>, j: int) -> bool
    decreases w.len() - j,
{
    if j < 0 {
        false
    } else if j >= w.len() {
        true
    } else if is_blank(w[j]) {
        filler(w, j + 1)
    } else if w[j] == ';' {
        let n = span(w, j, CharClass::NotNewline);
        if 0 < n && j + n < w.len() {
            filler(w, j + n)
        } else {
            false
        }
    } else {
        false
    }
}

/// A run that ends within `x` is the same run in `x` alone.
proof fn lemma_span_ends_within(x: Seq<char>, y: Seq<char>, i: int, k: CharClass)
    requires
        0 <= i <= x.len(),
        i + span(x + y, i, k) <= x.len(),
    ensures
        span(x + y, i, k) == span(x, i, k),
    decreases x.len() - i,
{
    let t = x + y;
    if i < x.len() {
        assert(t[i] == x[i]);
        if in_class(k, x[i]) {
            lemma_span_ends_within(x, y, i + 1, k);
        }
    } else {
        lemma_span_bound(t, i, k);
        if i < t.len() && in_class(k, t[i]) {
            assert(span(t, i, k) >= 1);
        }
    }
}

/// A run in `x` that stops before its end stops there in `x + y` too.
proof fn lemma_span_stops_within(x: Seq<char>, y: Seq<char>, i: int, k: CharClass)
    requires
        0 <= i,
        i + span(x, i, k) < x.len(),
    ensures
        span(x + y, i, k) == span(x, i, k),
    decreases x.len() - i,
{
    let t = x + y;
    assert(t[i] == x[i]);
    if in_class(k, x[i]) {
        lemma_span_stops_within(x, y, i + 1, k);
    }
}

/// A run that reaches the end of `x` goes on into `z`.
proof fn lemma_span_runs_on(x: Seq<char>, z: Seq<char>, i: int, k: CharClass)
    requires
        0 <= i <= x.len(),
        i + span(x, i, k) == x.len(),
    ensures
        span(x + z, i, k) == (x.len() - i) + span(z, 0, k),
    decreases x.len() - i,
{
    let t = x + z;
    if i < x.len() {
        assert(t[i] == x[i]);
        lemma_span_runs_on(x, z, i + 1, k);
    } else {
        lemma_span_shift(x, z, 0, k);
    }
}

/// A run in `x` stops at the end of `x` in `x + z` when `z` starts with a
/// character outside the class.
proof fn lemma_span_stopped(x: Seq<char>, z: Seq<char>, i: int, k: CharClass)
    requires
        0 <= i <= x.len(),
        z.len() > 0,
        !in_class(k, z[0]),
    ensures
        span(x + z, i, k) == span(x, i, k),
    decreases x.len() - i,
{
    let t = x + z;
    if i < x.len() {
        assert(t[i] == x[i]);
        if in_class(k, x[i]) {
            lemma_span_stopped(x, z, i + 1, k);
        }
    } else {
        assert(t[i] == z[0]);
    }
}

/// Characters that never continue a numeral.
spec fn ends_numeral(c: char) -> bool {
    !('0' <= c <= '9') && c != '.' && c != 'e' && c != 'E' && c != '+' && c != '-'
}

/// A numeral that ends within `x` is the same numeral in `x` alone.
proof fn lemma_numeral_ends_within(x: Seq<char>, y: Seq<char>, i: int)
    requires
        0 <= i < x.len(),
        numeral_end(x + y, i) <= x.len(),
    ensures
        numeral_end(x + y, i) == numeral_end(x, i),
{
    let t = x + y;
    let q = x.len() as int;
    assert(t[i] == x[i]);
    let a = if t[i] == '-' { i + 1 } else { i };
    lemma_span_bound(t, a, CharClass::Digit);
    let b = a + span(t, a, CharClass::Digit);
    lemma_span_bound(t, b + 1, CharClass::Digit);
    let c = if 0 <= b < t.len() && t[b] == '.' { b + 1 + span(t, b + 1, CharClass::Digit) } else { b };
    let d = c + 1 + sign_len(t, c + 1);
    lemma_span_bound(t, d, CharClass::Digit);
    let e = numeral_end(t, i);
    assert(a <= b <= c <= e);
    if a <= q {
        lemma_span_ends_within(x, y, a, CharClass::Digit);
    }
    if b < q {
        assert(t[b] == x[b]);
    }
    if 0 <= b < t.len() && t[b] == '.' {
        lemma_span_ends_within(x, y, b + 1, CharClass::Digit);
    }
    if c < q {
        assert(t[c] == x[c]);
    }
    if 0 <= c < t.len() && (t[c] == 'e' || t[c] == 'E') {
        if c + 1 < q {
            assert(t[c + 1] == x[c + 1]);
        }
        assert(d <= e);
        lemma_span_ends_within(x, y, d, CharClass::Digit);
    }
}

/// A numeral of `x` ends at the end of `x` in `x + z` when `z` starts with a
/// character that never continues a numeral.
proof fn lemma_numeral_stopped(x: Seq<char>, z: Seq<char>, i: int)
    requires
        0 <= i < x.len(),
        z.len() > 0,
        ends_numeral(z[0]),
    ensures
        numeral_end(x + z, i) == numeral_end(x, i),
{
    let t = x + z;
    let q = x.len() as int;
    assert(t[i] == x[i]);
    assert(t[q] == z[0]);
    let a = if x[i] == '-' { i + 1 } else { i };
    lemma_span_stopped(x, z, a, CharClass::Digit);
    lemma_span_bound(x, a, CharClass::Digit);
    let b = a + span(x, a, CharClass::Digit);
    if b < q {
        assert(t[b] == x[b]);
    }
    if 0 <= b < x.len() && x[b] == '.' {
        lemma_span_stopped(x, z, b + 1, CharClass::Digit);
        lemma_span_bound(x, b + 1, CharClass::Digit);
    }
    let c = if 0 <= b < x.len() && x[b] == '.' { b + 1 + span(x, b + 1, CharClass::Digit) } else { b };
    if c < q {
        assert(t[c] == x[c]);
    }
    if 0 <= c < x.len() && (x[c] == 'e' || x[c] == 'E') {
        if c + 1 < q {
            assert(t[c + 1] == x[c + 1]);
        }
        let d = c + 1 + sign_len(x, c + 1);
        lemma_span_stopped(x, z, d, CharClass::Digit);
    }
}

/// Whether a numeral starts at `i` is decided within `x` when the numeral
/// ends within `x`.
proof fn lemma_numeral_starts_within(x: Seq<char>, y: Seq<char>, z: Seq<char>, i: int)
    requires
        0 <= i < x.len(),
        numeral_starts(x + y, i),
        numeral_end(x + y, i) <= x.len(),
    ensures
        numeral_starts(x + z, i),
{
    let t = x + y;
    assert(t[i] == x[i]);
    assert((x + z)[i] == x[i]);
    if x[i] == '-' {
        assert(t[i + 1] == '.' || '0' <= t[i + 1] <= '9');
        lemma_span_bound(t, i + 1, CharClass::Digit);
        lemma_span_bound(t, i + 2, CharClass::Digit);
        let b = i + 1 + span(t, i + 1, CharClass::Digit);
        if t[i + 1] == '.' {
            assert(span(t, i + 1, CharClass::Digit) == 0);
        } else {
            assert(span(t, i + 1, CharClass::Digit) >= 1);
        }
        assert(i + 2 <= numeral_end(t, i));
        assert(t[i + 1] == x[i + 1]);
        assert((x + z)[i + 1] == x[i + 1]);
    }
}

/// A run that stops before the end stops at a character outside its class.
proof fn lemma_span_stop(s: Seq<char>, i: int, k: CharClass)
    requires
        0 <= i,
        i + span(s, i, k) < s.len(),
    ensures
        !in_class(k, s[i + span(s, i, k)]),
    decreases s.len() - i,
{
    if in_class(k, s[i]) {
        lemma_span_stop(s, i + 1, k);
    }
}

/// A newline of a run of blanks and comments begins such a run.
proof fn lemma_filler_at_newline(w: Seq<char>, j: int, m: int)
    requires
        filler(w, j),
        j <= m < w.len(),
        w[m] == '\n',
    ensures
        filler(w, m),
    decreases w.len() - j,
{
    if j < m {
        if is_blank(w[j]) {
            lemma_filler_at_newline(w, j + 1, m);
        } else {
            let n = span(w, j, CharClass::NotNewline);
            lemma_span_all(w, j, CharClass::NotNewline);
            if m < j + n {
                assert(in_class(CharClass::NotNewline, w[m]));
            }
            lemma_filler_at_newline(w, j + n, m);
        }
    }
}

/// Lexing `a + w + b` from inside `w`, where `w` goes on with blanks and
/// comments only, gives what lexing `b` gives.
proof fn lemma_skip_filler(a: Seq<char>, w: Seq<char>, b: Seq<char>, j: int, line: int, col: int)
    requires
        0 <= j <= w.len(),
        filler(w, j),
    ensures
        lex(a + w + b, a.len() + j, line, col) is Ok == lex(b, 0, 1, 1) is Ok,
        lexed_tokens(lex(a + w + b, a.len() + j, line, col)) == lexed_tokens(lex(b, 0, 1, 1)),
    decreases w.len() - j,
{
    let p = a + w;
    let t = p + b;
    let q = a.len() as int;
    if j == w.len() {
        lemma_lex_shift(p, b, 0, line, col);
        lemma_lex_tokens_ignore_position(b, 0, line, col, 1, 1);
    } else {
        assert(t[q + j] == w[j]);
        if is_blank(w[j]) {
            if w[j] == '\n' {
                lemma_skip_filler(a, w, b, j + 1, line + 1, 1);
            } else {
                lemma_skip_filler(a, w, b, j + 1, line, col + 1);
            }
        } else {
            let n = span(w, j, CharClass::NotNewline);
            lemma_span_shift(a, w, j, CharClass::NotNewline);
            lemma_span_stops_within(p, b, q + j, CharClass::NotNewline);
            lemma_skip_filler(a, w, b, j + n, line, col + n);
        }
    }
}

/// `s` with `w` inserted at index `k`.
pub open spec fn insert_at(s: Seq<char>, k: int, w: Seq<char>) -> Seq<char> {
    s.take(k) + w + s.skip(k)
}

/// `s` with each `ws[j]` inserted at index `ks[j]` of `s`; the indexes are
/// meant to increase, so that inserting the last first leaves the others
/// where they were.
pub open spec fn insert_all(s: Seq<char>, ks: Seq<int>, ws: Seq<Seq<char>>) -> Seq<char>
    decreases ks.len(),
{
    if ks.len() == 0 || ws.len() == 0 {
        s
    } else {
        insert_all(insert_at(s, ks.last(), ws.last()), ks.drop_last(), ws.drop_last())
    }
}

/// A step of lexing that ends before `k` (or at `k`, but for a comment)
/// goes the same way once `w` is inserted at `k`.
proof fn lemma_same_step(s: Seq<char>, w: Seq<char>, k: int, i: int)
    requires
        0 <= i < k <= s.len(),
        lex_step(s, i) matches Some(n) && n <= k && (s[i] == ';' ==> n < k),
        filler(w, 0),
        w.len() > 0,
    ensures
        insert_at(s, k, w)[i] == s[i],
        numeral_starts(insert_at(s, k, w), i) == numeral_starts(s, i),
        numeral_starts(s, i) ==> numeral_end(insert_at(s, k, w), i) == numeral_end(s, i)
            && insert_at(s, k, w).subrange(i, numeral_end(s, i)) == s.subrange(
            i,
            numeral_end(s, i),
        ),
        s[i] == ';' ==> span(insert_at(s, k, w), i, CharClass::NotNewline) == span(
            s,
            i,
            CharClass::NotNewline,
        ),
        !numeral_starts(s, i) && (s[i] == '-' || symbol_start(s[i])) ==> span(
            insert_at(s, k, w),
            i,
            CharClass::SymbolChar,
        ) == span(s, i, CharClass::SymbolChar) && insert_at(s, k, w).subrange(
            i,
            i + span(s, i, CharClass::SymbolChar),
        ) == s.subrange(i, i + span(s, i, CharClass::SymbolChar)),
        lex_step(insert_at(s, k, w), i) == lex_step(s, i),
{
    let a = s.take(k);
    let b = s.skip(k);
    let z = w + b;
    let t = insert_at(s, k, w);
    assert(s =~= a + b);
    assert(t =~= a + z);
    assert(z[0] == w[0]);
    let ch = s[i];
    assert(t[i] == ch);
    let n = lex_step(s, i)->0;
    if ch == ';' {
        lemma_span_bound(s, i, CharClass::NotNewline);
        lemma_span_ends_within(a, b, i, CharClass::NotNewline);
        lemma_span_stops_within(a, z, i, CharClass::NotNewline);
    } else if !is_blank(ch) && ch != '(' && ch != ')' {
        if numeral_starts(s, i) {
            lemma_numeral_end_progress(s, i);
            lemma_numeral_ends_within(a, b, i);
            lemma_numeral_stopped(a, z, i);
            lemma_numeral_starts_within(a, b, z, i);
            assert(t.subrange(i, n) =~= s.subrange(i, n));
        } else {
            if i + 1 < k {
                assert(t[i + 1] == s[i + 1]);
            } else {
                assert(t[i + 1] == w[0]);
            }
            assert(!numeral_starts(t, i));
            lemma_span_bound(s, i, CharClass::SymbolChar);
            lemma_span_ends_within(a, b, i, CharClass::SymbolChar);
            lemma_span_stopped(a, z, i, CharClass::SymbolChar);
            assert(t.subrange(i, n) =~= s.subrange(i, n));
        }
    }
}

/// Inserting `w` at `k`, where lexing `s` from `i` passes, changes neither
/// whether lexing from `i` succeeds nor its tokens.
#[verifier::spinoff_prover]
#[verifier::rlimit(60)]
proof fn lemma_filler_inserted(s: Seq<char>, w: Seq<char>, k: int, i: int, line: int, col: int)
    requires
        0 <= i,
        k <= s.len(),
        reaches(s, i, k),
        filler(w, 0),
        w.len() > 0,
    ensures
        lex(insert_at(s, k, w), i, line, col) is Ok == lex(s, i, line, col) is Ok,
        lexed_tokens(lex(insert_at(s, k, w), i, line, col)) == lexed_tokens(lex(s, i, line, col)),
    decreases k - i,
{
    let a = s.take(k);
    let b = s.skip(k);
    let t = insert_at(s, k, w);
    assert(s =~= a + b);
    if i == k {
        lemma_skip_filler(a, w, b, 0, line, col);
        lemma_lex_shift(a, b, 0, line, col);
        lemma_lex_tokens_ignore_position(b, 0, line, col, 1, 1);
    } else {
        let ch = s[i];
        let n = lex_step(s, i)->0;
        if ch == ';' && n == k {
            let z = w + b;
            assert(t =~= a + z);
            lemma_span_bound(s, i, CharClass::NotNewline);
            lemma_span_ends_within(a, b, i, CharClass::NotNewline);
            lemma_span_runs_on(a, z, i, CharClass::NotNewline);
            lemma_span_runs_on(a, b, i, CharClass::NotNewline);
            let m = span(w, 0, CharClass::NotNewline) as int;
            lemma_span_bound(w, 0, CharClass::NotNewline);
            if m < w.len() {
                lemma_span_stop(w, 0, CharClass::NotNewline);
                lemma_span_stops_within(w, b, 0, CharClass::NotNewline);
                lemma_filler_at_newline(w, 0, m);
            } else {
                lemma_span_runs_on(w, b, 0, CharClass::NotNewline);
            }
            assert(t[i] == ch);
            lemma_skip_filler(a, w, b, m, line, col + (k - i) + m);
            lemma_lex_shift(a, b, 0, line, col + (k - i));
            lemma_lex_tokens_ignore_position(b, 0, line, col + (k - i), 1, 1);
        } else {
            lemma_same_step(s, w, k, i);
            if ch == '\n' {
                lemma_filler_inserted(s, w, k, n, line + 1, 1);
            } else {
                lemma_filler_inserted(s, w, k, n, line, col + (n - i));
                if ch == '(' || ch == ')' {
                    lemma_prepend_tokens_same(
                        if ch == '(' { TokenV::LParen } else { TokenV::RParen },
                        lex(t, n, line, col + 1),
                        lex(s, n, line, col + 1),
                    );
                } else if numeral_starts(s, i) {
                    lemma_prepend_tokens_same(
                        TokenV::Number(s.subrange(i, n)),
                        lex(t, n, line, col + (n - i)),
                        lex(s, n, line, col + (n - i)),
                    );
                } else if !is_blank(ch) && ch != ';' {
                    lemma_prepend_tokens_same(
                        TokenV::Symbol(s.subrange(i, n)),
                        lex(t, n, line, col + (n - i)),
                        lex(s, n, line, col + (n - i)),
                    );
                }
            }
        }
    }
}

/// Inserting `w` at `k` keeps every place before `k` where lexing passes.
proof fn lemma_reaches_kept(s: Seq<char>, w: Seq<char>, k: int, i: int, k2: int)
    requires
        0 <= i,
        k2 < k <= s.len(),
        reaches(s, i, k2),
        filler(w, 0),
        w.len() > 0,
    ensures
        reaches(insert_at(s, k, w), i, k2),
    decreases k2 - i,
{
    if i < k2 {
        let n = lex_step(s, i)->0;
        lemma_same_step(s, w, k, i);
        lemma_reaches_kept(s, w, k, n, k2);
    }
}

/// Blanks and comments inserted where lexing passes between two steps (at
/// the start, at the end, or between two tokens) leave the tokens as they
/// were: the text lexes exactly when it did, to the same tokens. Each
/// comment inserted ends with a newline of the inserted text.
pub proof fn lemma_filler_between_tokens(s: Seq<char>, w: Seq<char>, k: int)
    requires
        reaches(s, 0, k),
        filler(w, 0),
    ensures
        lex(insert_at(s, k, w), 0, 1, 1) is Ok == lex(s, 0, 1, 1) is Ok,
        lexed_tokens(lex(insert_at(s, k, w), 0, 1, 1)) == lexed_tokens(lex(s, 0, 1, 1)),
{
    lemma_reaches_within(s, 0, k);
    if w.len() == 0 {
        assert(insert_at(s, k, w) =~= s);
    } else {
        lemma_filler_inserted(s, w, k, 0, 1, 1);
    }
}

/// Inserting blanks and comments at any number of places where lexing
/// passes between two steps leaves the tokens as they were, as one
/// insertion does.
pub proof fn lemma_fillers_between_tokens(s: Seq<char>, ks: Seq<int>, ws: Seq<Seq<char>>)
    requires
        ks.len() == ws.len(),
        forall|j: int| 0 <= j < ks.len() ==> reaches(s, 0, #[trigger] ks[j]),
        forall|j: int| 0 <= j < ws.len() ==> filler(#[trigger] ws[j], 0),
        forall|j: int, l: int| 0 <= j < l < ks.len() ==> ks[j] < ks[l],
    ensures
        lex(insert_all(s, ks, ws), 0, 1, 1) is Ok == lex(s, 0, 1, 1) is Ok,
        lexed_tokens(lex(insert_all(s, ks, ws), 0, 1, 1)) == lexed_tokens(lex(s, 0, 1, 1)),
    decreases ks.len(),
{
    if ks.len() > 0 {
        let n = ks.len() - 1;
        let k = ks[n];
        let w = ws[n];
        let s1 = insert_at(s, k, w);
        lemma_filler_between_tokens(s, w, k);
        lemma_reaches_within(s, 0, k);
        let ks1 = ks.drop_last();
        let ws1 = ws.drop_last();
        assert forall|j: int| 0 <= j < ks1.len() implies reaches(s1, 0, #[trigger] ks1[j]) by {
            assert(ks1[j] == ks[j]);
            assert(ks[j] < k);
            if w.len() > 0 {
                lemma_reaches_kept(s, w, k, 0, ks[j]);
            } else {
                assert(s1 =~= s);
            }
        }
        assert forall|j: int| 0 <= j < ws1.len() implies filler(#[trigger] ws1[j], 0) by {
            assert(ws1[j] == ws[j]);
        }
        assert forall|j: int, l: int| 0 <= j < l < ks1.len() implies ks1[j] < ks1[l] by {
            assert(ks1[j] == ks[j] && ks1[l] == ks[l]);
        }
        lemma_fillers_between_tokens(s1, ks1, ws1);
    }
}

/// A step of lexing that ends at or before `k` goes the same way in the
/// text cut at `k`.
proof fn lemma_prefix_step(s: Seq<char>, k: int, i: int)
    requires
        0 <= i < k <= s.len(),
        lex_step(s, i) matches Some(n) && n <= k,
    ensures
        s.take(k)[i] == s[i],
        numeral_starts(s.take(k), i) == numeral_starts(s, i),
        numeral_starts(s, i) ==> numeral_end(s.take(k), i) == numeral_end(s, i)
            && s.take(k).subrange(i, numeral_end(s, i)) == s.subrange(i, numeral_end(s, i)),
        s[i] == ';' ==> span(s.take(k), i, CharClass::NotNewline) == span(
            s,
            i,
            CharClass::NotNewline,
        ),
        !numeral_starts(s, i) && (s[i] == '-' || symbol_start(s[i])) ==> span(
            s.take(k),
            i,
            CharClass::SymbolChar,
        ) == span(s, i, CharClass::SymbolChar) && s.take(k).subrange(
            i,
            i + span(s, i, CharClass::SymbolChar),
        ) == s.subrange(i, i + span(s, i, CharClass::SymbolChar)),
{
    let a = s.take(k);
    let b = s.skip(k);
    assert(s =~= a + b);
    let ch = s[i];
    let n = lex_step(s, i)->0;
    if ch == ';' {
        lemma_span_bound(s, i, CharClass::NotNewline);
        lemma_span_ends_within(a, b, i, CharClass::NotNewline);
    } else if !is_blank(ch) && ch != '(' && ch != ')' {
        if numeral_starts(s, i) {
            lemma_numeral_end_progress(s, i);
            lemma_numeral_ends_within(a, b, i);
            if ch == '-' {
                lemma_numeral_starts_within(a, b, Seq::empty(), i);
                assert(a + Seq::<char>::empty() =~= a);
            }
            assert(a.subrange(i, n) =~= s.subrange(i, n));
        } else {
            if i + 1 < k {
                assert(a[i + 1] == s[i + 1]);
            }
            lemma_span_bound(s, i, CharClass::SymbolChar);
            lemma_span_ends_within(a, b, i, CharClass::SymbolChar);
            assert(a.subrange(i, n) =~= s.subrange(i, n));
        }
    }
}

/// Lexing `s` from `i`, where it passes `k`, gives the tokens of the text
/// cut at `k` followed by those of the text after `k`.
#[verifier::spinoff_prover]
#[verifier::rlimit(60)]
proof fn lemma_lex_split_from(s: Seq<char>, k: int, i: int, line: int, col: int)
    requires
        0 <= i,
        k <= s.len(),
        reaches(s, i, k),
    ensures
        lex(s.take(k), i, line, col) is Ok,
        lex(s, i, line, col) is Ok == lex(s.skip(k), 0, 1, 1) is Ok,
        lex(s, i, line, col) is Ok ==> lexed_tokens(lex(s, i, line, col)) == lexed_tokens(
            lex(s.take(k), i, line, col),
        ) + lexed_tokens(lex(s.skip(k), 0, 1, 1)),
    decreases k - i,
{
    let a = s.take(k);
    let b = s.skip(k);
    assert(s =~= a + b);
    if i == k {
        lemma_lex_shift(a, b, 0, line, col);
        lemma_lex_tokens_ignore_position(b, 0, line, col, 1, 1);
        if let Ok((ts, l, c)) = lex(s, i, line, col) {
            assert(Seq::<TokenV>::empty() + ts =~= ts);
        }
    } else {
        let ch = s[i];
        let n = lex_step(s, i)->0;
        lemma_prefix_step(s, k, i);
        if ch == '\n' {
            lemma_lex_split_from(s, k, n, line + 1, 1);
        } else {
            lemma_lex_split_from(s, k, n, line, col + (n - i));
            if !is_blank(ch) && ch != ';' {
                let tok = if ch == '(' {
                    TokenV::LParen
                } else if ch == ')' {
                    TokenV::RParen
                } else if numeral_starts(s, i) {
                    TokenV::Number(s.subrange(i, n))
                } else {
                    TokenV::Symbol(s.subrange(i, n))
                };
                if let Ok((rest, l, c)) = lex(s, n, line, col + (n - i)) {
                    let ra = lexed_tokens(lex(a, n, line, col + (n - i)));
                    let rb = lexed_tokens(lex(b, 0, 1, 1));
                    assert(seq![tok] + rest =~= (seq![tok] + ra) + rb);
                }
            }
        }
    }
}

/// Lexing splits where it passes between two steps: the text before `k`
/// lexes, the whole text lexes exactly when the text after `k` does, and its
/// tokens are then those before `k` followed by those after, in order.
pub proof fn lemma_lex_split(s: Seq<char>, k: int)
    requires
        reaches(s, 0, k),
    ensures
        lex(s.take(k), 0, 1, 1) is Ok,
        lex(s, 0, 1, 1) is Ok == lex(s.skip(k), 0, 1, 1) is Ok,
        lex(s, 0, 1, 1) is Ok ==> lexed_tokens(lex(s, 0, 1, 1)) == lexed_tokens(
            lex(s.take(k), 0, 1, 1),
        ) + lexed_tokens(lex(s.skip(k), 0, 1, 1)),
{
    lemma_reaches_within(s, 0, k);
    lemma_lex_split_from(s, k, 0, 1, 1);
}

/// Lexing passes only indexes of the text.
proof fn lemma_reaches_within(s: Seq<char>, i: int, k: int)
    requires
        0 <= i <= s.len(),
        reaches(s, i, k),
    ensures
        i <= k <= s.len(),
    decreases k - i,
{
    if i < k {
        let n = lex_step(s, i)->0;
        lemma_step_within(s, i);
        lemma_reaches_within(s, n, k);
    }
}

/// A step of lexing ends within the text.
proof fn lemma_step_within(s: Seq<char>, i: int)
    ensures
        lex_step(s, i) matches Some(n) ==> n <= s.len(),
{
    if 0 <= i < s.len() {
        lemma_span_bound(s, i, CharClass::NotNewline);
        lemma_span_bound(s, i, CharClass::SymbolChar);
        if numeral_starts(s, i) {
            lemma_numeral_end_progress(s, i);
        }
    }
}

} // verus!
