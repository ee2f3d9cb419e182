//! Errors of lexing, parsing and conversion, and their messages.
use vstd::prelude::*;
use crate::text::{decimal, push_char, push_decimal};

verus! {

/// An error, with the position (1-based line and column) at which it was
/// found and the text of the line around it. Conversion errors carry line
/// and column 0 and an empty snippet.
#[derive(Debug, PartialEq)]
pub struct ParseError {
    pub kind: ErrorKind,
    pub line: usize,
    pub column: usize,
    pub snippet: String,
}

/// What went wrong.
#[derive(Debug, PartialEq)]
pub enum ErrorKind {
    UnexpectedChar(char),
    UnexpectedEof,
    InvalidNumber(String),
    UnknownSymbol(String),
    WrongArity { symbol: String, expected: usize, got: usize },
    MismatchedParens,
    ConversionError(String),
}

pub type ParseResult<T> = Result<T, ParseError>;

/// `ErrorKind` with its strings taken as character sequences.
pub enum ErrorKindV {
    UnexpectedChar(char),
    UnexpectedEof,
    InvalidNumber(Seq<char>),
    UnknownSymbol(Seq<char>),
    WrongArity { symbol: Seq<char>, expected: usize, got: usize },
    MismatchedParens,
    ConversionError(Seq<char>),
}

/// `ParseError` with its strings taken as character sequences.
pub struct ParseErrorV {
    pub kind: ErrorKindV,
    pub line: usize,
    pub column: usize,
    pub snippet: Seq<char>,
}

impl View for ErrorKind {
    type V = ErrorKindV;

    open spec fn view(&self) -> ErrorKindV {
        match self {
            ErrorKind::UnexpectedChar(c) => ErrorKindV::UnexpectedChar(*c),
            ErrorKind::UnexpectedEof => ErrorKindV::UnexpectedEof,
            ErrorKind::InvalidNumber(s) => ErrorKindV::InvalidNumber(s@),
            ErrorKind::UnknownSymbol(s) => ErrorKindV::UnknownSymbol(s@),
            ErrorKind::WrongArity { symbol, expected, got } => ErrorKindV::WrongArity {
                symbol: symbol@,
                expected: *expected,
                got: *got,
            },
            ErrorKind::MismatchedParens => ErrorKindV::MismatchedParens,
            ErrorKind::ConversionError(s) => ErrorKindV::ConversionError(s@),
        }
    }
}

impl View for ParseError {
    type V = ParseErrorV;

    open spec fn view(&self) -> ParseErrorV {
        ParseErrorV {
            kind: self.kind@,
            line: self.line,
            column: self.column,
            snippet: self.snippet@,
        }
    }
}

impl Clone for ErrorKind {
    fn clone(&self) -> (r: ErrorKind)
        ensures
            r@ == self@,
    {
        match self {
            ErrorKind::UnexpectedChar(c) => ErrorKind::UnexpectedChar(*c),
            ErrorKind::UnexpectedEof => ErrorKind::UnexpectedEof,
            ErrorKind::InvalidNumber(s) => ErrorKind::InvalidNumber(s.clone()),
            ErrorKind::UnknownSymbol(s) => ErrorKind::UnknownSymbol(s.clone()),
            ErrorKind::WrongArity { symbol, expected, got } => ErrorKind::WrongArity {
                symbol: symbol.clone(),
                expected: *expected,
                got: *got,
            },
            ErrorKind::MismatchedParens => ErrorKind::MismatchedParens,
            ErrorKind::ConversionError(s) => ErrorKind::ConversionError(s.clone()),
        }
    }
}

impl Clone for ParseError {
    fn clone(&self) -> (r: ParseError)
        ensures
            r@ == self@,
    {
        ParseError {
            kind: self.kind.clone(),
            line: self.line,
            column: self.column,
            snippet: self.snippet.clone(),
        }
    }
}

/// The error that conversion reports: `kind` at line 0, column 0, with an
/// empty snippet.
pub open spec fn conversion_error(kind: ErrorKindV) -> ParseErrorV {
    ParseErrorV { kind, line: 0, column: 0, snippet: Seq::empty() }
}

/// What an error of kind `k` says.
pub open spec fn describe(k: ErrorKindV) -> Seq<char> {
    match k {
        ErrorKindV::UnexpectedChar(c) => "unexpected character '"@ + seq![c] + "'"@,
        ErrorKindV::UnexpectedEof => "unexpected end of file"@,
        ErrorKindV::InvalidNumber(s) => "invalid number \""@ + s + "\""@,
        ErrorKindV::UnknownSymbol(s) => "unknown symbol \""@ + s + "\""@,
        ErrorKindV::WrongArity { symbol, expected, got } => "\""@ + symbol + "\" expected "@
            + decimal(expected as nat) + " argument(s), got "@ + decimal(got as nat),
        ErrorKindV::MismatchedParens => "mismatched parentheses"@,
        ErrorKindV::ConversionError(e) => "conversion error: "@ + e,
    }
}

/// The one-line message of an error: `error: LINE|COLUMN: DESCRIPTION`.
pub open spec fn message_of(e: ParseErrorV) -> Seq<char> {
    "error: "@ + decimal(e.line as nat) + "|"@ + decimal(e.column as nat) + ": "@ + describe(e.kind)
}

impl ErrorKind {
    /// Appends the description of this error kind to `out`.
    fn push_description(&self, out: &mut String)
        ensures
            final(out)@ == old(out)@ + describe(self@),
    {
        match self {
            ErrorKind::UnexpectedChar(c) => {
                out.append("unexpected character '");
                push_char(out, *c);
                out.append("'");
            },
            ErrorKind::UnexpectedEof => {
                out.append("unexpected end of file");
            },
            ErrorKind::InvalidNumber(s) => {
                out.append("invalid number \"");
                out.append(s.as_str());
                out.append("\"");
            },
            ErrorKind::UnknownSymbol(s) => {
                out.append("unknown symbol \"");
                out.append(s.as_str());
                out.append("\"");
            },
            ErrorKind::WrongArity { symbol, expected, got } => {
                out.append("\"");
                out.append(symbol.as_str());
                out.append("\" expected ");
                push_decimal(out, *expected);
                out.append(" argument(s), got ");
                push_decimal(out, *got);
            },
            ErrorKind::MismatchedParens => {
                out.append("mismatched parentheses");
            },
            ErrorKind::ConversionError(e) => {
                out.append("conversion error: ");
                out.append(e.as_str());
            },
        }
    }
}

impl ParseError {
    /// The message that displaying this error shows:
    /// `error: LINE|COLUMN: DESCRIPTION`.
    pub fn message(&self) -> (m: String)
        ensures
            m@ == message_of(self@),
    {
        let mut out = String::new();
        out.append("error: ");
        push_decimal(&mut out, self.line);
        out.append("|");
        push_decimal(&mut out, self.column);
        out.append(": ");
        self.kind.push_description(&mut out);
        proof {
            assert(out@ == message_of(self@));
        }
        out
    }
}

} // verus!
