//! Errors reported while decoding a literal, with their position in the input.

use vstd::prelude::*;

verus! {

/// What went wrong while decoding a literal.
#[derive(Debug, Clone, Copy, PartialEq, Eq, Hash, Structural)]
pub enum ErrorKind {
    /// The input has no bytes at all.
    Empty,
    /// The input is not a literal of any supported kind, or a raw literal
    /// lacks its opening quote.
    InvalidLiteral,
    /// The input does not begin like a (raw) string literal.
    InvalidStringLiteralStart,
    /// The input does not begin like a (raw) byte string literal.
    InvalidByteStringLiteralStart,
    /// The closing quote of a string or byte string is missing.
    UnterminatedString,
    /// The closing quote and fence of a raw literal are missing.
    UnterminatedRawString,
    /// A `\x` escape is cut short by the end of the literal.
    UnterminatedEscape,
    /// A `\u{` escape has no closing brace.
    UnterminatedUnicodeEscape,
    /// Bytes follow the end of the literal.
    UnexpectedChar,
    /// A carriage return that is not followed by a line feed.
    IsolatedCr,
    /// A byte outside the 7-bit range inside a byte string literal.
    NonAsciiInByteLiteral,
    /// A `\x` escape above `0x7F` inside a string literal.
    NonAsciiXEscape,
    /// A backslash followed by a byte that starts no escape.
    UnknownEscape,
    /// A `\x` escape whose two digits are not both hexadecimal.
    InvalidXEscape,
    /// A `\u` escape inside a byte string literal.
    UnicodeEscapeInByteLiteral,
    /// A `\u` that is not followed by an opening brace.
    UnicodeEscapeWithoutBrace,
    /// A `\u{` escape that does not begin with a hexadecimal digit.
    InvalidStartOfUnicodeEscape,
    /// A byte inside `\u{...}` that is neither a hexadecimal digit nor `_`.
    NonHexDigitInUnicodeEscape,
    /// More than six hexadecimal digits inside `\u{...}`.
    TooManyDigitInUnicodeEscape,
    /// A `\u{...}` escape whose value is not a Unicode scalar value.
    InvalidUnicodeEscapeChar,
}

/// Where in the input an error lies: nowhere in particular, at one byte, or
/// over a half-open range of bytes. Offsets count bytes from the start of
/// the input that was handed to the parser.
#[derive(Debug, Clone, Copy, PartialEq, Eq, Hash, Structural)]
pub enum Span {
    /// The error has no position.
    Absent,
    /// The error lies at this byte offset.
    At(usize),
    /// The error covers the bytes from the first offset up to, but not
    /// including, the second.
    Range(usize, usize),
}

/// The mathematical counterpart of [`Span`], over unbounded integers.
pub ghost enum SpanView {
    Absent,
    At(int),
    Range(int, int),
}

/// The mathematical counterpart of [`Error`].
pub ghost struct ErrorView {
    pub kind: ErrorKind,
    pub span: SpanView,
}

/// An error without a position.
pub open spec fn err_absent(kind: ErrorKind) -> ErrorView {
    ErrorView { kind, span: SpanView::Absent }
}

/// An error at the byte offset `at`.
pub open spec fn err_at(kind: ErrorKind, at: int) -> ErrorView {
    ErrorView { kind, span: SpanView::At(at) }
}

/// An error over the bytes `start..end`.
pub open spec fn err_range(kind: ErrorKind, start: int, end: int) -> ErrorView {
    ErrorView { kind, span: SpanView::Range(start, end) }
}

/// Whether `span` lies within the bytes `from..to`: a single offset is that
/// of one of those bytes, a range is not reversed and stays inside.
pub open spec fn span_within(span: SpanView, from: int, to: int) -> bool {
    match span {
        SpanView::Absent => true,
        SpanView::At(at) => from <= at < to,
        SpanView::Range(start, end) => from <= start <= end <= to,
    }
}

impl View for Span {
    type V = SpanView;

    open spec fn view(&self) -> SpanView {
        match *self {
            Span::Absent => SpanView::Absent,
            Span::At(at) => SpanView::At(at as int),
            Span::Range(start, end) => SpanView::Range(start as int, end as int),
        }
    }
}

/// The first violation found in a literal: its kind and its position.
#[derive(Debug, Clone, Copy, PartialEq, Eq, Hash, Structural)]
pub struct Error {
    kind: ErrorKind,
    span: Span,
}

impl View for Error {
    type V = ErrorView;

    closed spec fn view(&self) -> ErrorView {
        ErrorView { kind: self.kind, span: self.span@ }
    }
}

impl Error {
    /// An error of the given kind without a position.
    pub fn absent(kind: ErrorKind) -> (e: Error)
        ensures
            e@ == err_absent(kind),
    {
        Error { kind, span: Span::Absent }
    }

    /// An error of the given kind at one byte offset.
    pub fn at(kind: ErrorKind, at: usize) -> (e: Error)
        ensures
            e@ == err_at(kind, at as int),
    {
        Error { kind, span: Span::At(at) }
    }

    /// An error of the given kind over the bytes `start..end`.
    pub fn range(kind: ErrorKind, start: usize, end: usize) -> (e: Error)
        ensures
            e@ == err_range(kind, start as int, end as int),
    {
        Error { kind, span: Span::Range(start, end) }
    }

    /// The kind of this error.
    pub fn kind(&self) -> (kind: ErrorKind)
        ensures
            kind == self@.kind,
    {
        self.kind
    }

    /// The position of this error in the input.
    pub fn span(&self) -> (span: Span)
        ensures
            span@ == self@.span,
    {
        self.span
    }
}

} // verus!
