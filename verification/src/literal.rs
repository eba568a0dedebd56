//! A literal of any of the kinds that this library knows, told apart by how
//! it begins.

use vstd::prelude::*;
use vstd::utf8::encode_utf8;
use crate::bool::{false_spelling, lemma_spelling_bytes, true_spelling, BoolLit};
use crate::buffer::Buffer;
use crate::bytestr::ByteStringLit;
use crate::err::{err_absent, Error, ErrorKind, ErrorView};
use crate::escape::Context;
use crate::parse::{has_start, literal, literal_body, starts_literal, LitView, Parsed};
use crate::string::StringLit;

verus! {

/// A literal of any kind.
#[derive(Debug, PartialEq, Eq)]
pub enum Literal<B: Buffer> {
    Bool(BoolLit),
    String(StringLit<B>),
    ByteString(ByteStringLit<B>),
}

/// The mathematical counterpart of [`Literal`].
pub ghost enum LiteralView {
    Bool(BoolLit),
    String(LitView),
    ByteString(LitView),
}

impl<B: Buffer> View for Literal<B> {
    type V = LiteralView;

    open spec fn view(&self) -> LiteralView {
        match self {
            Literal::Bool(lit) => LiteralView::Bool(*lit),
            Literal::String(lit) => LiteralView::String(lit@),
            Literal::ByteString(lit) => LiteralView::ByteString(lit@),
        }
    }
}

/// The outcome `res` of parsing a string literal, as the outcome of parsing
/// a literal of any kind.
pub open spec fn as_string(raw: Seq<u8>, res: Result<Parsed, ErrorView>) -> Result<
    LiteralView,
    ErrorView,
> {
    match res {
        Ok(parsed) => Ok(LiteralView::String(LitView { raw, parsed })),
        Err(e) => Err(e),
    }
}

/// The outcome `res` of parsing a byte string literal, as the outcome of
/// parsing a literal of any kind.
pub open spec fn as_byte_string(raw: Seq<u8>, res: Result<Parsed, ErrorView>) -> Result<
    LiteralView,
    ErrorView,
> {
    match res {
        Ok(parsed) => Ok(LiteralView::ByteString(LitView { raw, parsed })),
        Err(e) => Err(e),
    }
}

/// The outcome of parsing the text `chars` as a literal of whichever kind
/// it begins like.
pub open spec fn any_literal(chars: Seq<char>) -> Result<LiteralView, ErrorView> {
    let s = encode_utf8(chars);
    if s.len() == 0 {
        Err(err_absent(ErrorKind::Empty))
    } else if chars == false_spelling() {
        Ok(LiteralView::Bool(BoolLit::False))
    } else if chars == true_spelling() {
        Ok(LiteralView::Bool(BoolLit::True))
    } else if has_start(s, Context::Text) {
        as_string(s, literal_body(s, Context::Text))
    } else if has_start(s, Context::Byte) {
        as_byte_string(s, literal_body(s, Context::Byte))
    } else {
        Err(err_absent(ErrorKind::InvalidLiteral))
    }
}

/// Text that begins like a string literal parses as a literal of any kind
/// as it parses as a string literal, and text that begins like a byte
/// string literal as it parses as a byte string literal: the result is the
/// same literal or the same error.
pub proof fn lemma_any_literal_delegates(chars: Seq<char>)
    ensures
        has_start(encode_utf8(chars), Context::Text) ==> any_literal(chars) == as_string(
            encode_utf8(chars),
            literal(encode_utf8(chars), Context::Text),
        ),
        has_start(encode_utf8(chars), Context::Byte) ==> any_literal(chars) == as_byte_string(
            encode_utf8(chars),
            literal(encode_utf8(chars), Context::Byte),
        ),
{
    lemma_spelling_bytes(chars);
}

impl<B: Buffer> Literal<B> {
    /// Parses `input` as a literal of the kind that it begins like: `true`
    /// and `false` are boolean literals, `"` and `r` begin a string literal,
    /// `b"` and `br` a byte string literal.
    pub fn parse(input: B) -> (res: Result<Self, Error>)
        ensures
            match res {
                Ok(lit) => any_literal(input.text()) == Ok::<LiteralView, ErrorView>(lit@),
                Err(e) => any_literal(input.text()) == Err::<LiteralView, ErrorView>(e@),
            },
    {
        let bytes = input.as_str().as_bytes();
        if bytes.len() == 0 {
            return Err(Error::absent(ErrorKind::Empty));
        }
        if let Ok(lit) = BoolLit::parse(input.as_str()) {
            return Ok(Literal::Bool(lit));
        }
        if starts_literal(bytes, Context::Text) {
            match StringLit::parse_impl(input) {
                Ok(lit) => Ok(Literal::String(lit)),
                Err(e) => Err(e),
            }
        } else if starts_literal(bytes, Context::Byte) {
            match ByteStringLit::parse_impl(input) {
                Ok(lit) => Ok(Literal::ByteString(lit)),
                Err(e) => Err(e),
            }
        } else {
            Err(Error::absent(ErrorKind::InvalidLiteral))
        }
    }
}

impl<B: Buffer> Clone for Literal<B> {
    fn clone(&self) -> (copy: Self)
        ensures
            copy@ == self@,
    {
        match self {
            Literal::Bool(lit) => Literal::Bool(*lit),
            Literal::String(lit) => Literal::String(lit.clone()),
            Literal::ByteString(lit) => Literal::ByteString(lit.clone()),
        }
    }
}

} // verus!
