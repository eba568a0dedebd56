//! String literals, plain and raw: `"hello"` and `r#"abc"def"#`.

use std::ops::Range;
use vstd::prelude::*;
use vstd::utf8::{encode_utf8, valid_utf8};
use crate::boundary::slice_str;
use crate::buffer::{buffer_bytes, Buffer};
use crate::err::{Error, ErrorKind, ErrorView};
use crate::escape::Context;
use crate::parse::{
    content_end, content_start, has_start, lemma_content_boundaries, lemma_content_bounds,
    lemma_text_value_valid, literal, literal_body, parse_body, starts_literal, value_of, LitView,
    Parsed,
};

verus! {

/// `String::from_utf8` turns bytes into text exactly if they are valid
/// UTF-8, and the text then has those bytes as its encoding.
#[verifier::external_body]
fn string_from_utf8(bytes: Vec<u8>) -> (text: Option<String>)
    ensures
        text is Some <==> valid_utf8(bytes@),
        text matches Some(text) ==> encode_utf8(text@) == bytes@,
{
    String::from_utf8(bytes).ok()
}

/// A string or raw string literal.
///
/// It keeps the text it was parsed from. Where that text holds escapes, it
/// also keeps the text they stand for; where it holds none, its value is
/// read from the text and nothing is copied.
#[derive(Debug, PartialEq, Eq)]
pub struct StringLit<B: Buffer> {
    /// The text of the literal.
    raw: B,
    /// The value of the literal, or `None` where the text holds no escape.
    value: Option<String>,
    /// The length of the fence of a raw literal, or `None` for one that is
    /// not raw.
    num_hashes: Option<usize>,
}

impl<B: Buffer> View for StringLit<B> {
    type V = LitView;

    closed spec fn view(&self) -> LitView {
        LitView {
            raw: buffer_bytes(&self.raw),
            parsed: Parsed {
                decoded: match self.value {
                    Some(text) => Some(encode_utf8(text@)),
                    None => None,
                },
                hashes: match self.num_hashes {
                    Some(n) => Some(n as nat),
                    None => None,
                },
            },
        }
    }
}

impl<B: Buffer> StringLit<B> {
    /// A literal is what parsing its text gives.
    #[verifier::type_invariant]
    spec fn well_formed(&self) -> bool {
        literal(self@.raw, Context::Text) == Ok::<Parsed, ErrorView>(self@.parsed)
    }

    /// Parses `input` as a string literal, raw or not.
    ///
    /// `input` has to be the literal and nothing else. The result is the
    /// first error in it, if there is one.
    pub fn parse(input: B) -> (res: Result<Self, Error>)
        ensures
            match res {
                Ok(lit) => {
                    &&& lit@.raw == buffer_bytes(&input)
                    &&& literal(buffer_bytes(&input), Context::Text) == Ok::<Parsed, ErrorView>(
                        lit@.parsed,
                    )
                },
                Err(e) => literal(buffer_bytes(&input), Context::Text) == Err::<
                    Parsed,
                    ErrorView,
                >(e@),
            },
    {
        let bytes = input.as_str().as_bytes();
        if bytes.len() == 0 {
            return Err(Error::absent(ErrorKind::Empty));
        }
        if !starts_literal(bytes, Context::Text) {
            return Err(Error::absent(ErrorKind::InvalidStringLiteralStart));
        }
        Self::parse_impl(input)
    }

    /// The value of the literal: its content with every escape replaced by
    /// the character it stands for.
    pub fn value(&self) -> (value: &str)
        ensures
            encode_utf8(value@) == value_of(self@.raw, Context::Text, self@.parsed),
            literal(self@.raw, Context::Text) == Ok::<Parsed, ErrorView>(self@.parsed),
    {
        proof {
            use_type_invariant(self);
            lemma_content_bounds(self@.raw, Context::Text);
            vstd::utf8::encode_utf8_valid_utf8(self.raw.text());
            lemma_content_boundaries(self@.raw, Context::Text);
        }
        match &self.value {
            Some(text) => text.as_str(),
            None => {
                let range = self.inner_range();
                slice_str(self.raw.as_str(), range.start, range.end)
            },
        }
    }

    /// The value of the literal, handed out. Where the content was decoded,
    /// this is the decoded value, which is owned. Where it was not, it is the
    /// content of the literal, cut from its text: borrowed where the literal
    /// borrows its text, owned where the literal owns it.
    pub fn into_value(self) -> (value: B::Cow)
        ensures
            encode_utf8(value@) == value_of(self@.raw, Context::Text, self@.parsed),
            B::cow_is_owned(&value) == (self@.parsed.decoded is Some || B::owns_text()),
    {
        proof {
            use_type_invariant(&self);
            lemma_content_bounds(self@.raw, Context::Text);
            vstd::utf8::encode_utf8_valid_utf8(self.raw.text());
            lemma_content_boundaries(self@.raw, Context::Text);
        }
        let range = self.inner_range();
        let StringLit { raw, value, .. } = self;
        match value {
            Some(text) => B::cow_from_string(text),
            None => raw.cut(range.start, range.end).into_cow(),
        }
    }

    /// Whether the literal is a raw string literal.
    pub fn is_raw_string(&self) -> (raw: bool)
        ensures
            raw == self@.parsed.hashes is Some,
    {
        self.num_hashes.is_some()
    }

    /// What the content was decoded to, or `None` where it holds no escape
    /// and the value of the literal is the content as it stands.
    pub fn decoded(&self) -> (decoded: Option<&str>)
        ensures
            match decoded {
                Some(text) => self@.parsed.decoded == Some(encode_utf8(text@)),
                None => self@.parsed.decoded is None,
            },
    {
        match &self.value {
            Some(text) => Some(text.as_str()),
            None => None,
        }
    }

    /// The length of the fence of a raw literal, or `None` for a literal
    /// that is not raw.
    pub fn num_hashes(&self) -> (n: Option<usize>)
        ensures
            match n {
                Some(n) => self@.parsed.hashes == Some(n as nat),
                None => self@.parsed.hashes is None,
            },
    {
        self.num_hashes
    }

    /// The text that the literal was parsed from.
    pub fn raw_input(&self) -> (text: &str)
        ensures
            encode_utf8(text@) == self@.raw,
            literal(self@.raw, Context::Text) == Ok::<Parsed, ErrorView>(self@.parsed),
    {
        proof {
            use_type_invariant(self);
        }
        self.raw.as_str()
    }

    /// The bytes of the text between which the content lies: behind the
    /// opening quote and in front of the closing one.
    fn inner_range(&self) -> (range: Range<usize>)
        ensures
            range.start == content_start(Context::Text, self@.parsed.hashes),
            range.end == content_end(self@.raw.len() as int, self@.parsed.hashes),
            1 <= range.start <= range.end < self@.raw.len(),
    {
        proof {
            use_type_invariant(self);
            lemma_content_bounds(self@.raw, Context::Text);
        }
        let len = self.raw.as_str().as_bytes().len();
        match self.num_hashes {
            None => 1..len - 1,
            Some(n) => 1 + n + 1..len - n - 1,
        }
    }

    /// Parses `input`, which has to begin like a string literal, raw or
    /// not.
    pub(crate) fn parse_impl(input: B) -> (res: Result<Self, Error>)
        requires
            has_start(buffer_bytes(&input), Context::Text),
        ensures
            match res {
                Ok(lit) => {
                    &&& lit@.raw == buffer_bytes(&input)
                    &&& literal_body(buffer_bytes(&input), Context::Text) == Ok::<
                        Parsed,
                        ErrorView,
                    >(lit@.parsed)
                },
                Err(e) => literal_body(buffer_bytes(&input), Context::Text) == Err::<
                    Parsed,
                    ErrorView,
                >(e@),
            },
    {
        match parse_body(input.as_str().as_bytes(), Context::Text) {
            Ok((decoded, num_hashes)) => {
                proof {
                    vstd::utf8::encode_utf8_valid_utf8(input.text());
                    lemma_text_value_valid(buffer_bytes(&input));
                }
                let value = match decoded {
                    Some(bytes) => string_from_utf8(bytes),
                    None => None,
                };
                Ok(StringLit { raw: input, value, num_hashes })
            },
            Err(e) => Err(e),
        }
    }
}

impl<B: Buffer> Clone for StringLit<B> {
    fn clone(&self) -> (copy: Self)
        ensures
            copy@ == self@,
    {
        proof {
            use_type_invariant(self);
        }
        StringLit {
            raw: self.raw.duplicate(),
            value: self.value.clone(),
            num_hashes: self.num_hashes,
        }
    }
}

impl<'a> StringLit<&'a str> {
    /// Copies the text of the literal, so that the literal owns it.
    pub fn into_owned(self) -> (owned: StringLit<String>)
        ensures
            owned@ == self@,
    {
        proof {
            use_type_invariant(&self);
        }
        let StringLit { raw, value, num_hashes } = self;
        StringLit { raw: raw.to_owned(), value, num_hashes }
    }
}

} // verus!
