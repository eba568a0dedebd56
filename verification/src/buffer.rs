//! The text that a literal is parsed from: borrowed from the caller or
//! owned by the literal.

use std::borrow::Cow;
use vstd::prelude::*;
use vstd::utf8::{encode_utf8, is_char_boundary};
use crate::boundary::slice_str;
use crate::sealed::Sealed;

verus! {

/// `String::into_bytes` hands out the bytes of the string, which are the
/// UTF-8 encoding of its characters.
pub assume_specification[ std::string::String::into_bytes ](text: std::string::String) -> (bytes:
    std::vec::Vec<u8>)
    ensures
        bytes@ == encode_utf8(text@),
;

/// Text that a literal can be parsed from and that a parsed literal keeps.
///
/// There are two kinds, and no others can be added: `&str`, which borrows
/// the text from the caller, and `String`, which owns it. What comes out of
/// a literal is borrowed in the first case and owned in the second.
pub trait Buffer: Sized + Sealed {
    /// Text that is borrowed from this buffer or owned.
    type Cow: View<V = Seq<char>>;

    /// Bytes that are borrowed from this buffer or owned.
    type ByteCow: View<V = Seq<u8>>;

    /// The characters of the text.
    spec fn text(&self) -> Seq<char>;

    /// Whether buffers of this kind own their text.
    spec fn owns_text() -> bool;

    /// Whether `cow` owns its text.
    spec fn cow_is_owned(cow: &Self::Cow) -> bool;

    /// Whether `cow` owns its bytes.
    spec fn byte_cow_is_owned(cow: &Self::ByteCow) -> bool;

    /// The text as a string slice.
    fn as_str(&self) -> (text: &str)
        ensures
            text@ == self.text(),
    ;

    /// Another buffer of the same kind with the same text.
    fn duplicate(&self) -> (copy: Self)
        ensures
            copy.text() == self.text(),
    ;

    /// Hands the text out: borrowed where this buffer borrows it, owned
    /// where this buffer owns it.
    fn into_cow(self) -> (cow: Self::Cow)
        ensures
            cow@ == self.text(),
            Self::cow_is_owned(&cow) == Self::owns_text(),
    ;

    /// Hands the bytes of the text out: borrowed where this buffer borrows
    /// the text, owned where this buffer owns it.
    fn into_byte_cow(self) -> (cow: Self::ByteCow)
        ensures
            cow@ == encode_utf8(self.text()),
            Self::byte_cow_is_owned(&cow) == Self::owns_text(),
    ;

    /// Cuts the text down to the bytes `start..end`, which have to begin and
    /// end where characters do.
    fn cut(self, start: usize, end: usize) -> (part: Self)
        requires
            start <= end <= encode_utf8(self.text()).len(),
            is_char_boundary(encode_utf8(self.text()), start as int),
            is_char_boundary(encode_utf8(self.text()), end as int),
        ensures
            encode_utf8(part.text()) == encode_utf8(self.text()).subrange(
                start as int,
                end as int,
            ),
    ;

    /// Wraps text that was decoded, without copying it.
    fn cow_from_string(text: String) -> (cow: Self::Cow)
        ensures
            cow@ == text@,
            Self::cow_is_owned(&cow),
    ;

    /// Wraps bytes that were decoded, without copying them.
    fn byte_cow_from_vec(bytes: Vec<u8>) -> (cow: Self::ByteCow)
        ensures
            cow@ == bytes@,
            Self::byte_cow_is_owned(&cow),
    ;
}

/// The bytes of the text in `buffer`: its UTF-8 encoding.
pub open spec fn buffer_bytes<B: Buffer>(buffer: &B) -> Seq<u8> {
    encode_utf8(buffer.text())
}

impl<'a> Buffer for &'a str {
    type Cow = Cow<'a, str>;

    type ByteCow = Cow<'a, [u8]>;

    open spec fn text(&self) -> Seq<char> {
        (*self)@
    }

    open spec fn owns_text() -> bool {
        false
    }

    open spec fn cow_is_owned(cow: &Self::Cow) -> bool {
        *cow is Owned
    }

    open spec fn byte_cow_is_owned(cow: &Self::ByteCow) -> bool {
        *cow is Owned
    }

    fn as_str(&self) -> (text: &str) {
        *self
    }

    fn duplicate(&self) -> (copy: Self) {
        *self
    }

    fn into_cow(self) -> (cow: Self::Cow) {
        Cow::Borrowed(self)
    }

    fn into_byte_cow(self) -> (cow: Self::ByteCow) {
        Cow::Borrowed(self.as_bytes())
    }

    fn cut(self, start: usize, end: usize) -> (part: Self) {
        slice_str(self, start, end)
    }

    fn cow_from_string(text: String) -> (cow: Self::Cow) {
        Cow::Owned(text)
    }

    fn byte_cow_from_vec(bytes: Vec<u8>) -> (cow: Self::ByteCow) {
        Cow::Owned(bytes)
    }
}

impl Buffer for String {
    type Cow = Cow<'static, str>;

    type ByteCow = Cow<'static, [u8]>;

    open spec fn text(&self) -> Seq<char> {
        self@
    }

    open spec fn owns_text() -> bool {
        true
    }

    open spec fn cow_is_owned(cow: &Self::Cow) -> bool {
        *cow is Owned
    }

    open spec fn byte_cow_is_owned(cow: &Self::ByteCow) -> bool {
        *cow is Owned
    }

    fn as_str(&self) -> (text: &str) {
        String::as_str(self)
    }

    fn duplicate(&self) -> (copy: Self) {
        self.clone()
    }

    fn into_cow(self) -> (cow: Self::Cow) {
        Cow::Owned(self)
    }

    fn into_byte_cow(self) -> (cow: Self::ByteCow) {
        Cow::Owned(self.into_bytes())
    }

    fn cut(self, start: usize, end: usize) -> (part: Self) {
        let part = slice_str(String::as_str(&self), start, end);
        part.to_owned()
    }

    fn cow_from_string(text: String) -> (cow: Self::Cow) {
        Cow::Owned(text)
    }

    fn byte_cow_from_vec(bytes: Vec<u8>) -> (cow: Self::ByteCow) {
        Cow::Owned(bytes)
    }
}

} // verus!
