//! Decoding of quoted literal tokens: string and byte string literals, plain
//! and raw, and boolean literals.
//!
//! Each kind of literal has a type of its own with a `parse` function, which
//! takes the text of one literal and nothing else: [`StringLit`],
//! [`ByteStringLit`] and [`BoolLit`]. [`Literal`] tells the kinds apart by
//! how the text begins. What parsing rejects is an [`Error`], which names the
//! first violation and where in the text it lies.

pub mod ascii;
pub mod bool;
pub mod boundary;
pub mod buffer;
pub mod bytestr;
pub mod content;
pub mod err;
pub mod escape;
pub mod literal;
pub mod parse;
pub mod raw;
pub mod scalar;
mod sealed;
pub mod string;

pub use crate::bool::BoolLit;
pub use crate::buffer::Buffer;
pub use crate::bytestr::ByteStringLit;
pub use crate::err::{Error, ErrorKind, Span};
pub use crate::escape::Context;
pub use crate::literal::Literal;
pub use crate::string::StringLit;
