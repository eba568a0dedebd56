//! Keeps the kinds of text that a literal can be parsed from to the two
//! that this library provides.

use vstd::prelude::*;

verus! {

/// Implemented for `&str` and `String` and for nothing else.
pub trait Sealed {

}

impl<'a> Sealed for &'a str {

}

impl Sealed for String {

}

} // verus!
