//! The ASCII bytes that carry meaning in the grammar of literals.

use vstd::prelude::*;

verus! {

/// `"`, which opens and closes every string and byte string literal.
pub const QUOTE: u8 = 0x22;

/// `#`, the fence character of raw literals.
pub const HASH: u8 = 0x23;

/// `\`, which introduces an escape.
pub const BACKSLASH: u8 = 0x5C;

/// Carriage return.
pub const CR: u8 = 0x0D;

/// Line feed.
pub const LF: u8 = 0x0A;

/// `b`, the marker of byte string literals.
pub const LOWER_B: u8 = 0x62;

/// `r`, the marker of raw literals.
pub const LOWER_R: u8 = 0x72;

/// `u`, which begins a Unicode escape behind the backslash.
pub const LOWER_U: u8 = 0x75;

/// `x`, which begins an escape of two hexadecimal digits behind the
/// backslash.
pub const LOWER_X: u8 = 0x78;

/// `{`, which opens the digits of a Unicode escape.
pub const OPEN_BRACE: u8 = 0x7B;

/// `}`, which closes the digits of a Unicode escape.
pub const CLOSE_BRACE: u8 = 0x7D;

/// `_`, the separator allowed between the digits of a Unicode escape.
pub const UNDERSCORE: u8 = 0x5F;

/// Whether `b` lies in the 7-bit range.
pub open spec fn is_ascii_byte(b: u8) -> bool {
    b < 0x80
}

/// The value of `b` read as a hexadecimal digit, if it is one.
pub open spec fn hex_value(b: u8) -> Option<u8> {
    if 0x30 <= b <= 0x39 {
        Some((b - 0x30) as u8)
    } else if 0x61 <= b <= 0x66 {
        Some((b - 0x61 + 10) as u8)
    } else if 0x41 <= b <= 0x46 {
        Some((b - 0x41 + 10) as u8)
    } else {
        None
    }
}

/// Reads `b` as a hexadecimal digit, in either case.
pub fn hex_digit_value(b: u8) -> (digit: Option<u8>)
    ensures
        digit == hex_value(b),
        digit matches Some(d) ==> d < 16 && is_ascii_byte(b),
{
    if 0x30 <= b && b <= 0x39 {
        Some(b - 0x30)
    } else if 0x61 <= b && b <= 0x66 {
        Some(b - 0x61 + 10)
    } else if 0x41 <= b && b <= 0x46 {
        Some(b - 0x41 + 10)
    } else {
        None
    }
}

} // verus!
