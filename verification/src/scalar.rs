//! UTF-8 encoding of a single Unicode scalar value.

use vstd::prelude::*;
use vstd::utf8::{
    encode_scalar, has_width_1_encoding, has_width_2_encoding, has_width_3_encoding, is_scalar,
    last_continuation_byte, leading_byte_width_1, leading_byte_width_2, leading_byte_width_3,
    leading_byte_width_4, second_last_continuation_byte, third_last_continuation_byte,
};

verus! {

/// Appends the UTF-8 encoding of the scalar value `value` to `out`.
pub fn push_scalar(out: &mut Vec<u8>, value: u32)
    requires
        is_scalar(value),
    ensures
        final(out)@ == old(out)@ + encode_scalar(value),
{
    if value <= 0x7F {
        let b0 = (value & 0x7F) as u8;
        assert(b0 == leading_byte_width_1(value));
        out.push(b0);
        assert(out@ =~= old(out)@ + encode_scalar(value));
    } else if value <= 0x7FF {
        assert(((value >> 6) & 0x1F) <= 0xFF && (value & 0x3F) <= 0xFF) by (bit_vector);
        let b0 = 0xC0u8 | ((value >> 6) & 0x1F) as u8;
        let b1 = 0x80u8 | (value & 0x3F) as u8;
        assert(b0 == leading_byte_width_2(value));
        assert(b1 == last_continuation_byte(value));
        out.push(b0);
        out.push(b1);
        assert(has_width_2_encoding(value));
        assert(out@ =~= old(out)@ + encode_scalar(value));
    } else if value <= 0xFFFF {
        assert(((value >> 12) & 0x0F) <= 0xFF && ((value >> 6) & 0x3F) <= 0xFF && (value & 0x3F)
            <= 0xFF) by (bit_vector);
        let b0 = 0xE0u8 | ((value >> 12) & 0x0F) as u8;
        let b1 = 0x80u8 | ((value >> 6) & 0x3F) as u8;
        let b2 = 0x80u8 | (value & 0x3F) as u8;
        assert(b0 == leading_byte_width_3(value));
        assert(b1 == second_last_continuation_byte(value));
        assert(b2 == last_continuation_byte(value));
        out.push(b0);
        out.push(b1);
        out.push(b2);
        assert(has_width_3_encoding(value));
        assert(out@ =~= old(out)@ + encode_scalar(value));
    } else {
        assert(((value >> 18) & 0x07) <= 0xFF && ((value >> 12) & 0x3F) <= 0xFF && ((value >> 6)
            & 0x3F) <= 0xFF && (value & 0x3F) <= 0xFF) by (bit_vector);
        let b0 = 0xF0u8 | ((value >> 18) & 0x07) as u8;
        let b1 = 0x80u8 | ((value >> 12) & 0x3F) as u8;
        let b2 = 0x80u8 | ((value >> 6) & 0x3F) as u8;
        let b3 = 0x80u8 | (value & 0x3F) as u8;
        assert(b0 == leading_byte_width_4(value));
        assert(b1 == third_last_continuation_byte(value));
        assert(b2 == second_last_continuation_byte(value));
        assert(b3 == last_continuation_byte(value));
        out.push(b0);
        out.push(b1);
        out.push(b2);
        out.push(b3);
        assert(!has_width_1_encoding(value) && !has_width_2_encoding(value)
            && !has_width_3_encoding(value));
        assert(out@ =~= old(out)@ + encode_scalar(value));
    }
}

} // verus!
