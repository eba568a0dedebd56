//! Where the characters of UTF-8 text begin, and slicing text there.

use vstd::prelude::*;
use vstd::string::StringSliceAdditionalSpecFns;
use vstd::utf8::{
    decode_utf8, encode_scalar, encode_utf8, is_char_boundary, is_continuation_byte, is_scalar,
    length_of_first_scalar, pop_first_scalar, valid_first_scalar, valid_utf8,
};
use crate::ascii::is_ascii_byte;

verus! {

/// In valid UTF-8 a character begins at every byte in the 7-bit range, and
/// another one, or the end of the text, right behind it.
pub proof fn lemma_boundary_at_ascii(s: Seq<u8>, k: int)
    requires
        valid_utf8(s),
        0 <= k < s.len(),
        is_ascii_byte(s[k]),
    ensures
        is_char_boundary(s, k),
        is_char_boundary(s, k + 1),
{
    vstd::utf8::is_char_boundary_iff_not_is_continuation_byte(s, k);
    vstd::utf8::valid_utf8_split(s, k);
    let tail = s.subrange(k, s.len() as int);
    assert(tail[0] == s[k]);
    assert(length_of_first_scalar(tail) == 1);
    let rest = pop_first_scalar(tail);
    assert(rest =~= s.subrange(k + 1, s.len() as int));
    assert(valid_utf8(rest));
    if k + 1 == s.len() {
        vstd::utf8::is_char_boundary_start_end_of_seq(s);
    } else {
        assert(valid_first_scalar(rest));
        assert(rest[0] == s[k + 1]);
        assert(!is_continuation_byte(s[k + 1]));
        vstd::utf8::is_char_boundary_iff_not_is_continuation_byte(s, k + 1);
    }
}

/// The bytes between two character boundaries of valid UTF-8 are valid
/// UTF-8 themselves.
pub proof fn lemma_valid_between(s: Seq<u8>, from: int, to: int)
    requires
        valid_utf8(s),
        0 <= from <= to <= s.len(),
        is_char_boundary(s, from),
        is_char_boundary(s, to),
    ensures
        valid_utf8(s.subrange(from, to)),
{
    vstd::utf8::valid_utf8_split(s, from);
    let tail = s.subrange(from, s.len() as int);
    assert(is_char_boundary(tail, to - from)) by {
        if to == s.len() {
            vstd::utf8::is_char_boundary_start_end_of_seq(tail);
        } else {
            vstd::utf8::is_char_boundary_iff_not_is_continuation_byte(s, to);
            assert(tail[to - from] == s[to]);
            vstd::utf8::is_char_boundary_iff_not_is_continuation_byte(tail, to - from);
        }
    }
    vstd::utf8::valid_utf8_split(tail, to - from);
    assert(tail.subrange(0, to - from) =~= s.subrange(from, to));
}

/// The number of bytes of the character that begins at `i`.
pub open spec fn char_len_at(s: Seq<u8>, i: int) -> int {
    length_of_first_scalar(s.subrange(i, s.len() as int))
}

/// In valid UTF-8 the character that begins at `i` has one to four bytes,
/// all but the first of them continuation bytes, it is valid UTF-8 by
/// itself, and a character or the end of the text follows it.
pub proof fn lemma_char_at(s: Seq<u8>, i: int)
    requires
        valid_utf8(s),
        0 <= i < s.len(),
        is_char_boundary(s, i),
    ensures
        1 <= char_len_at(s, i) <= 4,
        i + char_len_at(s, i) <= s.len(),
        forall|j: int| i < j < i + char_len_at(s, i) ==> is_continuation_byte(#[trigger] s[j]),
        is_char_boundary(s, i + char_len_at(s, i)),
        valid_utf8(s.subrange(i, i + char_len_at(s, i))),
{
    let len = s.len() as int;
    let w = char_len_at(s, i);
    vstd::utf8::valid_utf8_split(s, i);
    let tail = s.subrange(i, len);
    assert(valid_first_scalar(tail));
    assert forall|j: int| i < j < i + w implies is_continuation_byte(#[trigger] s[j]) by {
        assert(tail[j - i] == s[j]);
    }
    let rest = pop_first_scalar(tail);
    assert(rest =~= s.subrange(i + w, len));
    assert(valid_utf8(rest));
    if i + w == len {
        vstd::utf8::is_char_boundary_start_end_of_seq(s);
    } else {
        assert(valid_first_scalar(rest));
        assert(rest[0] == s[i + w]);
        assert(!is_continuation_byte(s[i + w]));
        vstd::utf8::is_char_boundary_iff_not_is_continuation_byte(s, i + w);
    }
    lemma_valid_between(s, i, i + w);
}

/// The UTF-8 encoding of one Unicode scalar value is valid UTF-8.
pub proof fn lemma_scalar_valid(value: u32)
    requires
        is_scalar(value),
    ensures
        valid_utf8(encode_scalar(value)),
{
    let c = value as char;
    let chars = seq![c];
    assert(c as u32 == value);
    assert(chars.drop_first() =~= Seq::<char>::empty());
    assert(encode_utf8(chars.drop_first()) =~= Seq::<u8>::empty()) by {
        reveal_with_fuel(encode_utf8, 2);
    }
    assert(encode_utf8(chars) =~= encode_scalar(value)) by {
        reveal_with_fuel(encode_utf8, 2);
    }
    vstd::utf8::encode_utf8_valid_utf8(chars);
}

/// The part of `text` between the byte offsets `from` and `to`.
pub fn slice_str(text: &str, from: usize, to: usize) -> (part: &str)
    requires
        from <= to <= text.spec_bytes().len(),
        is_char_boundary(text.spec_bytes(), from as int),
        is_char_boundary(text.spec_bytes(), to as int),
    ensures
        part.spec_bytes() == text.spec_bytes().subrange(from as int, to as int),
        part@ == decode_utf8(text.spec_bytes().subrange(from as int, to as int)),
{
    let ghost s = text.spec_bytes();
    proof {
        vstd::utf8::encode_utf8_valid_utf8(text@);
    }
    let (head, _) = text.split_at(to);
    proof {
        vstd::utf8::encode_utf8_valid_utf8(head@);
        if from < to {
            vstd::utf8::is_char_boundary_iff_not_is_continuation_byte(s, from as int);
            assert(head.spec_bytes()[from as int] == s[from as int]);
            vstd::utf8::is_char_boundary_iff_not_is_continuation_byte(
                head.spec_bytes(),
                from as int,
            );
        } else {
            vstd::utf8::is_char_boundary_start_end_of_seq(head.spec_bytes());
        }
    }
    let (_, part) = head.split_at(from);
    proof {
        assert(part.spec_bytes() =~= s.subrange(from as int, to as int));
        vstd::utf8::encode_utf8_decode_utf8(part@);
    }
    part
}

} // verus!
