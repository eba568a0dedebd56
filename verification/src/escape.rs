//! Decoding of a single escape sequence.

use vstd::prelude::*;
use vstd::utf8::{encode_scalar, is_scalar};
use crate::ascii::{
    hex_digit_value, hex_value, is_ascii_byte, BACKSLASH, CLOSE_BRACE, LOWER_U, LOWER_X,
    OPEN_BRACE, QUOTE, UNDERSCORE,
};
use crate::err::{err_absent, err_at, err_range, span_within, Error, ErrorKind, ErrorView};

verus! {

/// What kind of literal is being decoded: this decides which escapes are
/// legal and which values they may take.
#[derive(Debug, Clone, Copy, PartialEq, Eq, Hash, Structural)]
pub enum Context {
    /// A string literal: its content is text.
    Text,
    /// A byte string literal: its content is bytes in the 7-bit range, and
    /// escapes may produce any byte.
    Byte,
}

/// The value of one escape and the number of input bytes that spell it.
pub ghost struct Unescaped {
    pub value: u32,
    pub len: int,
}

/// The value of the escape `\c` for the bytes `c` that form a two-byte
/// escape on their own.
pub open spec fn simple_escape(c: u8) -> Option<u32> {
    if c == 0x6E {
        Some(0x0Au32)  // \n
    } else if c == 0x72 {
        Some(0x0Du32)  // \r
    } else if c == 0x74 {
        Some(0x09u32)  // \t
    } else if c == 0x30 {
        Some(0x00u32)  // \0
    } else if c == BACKSLASH {
        Some(0x5Cu32)
    } else if c == 0x27 {
        Some(0x27u32)  // \'
    } else if c == QUOTE {
        Some(0x22u32)
    } else {
        None
    }
}

/// The first index in `from..s.len()` at which `s` holds `b`, or `s.len()`
/// where there is none.
pub open spec fn find_byte(s: Seq<u8>, from: int, b: u8) -> int
    decreases s.len() - from,
{
    if from >= s.len() {
        s.len() as int
    } else if s[from] == b {
        from
    } else {
        find_byte(s, from + 1, b)
    }
}

/// Reads the digits `s[k..to]` of a Unicode escape after `count` digits of
/// value `value` have been read. Separators are passed over. `offset` is the
/// position of `s[0]` in the whole input.
pub open spec fn unicode_digits(
    s: Seq<u8>,
    offset: int,
    k: int,
    to: int,
    value: int,
    count: int,
) -> Result<int, ErrorView>
    decreases to - k,
{
    if k >= to {
        Ok(value)
    } else if s[k] == UNDERSCORE {
        unicode_digits(s, offset, k + 1, to, value, count)
    } else {
        match hex_value(s[k]) {
            None => Err(err_at(ErrorKind::NonHexDigitInUnicodeEscape, offset + k)),
            Some(d) => if count >= 6 {
                Err(err_at(ErrorKind::TooManyDigitInUnicodeEscape, offset + k))
            } else {
                unicode_digits(s, offset, k + 1, to, 16 * value + d, count + 1)
            },
        }
    }
}

/// The escape `\xHH` at the start of `s`.
pub open spec fn hex_escape(s: Seq<u8>, offset: int, ctx: Context) -> Result<
    Unescaped,
    ErrorView,
> {
    if s.len() < 4 {
        Err(err_range(ErrorKind::UnterminatedEscape, offset, offset + s.len()))
    } else {
        match (hex_value(s[2]), hex_value(s[3])) {
            (Some(hi), Some(lo)) => {
                let value = 16 * hi + lo;
                if ctx == Context::Text && value > 0x7F {
                    Err(err_range(ErrorKind::NonAsciiXEscape, offset, offset + 4))
                } else {
                    Ok(Unescaped { value: value as u32, len: 4 })
                }
            },
            _ => Err(err_range(ErrorKind::InvalidXEscape, offset, offset + 4)),
        }
    }
}

/// The escape `\u{...}` at the start of `s`.
pub open spec fn unicode_escape(s: Seq<u8>, offset: int, ctx: Context) -> Result<
    Unescaped,
    ErrorView,
> {
    if ctx == Context::Byte {
        Err(err_range(ErrorKind::UnicodeEscapeInByteLiteral, offset, offset + 2))
    } else if s.len() < 3 || s[2] != OPEN_BRACE {
        Err(err_range(ErrorKind::UnicodeEscapeWithoutBrace, offset, offset + 2))
    } else {
        let close = find_byte(s, 3, CLOSE_BRACE);
        if close >= s.len() {
            Err(err_range(ErrorKind::UnterminatedUnicodeEscape, offset, offset + s.len()))
        } else if close == 3 || s[3] == UNDERSCORE {
            Err(err_at(ErrorKind::InvalidStartOfUnicodeEscape, offset + 3))
        } else {
            match unicode_digits(s, offset, 3, close, 0, 0) {
                Err(e) => Err(e),
                Ok(value) => if value <= 0x10FFFF && is_scalar(value as u32) {
                    Ok(Unescaped { value: value as u32, len: close + 1 })
                } else {
                    Err(
                        err_range(
                            ErrorKind::InvalidUnicodeEscapeChar,
                            offset,
                            offset + close + 1,
                        ),
                    )
                },
            }
        }
    }
}

/// The escape at the start of `s`, where `s[0]` is the backslash, `s` ends
/// where the content of the literal ends, and `offset` is the position of
/// `s[0]` in the whole input.
///
/// A backslash with nothing behind it leaves the literal without its
/// closing quote.
pub open spec fn unescape_spec(s: Seq<u8>, offset: int, ctx: Context) -> Result<
    Unescaped,
    ErrorView,
> {
    if s.len() < 2 {
        Err(err_absent(ErrorKind::UnterminatedString))
    } else if s[1] == LOWER_X {
        hex_escape(s, offset, ctx)
    } else if s[1] == LOWER_U {
        unicode_escape(s, offset, ctx)
    } else {
        match simple_escape(s[1]) {
            Some(value) => Ok(Unescaped { value, len: 2 }),
            None => Err(err_range(ErrorKind::UnknownEscape, offset, offset + 2)),
        }
    }
}

/// The bytes that an escape of value `value` adds to the decoded content:
/// the UTF-8 encoding of the scalar in a string, the byte itself in a byte
/// string.
pub open spec fn escape_output(value: u32, ctx: Context) -> Seq<u8> {
    match ctx {
        Context::Text => encode_scalar(value),
        Context::Byte => seq![value as u8],
    }
}

/// `find_byte` stays within `from..=s.len()`, finds `b`, and passes over
/// nothing that is `b`.
pub proof fn lemma_find_byte(s: Seq<u8>, from: int, b: u8)
    requires
        0 <= from <= s.len(),
    ensures
        from <= find_byte(s, from, b) <= s.len(),
        find_byte(s, from, b) < s.len() ==> s[find_byte(s, from, b)] == b,
        forall|k: int| from <= k < find_byte(s, from, b) ==> s[k] != b,
    decreases s.len() - from,
{
    if from < s.len() && s[from] != b {
        lemma_find_byte(s, from + 1, b);
    }
}

/// Digits that were read without an error are all in the 7-bit range.
pub proof fn lemma_unicode_digits_ascii(
    s: Seq<u8>,
    offset: int,
    k: int,
    to: int,
    value: int,
    count: int,
)
    requires
        0 <= k <= to <= s.len(),
        unicode_digits(s, offset, k, to, value, count) is Ok,
    ensures
        forall|j: int| k <= j < to ==> is_ascii_byte(#[trigger] s[j]),
    decreases to - k,
{
    if k < to {
        if s[k] == UNDERSCORE {
            lemma_unicode_digits_ascii(s, offset, k + 1, to, value, count);
        } else {
            let d = hex_value(s[k])->0;
            lemma_unicode_digits_ascii(s, offset, k + 1, to, 16 * value + d, count + 1);
        }
    }
}

/// What holds of every escape that decodes: it is spelled with at least two
/// bytes, all of them in the 7-bit range, and its value is a Unicode scalar
/// value in a string and a byte in a byte string.
pub proof fn lemma_unescape_ok(s: Seq<u8>, offset: int, ctx: Context)
    requires
        s.len() >= 1,
        s[0] == BACKSLASH,
        unescape_spec(s, offset, ctx) is Ok,
    ensures
        ({
            let u = unescape_spec(s, offset, ctx)->Ok_0;
            &&& 2 <= u.len <= s.len()
            &&& forall|j: int| 0 <= j < u.len ==> is_ascii_byte(#[trigger] s[j])
            &&& ctx == Context::Text ==> is_scalar(u.value)
            &&& ctx == Context::Byte ==> u.value <= 0xFF
            &&& escape_output(u.value, ctx).len() >= 1
        }),
{
    if s[1] == LOWER_U {
        lemma_find_byte(s, 3, CLOSE_BRACE);
        let close = find_byte(s, 3, CLOSE_BRACE);
        lemma_unicode_digits_ascii(s, offset, 3, close, 0, 0);
    }
}

/// Each of the seven escapes of two bytes stands for its one fixed byte, in
/// a string and in a byte string alike: `\n` for a line feed, `\r` for a
/// carriage return, `\t` for a tab, `\0` for the byte zero, and `\\`,
/// `\'` and `\"` for the character behind the backslash.
pub proof fn lemma_simple_escapes(s: Seq<u8>, offset: int, ctx: Context)
    requires
        s.len() >= 2,
        s[0] == BACKSLASH,
        simple_escape(s[1]) is Some,
    ensures
        unescape_spec(s, offset, ctx) == Ok::<Unescaped, ErrorView>(
            Unescaped { value: simple_escape(s[1])->0, len: 2 },
        ),
        escape_output(simple_escape(s[1])->0, ctx) == seq![simple_escape(s[1])->0 as u8],
        s[1] == 0x6E ==> simple_escape(s[1])->0 == 0x0A,
        s[1] == 0x72 ==> simple_escape(s[1])->0 == 0x0D,
        s[1] == 0x74 ==> simple_escape(s[1])->0 == 0x09,
        s[1] == 0x30 ==> simple_escape(s[1])->0 == 0x00,
        s[1] == 0x5C ==> simple_escape(s[1])->0 == 0x5C,
        s[1] == 0x27 ==> simple_escape(s[1])->0 == 0x27,
        s[1] == 0x22 ==> simple_escape(s[1])->0 == 0x22,
{
    let value = simple_escape(s[1])->0;
    assert(value <= 0x7F);
    assert((value & 0x7F) == value) by (bit_vector)
        requires
            value <= 0x7F,
    ;
    assert(encode_scalar(value) =~= seq![value as u8]);
}

/// An escape of two hexadecimal digits stands for the byte that the digits
/// spell. In a byte string that is any byte; in a string it has to lie in
/// the 7-bit range, and else the four bytes of the escape are reported.
pub proof fn lemma_hex_escape(s: Seq<u8>, offset: int, ctx: Context)
    requires
        s.len() >= 4,
        s[0] == BACKSLASH,
        s[1] == LOWER_X,
        hex_value(s[2]) is Some,
        hex_value(s[3]) is Some,
    ensures
        ({
            let value = 16 * hex_value(s[2])->0 + hex_value(s[3])->0;
            &&& 0 <= value <= 0xFF
            &&& ctx == Context::Byte || value <= 0x7F ==> {
                &&& unescape_spec(s, offset, ctx) == Ok::<Unescaped, ErrorView>(
                    Unescaped { value: value as u32, len: 4 },
                )
                &&& escape_output(value as u32, ctx) == seq![value as u8]
            }
            &&& ctx == Context::Text && value > 0x7F ==> unescape_spec(s, offset, ctx) == Err::<
                Unescaped,
                ErrorView,
            >(err_range(ErrorKind::NonAsciiXEscape, offset, offset + 4))
        }),
{
    let value = (16 * hex_value(s[2])->0 + hex_value(s[3])->0) as u32;
    if value <= 0x7F {
        assert((value & 0x7F) == value) by (bit_vector)
            requires
                value <= 0x7F,
        ;
        assert(encode_scalar(value) =~= seq![value as u8]);
    }
}

/// A separator between the digits of a Unicode escape changes neither the
/// value that is read nor the number of digits that are counted.
pub proof fn lemma_separator_ignored(
    s: Seq<u8>,
    offset: int,
    k: int,
    to: int,
    value: int,
    count: int,
)
    requires
        0 <= k < to <= s.len(),
        s[k] == UNDERSCORE,
    ensures
        unicode_digits(s, offset, k, to, value, count) == unicode_digits(
            s,
            offset,
            k + 1,
            to,
            value,
            count,
        ),
{
}

/// A digit of a Unicode escape that is no separator is the next
/// hexadecimal digit of the value, and the seventh such digit is one too
/// many.
pub proof fn lemma_digit_read(s: Seq<u8>, offset: int, k: int, to: int, value: int, count: int)
    requires
        0 <= k < to <= s.len(),
        s[k] != UNDERSCORE,
        hex_value(s[k]) is Some,
    ensures
        count < 6 ==> unicode_digits(s, offset, k, to, value, count) == unicode_digits(
            s,
            offset,
            k + 1,
            to,
            16 * value + hex_value(s[k])->0,
            count + 1,
        ),
        count >= 6 ==> unicode_digits(s, offset, k, to, value, count) == Err::<int, ErrorView>(
            err_at(ErrorKind::TooManyDigitInUnicodeEscape, offset + k),
        ),
{
}

/// A Unicode escape in a string whose digits spell `value`: where that is a
/// Unicode scalar value, the escape stands for it, ends behind its closing
/// brace and adds the UTF-8 encoding of the scalar to the content, which has
/// four bytes from `0x10000` on. Where it is none, because it is a
/// surrogate or lies above `0x10FFFF`, the whole escape is reported, from
/// the backslash to the closing brace.
pub proof fn lemma_unicode_escape(s: Seq<u8>, offset: int)
    requires
        s.len() >= 4,
        s[0] == BACKSLASH,
        s[1] == LOWER_U,
        s[2] == OPEN_BRACE,
        s[3] != UNDERSCORE,
        3 < find_byte(s, 3, CLOSE_BRACE) < s.len(),
        unicode_digits(s, offset, 3, find_byte(s, 3, CLOSE_BRACE), 0, 0) is Ok,
    ensures
        ({
            let close = find_byte(s, 3, CLOSE_BRACE);
            let value = unicode_digits(s, offset, 3, close, 0, 0)->Ok_0;
            let scalar = 0 <= value <= 0x10FFFF && !(0xD800 <= value <= 0xDFFF);
            &&& s[close] == CLOSE_BRACE
            &&& scalar ==> {
                &&& unescape_spec(s, offset, Context::Text) == Ok::<Unescaped, ErrorView>(
                    Unescaped { value: value as u32, len: close + 1 },
                )
                &&& escape_output(value as u32, Context::Text) == encode_scalar(value as u32)
                &&& value >= 0x10000 ==> encode_scalar(value as u32).len() == 4
            }
            &&& !scalar ==> unescape_spec(s, offset, Context::Text) == Err::<
                Unescaped,
                ErrorView,
            >(err_range(ErrorKind::InvalidUnicodeEscapeChar, offset, offset + close + 1))
        }),
{
    lemma_find_byte(s, 3, CLOSE_BRACE);
    let close = find_byte(s, 3, CLOSE_BRACE);
    lemma_unicode_digits_value(s, offset, 3, close, 0, 0);
}

/// The value that the digits of a Unicode escape spell is never negative.
pub proof fn lemma_unicode_digits_value(
    s: Seq<u8>,
    offset: int,
    k: int,
    to: int,
    value: int,
    count: int,
)
    requires
        0 <= k <= to <= s.len(),
        0 <= value,
        unicode_digits(s, offset, k, to, value, count) is Ok,
    ensures
        0 <= unicode_digits(s, offset, k, to, value, count)->Ok_0,
    decreases to - k,
{
    if k < to {
        if s[k] == UNDERSCORE {
            lemma_unicode_digits_value(s, offset, k + 1, to, value, count);
        } else {
            let d = hex_value(s[k])->0;
            lemma_unicode_digits_value(s, offset, k + 1, to, 16 * value + d, count + 1);
        }
    }
}

/// An error in the digits of a Unicode escape lies at one of the digits.
pub proof fn lemma_unicode_digits_err(
    s: Seq<u8>,
    offset: int,
    k: int,
    to: int,
    value: int,
    count: int,
)
    requires
        0 <= k <= to <= s.len(),
        unicode_digits(s, offset, k, to, value, count) is Err,
    ensures
        span_within(
            unicode_digits(s, offset, k, to, value, count)->Err_0.span,
            offset + k,
            offset + to,
        ),
    decreases to - k,
{
    if k < to {
        if s[k] == UNDERSCORE {
            lemma_unicode_digits_err(s, offset, k + 1, to, value, count);
        } else if hex_value(s[k]) is Some && count < 6 {
            let d = hex_value(s[k])->0;
            lemma_unicode_digits_err(s, offset, k + 1, to, 16 * value + d, count + 1);
        }
    }
}

/// An error in an escape lies within the escape and what follows it up to
/// the end of the content.
pub proof fn lemma_unescape_err(s: Seq<u8>, offset: int, ctx: Context)
    requires
        s.len() >= 1,
        unescape_spec(s, offset, ctx) is Err,
    ensures
        span_within(unescape_spec(s, offset, ctx)->Err_0.span, offset, offset + s.len()),
{
    if s.len() >= 3 && s[1] == LOWER_U && ctx == Context::Text && s[2] == OPEN_BRACE {
        lemma_find_byte(s, 3, CLOSE_BRACE);
        let close = find_byte(s, 3, CLOSE_BRACE);
        if close < s.len() && close != 3 && s[3] != UNDERSCORE {
            if unicode_digits(s, offset, 3, close, 0, 0) is Err {
                lemma_unicode_digits_err(s, offset, 3, close, 0, 0);
            }
        }
    }
}

/// Whether a decoded escape `res` stands for the specified outcome `spec`.
pub open spec fn unescaped_as(
    res: Result<(u32, usize), Error>,
    spec: Result<Unescaped, ErrorView>,
) -> bool {
    match res {
        Ok((value, len)) => spec == Ok::<Unescaped, ErrorView>(
            Unescaped { value, len: len as int },
        ),
        Err(e) => spec == Err::<Unescaped, ErrorView>(e@),
    }
}

/// The largest value that `count` hexadecimal digits can spell, plus one.
pub open spec fn digits_bound(count: int) -> int {
    if count <= 0 {
        1
    } else if count == 1 {
        0x10
    } else if count == 2 {
        0x100
    } else if count == 3 {
        0x1000
    } else if count == 4 {
        0x1_0000
    } else if count == 5 {
        0x10_0000
    } else {
        0x100_0000
    }
}

/// The value of the escape `\c`, where `c` forms an escape of two bytes.
fn simple_escape_value(c: u8) -> (value: Option<u32>)
    ensures
        value == simple_escape(c),
{
    if c == 0x6E {
        Some(0x0A)
    } else if c == 0x72 {
        Some(0x0D)
    } else if c == 0x74 {
        Some(0x09)
    } else if c == 0x30 {
        Some(0x00)
    } else if c == BACKSLASH {
        Some(0x5C)
    } else if c == 0x27 {
        Some(0x27)
    } else if c == QUOTE {
        Some(0x22)
    } else {
        None
    }
}

/// Finds the first `b` in `s[from..]`.
fn position_of(s: &[u8], from: usize, b: u8) -> (p: usize)
    requires
        from <= s.len(),
    ensures
        p == find_byte(s@, from as int, b),
        from <= p <= s.len(),
{
    let mut p: usize = from;
    while p < s.len() && s[p] != b
        invariant
            from <= p <= s.len(),
            find_byte(s@, from as int, b) == find_byte(s@, p as int, b),
        decreases s.len() - p,
    {
        p += 1;
    }
    p
}

/// Decodes `\xHH`.
fn unescape_hex(input: &[u8], offset: usize, ctx: Context) -> (res: Result<(u32, usize), Error>)
    requires
        offset + input.len() <= usize::MAX,
    ensures
        unescaped_as(res, hex_escape(input@, offset as int, ctx)),
{
    if input.len() < 4 {
        return Err(Error::range(ErrorKind::UnterminatedEscape, offset, offset + input.len()));
    }
    let hi = hex_digit_value(input[2]);
    let lo = hex_digit_value(input[3]);
    match (hi, lo) {
        (Some(hi), Some(lo)) => {
            let value: u8 = 16 * hi + lo;
            if matches!(ctx, Context::Text) && value > 0x7F {
                Err(Error::range(ErrorKind::NonAsciiXEscape, offset, offset + 4))
            } else {
                Ok((value as u32, 4))
            }
        },
        _ => Err(Error::range(ErrorKind::InvalidXEscape, offset, offset + 4)),
    }
}

/// Decodes `\u{...}`.
#[verifier::loop_isolation(false)]
fn unescape_unicode(input: &[u8], offset: usize, ctx: Context) -> (res: Result<
    (u32, usize),
    Error,
>)
    requires
        offset + input.len() <= usize::MAX,
        input.len() >= 2,
    ensures
        unescaped_as(res, unicode_escape(input@, offset as int, ctx)),
{
    if matches!(ctx, Context::Byte) {
        return Err(Error::range(ErrorKind::UnicodeEscapeInByteLiteral, offset, offset + 2));
    }
    if input.len() < 3 || input[2] != OPEN_BRACE {
        return Err(Error::range(ErrorKind::UnicodeEscapeWithoutBrace, offset, offset + 2));
    }
    let close = position_of(input, 3, CLOSE_BRACE);
    if close >= input.len() {
        return Err(
            Error::range(ErrorKind::UnterminatedUnicodeEscape, offset, offset + input.len()),
        );
    }
    if close == 3 || input[3] == UNDERSCORE {
        return Err(Error::at(ErrorKind::InvalidStartOfUnicodeEscape, offset + 3));
    }
    let ghost spec_digits = unicode_digits(input@, offset as int, 3, close as int, 0, 0);
    let mut value: u32 = 0;
    let mut count: u8 = 0;
    let mut k: usize = 3;
    while k < close
        invariant
            3 <= k <= close < input.len(),
            offset + input.len() <= usize::MAX,
            count <= 6,
            value < digits_bound(count as int),
            spec_digits == unicode_digits(
                input@,
                offset as int,
                k as int,
                close as int,
                value as int,
                count as int,
            ),
        decreases close - k,
    {
        let b = input[k];
        if b != UNDERSCORE {
            match hex_digit_value(b) {
                None => {
                    return Err(Error::at(ErrorKind::NonHexDigitInUnicodeEscape, offset + k));
                },
                Some(d) => {
                    if count == 6 {
                        return Err(Error::at(ErrorKind::TooManyDigitInUnicodeEscape, offset + k));
                    }
                    value = 16 * value + d as u32;
                    count += 1;
                },
            }
        }
        k += 1;
    }
    if value <= 0x10FFFF && !(0xD800 <= value && value <= 0xDFFF) {
        Ok((value, close + 1))
    } else {
        Err(Error::range(ErrorKind::InvalidUnicodeEscapeChar, offset, offset + close + 1))
    }
}

/// Decodes the escape at the start of `input`.
///
/// `input` begins at the backslash and ends where the content of the literal
/// ends; `offset` is the position of the backslash in the whole literal and
/// only serves to place errors. On success the result holds the value of the
/// escape (a byte in [`Context::Byte`], a Unicode scalar value in
/// [`Context::Text`]) and the number of bytes of `input` that spell it.
pub fn unescape(input: &[u8], offset: usize, ctx: Context) -> (res: Result<(u32, usize), Error>)
    requires
        input.len() >= 1,
        input[0] == BACKSLASH,
        offset + input.len() <= usize::MAX,
    ensures
        unescaped_as(res, unescape_spec(input@, offset as int, ctx)),
{
    if input.len() < 2 {
        return Err(Error::absent(ErrorKind::UnterminatedString));
    }
    let c = input[1];
    if c == LOWER_X {
        unescape_hex(input, offset, ctx)
    } else if c == LOWER_U {
        unescape_unicode(input, offset, ctx)
    } else {
        match simple_escape_value(c) {
            Some(value) => Ok((value, 2)),
            None => Err(Error::range(ErrorKind::UnknownEscape, offset, offset + 2)),
        }
    }
}

} // verus!
