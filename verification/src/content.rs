//! Decoding of the content of a string or byte string literal that is not
//! raw: verbatim runs and the escapes between them.

use vstd::prelude::*;
use vstd::slice::slice_subrange;
use vstd::utf8::{encode_scalar, is_char_boundary, is_continuation_byte, valid_utf8};
use crate::ascii::{is_ascii_byte, BACKSLASH, CR, LF, QUOTE};
use crate::boundary::{char_len_at, lemma_boundary_at_ascii, lemma_char_at, lemma_scalar_valid};
use crate::err::{err_absent, err_at, err_range, span_within, Error, ErrorKind, ErrorView};
use crate::escape::{
    escape_output, find_byte, lemma_find_byte, lemma_unescape_err, lemma_unescape_ok, unescape,
    unescape_spec, Context,
};
use crate::scalar::push_scalar;

verus! {

/// `head` followed by the outcome `rest`, where that is no error.
pub open spec fn prepend(head: Seq<u8>, rest: Result<Seq<u8>, ErrorView>) -> Result<
    Seq<u8>,
    ErrorView,
> {
    match rest {
        Ok(tail) => Ok(head + tail),
        Err(e) => Err(e),
    }
}

/// The decoded content of `s[i..end]`, or the first error in it.
///
/// `end` is the position at which the closing quote is expected: the byte
/// there is looked at only to tell a carriage return that stands alone from
/// one that a line feed follows.
pub open spec fn content_from(s: Seq<u8>, i: int, end: int, ctx: Context) -> Result<
    Seq<u8>,
    ErrorView,
>
    decreases end - i,
    when 0 <= i && end <= s.len()
{
    if i >= end {
        Ok(Seq::<u8>::empty())
    } else if s[i] == BACKSLASH {
        let escape = s.subrange(i, end);
        match unescape_spec(escape, i, ctx) {
            Err(e) => Err(e),
            Ok(u) => {
                proof {
                    lemma_unescape_ok(escape, i, ctx);
                }
                prepend(escape_output(u.value, ctx), content_from(s, i + u.len, end, ctx))
            },
        }
    } else if s[i] == CR && s[i + 1] != LF {
        Err(err_at(ErrorKind::IsolatedCr, i))
    } else if s[i] == QUOTE {
        Err(err_range(ErrorKind::UnexpectedChar, i + 1, s.len() as int))
    } else if ctx == Context::Byte && !is_ascii_byte(s[i]) {
        Err(err_at(ErrorKind::NonAsciiInByteLiteral, i))
    } else {
        prepend(seq![s[i]], content_from(s, i + 1, end, ctx))
    }
}

/// Whether an escape begins somewhere in `s[start..end]`.
pub open spec fn has_escape(s: Seq<u8>, start: int, end: int) -> bool {
    find_byte(s, start, BACKSLASH) < end
}

/// The outcome of decoding the literal `s` whose content begins at `start`,
/// behind the opening quote, and ends before the last byte of `s`, which has
/// to be the closing quote.
///
/// Where the content holds no escape, nothing is decoded and the result is
/// `None`: the value of the literal is then the content as it stands.
pub open spec fn escaped_literal(s: Seq<u8>, start: int, ctx: Context) -> Result<
    Option<Seq<u8>>,
    ErrorView,
> {
    let end = s.len() - 1;
    match content_from(s, start, end, ctx) {
        Err(e) => Err(e),
        Ok(bytes) => if s.len() <= start || s[end] != QUOTE {
            Err(err_absent(ErrorKind::UnterminatedString))
        } else if has_escape(s, start, end) {
            Ok(Some(bytes))
        } else {
            Ok(None)
        },
    }
}

/// An error in the content of a literal lies within the literal, at or
/// behind the place from which the content was read.
pub proof fn lemma_content_err(s: Seq<u8>, i: int, end: int, ctx: Context)
    requires
        0 <= i,
        end < s.len(),
        content_from(s, i, end, ctx) is Err,
    ensures
        span_within(content_from(s, i, end, ctx)->Err_0.span, i, s.len() as int),
    decreases end - i,
{
    if i < end {
        if s[i] == BACKSLASH {
            let escape = s.subrange(i, end);
            if unescape_spec(escape, i, ctx) is Err {
                lemma_unescape_err(escape, i, ctx);
            } else {
                let u = unescape_spec(escape, i, ctx)->Ok_0;
                lemma_unescape_ok(escape, i, ctx);
                lemma_content_err(s, i + u.len, end, ctx);
            }
        } else if s[i] == CR && s[i + 1] != LF {
        } else if s[i] == QUOTE {
        } else if ctx == Context::Byte && !is_ascii_byte(s[i]) {
        } else {
            lemma_content_err(s, i + 1, end, ctx);
        }
    }
}

/// Whether the byte at `j` is content that is copied as it stands: it
/// starts no escape, does not close the literal, is no carriage return that
/// stands alone and, in a byte string, lies in the 7-bit range.
pub open spec fn is_verbatim(s: Seq<u8>, j: int, ctx: Context) -> bool {
    &&& s[j] != BACKSLASH
    &&& s[j] != QUOTE
    &&& !(s[j] == CR && s[j + 1] != LF)
    &&& (ctx == Context::Byte ==> is_ascii_byte(s[j]))
}

/// A run of bytes that are copied as they stand decodes to itself, followed
/// by what the rest of the content decodes to.
pub proof fn lemma_verbatim_run(s: Seq<u8>, i: int, to: int, end: int, ctx: Context)
    requires
        0 <= i <= to <= end <= s.len(),
        forall|j: int| i <= j < to ==> is_verbatim(s, j, ctx),
    ensures
        content_from(s, i, end, ctx) == prepend(
            s.subrange(i, to),
            content_from(s, to, end, ctx),
        ),
    decreases to - i,
{
    let rest = content_from(s, to, end, ctx);
    if i == to {
        if let Ok(tail) = rest {
            assert(s.subrange(i, to) + tail =~= tail);
        }
    } else {
        assert(is_verbatim(s, i, ctx));
        lemma_verbatim_run(s, i + 1, to, end, ctx);
        if let Ok(tail) = rest {
            assert(seq![s[i]] + (s.subrange(i + 1, to) + tail) =~= s.subrange(i, to) + tail);
        }
    }
}

/// Content without a backslash that decodes at all decodes to itself.
pub proof fn lemma_content_without_escape(s: Seq<u8>, i: int, end: int, ctx: Context)
    requires
        0 <= i <= end <= s.len(),
        content_from(s, i, end, ctx) is Ok,
        forall|k: int| i <= k < end ==> s[k] != BACKSLASH,
    ensures
        content_from(s, i, end, ctx) == Ok::<Seq<u8>, ErrorView>(s.subrange(i, end)),
    decreases end - i,
{
    if i < end {
        lemma_content_without_escape(s, i + 1, end, ctx);
        assert(seq![s[i]] + s.subrange(i + 1, end) =~= s.subrange(i, end));
    } else {
        assert(s.subrange(i, end) =~= Seq::<u8>::empty());
    }
}

/// A literal without a backslash between its quotes, if it is well formed,
/// is not decoded: the result is `None`, and decoding its content would have
/// given that content back byte for byte.
pub proof fn lemma_literal_without_escape(s: Seq<u8>, start: int, ctx: Context)
    requires
        0 <= start,
        escaped_literal(s, start, ctx) is Ok,
        forall|k: int| start <= k < s.len() - 1 ==> s[k] != BACKSLASH,
    ensures
        escaped_literal(s, start, ctx) == Ok::<Option<Seq<u8>>, ErrorView>(None),
        content_from(s, start, s.len() - 1, ctx) == Ok::<Seq<u8>, ErrorView>(
            s.subrange(start, s.len() - 1),
        ),
{
    lemma_find_byte(s, start, BACKSLASH);
    lemma_content_without_escape(s, start, s.len() - 1, ctx);
}

/// A literal with a backslash between its quotes, if it is well formed, is
/// decoded: the result holds what its content decodes to.
pub proof fn lemma_literal_with_escape(s: Seq<u8>, start: int, k: int, ctx: Context)
    requires
        0 <= start <= k < s.len() - 1,
        s[k] == BACKSLASH,
        escaped_literal(s, start, ctx) is Ok,
    ensures
        escaped_literal(s, start, ctx) == Ok::<Option<Seq<u8>>, ErrorView>(
            Some(content_from(s, start, s.len() - 1, ctx)->Ok_0),
        ),
{
    lemma_find_byte(s, start, BACKSLASH);
}

/// Content of a byte string without a backslash that decodes at all lies
/// in the 7-bit range.
pub proof fn lemma_byte_content_verbatim(s: Seq<u8>, i: int, end: int)
    requires
        0 <= i <= end <= s.len(),
        content_from(s, i, end, Context::Byte) is Ok,
        !has_escape(s, i, end),
    ensures
        forall|k: int| i <= k < end ==> is_ascii_byte(#[trigger] s[k]),
    decreases end - i,
{
    if i < end {
        lemma_find_byte(s, i, BACKSLASH);
        lemma_find_byte(s, i + 1, BACKSLASH);
        lemma_byte_content_verbatim(s, i + 1, end);
    }
}

/// The decoded content of a string literal is valid UTF-8 wherever the
/// literal itself is: escapes give whole characters, and what stands
/// between them is copied character by character.
pub proof fn lemma_text_content_valid(s: Seq<u8>, i: int, end: int)
    requires
        valid_utf8(s),
        0 <= i <= end < s.len(),
        is_char_boundary(s, i),
        is_char_boundary(s, end),
        content_from(s, i, end, Context::Text) is Ok,
    ensures
        valid_utf8(content_from(s, i, end, Context::Text)->Ok_0),
    decreases end - i,
{
    let ctx = Context::Text;
    if i >= end {
    } else if s[i] == BACKSLASH {
        let escape = s.subrange(i, end);
        let u = unescape_spec(escape, i, ctx)->Ok_0;
        lemma_unescape_ok(escape, i, ctx);
        assert(escape[u.len - 1] == s[i + u.len - 1]);
        lemma_boundary_at_ascii(s, i + u.len - 1);
        lemma_text_content_valid(s, i + u.len, end);
        lemma_scalar_valid(u.value);
        vstd::utf8::valid_utf8_concat(
            encode_scalar(u.value),
            content_from(s, i + u.len, end, ctx)->Ok_0,
        );
    } else {
        lemma_char_at(s, i);
        let w = char_len_at(s, i);
        assert(i + w <= end) by {
            if end < i + w {
                assert(is_continuation_byte(s[end]));
                vstd::utf8::is_char_boundary_iff_not_is_continuation_byte(s, end);
            }
        }
        assert forall|j: int| i <= j < i + w implies is_verbatim(s, j, ctx) by {
            if j > i {
                assert(is_continuation_byte(s[j]));
            }
        }
        lemma_verbatim_run(s, i, i + w, end, ctx);
        lemma_text_content_valid(s, i + w, end);
        vstd::utf8::valid_utf8_concat(
            s.subrange(i, i + w),
            content_from(s, i + w, end, ctx)->Ok_0,
        );
    }
}

/// Whether the decoded content `res` stands for the specified outcome
/// `spec`.
pub open spec fn decoded_as(
    res: Result<Option<Vec<u8>>, Error>,
    spec: Result<Option<Seq<u8>>, ErrorView>,
) -> bool {
    match res {
        Ok(Some(bytes)) => spec == Ok::<Option<Seq<u8>>, ErrorView>(Some(bytes@)),
        Ok(None) => spec == Ok::<Option<Seq<u8>>, ErrorView>(None),
        Err(e) => spec == Err::<Option<Seq<u8>>, ErrorView>(e@),
    }
}

/// Appends the bytes `src[from..to]` to `out`.
fn push_run(out: &mut Vec<u8>, src: &[u8], from: usize, to: usize)
    requires
        from <= to <= src.len(),
    ensures
        final(out)@ == old(out)@ + src@.subrange(from as int, to as int),
{
    let run = slice_subrange(src, from, to);
    out.extend_from_slice(run);
    assert(out@ =~= old(out)@ + src@.subrange(from as int, to as int));
}

/// Decodes the content of the literal `input`, which begins at `start`
/// behind the opening quote.
///
/// Returns `None` where the content holds no escape, the decoded bytes
/// where it holds one, and the first error where it is malformed or the
/// closing quote is missing.
pub fn decode_escaped(input: &[u8], start: usize, ctx: Context) -> (res: Result<
    Option<Vec<u8>>,
    Error,
>)
    requires
        1 <= start <= input.len(),
    ensures
        decoded_as(res, escaped_literal(input@, start as int, ctx)),
{
    let end = input.len() - 1;
    let ghost s = input@;
    let ghost whole = content_from(s, start as int, end as int, ctx);
    let mut value: Vec<u8> = Vec::new();
    let mut last: usize = start;
    let mut i: usize = start;
    assert(value@ + s.subrange(last as int, i as int) =~= Seq::<u8>::empty());
    assert(prepend(Seq::<u8>::empty(), whole) == whole) by {
        if let Ok(tail) = whole {
            assert(Seq::<u8>::empty() + tail =~= tail);
        }
    }
    while i < end
        invariant
            s == input@,
            1 <= start <= last <= i,
            i <= end || start == end + 1,
            end == input.len() - 1,
            whole == content_from(s, start as int, end as int, ctx),
            whole == prepend(
                value@ + s.subrange(last as int, i as int),
                content_from(s, i as int, end as int, ctx),
            ),
            value@.len() == 0 ==> find_byte(s, start as int, BACKSLASH) == find_byte(
                s,
                i as int,
                BACKSLASH,
            ),
            value@.len() > 0 ==> has_escape(s, start as int, end as int),
        decreases end - i,
    {
        let b = input[i];
        let ghost before = value@ + s.subrange(last as int, i as int);
        let ghost here = content_from(s, i as int, end as int, ctx);
        if b == BACKSLASH {
            let ghost escape = s.subrange(i as int, end as int);
            match unescape(slice_subrange(input, i, end), i, ctx) {
                Err(e) => {
                    return Err(e);
                },
                Ok((v, len)) => {
                    proof {
                        lemma_unescape_ok(escape, i as int, ctx);
                    }
                    push_run(&mut value, input, last, i);
                    match ctx {
                        Context::Text => {
                            push_scalar(&mut value, v);
                        },
                        Context::Byte => {
                            value.push(v as u8);
                        },
                    }
                    i += len;
                    last = i;
                    proof {
                        let next = content_from(s, i as int, end as int, ctx);
                        assert(here == prepend(escape_output(v, ctx), next));
                        assert(value@ == before + escape_output(v, ctx));
                        assert(s.subrange(last as int, i as int) =~= Seq::<u8>::empty());
                        if let Ok(tail) = next {
                            assert((before + escape_output(v, ctx)) + Seq::<u8>::empty() + tail
                                =~= before + (escape_output(v, ctx) + tail));
                        }
                    }
                },
            }
        } else if b == CR && input[i + 1] != LF {
            return Err(Error::at(ErrorKind::IsolatedCr, i));
        } else if b == QUOTE {
            return Err(Error::range(ErrorKind::UnexpectedChar, i + 1, input.len()));
        } else if matches!(ctx, Context::Byte) && b >= 0x80 {
            return Err(Error::at(ErrorKind::NonAsciiInByteLiteral, i));
        } else {
            i += 1;
            proof {
                let next = content_from(s, i as int, end as int, ctx);
                assert(here == prepend(seq![b], next));
                assert(s.subrange(last as int, i as int) =~= s.subrange(last as int, i - 1)
                    + seq![b]);
                if let Ok(tail) = next {
                    assert((value@ + (s.subrange(last as int, i - 1) + seq![b])) + tail =~= before
                        + (seq![b] + tail));
                }
            }
        }
    }
    if input.len() == start || input[end] != QUOTE {
        return Err(Error::absent(ErrorKind::UnterminatedString));
    }
    proof {
        lemma_find_byte(s, i as int, BACKSLASH);
        assert(s.subrange(last as int, i as int) + Seq::<u8>::empty() =~= s.subrange(
            last as int,
            i as int,
        ));
    }
    if value.len() == 0 {
        Ok(None)
    } else {
        push_run(&mut value, input, last, end);
        Ok(Some(value))
    }
}

} // verus!
