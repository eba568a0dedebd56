//! The grammar that string literals and byte string literals share: the
//! marker in front, then either a raw literal or one with escapes.

use vstd::prelude::*;
use vstd::utf8::{is_char_boundary, valid_utf8};
use crate::ascii::{is_ascii_byte, BACKSLASH, LOWER_B, LOWER_R, QUOTE};
use crate::boundary::lemma_boundary_at_ascii;
use crate::content::{
    content_from, decode_escaped, escaped_literal, lemma_byte_content_verbatim, lemma_content_err,
    lemma_literal_with_escape, lemma_literal_without_escape, lemma_text_content_valid,
};
use crate::err::{err_absent, span_within, Error, ErrorKind, ErrorView};
use crate::escape::Context;
use crate::raw::{
    fence_len, lemma_raw_content_ascii, lemma_raw_literal_err, lemma_raw_round_trip, raw_literal,
    raw_wrap, scan_raw,
};

verus! {

/// What parsing finds in a literal: the decoded content, where the literal
/// holds an escape, and the length of the fence, where it is raw.
pub ghost struct Parsed {
    pub decoded: Option<Seq<u8>>,
    pub hashes: Option<nat>,
}

/// The mathematical counterpart of a parsed literal: the bytes of its text
/// and what parsing found in them.
pub ghost struct LitView {
    pub raw: Seq<u8>,
    pub parsed: Parsed,
}

/// The number of bytes in front of the opening quote or of the marker of
/// raw literals: none in a string, the `b` in a byte string.
pub open spec fn marker_len(ctx: Context) -> int {
    match ctx {
        Context::Text => 0,
        Context::Byte => 1,
    }
}

/// Whether `s` begins like a literal of the kind `ctx`, raw or not.
pub open spec fn has_start(s: Seq<u8>, ctx: Context) -> bool {
    match ctx {
        Context::Text => s.len() >= 1 && (s[0] == QUOTE || s[0] == LOWER_R),
        Context::Byte => s.len() >= 2 && s[0] == LOWER_B && (s[1] == QUOTE || s[1] == LOWER_R),
    }
}

/// Whether `s`, which begins like a literal of the kind `ctx`, carries the
/// marker of raw literals.
pub open spec fn is_raw(s: Seq<u8>, ctx: Context) -> bool {
    s[marker_len(ctx)] == LOWER_R
}

/// The error for input that does not begin like a literal of the kind
/// `ctx`.
pub open spec fn invalid_start(ctx: Context) -> ErrorKind {
    match ctx {
        Context::Text => ErrorKind::InvalidStringLiteralStart,
        Context::Byte => ErrorKind::InvalidByteStringLiteralStart,
    }
}

/// The outcome of parsing `s`, which begins like a literal of the kind
/// `ctx`.
pub open spec fn literal_body(s: Seq<u8>, ctx: Context) -> Result<Parsed, ErrorView> {
    let start = marker_len(ctx) + 1;
    if is_raw(s, ctx) {
        match raw_literal(s, start, ctx) {
            Ok(n) => Ok(Parsed { decoded: None, hashes: Some(n) }),
            Err(e) => Err(e),
        }
    } else {
        match escaped_literal(s, start, ctx) {
            Ok(decoded) => Ok(Parsed { decoded, hashes: None }),
            Err(e) => Err(e),
        }
    }
}

/// The outcome of parsing `s` as a literal of the kind `ctx`.
pub open spec fn literal(s: Seq<u8>, ctx: Context) -> Result<Parsed, ErrorView> {
    if s.len() == 0 {
        Err(err_absent(ErrorKind::Empty))
    } else if !has_start(s, ctx) {
        Err(err_absent(invalid_start(ctx)))
    } else {
        literal_body(s, ctx)
    }
}

/// Where the content of a literal of the kind `ctx` begins: behind the
/// marker, the fence if there is one, and the opening quote.
pub open spec fn content_start(ctx: Context, hashes: Option<nat>) -> int {
    match hashes {
        None => marker_len(ctx) + 1,
        Some(n) => marker_len(ctx) + 1 + n + 1,
    }
}

/// Where the content of a literal of `len` bytes ends: in front of the
/// closing quote and the fence if there is one.
pub open spec fn content_end(len: int, hashes: Option<nat>) -> int {
    match hashes {
        None => len - 1,
        Some(n) => len - n - 1,
    }
}

/// The content of the literal `s`: what stands between its quotes.
pub open spec fn content_of(s: Seq<u8>, ctx: Context, hashes: Option<nat>) -> Seq<u8> {
    s.subrange(content_start(ctx, hashes), content_end(s.len() as int, hashes))
}

/// The value of the literal `s`: what was decoded, where anything was, and
/// else its content as it stands.
pub open spec fn value_of(s: Seq<u8>, ctx: Context, parsed: Parsed) -> Seq<u8> {
    match parsed.decoded {
        Some(decoded) => decoded,
        None => content_of(s, ctx, parsed.hashes),
    }
}

/// Whether the parts `res` that were found in a literal stand for the
/// specified outcome `spec`.
pub open spec fn parsed_as(
    res: Result<(Option<Vec<u8>>, Option<usize>), Error>,
    spec: Result<Parsed, ErrorView>,
) -> bool {
    match res {
        Ok((value, num_hashes)) => spec == Ok::<Parsed, ErrorView>(
            Parsed {
                decoded: match value {
                    Some(bytes) => Some(bytes@),
                    None => None,
                },
                hashes: match num_hashes {
                    Some(n) => Some(n as nat),
                    None => None,
                },
            },
        ),
        Err(e) => spec == Err::<Parsed, ErrorView>(e@),
    }
}

/// In a literal that parses, the content lies within the literal, between
/// two quotes, and a raw literal is never decoded.
pub proof fn lemma_content_bounds(s: Seq<u8>, ctx: Context)
    requires
        literal(s, ctx) is Ok,
    ensures
        ({
            let parsed = literal(s, ctx)->Ok_0;
            let start = content_start(ctx, parsed.hashes);
            let end = content_end(s.len() as int, parsed.hashes);
            &&& 1 <= start <= end < s.len()
            &&& s[start - 1] == QUOTE
            &&& s[end] == QUOTE
            &&& parsed.hashes is Some ==> parsed.decoded is None
        }),
{
    if is_raw(s, ctx) {
        lemma_raw_round_trip(s, marker_len(ctx) + 1, ctx);
    }
}

/// In valid UTF-8 that parses as a literal, the content begins and ends
/// where characters do.
pub proof fn lemma_content_boundaries(s: Seq<u8>, ctx: Context)
    requires
        valid_utf8(s),
        literal(s, ctx) is Ok,
    ensures
        ({
            let parsed = literal(s, ctx)->Ok_0;
            &&& is_char_boundary(s, content_start(ctx, parsed.hashes))
            &&& is_char_boundary(s, content_end(s.len() as int, parsed.hashes))
        }),
{
    lemma_content_bounds(s, ctx);
    let parsed = literal(s, ctx)->Ok_0;
    lemma_boundary_at_ascii(s, content_start(ctx, parsed.hashes) - 1);
    lemma_boundary_at_ascii(s, content_end(s.len() as int, parsed.hashes));
}

/// The value of a string literal that is valid UTF-8 is valid UTF-8, whether
/// it was decoded or stands as it is.
pub proof fn lemma_text_value_valid(s: Seq<u8>)
    requires
        valid_utf8(s),
        literal(s, Context::Text) is Ok,
    ensures
        valid_utf8(value_of(s, Context::Text, literal(s, Context::Text)->Ok_0)),
{
    let ctx = Context::Text;
    let parsed = literal(s, ctx)->Ok_0;
    lemma_content_bounds(s, ctx);
    lemma_content_boundaries(s, ctx);
    let start = content_start(ctx, parsed.hashes);
    let end = content_end(s.len() as int, parsed.hashes);
    match parsed.decoded {
        Some(decoded) => {
            assert(decoded == content_from(s, start, end, ctx)->Ok_0);
            lemma_text_content_valid(s, start, end);
        },
        None => {
            crate::boundary::lemma_valid_between(s, start, end);
        },
    }
}

/// The bytes in front of the fence of a raw literal of the kind `ctx`: `r`
/// for a string, `br` for a byte string.
pub open spec fn raw_marker(ctx: Context) -> Seq<u8> {
    match ctx {
        Context::Text => seq![LOWER_R],
        Context::Byte => seq![LOWER_B, LOWER_R],
    }
}

/// Of every raw literal that parses: the number of fence characters that
/// parsing reports is the number that stand in front of the opening quote,
/// nothing is decoded, and wrapping the value of the literal in quotes and
/// in that many fence characters, behind the marker, gives the literal back.
pub proof fn lemma_raw_literal_round_trip(s: Seq<u8>, ctx: Context)
    requires
        literal(s, ctx) is Ok,
        literal(s, ctx)->Ok_0.hashes is Some,
    ensures
        ({
            let parsed = literal(s, ctx)->Ok_0;
            let n = parsed.hashes->0;
            &&& n == fence_len(s, marker_len(ctx) + 1)
            &&& parsed.decoded is None
            &&& s == raw_wrap(raw_marker(ctx), n, value_of(s, ctx, parsed))
        }),
{
    lemma_raw_round_trip(s, marker_len(ctx) + 1, ctx);
    assert(s.subrange(0, marker_len(ctx) + 1) =~= raw_marker(ctx));
}

/// Of every literal that is not raw and parses: where no backslash stands
/// between its quotes, nothing is decoded and its value is what stands
/// between the quotes, byte for byte, which is also what decoding would have
/// given.
pub proof fn lemma_literal_without_escape_value(s: Seq<u8>, ctx: Context)
    requires
        literal(s, ctx) is Ok,
        literal(s, ctx)->Ok_0.hashes is None,
        forall|k: int| marker_len(ctx) + 1 <= k < s.len() - 1 ==> s[k] != BACKSLASH,
    ensures
        ({
            let parsed = literal(s, ctx)->Ok_0;
            let content = s.subrange(marker_len(ctx) + 1, s.len() - 1);
            &&& parsed.decoded is None
            &&& value_of(s, ctx, parsed) == content
            &&& content_from(s, marker_len(ctx) + 1, s.len() - 1, ctx) == Ok::<
                Seq<u8>,
                ErrorView,
            >(content)
        }),
{
    lemma_literal_without_escape(s, marker_len(ctx) + 1, ctx);
}

/// Of every literal that is not raw and parses: where a backslash stands
/// between its quotes, its value is what its content decodes to.
pub proof fn lemma_literal_with_escape_value(s: Seq<u8>, k: int, ctx: Context)
    requires
        literal(s, ctx) is Ok,
        literal(s, ctx)->Ok_0.hashes is None,
        marker_len(ctx) + 1 <= k < s.len() - 1,
        s[k] == BACKSLASH,
    ensures
        ({
            let parsed = literal(s, ctx)->Ok_0;
            let decoded = content_from(s, marker_len(ctx) + 1, s.len() - 1, ctx);
            &&& decoded is Ok
            &&& parsed.decoded == Some(decoded->Ok_0)
            &&& value_of(s, ctx, parsed) == decoded->Ok_0
        }),
{
    lemma_literal_with_escape(s, marker_len(ctx) + 1, k, ctx);
}

/// The value of a byte string literal holds what stands between its quotes
/// only in the 7-bit range: where nothing was decoded, every byte of the
/// value lies in it.
pub proof fn lemma_byte_content_ascii(s: Seq<u8>)
    requires
        literal(s, Context::Byte) is Ok,
        literal(s, Context::Byte)->Ok_0.decoded is None,
    ensures
        forall|k: int|
            0 <= k < value_of(s, Context::Byte, literal(s, Context::Byte)->Ok_0).len()
                ==> is_ascii_byte(
                #[trigger] value_of(s, Context::Byte, literal(s, Context::Byte)->Ok_0)[k],
            ),
{
    let ctx = Context::Byte;
    let parsed = literal(s, ctx)->Ok_0;
    lemma_content_bounds(s, ctx);
    let start = content_start(ctx, parsed.hashes);
    let end = content_end(s.len() as int, parsed.hashes);
    match parsed.hashes {
        Some(n) => {
            lemma_raw_round_trip(s, marker_len(ctx) + 1, ctx);
            lemma_raw_content_ascii(s, start, n as int);
        },
        None => {
            lemma_byte_content_verbatim(s, start, end);
        },
    }
    let value = value_of(s, ctx, parsed);
    assert forall|k: int| 0 <= k < value.len() implies is_ascii_byte(#[trigger] value[k]) by {
        assert(value[k] == s[start + k]);
    }
}

/// Every error that parsing reports lies within the text that was parsed:
/// a single offset is that of one of its bytes, and a range is not reversed
/// and does not reach past its end.
pub proof fn lemma_error_within_input(s: Seq<u8>, ctx: Context)
    requires
        literal(s, ctx) is Err,
    ensures
        span_within(literal(s, ctx)->Err_0.span, 0, s.len() as int),
{
    if s.len() != 0 && has_start(s, ctx) {
        let start = marker_len(ctx) + 1;
        if is_raw(s, ctx) {
            lemma_raw_literal_err(s, start, ctx);
        } else if content_from(s, start, s.len() - 1, ctx) is Err {
            lemma_content_err(s, start, s.len() - 1, ctx);
        }
    }
}

/// Whether `input` begins like a literal of the kind `ctx`.
pub fn starts_literal(input: &[u8], ctx: Context) -> (starts: bool)
    ensures
        starts == has_start(input@, ctx),
{
    match ctx {
        Context::Text => input.len() >= 1 && (input[0] == QUOTE || input[0] == LOWER_R),
        Context::Byte => input.len() >= 2 && input[0] == LOWER_B && (input[1] == QUOTE
            || input[1] == LOWER_R),
    }
}

/// Parses `input`, which begins like a literal of the kind `ctx`: a raw
/// literal where the marker of raw literals stands, and else one with
/// escapes.
///
/// Returns the decoded content, where the literal holds an escape, and the
/// length of the fence, where it is raw.
pub fn parse_body(input: &[u8], ctx: Context) -> (res: Result<
    (Option<Vec<u8>>, Option<usize>),
    Error,
>)
    requires
        has_start(input@, ctx),
    ensures
        parsed_as(res, literal_body(input@, ctx)),
{
    let marker: usize = match ctx {
        Context::Text => 0,
        Context::Byte => 1,
    };
    if input[marker] == LOWER_R {
        match scan_raw(input, marker + 1, ctx) {
            Ok(n) => Ok((None, Some(n))),
            Err(e) => Err(e),
        }
    } else {
        match decode_escaped(input, marker + 1, ctx) {
            Ok(value) => Ok((value, None)),
            Err(e) => Err(e),
        }
    }
}

} // verus!
