//! Matching of the delimiters of raw literals: the fence of `#` in front of
//! the opening quote and the same fence behind the closing one.

use vstd::prelude::*;
use crate::ascii::{is_ascii_byte, CR, HASH, LF, QUOTE};
use crate::err::{err_absent, err_at, err_range, span_within, Error, ErrorKind, ErrorView};
use crate::escape::Context;

verus! {

/// The number of fence characters that `s` holds in a row from `from` on.
pub open spec fn fence_len(s: Seq<u8>, from: int) -> int
    decreases s.len() - from,
{
    if 0 <= from < s.len() && s[from] == HASH {
        1 + fence_len(s, from + 1)
    } else {
        0
    }
}

/// Whether the content of a raw literal with a fence of `n` ends at `p`: a
/// quote stands there and at least `n` fence characters follow it.
pub open spec fn closes_at(s: Seq<u8>, p: int, n: int) -> bool {
    s[p] == QUOTE && fence_len(s, p + 1) >= n
}

/// The position of the closing quote of a raw literal with a fence of `n`,
/// looked for from `p` on, or the first error on the way to it.
///
/// A byte string may hold no byte outside the 7-bit range, and a string no
/// carriage return that a line feed does not follow.
pub open spec fn raw_close(s: Seq<u8>, p: int, n: int, ctx: Context) -> Result<int, ErrorView>
    decreases s.len() - p,
{
    if p < 0 || p >= s.len() {
        Err(err_absent(ErrorKind::UnterminatedRawString))
    } else if closes_at(s, p, n) {
        Ok(p)
    } else if ctx == Context::Byte && !is_ascii_byte(s[p]) {
        Err(err_at(ErrorKind::NonAsciiInByteLiteral, p))
    } else if ctx == Context::Text && s[p] == CR && (p + 1 >= s.len() || s[p + 1] != LF) {
        Err(err_at(ErrorKind::IsolatedCr, p))
    } else {
        raw_close(s, p + 1, n, ctx)
    }
}

/// The outcome of matching the raw literal `s` whose fence begins at
/// `start`, behind the marker of raw literals: the length of the fence, or
/// the first error.
pub open spec fn raw_literal(s: Seq<u8>, start: int, ctx: Context) -> Result<nat, ErrorView> {
    let n = fence_len(s, start);
    if start + n >= s.len() || s[start + n] != QUOTE {
        Err(err_absent(ErrorKind::InvalidLiteral))
    } else {
        match raw_close(s, start + n + 1, n, ctx) {
            Err(e) => Err(e),
            Ok(close) => if close + n != s.len() - 1 {
                Err(err_range(ErrorKind::UnexpectedChar, close + n + 1, s.len() as int))
            } else {
                Ok(n as nat)
            },
        }
    }
}

/// A fence of `n` characters.
pub open spec fn fence(n: nat) -> Seq<u8> {
    Seq::new(n, |i: int| HASH)
}

/// The raw literal that begins with `marker` and holds `content` between
/// quotes and fences of `n` characters.
pub open spec fn raw_wrap(marker: Seq<u8>, n: nat, content: Seq<u8>) -> Seq<u8> {
    marker + fence(n) + seq![QUOTE] + content + seq![QUOTE] + fence(n)
}

/// `fence_len` counts fence characters and nothing else: the run ends
/// within `s`, and the byte behind it, if there is one, is no fence
/// character.
pub proof fn lemma_fence_len(s: Seq<u8>, from: int)
    requires
        0 <= from <= s.len(),
    ensures
        0 <= fence_len(s, from),
        from + fence_len(s, from) <= s.len(),
        forall|k: int| from <= k < from + fence_len(s, from) ==> s[k] == HASH,
        from + fence_len(s, from) < s.len() ==> s[from + fence_len(s, from)] != HASH,
    decreases s.len() - from,
{
    if from < s.len() && s[from] == HASH {
        lemma_fence_len(s, from + 1);
    }
}

/// Where the closing quote is found, it lies at or behind `p`, it closes
/// the literal, and none of the positions passed over does.
pub proof fn lemma_raw_close(s: Seq<u8>, p: int, n: int, ctx: Context)
    requires
        0 <= p,
        raw_close(s, p, n, ctx) is Ok,
    ensures
        ({
            let close = raw_close(s, p, n, ctx)->Ok_0;
            &&& p <= close < s.len()
            &&& closes_at(s, close, n)
            &&& forall|k: int| p <= k < close ==> !closes_at(s, k, n)
        }),
    decreases s.len() - p,
{
    if p < s.len() && !closes_at(s, p, n) {
        lemma_raw_close(s, p + 1, n, ctx);
    }
}

/// A raw literal that is matched is made of its marker, its fence, a quote,
/// its content, a quote and the same fence again: wrapping the content in
/// as many fence characters as were counted gives the literal back. The
/// content holds no quote that that many fence characters follow.
pub proof fn lemma_raw_round_trip(s: Seq<u8>, start: int, ctx: Context)
    requires
        0 <= start <= s.len(),
        raw_literal(s, start, ctx) is Ok,
    ensures
        ({
            let n = raw_literal(s, start, ctx)->Ok_0;
            let content = s.subrange(start + n + 1, s.len() - n - 1);
            &&& n == fence_len(s, start)
            &&& start + 2 * n + 2 <= s.len()
            &&& s == raw_wrap(s.subrange(0, start), n, content)
            &&& forall|k: int|
                start + n + 1 <= k < s.len() - n - 1 ==> !#[trigger] closes_at(s, k, n as int)
        }),
{
    let n = fence_len(s, start);
    lemma_fence_len(s, start);
    lemma_raw_close(s, start + n + 1, n, ctx);
    let close = raw_close(s, start + n + 1, n, ctx)->Ok_0;
    lemma_fence_len(s, close + 1);
    let content = s.subrange(start + n + 1, s.len() - n - 1);
    assert(s =~= raw_wrap(s.subrange(0, start), n as nat, content));
}

/// Every byte that the search for the closing quote of a raw byte string
/// passes over lies in the 7-bit range.
pub proof fn lemma_raw_content_ascii(s: Seq<u8>, p: int, n: int)
    requires
        0 <= p,
        raw_close(s, p, n, Context::Byte) is Ok,
    ensures
        forall|k: int|
            p <= k < raw_close(s, p, n, Context::Byte)->Ok_0 ==> is_ascii_byte(#[trigger] s[k]),
    decreases s.len() - p,
{
    if p < s.len() && !closes_at(s, p, n) {
        lemma_raw_content_ascii(s, p + 1, n);
    }
}

/// An error on the way to the closing quote of a raw literal lies within
/// the literal, at or behind the place from which the quote was looked for.
pub proof fn lemma_raw_close_err(s: Seq<u8>, p: int, n: int, ctx: Context)
    requires
        0 <= p,
        raw_close(s, p, n, ctx) is Err,
    ensures
        span_within(raw_close(s, p, n, ctx)->Err_0.span, p, s.len() as int),
    decreases s.len() - p,
{
    if p < s.len() && !closes_at(s, p, n) {
        if ctx == Context::Byte && !is_ascii_byte(s[p]) {
        } else if ctx == Context::Text && s[p] == CR && (p + 1 >= s.len() || s[p + 1] != LF) {
        } else {
            lemma_raw_close_err(s, p + 1, n, ctx);
        }
    }
}

/// An error in a raw literal lies within the literal.
pub proof fn lemma_raw_literal_err(s: Seq<u8>, start: int, ctx: Context)
    requires
        0 <= start <= s.len(),
        raw_literal(s, start, ctx) is Err,
    ensures
        span_within(raw_literal(s, start, ctx)->Err_0.span, 0, s.len() as int),
{
    let n = fence_len(s, start);
    lemma_fence_len(s, start);
    if start + n < s.len() && s[start + n] == QUOTE {
        if raw_close(s, start + n + 1, n, ctx) is Err {
            lemma_raw_close_err(s, start + n + 1, n, ctx);
        } else {
            lemma_raw_close(s, start + n + 1, n, ctx);
            let close = raw_close(s, start + n + 1, n, ctx)->Ok_0;
            lemma_fence_len(s, close + 1);
        }
    }
}

/// Whether at least `n` fence characters stand in `input` from `from` on.
fn fence_follows(input: &[u8], from: usize, n: usize) -> (follows: bool)
    requires
        from <= input.len(),
    ensures
        follows == (fence_len(input@, from as int) >= n),
{
    let mut j: usize = from;
    let mut k: usize = 0;
    while k < n
        invariant
            from <= j <= input.len(),
            j == from + k,
            k <= n,
            fence_len(input@, from as int) == k + fence_len(input@, j as int),
        decreases n - k,
    {
        if j >= input.len() || input[j] != HASH {
            return false;
        }
        j += 1;
        k += 1;
    }
    proof {
        lemma_fence_len(input@, j as int);
    }
    true
}

/// Matches the delimiters of the raw literal `input`, whose fence begins at
/// `start` behind the marker of raw literals, and checks its content.
///
/// Returns the length of the fence. The content lies between the quote
/// behind the first fence and the quote in front of the last one.
#[verifier::loop_isolation(false)]
pub fn scan_raw(input: &[u8], start: usize, ctx: Context) -> (res: Result<usize, Error>)
    requires
        start <= input.len(),
    ensures
        match res {
            Ok(n) => raw_literal(input@, start as int, ctx) == Ok::<nat, ErrorView>(n as nat),
            Err(e) => raw_literal(input@, start as int, ctx) == Err::<nat, ErrorView>(e@),
        },
{
    let ghost s = input@;
    let mut open: usize = start;
    while open < input.len() && input[open] == HASH
        invariant
            s == input@,
            start <= open <= input.len(),
            fence_len(s, start as int) == (open - start) + fence_len(s, open as int),
        decreases input.len() - open,
    {
        open += 1;
    }
    let n = open - start;
    if open >= input.len() || input[open] != QUOTE {
        return Err(Error::absent(ErrorKind::InvalidLiteral));
    }
    let ghost first = open + 1;
    let mut p: usize = open + 1;
    while p < input.len()
        invariant
            s == input@,
            first <= p <= input.len(),
            raw_close(s, first as int, n as int, ctx) == raw_close(s, p as int, n as int, ctx),
        decreases input.len() - p,
    {
        let b = input[p];
        if b == QUOTE && fence_follows(input, p + 1, n) {
            proof {
                lemma_fence_len(s, p + 1);
            }
            if p + n != input.len() - 1 {
                return Err(Error::range(ErrorKind::UnexpectedChar, p + n + 1, input.len()));
            }
            return Ok(n);
        }
        match ctx {
            Context::Byte => {
                if b >= 0x80 {
                    return Err(Error::at(ErrorKind::NonAsciiInByteLiteral, p));
                }
            },
            Context::Text => {
                if b == CR && (p + 1 >= input.len() || input[p + 1] != LF) {
                    return Err(Error::at(ErrorKind::IsolatedCr, p));
                }
            },
        }
        p += 1;
    }
    Err(Error::absent(ErrorKind::UnterminatedRawString))
}

} // verus!
