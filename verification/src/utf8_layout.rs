//! Byte-level facts about valid UTF-8 text: scalar boundaries, scalar widths,
//! logical line breaks and scalar columns.
//!
//! Everything here is stated over the raw byte sequence of a source file. A
//! byte offset is a scalar boundary when it is the end of the text or does not
//! hold a UTF-8 continuation byte; a logical line starts at offset zero and
//! directly after every `\n` byte (so `\r\n` ends one line, a lone `\r` does not).

use vstd::prelude::*;
use vstd::utf8::*;

verus! {

broadcast use vstd::utf8::group_utf8_lib;

/// Byte value of `\n`.
pub open spec fn lf() -> u8 {
    10u8
}

/// Byte value of `\r`.
pub open spec fn cr() -> u8 {
    13u8
}

/// `i` is a scalar boundary of `b`: the end of the bytes, or a byte that is not
/// a UTF-8 continuation byte.
pub open spec fn is_boundary(b: Seq<u8>, i: int) -> bool {
    i == b.len() || (0 <= i < b.len() && !is_continuation_byte(b[i]))
}

/// The width in bytes of the scalar whose leading byte is `byte`.
pub open spec fn scalar_width(byte: u8) -> int {
    if byte < 0x80 {
        1
    } else if byte < 0xe0 {
        2
    } else if byte < 0xf0 {
        3
    } else {
        4
    }
}

/// The number of Unicode scalars whose encoding starts in `b[lo..hi)`, that is
/// the number of bytes in that range that are not continuation bytes.
pub open spec fn scalar_count(b: Seq<u8>, lo: int, hi: int) -> nat
    decreases hi - lo,
{
    if hi <= lo {
        0
    } else if is_continuation_byte(b[hi - 1]) {
        scalar_count(b, lo, hi - 1)
    } else {
        scalar_count(b, lo, hi - 1) + 1
    }
}

/// The offsets `p` in `1..=n` with `b[p - 1] == '\n'`, in increasing order.
pub open spec fn newline_ends(b: Seq<u8>, n: int) -> Seq<usize>
    decreases n,
{
    if n <= 0 {
        seq![]
    } else if b[n - 1] == lf() {
        newline_ends(b, n - 1).push(n as usize)
    } else {
        newline_ends(b, n - 1)
    }
}

/// The start offsets of all logical lines of `b`: zero, then every offset
/// directly after a `\n` byte.
pub open spec fn line_starts_of(b: Seq<u8>) -> Seq<usize> {
    seq![0usize] + newline_ends(b, b.len() as int)
}

/// The number of `\n` bytes in `b[0..n)`.
pub open spec fn newline_count(b: Seq<u8>, n: int) -> nat
    decreases n,
{
    if n <= 0 {
        0
    } else if b[n - 1] == lf() {
        newline_count(b, n - 1) + 1
    } else {
        newline_count(b, n - 1)
    }
}

/// The start offset of the logical line that contains offset `n`.
pub open spec fn line_start_before(b: Seq<u8>, n: int) -> int
    decreases n,
{
    if n <= 0 {
        0
    } else if b[n - 1] == lf() {
        n
    } else {
        line_start_before(b, n - 1)
    }
}

/// Where column counting stops for offset `n`: the `\r` of a `\r\n` pair counts
/// as part of the line break, so an offset between `\r` and `\n` stops before `\r`.
pub open spec fn column_end(b: Seq<u8>, n: int) -> int {
    if 0 < n < b.len() && b[n - 1] == cr() && b[n] == lf() {
        n - 1
    } else {
        n
    }
}

/// One-based line of offset `n`: one more than the `\n` bytes before it.
pub open spec fn line_of(b: Seq<u8>, n: int) -> int {
    newline_count(b, n) + 1int
}

/// One-based scalar column of offset `n`.
pub open spec fn column_of(b: Seq<u8>, n: int) -> int {
    scalar_count(b, line_start_before(b, n), column_end(b, n)) + 1int
}

/// A boundary of valid UTF-8 in the sense of [`is_boundary`] is a character
/// boundary in the sense of `vstd`.
pub proof fn lemma_boundary_is_char_boundary(b: Seq<u8>, i: int)
    requires
        valid_utf8(b),
        is_boundary(b, i),
    ensures
        is_char_boundary(b, i),
{
    if i < b.len() {
        is_char_boundary_iff_not_is_continuation_byte(b, i);
    } else {
        is_char_boundary_start_end_of_seq(b);
    }
}

/// A character boundary in the sense of `vstd` is a boundary in the sense of
/// [`is_boundary`].
pub proof fn lemma_char_boundary_is_boundary(b: Seq<u8>, i: int)
    requires
        valid_utf8(b),
        0 <= i <= b.len(),
        is_char_boundary(b, i),
    ensures
        is_boundary(b, i),
{
    if i < b.len() {
        is_char_boundary_iff_not_is_continuation_byte(b, i);
    }
}

/// Stepping over one scalar: at a boundary before the end, the scalar there is
/// well formed, its width is given by its leading byte, the bytes after the
/// leading byte are continuation bytes, and the next offset is a boundary again.
pub proof fn lemma_scalar_step(b: Seq<u8>, i: int)
    requires
        valid_utf8(b),
        0 <= i < b.len(),
        !is_continuation_byte(b[i]),
    ensures
        1 <= scalar_width(b[i]) <= 4,
        i + scalar_width(b[i]) <= b.len(),
        forall|j: int| i < j < i + scalar_width(b[i]) ==> is_continuation_byte(#[trigger] b[j]),
        is_boundary(b, i + scalar_width(b[i])),
        valid_first_scalar(b.subrange(i, b.len() as int)),
        length_of_first_scalar(b.subrange(i, b.len() as int)) == scalar_width(b[i]),
        b[i] < 0x80 ==> scalar_width(b[i]) == 1,
        scalar_width(b[i]) == 1 ==> b[i] < 0x80,
{
    is_char_boundary_iff_not_is_continuation_byte(b, i);
    valid_utf8_split(b, i);
    let s = b.subrange(i, b.len() as int);
    assert(s.len() > 0);
    assert(valid_first_scalar(s) && valid_utf8(pop_first_scalar(s)));
    assert(s[0] == b[i]);
    let w = length_of_first_scalar(s);
    assert(w == scalar_width(b[i]));
    assert forall|j: int| i < j < i + w implies is_continuation_byte(#[trigger] b[j]) by {
        assert(b[j] == s[j - i]);
    }
    let rest = pop_first_scalar(s);
    if i + w < b.len() {
        assert(rest.len() > 0);
        assert(valid_first_scalar(rest));
        assert(rest[0] == b[i + w]);
    }
}

/// Scalar counts add up over adjacent ranges.
pub proof fn lemma_scalar_count_split(b: Seq<u8>, lo: int, mid: int, hi: int)
    requires
        lo <= mid <= hi,
    ensures
        scalar_count(b, lo, hi) == scalar_count(b, lo, mid) + scalar_count(b, mid, hi),
    decreases hi - mid,
{
    if hi > mid {
        lemma_scalar_count_split(b, lo, mid, hi - 1);
    }
}

/// A range that holds exactly one leading byte followed by continuation bytes
/// contains one scalar.
pub proof fn lemma_scalar_count_one(b: Seq<u8>, lo: int, hi: int)
    requires
        lo < hi,
        !is_continuation_byte(b[lo]),
        forall|j: int| lo < j < hi ==> is_continuation_byte(#[trigger] b[j]),
    ensures
        scalar_count(b, lo, hi) == 1,
    decreases hi - lo,
{
    if hi - 1 > lo {
        assert(is_continuation_byte(b[hi - 1]));
        lemma_scalar_count_one(b, lo, hi - 1);
    } else {
        assert(scalar_count(b, lo, lo) == 0);
    }
}

/// A scalar count never exceeds the number of bytes counted.
pub proof fn lemma_scalar_count_bound(b: Seq<u8>, lo: int, hi: int)
    requires
        lo <= hi,
    ensures
        scalar_count(b, lo, hi) <= hi - lo,
    decreases hi - lo,
{
    if hi > lo {
        lemma_scalar_count_bound(b, lo, hi - 1);
    }
}

/// Basic shape of [`newline_ends`]: increasing, bounded by `n`, every element
/// directly follows a `\n`, and its length is the newline count.
pub proof fn lemma_newline_ends(b: Seq<u8>, n: int)
    requires
        0 <= n <= b.len(),
        b.len() <= usize::MAX,
    ensures
        newline_ends(b, n).len() == newline_count(b, n),
        forall|k: int|
            0 <= k < newline_ends(b, n).len() ==> {
                let p = #[trigger] newline_ends(b, n)[k];
                &&& 1 <= p <= n
                &&& b[p - 1] == lf()
            },
        forall|k1: int, k2: int|
            0 <= k1 < k2 < newline_ends(b, n).len() ==> newline_ends(b, n)[k1]
                < newline_ends(b, n)[k2],
        newline_ends(b, n).len() > 0 ==> newline_ends(b, n).last() == line_start_before(b, n),
        newline_ends(b, n).len() == 0 ==> line_start_before(b, n) == 0,
        newline_count(b, n) <= n,
    decreases n,
{
    if n > 0 {
        lemma_newline_ends(b, n - 1);
    }
}

/// For `n <= m`, the newline ends up to `n` are a prefix of those up to `m`, and
/// every later element is larger than `n`.
pub proof fn lemma_newline_ends_prefix(b: Seq<u8>, n: int, m: int)
    requires
        0 <= n <= m <= b.len(),
        b.len() <= usize::MAX,
    ensures
        newline_ends(b, n).len() <= newline_ends(b, m).len(),
        forall|k: int|
            0 <= k < newline_ends(b, n).len() ==> #[trigger] newline_ends(b, m)[k]
                == newline_ends(b, n)[k],
        forall|k: int|
            newline_ends(b, n).len() <= k < newline_ends(b, m).len() ==> #[trigger] newline_ends(
                b,
                m,
            )[k] > n,
    decreases m - n,
{
    if m > n {
        lemma_newline_ends_prefix(b, n, m - 1);
        lemma_newline_ends(b, m - 1);
    }
}

/// No `\n` byte lies between the start of the line holding `n` and `n`.
pub proof fn lemma_no_newline_in_line(b: Seq<u8>, n: int)
    requires
        0 <= n <= b.len(),
    ensures
        0 <= line_start_before(b, n) <= n,
        line_start_before(b, n) > 0 ==> b[line_start_before(b, n) - 1] == lf(),
        forall|p: int| line_start_before(b, n) <= p < n ==> #[trigger] b[p] != lf(),
    decreases n,
{
    if n > 0 {
        lemma_no_newline_in_line(b, n - 1);
    }
}

} // verus!
