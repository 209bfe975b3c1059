//! Validated UTF-8 source text with stable byte offsets, lines and columns.
//!
//! Byte offsets always refer to the raw input; lines and columns are logical,
//! one-based coordinates for diagnostics. A `\r\n` pair is one line break and a
//! column counts Unicode scalars.

use vstd::prelude::*;
use vstd::string::StringSliceAdditionalSpecFns;
use vstd::utf8::*;
use crate::text::{decimal, push_decimal};
use crate::utf8_layout::{
    column_of, cr, is_boundary, lemma_boundary_is_char_boundary, lemma_newline_ends,
    lemma_newline_ends_prefix, lemma_no_newline_in_line, lemma_scalar_count_bound,
    lemma_scalar_count_one, lemma_scalar_count_split, lemma_scalar_step, lf, line_of,
    line_start_before, line_starts_of, newline_count, newline_ends, scalar_count, scalar_width,
};

verus! {

broadcast use vstd::utf8::group_utf8_lib;

/// Stable code for input that is not valid UTF-8.
pub const INVALID_UTF8_CODE: &'static str = "X01-SOURCE-001";

/// Stable code for an offset beyond the end of the source.
pub const OFFSET_OUT_OF_BOUNDS_CODE: &'static str = "X01-SOURCE-002";

/// Stable code for an offset inside a multi-byte UTF-8 scalar.
pub const NOT_CHAR_BOUNDARY_CODE: &'static str = "X01-SOURCE-003";

/// Stable code for an invalid source span.
pub const INVALID_SPAN_CODE: &'static str = "X01-SOURCE-004";

/// A one-based position in Xiao source.
///
/// `offset` is the raw UTF-8 byte offset; `line` and `column` start at one and
/// the column counts Unicode scalars, so a tab or a CJK character is one column.
#[derive(Clone, Copy, Debug, PartialEq, Eq, Structural, Hash, PartialOrd, Ord)]
pub struct SourcePosition {
    /// Raw UTF-8 byte offset.
    pub offset: usize,
    /// One-based line number.
    pub line: usize,
    /// One-based column counted in Unicode scalars.
    pub column: usize,
}

impl SourcePosition {
    /// Creates a position value.
    pub fn new(offset: usize, line: usize, column: usize) -> (p: Self)
        ensures
            p == (SourcePosition { offset, line, column }),
    {
        SourcePosition { offset, line, column }
    }
}

/// The position of byte offset `n` in the bytes `b`.
pub open spec fn position_of(b: Seq<u8>, n: int) -> SourcePosition {
    SourcePosition {
        offset: n as usize,
        line: line_of(b, n) as usize,
        column: column_of(b, n) as usize,
    }
}

/// A half-open byte range `[start, end)` of Xiao source.
#[derive(Clone, Copy, Debug, PartialEq, Eq, Structural, Hash, PartialOrd, Ord)]
pub struct SourceSpan {
    start: usize,
    end: usize,
}

impl SourceSpan {
    #[verifier::type_invariant]
    spec fn ordered(self) -> bool {
        self.start <= self.end
    }

    /// The start offset of the span.
    pub closed spec fn spec_start(self) -> usize {
        self.start
    }

    /// The (exclusive) end offset of the span.
    pub closed spec fn spec_end(self) -> usize {
        self.end
    }

    /// Creates a span; returns `None` when `start > end`.
    pub fn new(start: usize, end: usize) -> (r: Option<Self>)
        ensures
            r is Some <==> start <= end,
            r matches Some(s) ==> s.spec_start() == start && s.spec_end() == end,
    {
        if start > end {
            None
        } else {
            Some(SourceSpan { start, end })
        }
    }

    /// Returns the start offset.
    pub fn start(self) -> (r: usize)
        ensures
            r == self.spec_start(),
            r <= self.spec_end(),
    {
        proof {
            use_type_invariant(&self);
        }
        self.start
    }

    /// Returns the (exclusive) end offset.
    pub fn end(self) -> (r: usize)
        ensures
            r == self.spec_end(),
            self.spec_start() <= r,
    {
        proof {
            use_type_invariant(&self);
        }
        self.end
    }

    /// Returns the number of bytes in the span.
    pub fn len(self) -> (r: usize)
        ensures
            r == self.spec_end() - self.spec_start(),
    {
        proof {
            use_type_invariant(&self);
        }
        self.end - self.start
    }

    /// Returns whether the span is empty.
    pub fn is_empty(self) -> (r: bool)
        ensures
            r == (self.spec_start() == self.spec_end()),
    {
        self.start == self.end
    }
}

/// `span` lies inside `b` and both of its ends are scalar boundaries.
pub open spec fn span_fits(b: Seq<u8>, span: SourceSpan) -> bool {
    &&& span.spec_start() <= span.spec_end() <= b.len()
    &&& is_boundary(b, span.spec_start() as int)
    &&& is_boundary(b, span.spec_end() as int)
}

/// Why reading source text or locating an offset failed.
#[derive(Clone, Debug, PartialEq, Eq, Structural)]
pub enum SourceError {
    /// The input is not valid UTF-8.
    InvalidUtf8 {
        /// Offset of the first invalid byte.
        valid_up_to: usize,
        /// Length of the invalid sequence; `None` when the input ended inside a scalar.
        error_len: Option<usize>,
    },
    /// The byte offset lies beyond the source.
    OffsetOutOfBounds {
        /// The requested offset.
        offset: usize,
        /// The source length in bytes.
        length: usize,
    },
    /// The offset falls inside a multi-byte UTF-8 scalar.
    NotCharBoundary {
        /// The offending offset.
        offset: usize,
    },
    /// The span is not a valid range of source boundaries.
    InvalidSpan {
        /// Span start.
        start: usize,
        /// Span end.
        end: usize,
    },
}

/// The text of a source error, as it is shown to a reader.
pub open spec fn source_error_text(error: SourceError) -> Seq<char> {
    match error {
        SourceError::InvalidUtf8 { valid_up_to, error_len } => "invalid UTF-8 at byte "@ + decimal(
            valid_up_to as nat,
        ) + " (length: "@ + match error_len {
            Some(n) => "Some("@ + decimal(n as nat) + ")"@,
            None => "None"@,
        } + ")"@,
        SourceError::OffsetOutOfBounds { offset, length } => "byte offset "@ + decimal(offset as nat)
            + " is outside source length "@ + decimal(length as nat),
        SourceError::NotCharBoundary { offset } => "byte offset "@ + decimal(offset as nat)
            + " is not a UTF-8 character boundary"@,
        SourceError::InvalidSpan { start, end } => "invalid source span ["@ + decimal(start as nat) + ", "@
            + decimal(end as nat) + ")"@,
    }
}

impl SourceError {
    /// Renders the error as stable, readable text.
    pub fn message(&self) -> (r: String)
        ensures
            r@ == source_error_text(*self),
    {
        match self {
            SourceError::InvalidUtf8 { valid_up_to, error_len } => {
                let mut text = "invalid UTF-8 at byte ".to_owned();
                push_decimal(&mut text, *valid_up_to);
                text.push_str(" (length: ");
                match error_len {
                    Some(n) => {
                        text.push_str("Some(");
                        push_decimal(&mut text, *n);
                        text.push_str(")");
                    },
                    None => {
                        text.push_str("None");
                    },
                }
                text.push_str(")");
                text
            },
            SourceError::OffsetOutOfBounds { offset, length } => {
                let mut text = "byte offset ".to_owned();
                push_decimal(&mut text, *offset);
                text.push_str(" is outside source length ");
                push_decimal(&mut text, *length);
                text
            },
            SourceError::NotCharBoundary { offset } => {
                let mut text = "byte offset ".to_owned();
                push_decimal(&mut text, *offset);
                text.push_str(" is not a UTF-8 character boundary");
                text
            },
            SourceError::InvalidSpan { start, end } => {
                let mut text = "invalid source span [".to_owned();
                push_decimal(&mut text, *start);
                text.push_str(", ");
                push_decimal(&mut text, *end);
                text.push_str(")");
                text
            },
        }
    }

    /// Returns the stable machine code of the error.
    pub fn code(&self) -> (r: &'static str)
        ensures
            self is InvalidUtf8 ==> r == INVALID_UTF8_CODE,
            self is OffsetOutOfBounds ==> r == OFFSET_OUT_OF_BOUNDS_CODE,
            self is NotCharBoundary ==> r == NOT_CHAR_BOUNDARY_CODE,
            self is InvalidSpan ==> r == INVALID_SPAN_CODE,
    {
        match self {
            SourceError::InvalidUtf8 { .. } => INVALID_UTF8_CODE,
            SourceError::OffsetOutOfBounds { .. } => OFFSET_OUT_OF_BOUNDS_CODE,
            SourceError::NotCharBoundary { .. } => NOT_CHAR_BOUNDARY_CODE,
            SourceError::InvalidSpan { .. } => INVALID_SPAN_CODE,
        }
    }
}

/// Checks `bytes` with `std::str::from_utf8`.
///
/// Trusted: on success the returned text has exactly the given bytes, and
/// success happens exactly for valid UTF-8. On failure the pair holds
/// `Utf8Error::valid_up_to` and `Utf8Error::error_len`; as the std documentation
/// says, the first is the largest prefix length that is valid UTF-8 and the
/// second, when present, is the length (1 to 3) of the invalid sequence that
/// starts there, or `None` when the input ends inside a scalar. The length is
/// named `utf8_error_len`; of it the contract states what the documentation
/// makes plain: a byte that cannot lead a scalar, or a leading byte not
/// followed by a continuation byte, is an invalid sequence of length one, and
/// `None` leaves at most three bytes after the valid prefix. The full rule
/// for longer invalid sequences is not written out.
#[verifier::external_body]
fn str_from_utf8(bytes: &[u8]) -> (r: Result<&str, (usize, Option<usize>)>)
    ensures
        r is Ok <==> valid_utf8(bytes@),
        r matches Ok(text) ==> text.spec_bytes() == bytes@,
        r matches Err((up_to, error_len)) ==> {
            &&& up_to <= bytes@.len()
            &&& valid_utf8(bytes@.subrange(0, up_to as int))
            &&& forall|j: int|
                up_to < j <= bytes@.len() ==> !valid_utf8(#[trigger] bytes@.subrange(0, j))
            &&& error_len matches Some(n) ==> 1 <= n <= 3 && up_to + n <= bytes@.len()
            &&& error_len == utf8_error_len(bytes@)
            &&& error_len is None ==> bytes@.len() - up_to <= 3
            &&& up_to < bytes@.len() && (bytes@[up_to as int] < 0xc2 || bytes@[up_to as int] > 0xf4) ==> error_len
                == Some(1usize)
            &&& up_to + 1 < bytes@.len() && 0xc2 <= bytes@[up_to as int] <= 0xf4 && !(0x80 <= bytes@[up_to + 1]
                <= 0xbf) ==> error_len == Some(1usize)
        },
{
    match std::str::from_utf8(bytes) {
        Ok(text) => Ok(text),
        Err(error) => Err((error.valid_up_to(), error.error_len())),
    }
}

/// The text that UTF-8 bytes spell, or `None` when they are not UTF-8.
pub fn text_from_utf8(bytes: &[u8]) -> (r: Option<String>)
    ensures
        r is Some <==> valid_utf8(bytes@),
        r matches Some(t) ==> t@ == decode_utf8(bytes@),
{
    match str_from_utf8(bytes) {
        Ok(text) => {
            proof {
                encode_utf8_decode_utf8(text@);
            }
            Some(text.to_owned())
        },
        Err(_) => None,
    }
}

/// What `Utf8Error::error_len` reports for bytes that are not UTF-8: the
/// length of the invalid sequence after the longest valid prefix, or `None`
/// when the input ends inside a scalar.
pub uninterp spec fn utf8_error_len(bytes: Seq<u8>) -> Option<usize>;

/// Converts a scalar value with `char::from_u32`.
///
/// Trusted: as documented, the result is `Some` exactly for Unicode scalar
/// values, and then holds the character with that value.
#[verifier::external_body]
fn char_from_u32(value: u32) -> (r: Option<char>)
    ensures
        r is Some <==> is_scalar(value),
        r matches Some(c) ==> c as u32 == value,
{
    char::from_u32(value)
}

/// The width in bytes of the scalar whose leading byte is `byte`.
pub(crate) fn width_of_leading_byte(byte: u8) -> (w: usize)
    ensures
        w == scalar_width(byte),
{
    if byte < 0x80 {
        1
    } else if byte < 0xe0 {
        2
    } else if byte < 0xf0 {
        3
    } else {
        4
    }
}

/// Whether `offset` is a scalar boundary of `bytes`.
pub(crate) fn boundary_at(bytes: &[u8], offset: usize) -> (r: bool)
    requires
        offset <= bytes@.len(),
    ensures
        r == is_boundary(bytes@, offset as int),
{
    offset == bytes.len() || !(0x80 <= bytes[offset] && bytes[offset] <= 0xbf)
}

/// Decodes the scalar that starts at a boundary before the end of `bytes`,
/// returning it with its encoded width.
pub(crate) fn scalar_at(bytes: &[u8], offset: usize) -> (r: (char, usize))
    requires
        valid_utf8(bytes@),
        offset < bytes@.len(),
        is_boundary(bytes@, offset as int),
    ensures
        r.1 == scalar_width(bytes@[offset as int]),
        r.1 == length_of_first_scalar(bytes@.subrange(offset as int, bytes@.len() as int)),
        r.0 as u32 == decode_first_scalar(bytes@.subrange(offset as int, bytes@.len() as int)),
        offset + r.1 <= bytes@.len(),
        is_boundary(bytes@, offset + r.1),
        bytes@[offset as int] < 0x80 ==> r.0 as u32 == bytes@[offset as int] as u32,
{
    proof {
        lemma_scalar_step(bytes@, offset as int);
    }
    let ghost s = bytes@.subrange(offset as int, bytes@.len() as int);
    let b1 = bytes[offset];
    let width = width_of_leading_byte(b1);
    let value: u32 = if width == 1 {
        (b1 & 0x7f) as u32
    } else if width == 2 {
        let b2 = bytes[offset + 1];
        assert(s[1] == b2);
        let v = (((b1 & 0x1f) as u32) << 6u32) | ((b2 & 0x3f) as u32);
        assert(v <= 0x7ff) by (bit_vector)
            requires
                v == (((b1 & 0x1f) as u32) << 6u32) | ((b2 & 0x3f) as u32),
        ;
        v
    } else if width == 3 {
        let b2 = bytes[offset + 1];
        let b3 = bytes[offset + 2];
        assert(s[1] == b2 && s[2] == b3);
        let v = (((b1 & 0x0f) as u32) << 12u32) | (((b2 & 0x3f) as u32) << 6u32) | ((b3
            & 0x3f) as u32);
        assert(v <= 0xffff) by (bit_vector)
            requires
                v == (((b1 & 0x0f) as u32) << 12u32) | (((b2 & 0x3f) as u32) << 6u32) | ((b3
                    & 0x3f) as u32),
        ;
        v
    } else {
        let b2 = bytes[offset + 1];
        let b3 = bytes[offset + 2];
        let b4 = bytes[offset + 3];
        assert(s[1] == b2 && s[2] == b3 && s[3] == b4);
        (((b1 & 0x07) as u32) << 18u32) | (((b2 & 0x3f) as u32) << 12u32) | (((b3 & 0x3f) as u32)
            << 6u32) | ((b4 & 0x3f) as u32)
    };
    assert(s[0] == b1);
    assert(value == decode_first_scalar(s));
    assert(b1 < 0x80 ==> (b1 & 0x7f) as u32 == b1 as u32) by (bit_vector);
    let c = char_from_u32(value).unwrap();
    (c, width)
}

/// Immutable, UTF-8 validated source text with an index of line starts.
#[derive(Debug)]
pub struct SourceFile {
    text: String,
    line_starts: Vec<usize>,
}

impl View for SourceFile {
    type V = Seq<char>;

    closed spec fn view(&self) -> Seq<char> {
        self.text@
    }
}

impl SourceFile {
    #[verifier::type_invariant]
    spec fn indexed(&self) -> bool {
        &&& self.line_starts@ == line_starts_of(self.spec_bytes())
        &&& self.spec_bytes().len() <= isize::MAX
    }

    /// The raw UTF-8 bytes of the source.
    pub open spec fn spec_bytes(&self) -> Seq<u8> {
        encode_utf8(self@)
    }

    /// Builds a source file from owned text.
    pub fn new(text: String) -> (r: Self)
        requires
            encode_utf8(text@).len() <= isize::MAX,
        ensures
            r@ == text@,
    {
        let line_starts = compute_line_starts(text.as_str());
        SourceFile { text, line_starts }
    }

    /// Builds a source file from UTF-8 bytes.
    pub fn from_bytes(bytes: &[u8]) -> (r: Result<Self, SourceError>)
        requires
            bytes@.len() <= isize::MAX,
        ensures
            r is Ok <==> valid_utf8(bytes@),
            r matches Ok(source) ==> source.spec_bytes() == bytes@,
            r matches Err(e) ==> e is InvalidUtf8,
            r matches Err(SourceError::InvalidUtf8 { valid_up_to, error_len }) ==> {
                &&& valid_up_to <= bytes@.len()
                &&& valid_utf8(bytes@.subrange(0, valid_up_to as int))
                &&& forall|j: int|
                    valid_up_to < j <= bytes@.len() ==> !valid_utf8(
                        #[trigger] bytes@.subrange(0, j),
                    )
                &&& error_len == utf8_error_len(bytes@)
                &&& error_len matches Some(n) ==> 1 <= n <= 3 && valid_up_to + n <= bytes@.len()
                &&& error_len is None ==> bytes@.len() - valid_up_to <= 3
                &&& valid_up_to < bytes@.len() && (bytes@[valid_up_to as int] < 0xc2 || bytes@[valid_up_to as int]
                    > 0xf4) ==> error_len == Some(1usize)
                &&& valid_up_to + 1 < bytes@.len() && 0xc2 <= bytes@[valid_up_to as int] <= 0xf4 && !(0x80
                    <= bytes@[valid_up_to + 1] <= 0xbf) ==> error_len == Some(1usize)
            },
    {
        match str_from_utf8(bytes) {
            Ok(text) => Ok(Self::from_text(text)),
            Err((valid_up_to, error_len)) => Err(SourceError::InvalidUtf8 { valid_up_to, error_len }),
        }
    }

    /// Builds a source file from a string slice.
    pub fn from_text(text: &str) -> (r: Self)
        requires
            text.spec_bytes().len() <= isize::MAX,
        ensures
            r@ == text@,
    {
        Self::new(text.to_owned())
    }

    /// Returns the whole source text.
    pub fn text(&self) -> (r: &str)
        ensures
            r@ == self@,
    {
        self.text.as_str()
    }

    /// Returns the raw UTF-8 bytes.
    pub fn as_bytes(&self) -> (r: &[u8])
        ensures
            r@ == self.spec_bytes(),
            r@.len() <= isize::MAX,
    {
        proof {
            use_type_invariant(self);
        }
        self.text.as_str().as_bytes()
    }

    /// Returns the length of the source in bytes.
    pub fn len_bytes(&self) -> (r: usize)
        ensures
            r == self.spec_bytes().len(),
            r <= isize::MAX,
    {
        self.as_bytes().len()
    }

    /// Returns whether the source is empty.
    pub fn is_empty(&self) -> (r: bool)
        ensures
            r == (self@.len() == 0),
            r == (self.spec_bytes().len() == 0),
    {
        self.text.as_str().is_empty()
    }

    /// Returns the number of logical lines; an empty file has one empty line.
    pub fn line_count(&self) -> (r: usize)
        ensures
            r == line_starts_of(self.spec_bytes()).len(),
            r == newline_count(self.spec_bytes(), self.spec_bytes().len() as int) + 1,
    {
        proof {
            use_type_invariant(self);
            lemma_newline_ends(self.spec_bytes(), self.spec_bytes().len() as int);
        }
        self.line_starts.len()
    }

    /// Converts a byte offset into a one-based line and column.
    pub fn position_at(&self, offset: usize) -> (r: Result<SourcePosition, SourceError>)
        ensures
            offset > self.spec_bytes().len() ==> r == Err::<SourcePosition, SourceError>(
                SourceError::OffsetOutOfBounds { offset, length: self.spec_bytes().len() as usize },
            ),
            offset <= self.spec_bytes().len() && !is_boundary(self.spec_bytes(), offset as int)
                ==> r == Err::<SourcePosition, SourceError>(
                SourceError::NotCharBoundary { offset },
            ),
            offset <= self.spec_bytes().len() && is_boundary(self.spec_bytes(), offset as int)
                ==> r == Ok::<SourcePosition, SourceError>(
                position_of(self.spec_bytes(), offset as int),
            ),
    {
        proof {
            use_type_invariant(self);
        }
        let bytes = self.as_bytes();
        let length = bytes.len();
        if offset > length {
            return Err(SourceError::OffsetOutOfBounds { offset, length });
        }
        if !boundary_at(bytes, offset) {
            return Err(SourceError::NotCharBoundary { offset });
        }
        let line_index = self.line_index_of(offset);
        let line_start = self.line_starts[line_index];
        proof {
            lemma_no_newline_in_line(bytes@, offset as int);
            if line_start > 0 {
                lemma_scalar_step(bytes@, line_start - 1);
            }
        }
        let column = scalar_column(bytes, line_start, offset);
        Ok(SourcePosition::new(offset, line_index + 1, column))
    }

    /// The index of the line holding `offset`: the last line start not after it.
    fn line_index_of(&self, offset: usize) -> (r: usize)
        requires
            offset <= self.spec_bytes().len(),
        ensures
            r < self.line_starts@.len(),
            r <= offset,
            r == newline_count(self.spec_bytes(), offset as int),
            self.line_starts@[r as int] == line_start_before(self.spec_bytes(), offset as int),
    {
        proof {
            use_type_invariant(self);
        }
        let ghost b = self.spec_bytes();
        let ghost ls = self.line_starts@;
        let mut lo: usize = 0;
        let mut hi: usize = self.line_starts.len();
        while hi - lo > 1
            invariant
                ls == self.line_starts@,
                ls.len() >= 1,
                lo < hi <= ls.len(),
                ls[lo as int] <= offset,
                hi < ls.len() ==> ls[hi as int] > offset,
            decreases hi - lo,
        {
            let mid = lo + (hi - lo) / 2;
            if self.line_starts[mid] <= offset {
                lo = mid;
            } else {
                hi = mid;
            }
        }
        proof {
            let n = b.len() as int;
            let o = offset as int;
            lemma_newline_ends(b, o);
            lemma_newline_ends(b, n);
            lemma_newline_ends_prefix(b, o, n);
            let big = newline_ends(b, n);
            let small = newline_ends(b, o);
            let l = small.len() as int;
            assert(forall|i: int| 0 < i < ls.len() ==> ls[i] == big[i - 1]);
            if (lo as int) > l {
                assert(ls[lo as int] == big[lo - 1]);
            }
            if (lo as int) < l {
                assert(ls[lo + 1] == big[lo as int]);
                assert(big[lo as int] == small[lo as int]);
            }
            assert(lo == l);
            if l > 0 {
                assert(ls[lo as int] == small[l - 1]);
            }
        }
        lo
    }

    /// Validates a half-open span of this source.
    pub fn span(&self, start: usize, end: usize) -> (r: Result<SourceSpan, SourceError>)
        ensures
            (start > end || end > self.spec_bytes().len()) ==> r == Err::<SourceSpan, SourceError>(
                SourceError::InvalidSpan { start, end },
            ),
            start <= end <= self.spec_bytes().len() && !is_boundary(self.spec_bytes(), start as int)
                ==> r == Err::<SourceSpan, SourceError>(
                SourceError::NotCharBoundary { offset: start },
            ),
            start <= end <= self.spec_bytes().len() && is_boundary(self.spec_bytes(), start as int)
                && !is_boundary(self.spec_bytes(), end as int) ==> r == Err::<
                SourceSpan,
                SourceError,
            >(SourceError::NotCharBoundary { offset: end }),
            r is Ok <==> (start <= end <= self.spec_bytes().len() && is_boundary(
                self.spec_bytes(),
                start as int,
            ) && is_boundary(self.spec_bytes(), end as int)),
            r matches Ok(s) ==> s.spec_start() == start && s.spec_end() == end && span_fits(
                self.spec_bytes(),
                s,
            ),
    {
        let bytes = self.as_bytes();
        if start > end || end > bytes.len() {
            return Err(SourceError::InvalidSpan { start, end });
        }
        if !boundary_at(bytes, start) {
            return Err(SourceError::NotCharBoundary { offset: start });
        }
        if !boundary_at(bytes, end) {
            return Err(SourceError::NotCharBoundary { offset: end });
        }
        Ok(SourceSpan { start, end })
    }

    /// Reads the text of a span that fits this source.
    pub fn slice(&self, span: SourceSpan) -> (r: &str)
        requires
            span_fits(self.spec_bytes(), span),
        ensures
            r.spec_bytes() == self.spec_bytes().subrange(
                span.spec_start() as int,
                span.spec_end() as int,
            ),
            r@ == decode_utf8(
                self.spec_bytes().subrange(span.spec_start() as int, span.spec_end() as int),
            ),
    {
        let ghost b = self.spec_bytes();
        let start = span.start();
        let end = span.end();
        proof {
            lemma_boundary_is_char_boundary(b, start as int);
        }
        let (_, tail) = self.text.as_str().split_at(start);
        let ghost t = tail.spec_bytes();
        proof {
            assert(t == b.subrange(start as int, b.len() as int));
            valid_utf8_split(b, start as int);
            assert(is_boundary(t, (end - start) as int)) by {
                if end < b.len() {
                    assert(t[end - start] == b[end as int]);
                }
            }
            lemma_boundary_is_char_boundary(t, (end - start) as int);
        }
        let (middle, _) = tail.split_at(end - start);
        proof {
            assert(middle.spec_bytes() =~= b.subrange(start as int, end as int));
        }
        middle
    }

    /// Returns the start offset of a one-based line.
    pub fn line_start(&self, line: usize) -> (r: Option<usize>)
        ensures
            r == (if 1 <= line <= line_starts_of(self.spec_bytes()).len() {
                Some(line_starts_of(self.spec_bytes())[line - 1])
            } else {
                None::<usize>
            }),
    {
        proof {
            use_type_invariant(self);
        }
        if line == 0 || line > self.line_starts.len() {
            None
        } else {
            Some(self.line_starts[line - 1])
        }
    }
}

impl Clone for SourceFile {
    /// Copies the text and its line index.
    fn clone(&self) -> (r: Self)
        ensures
            r@ == self@,
    {
        proof {
            use_type_invariant(self);
        }
        SourceFile { text: self.text.clone(), line_starts: self.line_starts.clone() }
    }
}

/// Computes the start offset of every logical line.
fn compute_line_starts(text: &str) -> (r: Vec<usize>)
    ensures
        r@ == line_starts_of(text.spec_bytes()),
{
    let bytes = text.as_bytes();
    let mut starts: Vec<usize> = Vec::new();
    starts.push(0);
    let mut offset: usize = 0;
    while offset < bytes.len()
        invariant
            offset <= bytes@.len(),
            starts@ == seq![0usize] + newline_ends(bytes@, offset as int),
        decreases bytes@.len() - offset,
    {
        if bytes[offset] == 10u8 {
            starts.push(offset + 1);
        }
        offset += 1;
    }
    starts
}

/// Counts the scalar column of `offset` within the line that starts at
/// `line_start`, treating the two bytes of `\r\n` as one line break.
fn scalar_column(bytes: &[u8], line_start: usize, offset: usize) -> (r: usize)
    requires
        valid_utf8(bytes@),
        bytes@.len() <= isize::MAX,
        line_start <= offset <= bytes@.len(),
        is_boundary(bytes@, line_start as int),
        is_boundary(bytes@, offset as int),
    ensures
        r == 1 + scalar_count(bytes@, line_start as int, column_stop(bytes@, line_start as int, offset as int)),
        line_start == line_start_before(bytes@, offset as int) ==> r == column_of(bytes@, offset as int),
{
    let ghost b = bytes@;
    let ghost at_line_start = line_start == line_start_before(b, offset as int);
    proof {
        if at_line_start {
            lemma_no_newline_in_line(b, offset as int);
            if line_start > 0 {
                lemma_scalar_step(b, line_start - 1);
            }
        }
    }
    let mut column: usize = 1;
    let mut cursor: usize = line_start;
    loop
        invariant
            b == bytes@,
            valid_utf8(b),
            b.len() <= isize::MAX,
            line_start <= cursor <= offset <= b.len(),
            is_boundary(b, cursor as int),
            is_boundary(b, offset as int),
            at_line_start == (line_start == line_start_before(b, offset as int)),
            at_line_start ==> forall|p: int| line_start <= p < offset ==> #[trigger] b[p] != lf(),
            column == 1 + scalar_count(b, line_start as int, cursor as int),
            at_line_start ==> (cursor > 0 ==> !(b[cursor - 1] == cr() && cursor < b.len() && b[cursor as int]
                == lf())),
            column_stop(b, line_start as int, offset as int) == column_stop(b, cursor as int, offset as int),
        decreases offset - cursor,
    {
        if cursor >= offset {
            return column;
        }
        if bytes[cursor] == 13u8 && cursor + 1 < bytes.len() && bytes[cursor + 1] == 10u8 {
            return column;
        }
        let width = width_of_leading_byte(bytes[cursor]);
        proof {
            let c = cursor as int;
            let w = width as int;
            lemma_scalar_step(b, c);
            lemma_scalar_count_one(b, c, c + w);
            lemma_scalar_count_split(b, line_start as int, c, c + w);
            lemma_scalar_count_bound(b, line_start as int, c + w);
            if offset < c + w {
                assert(is_continuation_byte(b[offset as int]));
            }
            if w > 1 {
                assert(is_continuation_byte(b[c + w - 1]));
            }
        }
        proof {
            let c = cursor as int;
            let w = width as int;
            assert forall|j: int| c <= j < c + w implies !(#[trigger] b[j] == cr() && j + 1 < b.len() && b[j + 1] == lf()) by {
                if j > c {
                    assert(is_continuation_byte(b[j]));
                }
            }
            lemma_column_stop_skip(b, c, c + w, offset as int);
        }
        cursor = cursor + width;
        column = column + 1;
    }
}

/// Where a column count from `lo` toward `hi` stops: at the first `\r\n`
/// pair that starts before `hi`, else at `hi`.
pub open spec fn column_stop(b: Seq<u8>, lo: int, hi: int) -> int
    decreases hi - lo,
{
    if lo >= hi {
        hi
    } else if b[lo] == cr() && lo + 1 < b.len() && b[lo + 1] == lf() {
        lo
    } else {
        column_stop(b, lo + 1, hi)
    }
}

/// Bytes that start no `\r\n` pair do not move where a column count
/// stops.
proof fn lemma_column_stop_skip(b: Seq<u8>, lo: int, mid: int, hi: int)
    requires
        lo <= mid <= hi,
        forall|j: int| lo <= j < mid ==> !(#[trigger] b[j] == cr() && j + 1 < b.len() && b[j + 1] == lf()),
    ensures
        column_stop(b, lo, hi) == column_stop(b, mid, hi),
    decreases mid - lo,
{
    if lo < mid {
        assert(!(b[lo] == cr() && lo + 1 < b.len() && b[lo + 1] == lf()));
        lemma_column_stop_skip(b, lo + 1, mid, hi);
    }
}

/// A cursor over the scalars of a source file, for lexers and editors.
#[derive(Debug)]
pub struct SourceCursor<'source> {
    source: &'source SourceFile,
    offset: usize,
}

impl<'source> SourceCursor<'source> {
    #[verifier::type_invariant]
    spec fn on_boundary(&self) -> bool {
        &&& self.offset <= self.source.spec_bytes().len()
        &&& is_boundary(self.source.spec_bytes(), self.offset as int)
    }

    /// The bytes of the source the cursor walks.
    pub closed spec fn spec_bytes(&self) -> Seq<u8> {
        self.source.spec_bytes()
    }

    /// The current byte offset of the cursor.
    pub closed spec fn spec_offset(&self) -> usize {
        self.offset
    }

    /// Creates a cursor at the start of `source`.
    pub fn new(source: &'source SourceFile) -> (r: Self)
        ensures
            r.spec_bytes() == source.spec_bytes(),
            r.spec_offset() == 0,
    {
        SourceCursor { source, offset: 0 }
    }

    /// Returns the current byte offset.
    pub fn offset(&self) -> (r: usize)
        ensures
            r == self.spec_offset(),
            r <= self.spec_bytes().len(),
            is_boundary(self.spec_bytes(), r as int),
    {
        proof {
            use_type_invariant(self);
        }
        self.offset
    }

    /// Returns the line and column of the current offset.
    pub fn position(&self) -> (r: Result<SourcePosition, SourceError>)
        ensures
            r == Ok::<SourcePosition, SourceError>(
                position_of(self.spec_bytes(), self.spec_offset() as int),
            ),
    {
        proof {
            use_type_invariant(self);
        }
        self.source.position_at(self.offset)
    }

    /// Returns whether the cursor reached the end of the source.
    pub fn is_eof(&self) -> (r: bool)
        ensures
            r == (self.spec_offset() >= self.spec_bytes().len()),
    {
        self.offset >= self.source.len_bytes()
    }

    /// Returns the scalar at the cursor without moving it.
    pub fn peek(&self) -> (r: Option<char>)
        ensures
            r is Some <==> self.spec_offset() < self.spec_bytes().len(),
            r matches Some(c) ==> c as u32 == decode_first_scalar(
                self.spec_bytes().subrange(self.spec_offset() as int, self.spec_bytes().len() as int),
            ),
    {
        proof {
            use_type_invariant(self);
        }
        let bytes = self.source.as_bytes();
        if self.offset >= bytes.len() {
            None
        } else {
            let (c, _) = scalar_at(bytes, self.offset);
            Some(c)
        }
    }

    /// Consumes and returns the scalar at the cursor.
    pub fn bump(&mut self) -> (r: Option<char>)
        ensures
            final(self).spec_bytes() == old(self).spec_bytes(),
            r is Some <==> old(self).spec_offset() < old(self).spec_bytes().len(),
            r is None ==> final(self).spec_offset() == old(self).spec_offset(),
            r matches Some(c) ==> {
                let b = old(self).spec_bytes();
                let s = b.subrange(old(self).spec_offset() as int, b.len() as int);
                &&& c as u32 == decode_first_scalar(s)
                &&& final(self).spec_offset() == old(self).spec_offset() + length_of_first_scalar(s)
            },
    {
        proof {
            use_type_invariant(&*self);
        }
        let bytes = self.source.as_bytes();
        if self.offset >= bytes.len() {
            return None;
        }
        let (c, width) = scalar_at(bytes, self.offset);
        self.offset = self.offset + width;
        Some(c)
    }

    /// Returns the span from `start` to the current offset.
    pub fn span_from(&self, start: usize) -> (r: Result<SourceSpan, SourceError>)
        ensures
            start > self.spec_offset() ==> r == Err::<SourceSpan, SourceError>(
                SourceError::InvalidSpan { start, end: self.spec_offset() },
            ),
            start <= self.spec_offset() && !is_boundary(self.spec_bytes(), start as int) ==> r
                == Err::<SourceSpan, SourceError>(SourceError::NotCharBoundary { offset: start }),
            start <= self.spec_offset() && is_boundary(self.spec_bytes(), start as int) ==> (r
                matches Ok(s) && s.spec_start() == start && s.spec_end() == self.spec_offset()),
    {
        proof {
            use_type_invariant(self);
        }
        self.source.span(start, self.offset)
    }
}

} // verus!
