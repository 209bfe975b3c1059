//! The Xiao lexer and its indentation state machine.
//!
//! The lexer turns source text into a stable token stream and structured
//! diagnostics; it does not parse expressions, infer types or run anything.
//! Its state lives in explicit fields so each part can be tested on its own.

use std::collections::VecDeque;
use vstd::prelude::*;
use vstd::utf8::*;
use crate::diagnostics::{
    Diagnostic, Severity, INCONSISTENT_INDENT_CODE, INVALID_BACKTICK_ESCAPE_CODE,
    INVALID_CHARACTER_CODE, INVALID_ESCAPE_CODE, INVALID_NUMBER_CODE, UNMATCHED_DELIMITER_CODE,
    UNTERMINATED_BACKTICK_CODE, UNTERMINATED_DELIMITER_CODE, UNTERMINATED_DOC_COMMENT_CODE,
    UNTERMINATED_STRING_CODE,
};
use crate::source::{scalar_at, span_fits, SourceFile, SourceSpan};
use crate::text::{debug_char, joined, push_decimal};
use crate::token::{same_text, KeywordKind, Token, TokenKind};
use crate::utf8_layout::{is_boundary, lemma_scalar_step};

verus! {

broadcast use vstd::utf8::group_utf8_lib;

// ---------------------------------------------------------------------------
// Byte classes and the text each token kind stands for
// ---------------------------------------------------------------------------

/// An ASCII decimal digit.
pub open spec fn is_digit_byte(b: u8) -> bool {
    48u8 <= b <= 57u8
}

/// A byte that may start an ASCII identifier: a letter or `_`.
pub open spec fn is_word_start_byte(b: u8) -> bool {
    (65u8 <= b <= 90u8) || (97u8 <= b <= 122u8) || b == 95u8
}

/// A byte that may continue an ASCII identifier.
pub open spec fn is_word_byte(b: u8) -> bool {
    is_word_start_byte(b) || is_digit_byte(b)
}

/// A byte that may occur in a number literal.
pub open spec fn is_number_byte(b: u8) -> bool {
    is_digit_byte(b) || b == 46u8 || b == 101u8 || b == 69u8 || b == 43u8 || b == 45u8
}

/// Horizontal white space: a space or a tab.
pub open spec fn is_blank_byte(b: u8) -> bool {
    b == 32u8 || b == 9u8
}

/// The logical width of the blanks `b[lo..hi]`: one per space, four per tab.
pub open spec fn prefix_width(b: Seq<u8>, lo: int, hi: int) -> int
    decreases hi - lo,
{
    if hi <= lo {
        0
    } else {
        prefix_width(b, lo, hi - 1) + if b[hi - 1] == 32u8 {
            1int
        } else {
            4int
        }
    }
}

/// What a code line indented by width `w` does, outside brackets, to the
/// open indentation levels `s`: a deeper multiple of four opens one level
/// and queues one `Indent`; the same width changes nothing; a shallower
/// multiple of four closes each deeper level with one `Dedent` and is
/// reported when it lands on no open level; any other width is reported.
pub open spec fn indentation_step(s: Seq<usize>, w: int, t: Seq<usize>, queued: Seq<Token>, reported: bool) -> bool {
    if w % 4 != 0 {
        reported
    } else if w > s.last() {
        &&& t == s.push(w as usize)
        &&& queued.len() == 1
        &&& queued[0].spec_kind() == TokenKind::Indent
        &&& !reported
    } else if w == s.last() {
        &&& t == s
        &&& queued.len() == 0
        &&& !reported
    } else {
        &&& 1 <= t.len() < s.len()
        &&& t == s.take(t.len() as int)
        &&& t.last() <= w
        &&& forall|k: int| t.len() <= k < s.len() ==> s[k] > w
        &&& queued.len() == s.len() - t.len()
        &&& forall|k: int| 0 <= k < queued.len() ==> (#[trigger] queued[k]).spec_kind() == TokenKind::Dedent
        &&& reported == (t.last() != w)
    }
}

/// Where the run of blanks starting at `i` ends.
pub open spec fn blank_end(b: Seq<u8>, i: int) -> int
    decreases b.len() - i,
{
    if 0 <= i < b.len() && is_blank_byte(b[i]) {
        blank_end(b, i + 1)
    } else {
        i
    }
}

/// A maximal run of blanks from `lo` ends at `blank_end(b, lo)`.
proof fn lemma_blank_end(b: Seq<u8>, lo: int, hi: int)
    requires
        0 <= lo <= hi <= b.len(),
        forall|i: int| lo <= i < hi ==> is_blank_byte(#[trigger] b[i]),
        hi == b.len() || !is_blank_byte(b[hi]),
    ensures
        blank_end(b, lo) == hi,
    decreases hi - lo,
{
    if lo < hi {
        lemma_blank_end(b, lo + 1, hi);
    }
}

/// A run of blanks ends at the end of the input or before a byte that is
/// not blank.
proof fn lemma_blank_end_stops(b: Seq<u8>, o: int)
    requires
        0 <= o <= b.len(),
    ensures
        o <= blank_end(b, o) <= b.len(),
        blank_end(b, o) == b.len() || !is_blank_byte(b[blank_end(b, o)]),
    decreases b.len() - o,
{
    if o < b.len() && is_blank_byte(b[o]) {
        lemma_blank_end_stops(b, o + 1);
    }
}

/// `t` is an ASCII identifier word.
pub open spec fn is_word(t: Seq<u8>) -> bool {
    &&& t.len() >= 1
    &&& is_word_start_byte(t[0])
    &&& forall|i: int| 1 <= i < t.len() ==> is_word_byte(#[trigger] t[i])
}

/// `w` is a reserved spelling: a keyword, a boolean or `none`.
pub open spec fn is_reserved_word(w: Seq<char>) -> bool {
    ||| w == "true"@
    ||| w == "false"@
    ||| w == "none"@
    ||| exists|k: KeywordKind| w == (#[trigger] k.spelling())@
}

/// The fixed bytes of an operator or punctuation kind.
pub open spec fn fixed_text(kind: TokenKind) -> Option<Seq<u8>> {
    match kind {
        TokenKind::Equal => Some(seq![61u8]),
        TokenKind::EqualEqual => Some(seq![61u8, 61u8]),
        TokenKind::BangEqual => Some(seq![33u8, 61u8]),
        TokenKind::Less => Some(seq![60u8]),
        TokenKind::LessEqual => Some(seq![60u8, 61u8]),
        TokenKind::Greater => Some(seq![62u8]),
        TokenKind::GreaterEqual => Some(seq![62u8, 61u8]),
        TokenKind::Plus => Some(seq![43u8]),
        TokenKind::Minus => Some(seq![45u8]),
        TokenKind::Star => Some(seq![42u8]),
        TokenKind::Slash => Some(seq![47u8]),
        TokenKind::FloorDiv => Some(seq![47u8, 47u8]),
        TokenKind::Percent => Some(seq![37u8]),
        TokenKind::Power => Some(seq![42u8, 42u8]),
        TokenKind::Ampersand => Some(seq![38u8]),
        TokenKind::Caret => Some(seq![94u8]),
        TokenKind::Pipe => Some(seq![124u8]),
        TokenKind::PlusEqual => Some(seq![43u8, 61u8]),
        TokenKind::MinusEqual => Some(seq![45u8, 61u8]),
        TokenKind::StarEqual => Some(seq![42u8, 61u8]),
        TokenKind::SlashEqual => Some(seq![47u8, 61u8]),
        TokenKind::FloorDivEqual => Some(seq![47u8, 47u8, 61u8]),
        TokenKind::PercentEqual => Some(seq![37u8, 61u8]),
        TokenKind::PowerEqual => Some(seq![42u8, 42u8, 61u8]),
        TokenKind::AmpersandEqual => Some(seq![38u8, 61u8]),
        TokenKind::CaretEqual => Some(seq![94u8, 61u8]),
        TokenKind::LeftParen => Some(seq![40u8]),
        TokenKind::RightParen => Some(seq![41u8]),
        TokenKind::LeftBracket => Some(seq![91u8]),
        TokenKind::RightBracket => Some(seq![93u8]),
        TokenKind::LeftBrace => Some(seq![123u8]),
        TokenKind::RightBrace => Some(seq![125u8]),
        TokenKind::Comma => Some(seq![44u8]),
        TokenKind::Colon => Some(seq![58u8]),
        TokenKind::Dot => Some(seq![46u8]),
        TokenKind::Tilde => Some(seq![126u8]),
        TokenKind::Question => Some(seq![63u8]),
        TokenKind::Bang => Some(seq![33u8]),
        TokenKind::BangQuestion => Some(seq![33u8, 63u8]),
        TokenKind::At => Some(seq![64u8]),
        TokenKind::Dollar => Some(seq![36u8]),
        _ => None,
    }
}

/// `t` starts with the `###` documentation marker.
pub open spec fn starts_with_marker(t: Seq<u8>) -> bool {
    t.len() >= 3 && t[0] == 35u8 && t[1] == 35u8 && t[2] == 35u8
}

/// `t` ends with the `###` documentation marker.
pub open spec fn ends_with_marker(t: Seq<u8>) -> bool {
    t.len() >= 3 && t[t.len() - 3] == 35u8 && t[t.len() - 2] == 35u8 && t[t.len() - 1] == 35u8
}

/// The raw text `t` of a token agrees with its kind.
///
/// Words are classified by their spelling, numbers consist of number bytes,
/// quoted tokens are closed by their opening quote, documentation comments are
/// framed by `###`, operators and punctuation have their fixed spelling,
/// `Indent` covers blank bytes, `Dedent` and `Eof` are empty, and an `Invalid`
/// token covers at least one byte.
pub open spec fn text_agrees(kind: TokenKind, t: Seq<u8>) -> bool {
    match kind {
        TokenKind::Identifier => is_word(t) && !is_reserved_word(decode_utf8(t)),
        TokenKind::Keyword(k) => is_word(t) && decode_utf8(t) == k.spelling()@,
        TokenKind::Boolean => is_word(t) && (decode_utf8(t) == "true"@ || decode_utf8(t)
            == "false"@),
        TokenKind::NoneLiteral => is_word(t) && decode_utf8(t) == "none"@,
        TokenKind::Integer => t.len() >= 1 && forall|i: int|
            0 <= i < t.len() ==> is_digit_byte(#[trigger] t[i]),
        TokenKind::Float => {
            &&& t.len() >= 1
            &&& (is_digit_byte(t[0]) || t[0] == 46u8)
            &&& forall|i: int| 0 <= i < t.len() ==> is_number_byte(#[trigger] t[i])
            &&& exists|i: int| 0 <= i < t.len() && (#[trigger] t[i] == 46u8 || t[i] == 101u8 || t[i] == 69u8)
        },
        TokenKind::String => t.len() >= 2 && (t[0] == 34u8 || t[0] == 39u8) && t[t.len() - 1]
            == t[0],
        TokenKind::BacktickIdentifier => t.len() >= 2 && t[0] == 96u8 && t[t.len() - 1] == 96u8,
        TokenKind::DocComment => t.len() >= 6 && starts_with_marker(t) && ends_with_marker(t),
        TokenKind::Newline => t == seq![10u8] || t == seq![13u8, 10u8],
        TokenKind::Indent => t.len() >= 1 && forall|i: int|
            0 <= i < t.len() ==> is_blank_byte(#[trigger] t[i]),
        TokenKind::Dedent => t.len() == 0,
        TokenKind::Eof => t.len() == 0,
        TokenKind::Invalid => t.len() >= 1,
        _ => fixed_text(kind) == Some(t),
    }
}

/// The bytes of `b` covered by `span`.
pub open spec fn span_text(b: Seq<u8>, span: SourceSpan) -> Seq<u8> {
    b.subrange(span.spec_start() as int, span.spec_end() as int)
}

/// A kind whose text is a word: names, keywords, booleans and `none`.
pub open spec fn is_word_kind(kind: TokenKind) -> bool {
    kind is Identifier || kind is Keyword || kind is Boolean || kind is NoneLiteral
}

/// A token of the source `b`: its span fits, its text agrees with its kind,
/// a word runs as far as its word bytes do, and a number as far as its digits
/// do (an integer also stops before no `.` or exponent marker).
pub open spec fn token_of(b: Seq<u8>, t: Token) -> bool {
    &&& span_fits(b, t.spec_span())
    &&& text_agrees(t.spec_kind(), span_text(b, t.spec_span()))
    &&& is_word_kind(t.spec_kind()) ==> (t.spec_span().spec_end() == b.len() || !is_word_byte(
        b[t.spec_span().spec_end() as int],
    ))
    &&& t.spec_kind() is Integer ==> (t.spec_span().spec_end() == b.len() || {
        let next = b[t.spec_span().spec_end() as int];
        !is_digit_byte(next) && next != 46u8 && next != 101u8 && next != 69u8
    })
    &&& t.spec_kind() is Float ==> (t.spec_span().spec_end() == b.len() || !is_digit_byte(
        b[t.spec_span().spec_end() as int],
    ))
    &&& t.spec_span().spec_end() < b.len() ==> !operator_extends(
        t.spec_kind(),
        b[t.spec_span().spec_end() as int],
    )
    &&& t.spec_kind() is Invalid ==> {
        let x = b[t.spec_span().spec_start() as int];
        is_literal_start_byte(x) || !is_token_start_byte(x)
    }
}

/// Bytes that start a literal, a backtick name or a documentation comment:
/// text that begins with one of them and is malformed is reported as one
/// invalid token.
pub open spec fn is_literal_start_byte(x: u8) -> bool {
    is_digit_byte(x) || x == 46u8 || x == 34u8 || x == 39u8 || x == 96u8 || x == 35u8
}

/// Bytes that start a name, a keyword, an operator, a delimiter or a line
/// break.
pub open spec fn is_token_start_byte(x: u8) -> bool {
    ||| is_word_start_byte(x)
    ||| x == 10u8
    ||| x == 61u8 || x == 33u8 || x == 60u8 || x == 62u8 || x == 43u8 || x == 45u8 || x == 42u8
    ||| x == 38u8 || x == 94u8 || x == 47u8 || x == 37u8 || x == 124u8
    ||| x == 40u8 || x == 41u8 || x == 91u8 || x == 93u8 || x == 123u8 || x == 125u8
    ||| x == 44u8 || x == 58u8 || x == 46u8 || x == 126u8 || x == 63u8 || x == 64u8 || x == 36u8
}

/// Whether an operator token followed by byte `next` is the start of a longer
/// operator: operators are matched longest first, so such a token never ends
/// where the longer one would continue.
pub open spec fn operator_extends(kind: TokenKind, next: u8) -> bool {
    match kind {
        TokenKind::Equal | TokenKind::Less | TokenKind::Greater | TokenKind::Plus | TokenKind::Minus
        | TokenKind::Power | TokenKind::FloorDiv | TokenKind::Percent | TokenKind::Ampersand
        | TokenKind::Caret => next == 61u8,
        TokenKind::Bang => next == 61u8 || next == 63u8,
        TokenKind::Star => next == 42u8 || next == 61u8,
        TokenKind::Slash => next == 47u8 || next == 61u8,
        _ => false,
    }
}

/// Consecutive tokens do not overlap and come in source order.
pub open spec fn in_order(ts: Seq<Token>) -> bool {
    forall|i: int|
        0 <= i && i + 1 < ts.len() ==> (#[trigger] ts[i]).spec_span().spec_end() <= ts[i
            + 1].spec_span().spec_start()
}

/// The number of tokens of kind `k` in `ts`.
pub open spec fn count_kind(ts: Seq<Token>, k: TokenKind) -> nat
    decreases ts.len(),
{
    if ts.len() == 0 {
        0
    } else {
        count_kind(ts.drop_last(), k) + if ts.last().spec_kind() == k {
            1nat
        } else {
            0nat
        }
    }
}

/// Adding a token keeps every byte that was accounted for accounted for, and
/// accounts for the bytes it covers.
proof fn lemma_coverage_push(b: Seq<u8>, ts: Seq<Token>, token: Token, upto: int, new_upto: int)
    requires
        coverage(b, ts, upto),
        new_upto == upto || (token.spec_span().spec_start() <= upto && new_upto
            == token.spec_span().spec_end() && upto <= new_upto),
    ensures
        coverage(b, ts.push(token), new_upto),
{
    let all = ts.push(token);
    assert forall|i: int| 0 <= i < new_upto implies skippable(b, i) || covered_by(all, i) by {
        if i < upto {
            if covered_by(ts, i) {
                let j = choose|j: int| 0 <= j < ts.len() && (#[trigger] ts[j]).spec_span().spec_start() <= i
                    < ts[j].spec_span().spec_end();
                assert(all[j] == ts[j]);
            }
        } else {
            assert(all[ts.len() as int] == token);
        }
    }
}

/// A lexer diagnostic: an error pointing at a span of the source `b`.
pub open spec fn diagnostic_of(b: Seq<u8>, d: Diagnostic) -> bool {
    d.severity == Severity::Error && (d.span matches Some(s) && span_fits(b, s))
}

/// `b[i]` is a line break: `\n`, or `\r` directly followed by `\n`.
pub open spec fn line_break_at(b: Seq<u8>, i: int) -> bool {
    (0 <= i < b.len() && b[i] == 10u8) || (0 <= i && i + 1 < b.len() && b[i] == 13u8 && b[i
        + 1] == 10u8)
}

/// A `###` marker starts at `i`.
pub open spec fn marker_at(b: Seq<u8>, i: int) -> bool {
    0 <= i && i + 3 <= b.len() && b[i] == 35u8 && b[i + 1] == 35u8 && b[i + 2] == 35u8
}

/// Byte `i` lies in a line comment: a `#` stands before it on its line, with
/// no line feed in between.
pub open spec fn in_line_comment(b: Seq<u8>, i: int) -> bool {
    exists|c: int| 0 <= c <= i && b[c] == 35u8 && forall|k: int| c <= k <= i ==> b[k] != 10u8
}

/// Byte `i` needs no token: a space, a tab, or part of a line comment.
pub open spec fn skippable(b: Seq<u8>, i: int) -> bool {
    is_blank_byte(b[i]) || in_line_comment(b, i)
}

/// Some token of `ts` covers byte `i`.
pub open spec fn covered_by(ts: Seq<Token>, i: int) -> bool {
    exists|j: int| 0 <= j < ts.len() && (#[trigger] ts[j]).spec_span().spec_start() <= i < ts[j].spec_span().spec_end()
}

/// Every byte of `b` before `upto` is covered by a token of `ts` or needs none.
pub open spec fn coverage(b: Seq<u8>, ts: Seq<Token>, upto: int) -> bool {
    forall|i: int| 0 <= i < upto ==> skippable(b, i) || covered_by(ts, i)
}

proof fn lemma_count_push(ts: Seq<Token>, t: Token, k: TokenKind)
    ensures
        count_kind(ts.push(t), k) == count_kind(ts, k) + if t.spec_kind() == k {
            1nat
        } else {
            0nat
        },
{
    assert(ts.push(t).drop_last() =~= ts);
}

/// After an ASCII byte at a boundary the next offset is a boundary too.
proof fn lemma_ascii_step(b: Seq<u8>, i: int)
    requires
        valid_utf8(b),
        is_boundary(b, i),
        0 <= i < b.len(),
        b[i] < 0x80,
    ensures
        is_boundary(b, i + 1),
{
    lemma_scalar_step(b, i);
}

// ---------------------------------------------------------------------------
// Results and delimiters
// ---------------------------------------------------------------------------

/// The result of lexing a whole input.
#[derive(Clone, Debug, PartialEq, Eq)]
pub struct LexResult {
    /// Tokens in source order, `Invalid` and the final `Eof` included.
    pub tokens: Vec<Token>,
    /// Diagnostics collected while scanning.
    pub diagnostics: Vec<Diagnostic>,
}

/// A code delimiter that is still open.
#[derive(Clone, Copy, Debug, PartialEq, Eq, Structural)]
enum OpenDelimiter {
    /// An opening parenthesis.
    Parenthesis(SourceSpan),
    /// An opening bracket.
    Bracket(SourceSpan),
    /// An opening brace.
    Brace(SourceSpan),
}

impl OpenDelimiter {
    /// The span of the opening token.
    spec fn spec_span(self) -> SourceSpan {
        match self {
            OpenDelimiter::Parenthesis(span) => span,
            OpenDelimiter::Bracket(span) => span,
            OpenDelimiter::Brace(span) => span,
        }
    }

    /// Whether a closing token kind closes this delimiter.
    spec fn closes(self, kind: TokenKind) -> bool {
        (self is Parenthesis && kind == TokenKind::RightParen) || (self is Bracket && kind
            == TokenKind::RightBracket) || (self is Brace && kind == TokenKind::RightBrace)
    }

    /// Returns the spelling used to name the delimiter in messages.
    fn name(self) -> (r: &'static str)
        ensures
            self is Parenthesis ==> r == "(",
            self is Bracket ==> r == "[",
            self is Brace ==> r == "{",
    {
        match self {
            OpenDelimiter::Parenthesis(_) => "(",
            OpenDelimiter::Bracket(_) => "[",
            OpenDelimiter::Brace(_) => "{",
        }
    }

    /// Returns whether a closing token kind closes this delimiter.
    fn matches(self, kind: TokenKind) -> (r: bool)
        ensures
            r == ((self is Parenthesis && kind == TokenKind::RightParen) || (self is Bracket && kind
                == TokenKind::RightBracket) || (self is Brace && kind == TokenKind::RightBrace)),
    {
        match (self, kind) {
            (OpenDelimiter::Parenthesis(_), TokenKind::RightParen) => true,
            (OpenDelimiter::Bracket(_), TokenKind::RightBracket) => true,
            (OpenDelimiter::Brace(_), TokenKind::RightBrace) => true,
            _ => false,
        }
    }
}

// ---------------------------------------------------------------------------
// Byte helpers
// ---------------------------------------------------------------------------

/// Whether a byte starts an ASCII identifier.
fn is_ascii_identifier_start(byte: u8) -> (r: bool)
    ensures
        r == is_word_start_byte(byte),
{
    (65u8 <= byte && byte <= 90u8) || (97u8 <= byte && byte <= 122u8) || byte == 95u8
}

/// Whether a byte continues an ASCII identifier.
fn is_ascii_identifier_continue(byte: u8) -> (r: bool)
    ensures
        r == is_word_byte(byte),
{
    is_ascii_identifier_start(byte) || is_ascii_digit(byte)
}

/// Whether a byte is an ASCII decimal digit.
fn is_ascii_digit(byte: u8) -> (r: bool)
    ensures
        r == is_digit_byte(byte),
{
    48u8 <= byte && byte <= 57u8
}

/// Whether a physical line break starts at `offset`.
fn is_line_break_at(bytes: &[u8], offset: usize) -> (r: bool)
    ensures
        r == line_break_at(bytes@, offset as int),
{
    (offset < bytes.len() && bytes[offset] == 10u8) || (offset < bytes.len() && bytes[offset]
        == 13u8 && offset + 1 < bytes.len() && bytes[offset + 1] == 10u8)
}

/// Whether a `###` documentation marker starts at `offset`.
fn starts_doc_comment(bytes: &[u8], offset: usize) -> (r: bool)
    ensures
        r == marker_at(bytes@, offset as int),
{
    offset < bytes.len() && bytes.len() - offset >= 3 && bytes[offset] == 35u8 && bytes[offset
        + 1] == 35u8 && bytes[offset + 2] == 35u8
}

/// Whether a token kind opens a delimiter.
spec fn is_opening_kind(kind: TokenKind) -> bool {
    kind == TokenKind::LeftParen || kind == TokenKind::LeftBracket || kind == TokenKind::LeftBrace
}

/// Whether a token kind closes a delimiter.
spec fn is_closing_kind(kind: TokenKind) -> bool {
    kind == TokenKind::RightParen || kind == TokenKind::RightBracket || kind
        == TokenKind::RightBrace
}

/// Whether a character after a backslash is a supported string escape.
fn is_valid_escape(character: char) -> (r: bool)
    ensures
        r == (character == '\\' || character == '\'' || character == '"' || character == 'n'
            || character == 'r' || character == 't' || character == '0' || character == 'b'
            || character == 'f' || character == 'v' || character == 'a'),
{
    character == '\\' || character == '\'' || character == '"' || character == 'n' || character
        == 'r' || character == 't' || character == '0' || character == 'b' || character == 'f'
        || character == 'v' || character == 'a'
}

impl OpenDelimiter {
    /// Returns the span of the opening token.
    fn span(self) -> (r: SourceSpan)
        ensures
            r == self.spec_span(),
    {
        match self {
            OpenDelimiter::Parenthesis(span) => span,
            OpenDelimiter::Bracket(span) => span,
            OpenDelimiter::Brace(span) => span,
        }
    }
}

/// Reads the text between two boundaries of a source.
fn text_between<'a>(source: &'a SourceFile, start: usize, end: usize) -> (r: &'a str)
    requires
        start <= end <= source.spec_bytes().len(),
        is_boundary(source.spec_bytes(), start as int),
        is_boundary(source.spec_bytes(), end as int),
    ensures
        r@ == decode_utf8(source.spec_bytes().subrange(start as int, end as int)),
{
    match source.span(start, end) {
        Ok(span) => source.slice(span),
        Err(_) => unreached(),
    }
}

// ---------------------------------------------------------------------------
// The lexer
// ---------------------------------------------------------------------------

/// The Xiao lexer.
pub struct Lexer<'source> {
    source: &'source SourceFile,
    offset: usize,
    diagnostics: Vec<Diagnostic>,
    pending: VecDeque<Token>,
    indent_stack: Vec<usize>,
    delimiters: Vec<OpenDelimiter>,
    at_line_start: bool,
    emitted_eof: bool,
    produced: Ghost<Seq<Token>>,
    covered: Ghost<usize>,
}

impl<'source> Lexer<'source> {
    /// The bytes of the source being scanned.
    /// The lexer stands at the start of a line, outside brackets, with no
    /// token queued and the input not yet finished.
    pub closed spec fn at_open_line_start(&self) -> bool {
        &&& self.at_line_start
        &&& self.pending@.len() == 0
        &&& !self.emitted_eof
        &&& self.delimiters@.len() == 0
    }

    /// The open indentation levels, outermost first.
    pub closed spec fn spec_levels(&self) -> Seq<usize> {
        self.indent_stack@
    }

    pub closed spec fn spec_bytes(&self) -> Seq<u8> {
        self.source.spec_bytes()
    }

    /// The current byte offset of the scan.
    pub closed spec fn spec_offset(&self) -> usize {
        self.offset
    }

    /// The diagnostics collected so far.
    pub closed spec fn spec_diagnostics(&self) -> Seq<Diagnostic> {
        self.diagnostics@
    }

    /// The tokens handed out so far by [`Self::next_token`], in order.
    pub closed spec fn produced(&self) -> Seq<Token> {
        self.produced@
    }

    /// The end of file has been reached and every queued token handed out.
    pub closed spec fn finished(&self) -> bool {
        self.emitted_eof && self.pending@.len() == 0
    }

    /// An upper bound on the number of tokens still to come before `Eof`.
    pub closed spec fn remaining_work(&self) -> nat {
        (4 * (if self.offset <= self.source.spec_bytes().len() {
            self.source.spec_bytes().len() - self.offset
        } else {
            0int
        }) + 2 * (if self.indent_stack@.len() >= 1 {
            self.indent_stack@.len() - 1
        } else {
            0int
        }) + 2 * self.pending@.len() + (if self.at_line_start {
            1int
        } else {
            0int
        }) + (if self.emitted_eof {
            0int
        } else {
            1int
        })) as nat
    }

    /// Every byte before the offset is covered by a handed-out or queued token
    /// or needs none.
    pub closed spec fn settled(&self) -> bool {
        self.covered@ == self.offset
    }

    /// Both lexers are in the same scanning state (the record of handed-out
    /// tokens aside).
    pub closed spec fn same_state(&self, other: &Self) -> bool {
        &&& self.source == other.source
        &&& self.offset == other.offset
        &&& self.diagnostics@ == other.diagnostics@
        &&& self.pending@ == other.pending@
        &&& self.indent_stack@ == other.indent_stack@
        &&& self.delimiters@ == other.delimiters@
        &&& self.at_line_start == other.at_line_start
        &&& self.emitted_eof == other.emitted_eof
        &&& self.covered@ == other.covered@
    }

    /// The lexer state is consistent with its source.
    ///
    /// The offset is a scalar boundary; the indentation stack starts at zero
    /// and strictly increases; every handed-out or queued token is a token of
    /// the source, the tokens are in source order and end before the offset;
    /// every open delimiter and diagnostic points into the source; after the
    /// end of file the whole input is consumed and all blocks are closed; the
    /// `Indent` tokens outnumber the `Dedent` tokens by the open blocks; and
    /// there are no fewer diagnostics than `Invalid` tokens.
    #[verifier::opaque]
    pub closed spec fn wf(&self) -> bool {
        let b = self.source.spec_bytes();
        let all = self.produced@ + self.pending@;
        &&& b.len() <= usize::MAX / 4
        &&& self.offset <= b.len()
        &&& is_boundary(b, self.offset as int)
        &&& self.indent_stack@.len() >= 1
        &&& self.indent_stack@[0] == 0
        &&& forall|i: int, j: int|
            0 <= i < j < self.indent_stack@.len() ==> self.indent_stack@[i]
                < self.indent_stack@[j]
        &&& forall|i: int| 0 <= i < all.len() ==> token_of(b, #[trigger] all[i])
        &&& forall|i: int|
            0 <= i < self.pending@.len() ==> (#[trigger] self.pending@[i]).spec_kind()
                != TokenKind::Eof
        &&& in_order(all)
        &&& all.len() > 0 ==> all.last().spec_span().spec_end() <= self.offset
        &&& forall|i: int|
            0 <= i < self.delimiters@.len() ==> span_fits(
                b,
                (#[trigger] self.delimiters@[i]).spec_span(),
            )
        &&& forall|i: int|
            0 <= i < self.diagnostics@.len() ==> diagnostic_of(b, #[trigger] self.diagnostics@[i])
        &&& self.emitted_eof ==> self.offset == b.len() && self.indent_stack@.len() == 1
        &&& count_kind(all, TokenKind::Indent) == count_kind(all, TokenKind::Dedent)
            + self.indent_stack@.len() - 1
        &&& count_kind(all, TokenKind::Invalid) <= self.diagnostics@.len()
        &&& self.covered@ <= self.offset
        &&& coverage(b, all, self.covered@ as int)
    }

    /// `self` differs from `old` only by a later offset and more diagnostics.
    closed spec fn scan_frame(&self, old: &Self) -> bool {
        &&& self.source == old.source
        &&& self.pending@ == old.pending@
        &&& self.indent_stack@ == old.indent_stack@
        &&& self.delimiters@ == old.delimiters@
        &&& self.at_line_start == old.at_line_start
        &&& self.emitted_eof == old.emitted_eof
        &&& self.produced@ == old.produced@
        &&& self.covered@ == old.covered@
        &&& old.offset <= self.offset
        &&& old.diagnostics@.is_prefix_of(self.diagnostics@)
    }

    /// `self` differs from `old` only by a later offset over bytes that need
    /// no token, with every byte before it accounted for.
    closed spec fn skip_frame(&self, old: &Self) -> bool {
        &&& self.source == old.source
        &&& self.pending@ == old.pending@
        &&& self.indent_stack@ == old.indent_stack@
        &&& self.delimiters@ == old.delimiters@
        &&& self.at_line_start == old.at_line_start
        &&& self.emitted_eof == old.emitted_eof
        &&& self.produced@ == old.produced@
        &&& old.offset <= self.offset
        &&& self.diagnostics@ == old.diagnostics@
        &&& self.settled()
    }

    /// `r` is a token scanned from `old.offset` to `self.offset`.
    closed spec fn scanned(&self, old: &Self, r: Token) -> bool {
        &&& r.spec_span().spec_start() == old.offset
        &&& r.spec_span().spec_end() == self.offset
        &&& old.offset < self.offset
        &&& token_of(self.source.spec_bytes(), r)
        &&& r.spec_kind() != TokenKind::Eof
        &&& r.spec_kind() != TokenKind::Indent
        &&& r.spec_kind() != TokenKind::Dedent
        &&& r.spec_kind() == TokenKind::Invalid ==> self.diagnostics@.len() > old.diagnostics@.len()
    }

    /// The offset of a consistent lexer is a boundary within its source.
    proof fn lemma_wf_offset(s: &Self)
        requires
            s.wf(),
        ensures
            s.offset <= s.source.spec_bytes().len(),
            is_boundary(s.source.spec_bytes(), s.offset as int),
            s.source.spec_bytes().len() <= usize::MAX / 4,
            valid_utf8(s.source.spec_bytes()),
    {
        reveal(Lexer::wf);
    }

    /// Moving the offset forward to a later boundary keeps the state consistent.
    proof fn lemma_wf_advance(old: &Self, new: &Self)
        requires
            old.wf(),
            new.source == old.source,
            new.diagnostics@ == old.diagnostics@,
            new.pending@ == old.pending@,
            new.indent_stack@ == old.indent_stack@,
            new.delimiters@ == old.delimiters@,
            new.at_line_start == old.at_line_start,
            new.emitted_eof == old.emitted_eof,
            new.produced@ == old.produced@,
            new.covered@ == old.covered@,
            old.offset <= new.offset <= new.source.spec_bytes().len(),
            is_boundary(new.source.spec_bytes(), new.offset as int),
        ensures
            new.wf(),
    {
        reveal(Lexer::wf);
    }

    /// Moving the offset of a settled lexer forward over bytes that need no
    /// token keeps it consistent and settled.
    proof fn lemma_wf_skip(old: &Self, new: &Self)
        requires
            old.wf(),
            old.settled(),
            new.source == old.source,
            new.diagnostics@ == old.diagnostics@,
            new.pending@ == old.pending@,
            new.indent_stack@ == old.indent_stack@,
            new.delimiters@ == old.delimiters@,
            new.at_line_start == old.at_line_start,
            new.emitted_eof == old.emitted_eof,
            new.produced@ == old.produced@,
            old.offset <= new.offset <= new.source.spec_bytes().len(),
            is_boundary(new.source.spec_bytes(), new.offset as int),
            new.covered@ == new.offset,
            forall|i: int| old.offset <= i < new.offset ==> skippable(new.source.spec_bytes(), i),
        ensures
            new.wf(),
            new.settled(),
    {
        reveal(Lexer::wf);
        let b = new.source.spec_bytes();
        let all = new.produced@ + new.pending@;
        assert forall|i: int| 0 <= i < new.covered@ implies skippable(b, i) || covered_by(all, i) by {
            if i < old.covered@ {
                assert(coverage(b, old.produced@ + old.pending@, old.covered@ as int));
            }
        }
    }

    /// Creates a lexer at the start of a source.
    ///
    /// The source may fill at most a quarter of the address space: the
    /// indentation width of a line counts four per tab, in a `usize`, and
    /// this bound is what keeps that count from overflowing.
    pub fn new(source: &'source SourceFile) -> (r: Self)
        requires
            source.spec_bytes().len() <= usize::MAX / 4,
        ensures
            r.wf(),
            r.settled(),
            r.spec_bytes() == source.spec_bytes(),
            r.spec_offset() == 0,
            r.produced() == Seq::<Token>::empty(),
            r.spec_diagnostics() == Seq::<Diagnostic>::empty(),
            !r.finished(),
    {
        proof {
            reveal(Lexer::wf);
        }
        proof {
            let b = source.spec_bytes();
            is_char_boundary_start_end_of_seq(b);
            if b.len() > 0 {
                crate::utf8_layout::lemma_char_boundary_is_boundary(b, 0);
            }
        }
        let r = Lexer {
            source,
            offset: 0,
            diagnostics: Vec::new(),
            pending: VecDeque::new(),
            indent_stack: vec![0],
            delimiters: Vec::new(),
            at_line_start: true,
            emitted_eof: false,
            produced: Ghost(Seq::empty()),
            covered: Ghost(0),
        };
        proof {
            assert(r.produced@ + r.pending@ =~= Seq::<Token>::empty());
        }
        r
    }

    /// Returns the current byte offset of the scan.
    pub fn offset(&self) -> (r: usize)
        ensures
            r == self.spec_offset(),
    {
        self.offset
    }

    /// Returns the diagnostics collected so far.
    pub fn diagnostics(&self) -> (r: &[Diagnostic])
        ensures
            r@ == self.spec_diagnostics(),
    {
        self.diagnostics.as_slice()
    }

    /// Validates a span between two boundaries of the source.
    fn span_of(&self, start: usize, end: usize) -> (r: SourceSpan)
        requires
            start <= end <= self.source.spec_bytes().len(),
            is_boundary(self.source.spec_bytes(), start as int),
            is_boundary(self.source.spec_bytes(), end as int),
        ensures
            r.spec_start() == start,
            r.spec_end() == end,
            span_fits(self.source.spec_bytes(), r),
    {
        match self.source.span(start, end) {
            Ok(span) => span,
            Err(_) => unreached(),
        }
    }

    /// Creates a token of the source between two boundaries.
    fn token(&self, kind: TokenKind, start: usize, end: usize) -> (r: Token)
        requires
            start <= end <= self.source.spec_bytes().len(),
            is_boundary(self.source.spec_bytes(), start as int),
            is_boundary(self.source.spec_bytes(), end as int),
        ensures
            r.spec_kind() == kind,
            r.spec_span().spec_start() == start,
            r.spec_span().spec_end() == end,
            span_fits(self.source.spec_bytes(), r.spec_span()),
    {
        Token::new(kind, self.span_of(start, end))
    }

    /// Creates a zero-width token at a boundary.
    fn zero_width_token(&self, kind: TokenKind, offset: usize) -> (r: Token)
        requires
            offset <= self.source.spec_bytes().len(),
            is_boundary(self.source.spec_bytes(), offset as int),
        ensures
            r.spec_kind() == kind,
            r.spec_span().spec_start() == offset,
            r.spec_span().spec_end() == offset,
            span_fits(self.source.spec_bytes(), r.spec_span()),
    {
        self.token(kind, offset, offset)
    }

    /// Creates the end-of-file token at the current offset.
    fn eof_token(&self) -> (r: Token)
        requires
            self.offset <= self.source.spec_bytes().len(),
            is_boundary(self.source.spec_bytes(), self.offset as int),
        ensures
            r.spec_kind() == TokenKind::Eof,
            r.spec_span().spec_start() == self.offset,
            r.spec_span().spec_end() == self.offset,
            span_fits(self.source.spec_bytes(), r.spec_span()),
    {
        self.token(TokenKind::Eof, self.offset, self.offset)
    }
}

impl<'source> Lexer<'source> {
    /// Scans a one-byte punctuation token.
    fn scan_single(&mut self, kind: TokenKind) -> (r: Token)
        requires
            old(self).wf(),
            old(self).offset < old(self).spec_bytes().len(),
            old(self).spec_bytes()[old(self).offset as int] < 0x80,
            fixed_text(kind) == Some(seq![old(self).spec_bytes()[old(self).offset as int]]),
            kind != TokenKind::Invalid,
            forall|x: u8| !operator_extends(kind, x),
        ensures
            final(self).wf(),
            final(self).scan_frame(old(self)),
            final(self).scanned(old(self), r),
            r.spec_kind() == kind,
    {
        proof {
            reveal(Lexer::wf);
        }
        let start = self.offset;
        proof {
            lemma_ascii_step(self.spec_bytes(), start as int);
        }
        self.offset += 1;
        let token = self.token(kind, start, self.offset);
        proof {
            assert(span_text(self.spec_bytes(), token.spec_span()) =~= seq![
                self.spec_bytes()[start as int],
            ]);
        }
        token
    }

    /// Scans a token of one byte, or of two when the next byte is `second`.
    fn scan_one_or_two(&mut self, first: u8, second: u8, two: TokenKind, one: TokenKind) -> (r:
        Token)
        requires
            old(self).wf(),
            old(self).offset < old(self).spec_bytes().len(),
            old(self).spec_bytes()[old(self).offset as int] == first,
            first < 0x80,
            second < 0x80,
            fixed_text(one) == Some(seq![first]),
            fixed_text(two) == Some(seq![first, second]),
            one != TokenKind::Invalid,
            two != TokenKind::Invalid,
            forall|x: u8| operator_extends(one, x) ==> x == second,
            forall|x: u8| !operator_extends(two, x),
        ensures
            final(self).wf(),
            final(self).scan_frame(old(self)),
            final(self).scanned(old(self), r),
            r.spec_kind() == (if old(self).offset + 1 < old(self).spec_bytes().len()
                && old(self).spec_bytes()[old(self).offset + 1] == second {
                two
            } else {
                one
            }),
    {
        proof {
            reveal(Lexer::wf);
        }
        let start = self.offset;
        let source = self.source;
        let bytes = source.as_bytes();
        let ghost b = self.spec_bytes();
        proof {
            lemma_ascii_step(b, start as int);
        }
        if start + 1 < bytes.len() && bytes[start + 1] == second {
            proof {
                lemma_ascii_step(b, start + 1);
            }
            self.offset += 2;
            let token = self.token(two, start, self.offset);
            proof {
                assert(span_text(b, token.spec_span()) =~= seq![first, second]);
            }
            token
        } else {
            self.offset += 1;
            let token = self.token(one, start, self.offset);
            proof {
                assert(span_text(b, token.spec_span()) =~= seq![first]);
            }
            token
        }
    }

    /// Scans `!`, `!?` or `!=`, taking the longest match.
    fn scan_bang(&mut self) -> (r: Token)
        requires
            old(self).wf(),
            old(self).offset < old(self).spec_bytes().len(),
            old(self).spec_bytes()[old(self).offset as int] == 33u8,
        ensures
            final(self).wf(),
            final(self).scan_frame(old(self)),
            final(self).scanned(old(self), r),
    {
        proof {
            reveal(Lexer::wf);
        }
        let start = self.offset;
        let source = self.source;
        let bytes = source.as_bytes();
        let ghost b = self.spec_bytes();
        proof {
            lemma_ascii_step(b, start as int);
        }
        let kind = if start + 1 < bytes.len() && bytes[start + 1] == 63u8 {
            proof {
                lemma_ascii_step(b, start + 1);
            }
            self.offset += 2;
            TokenKind::BangQuestion
        } else if start + 1 < bytes.len() && bytes[start + 1] == 61u8 {
            proof {
                lemma_ascii_step(b, start + 1);
            }
            self.offset += 2;
            TokenKind::BangEqual
        } else {
            self.offset += 1;
            TokenKind::Bang
        };
        let token = self.token(kind, start, self.offset);
        proof {
            assert(span_text(b, token.spec_span()) =~= b.subrange(start as int, self.offset as int));
            if self.offset == start + 2 {
                assert(span_text(b, token.spec_span()) =~= seq![b[start as int], b[start + 1]]);
            } else {
                assert(span_text(b, token.spec_span()) =~= seq![b[start as int]]);
            }
        }
        token
    }

    /// Scans `-` or `-=`.
    fn scan_minus(&mut self) -> (r: Token)
        requires
            old(self).wf(),
            old(self).offset < old(self).spec_bytes().len(),
            old(self).spec_bytes()[old(self).offset as int] == 45u8,
        ensures
            final(self).wf(),
            final(self).scan_frame(old(self)),
            final(self).scanned(old(self), r),
    {
        proof {
            reveal(Lexer::wf);
        }
        let start = self.offset;
        let source = self.source;
        let bytes = source.as_bytes();
        let ghost b = self.spec_bytes();
        proof {
            lemma_ascii_step(b, start as int);
        }
        let kind = if start + 1 < bytes.len() && bytes[start + 1] == 61u8 {
            proof {
                lemma_ascii_step(b, start + 1);
            }
            self.offset += 2;
            TokenKind::MinusEqual
        } else {
            self.offset += 1;
            TokenKind::Minus
        };
        let token = self.token(kind, start, self.offset);
        proof {
            if self.offset == start + 2 {
                assert(span_text(b, token.spec_span()) =~= seq![b[start as int], b[start + 1]]);
            } else {
                assert(span_text(b, token.spec_span()) =~= seq![b[start as int]]);
            }
        }
        token
    }

    /// Scans multiplication, power and their compound assignments.
    fn scan_star(&mut self) -> (r: Token)
        requires
            old(self).wf(),
            old(self).offset < old(self).spec_bytes().len(),
            old(self).spec_bytes()[old(self).offset as int] == 42u8,
        ensures
            final(self).wf(),
            final(self).scan_frame(old(self)),
            final(self).scanned(old(self), r),
    {
        proof {
            reveal(Lexer::wf);
        }
        let start = self.offset;
        let source = self.source;
        let bytes = source.as_bytes();
        let ghost b = self.spec_bytes();
        proof {
            lemma_ascii_step(b, start as int);
        }
        let kind = if start + 1 < bytes.len() && bytes[start + 1] == 42u8 {
            proof {
                lemma_ascii_step(b, start + 1);
            }
            if start + 2 < bytes.len() && bytes[start + 2] == 61u8 {
                proof {
                    lemma_ascii_step(b, start + 2);
                }
                self.offset += 3;
                TokenKind::PowerEqual
            } else {
                self.offset += 2;
                TokenKind::Power
            }
        } else if start + 1 < bytes.len() && bytes[start + 1] == 61u8 {
            proof {
                lemma_ascii_step(b, start + 1);
            }
            self.offset += 2;
            TokenKind::StarEqual
        } else {
            self.offset += 1;
            TokenKind::Star
        };
        let token = self.token(kind, start, self.offset);
        proof {
            if self.offset == start + 3 {
                assert(span_text(b, token.spec_span()) =~= seq![
                    b[start as int],
                    b[start + 1],
                    b[start + 2],
                ]);
            } else if self.offset == start + 2 {
                assert(span_text(b, token.spec_span()) =~= seq![b[start as int], b[start + 1]]);
            } else {
                assert(span_text(b, token.spec_span()) =~= seq![b[start as int]]);
            }
        }
        token
    }

    /// Scans division, floor division and their compound assignments.
    fn scan_slash(&mut self) -> (r: Token)
        requires
            old(self).wf(),
            old(self).offset < old(self).spec_bytes().len(),
            old(self).spec_bytes()[old(self).offset as int] == 47u8,
        ensures
            final(self).wf(),
            final(self).scan_frame(old(self)),
            final(self).scanned(old(self), r),
    {
        proof {
            reveal(Lexer::wf);
        }
        let start = self.offset;
        let source = self.source;
        let bytes = source.as_bytes();
        let ghost b = self.spec_bytes();
        proof {
            lemma_ascii_step(b, start as int);
        }
        let kind = if start + 1 < bytes.len() && bytes[start + 1] == 47u8 {
            proof {
                lemma_ascii_step(b, start + 1);
            }
            if start + 2 < bytes.len() && bytes[start + 2] == 61u8 {
                proof {
                    lemma_ascii_step(b, start + 2);
                }
                self.offset += 3;
                TokenKind::FloorDivEqual
            } else {
                self.offset += 2;
                TokenKind::FloorDiv
            }
        } else if start + 1 < bytes.len() && bytes[start + 1] == 61u8 {
            proof {
                lemma_ascii_step(b, start + 1);
            }
            self.offset += 2;
            TokenKind::SlashEqual
        } else {
            self.offset += 1;
            TokenKind::Slash
        };
        let token = self.token(kind, start, self.offset);
        proof {
            if self.offset == start + 3 {
                assert(span_text(b, token.spec_span()) =~= seq![
                    b[start as int],
                    b[start + 1],
                    b[start + 2],
                ]);
            } else if self.offset == start + 2 {
                assert(span_text(b, token.spec_span()) =~= seq![b[start as int], b[start + 1]]);
            } else {
                assert(span_text(b, token.spec_span()) =~= seq![b[start as int]]);
            }
        }
        token
    }
}

impl<'source> Lexer<'source> {
    /// Scans an ASCII identifier and maps reserved spellings to their kinds.
    fn scan_identifier_or_keyword(&mut self) -> (r: Token)
        requires
            old(self).wf(),
            old(self).offset < old(self).spec_bytes().len(),
            is_word_start_byte(old(self).spec_bytes()[old(self).offset as int]),
        ensures
            final(self).wf(),
            final(self).scan_frame(old(self)),
            final(self).scanned(old(self), r),
            final(self).diagnostics@ == old(self).diagnostics@,
    {
        proof {
            reveal(Lexer::wf);
        }
        let start = self.offset;
        let source = self.source;
        let bytes = source.as_bytes();
        let ghost b = self.spec_bytes();
        let mut offset = start;
        while offset < bytes.len() && is_ascii_identifier_continue(bytes[offset])
            invariant
                bytes@ == b,
                valid_utf8(b),
                start < b.len(),
                start <= offset <= b.len(),
                is_boundary(b, offset as int),
                is_word_start_byte(b[start as int]),
                forall|i: int| start <= i < offset ==> is_word_byte(#[trigger] b[i]),
            decreases bytes.len() - offset,
        {
            proof {
                lemma_ascii_step(b, offset as int);
            }
            offset += 1;
        }
        self.offset = offset;
        let word = text_between(source, start, offset);
        let kind = if same_text(word, "true") || same_text(word, "false") {
            TokenKind::Boolean
        } else if same_text(word, "none") {
            TokenKind::NoneLiteral
        } else {
            match KeywordKind::from_word(word) {
                Some(keyword) => TokenKind::Keyword(keyword),
                None => TokenKind::Identifier,
            }
        };
        let token = self.token(kind, start, offset);
        proof {
            let t = span_text(b, token.spec_span());
            assert(t =~= b.subrange(start as int, offset as int));
            assert forall|i: int| 1 <= i < t.len() implies is_word_byte(#[trigger] t[i]) by {
                assert(t[i] == b[start + i]);
            }
            assert(is_word(t));
            if offset < b.len() {
                assert(!is_word_byte(b[offset as int]));
            }
            assert(!operator_extends(kind, b[offset as int]));
        }
        token
    }

    /// Scans an optional decimal exponent at `offset`, returning the offset
    /// after it.
    ///
    /// `Ok(false)` means there is none; `Ok(true)` that one was consumed; an
    /// error holds the span of an exponent marker without digits.
    fn scan_exponent(&self, offset: usize) -> (r: (Result<bool, (usize, usize)>, usize))
        requires
            self.wf(),
            offset <= self.spec_bytes().len(),
            is_boundary(self.spec_bytes(), offset as int),
        ensures
            offset <= r.1 <= self.spec_bytes().len(),
            is_boundary(self.spec_bytes(), r.1 as int),
            forall|i: int| offset <= i < r.1 ==> is_number_byte(#[trigger] self.spec_bytes()[i]),
            r.0 == Ok::<bool, (usize, usize)>(false) ==> r.1 == offset && (offset == self.spec_bytes().len()
                || (self.spec_bytes()[offset as int] != 101u8 && self.spec_bytes()[offset as int] != 69u8)),
            r.0 == Ok::<bool, (usize, usize)>(true) ==> (r.1 == self.spec_bytes().len() || !is_digit_byte(
                self.spec_bytes()[r.1 as int],
            )),
            r.0 != Ok::<bool, (usize, usize)>(false) ==> {
                &&& offset < r.1
                &&& (self.spec_bytes()[offset as int] == 101u8 || self.spec_bytes()[offset as int]
                    == 69u8)
            },
            r.0 matches Err((s, e)) ==> s == offset && e == r.1,
    {
        let source = self.source;
        let bytes = source.as_bytes();
        let ghost b = self.spec_bytes();
        let exponent_start = offset;
        let mut offset = offset;
        if !(offset < bytes.len() && (bytes[offset] == 101u8 || bytes[offset] == 69u8)) {
            return (Ok(false), offset);
        }
        proof {
            lemma_ascii_step(b, offset as int);
        }
        offset += 1;
        if offset < bytes.len() && (bytes[offset] == 43u8 || bytes[offset] == 45u8) {
            proof {
                lemma_ascii_step(b, offset as int);
            }
            offset += 1;
        }
        let digits_start = offset;
        while offset < bytes.len() && is_ascii_digit(bytes[offset])
            invariant
                bytes@ == b,
                valid_utf8(b),
                exponent_start < digits_start <= offset <= b.len(),
                is_boundary(b, offset as int),
                b[exponent_start as int] == 101u8 || b[exponent_start as int] == 69u8,
                forall|i: int| exponent_start <= i < offset ==> is_number_byte(#[trigger] b[i]),
            decreases bytes.len() - offset,
        {
            proof {
                lemma_ascii_step(b, offset as int);
            }
            offset += 1;
        }
        if offset == digits_start {
            (Err((exponent_start, offset)), offset)
        } else {
            (Ok(true), offset)
        }
    }

    /// Creates the invalid token of a malformed number and reports the span of
    /// its exponent.
    fn invalid_number(&mut self, number_start: usize, error_start: usize, error_end: usize) -> (r:
        Token)
        requires
            old(self).wf(),
            number_start < old(self).offset,
            number_start <= error_start <= error_end <= old(self).offset,
            is_boundary(old(self).spec_bytes(), number_start as int),
            is_boundary(old(self).spec_bytes(), error_start as int),
            is_boundary(old(self).spec_bytes(), error_end as int),
            is_literal_start_byte(old(self).spec_bytes()[number_start as int]),
        ensures
            final(self).wf(),
            final(self).scan_frame(old(self)),
            final(self).offset == old(self).offset,
            r.spec_kind() == TokenKind::Invalid,
            r.spec_span().spec_start() == number_start,
            r.spec_span().spec_end() == old(self).offset,
            token_of(old(self).spec_bytes(), r),
            final(self).diagnostics@.len() == old(self).diagnostics@.len() + 1,
    {
        proof {
            reveal(Lexer::wf);
        }
        let token = self.token(TokenKind::Invalid, number_start, self.offset);
        let span = self.span_of(error_start, error_end);
        self.diagnostics.push(
            Diagnostic::error_at(
                INVALID_NUMBER_CODE,
                "x01.lex.invalid_number",
                span,
                "数字的指数部分缺少十进制数字".to_owned(),
            ),
        );
        token
    }

    /// Scans a decimal integer, or a float with a fraction or an exponent.
    fn scan_integer(&mut self) -> (r: Token)
        requires
            old(self).wf(),
            old(self).offset < old(self).spec_bytes().len(),
            is_digit_byte(old(self).spec_bytes()[old(self).offset as int]),
        ensures
            final(self).wf(),
            final(self).scan_frame(old(self)),
            final(self).scanned(old(self), r),
    {
        proof {
            reveal(Lexer::wf);
        }
        let start = self.offset;
        let source = self.source;
        let bytes = source.as_bytes();
        let ghost b = self.spec_bytes();
        let mut offset = start;
        while offset < bytes.len() && is_ascii_digit(bytes[offset])
            invariant
                bytes@ == b,
                valid_utf8(b),
                start < b.len(),
                start <= offset <= b.len(),
                is_boundary(b, offset as int),
                is_digit_byte(b[start as int]),
                forall|i: int| start <= i < offset ==> is_digit_byte(#[trigger] b[i]),
            decreases bytes.len() - offset,
        {
            proof {
                lemma_ascii_step(b, offset as int);
            }
            offset += 1;
        }
        let mut is_float = false;
        let ghost mut marker: int = start as int;
        let ghost digits_end = offset;
        if offset < bytes.len() && bytes[offset] == 46u8 {
            is_float = true;
            proof {
                marker = offset as int;
                lemma_ascii_step(b, offset as int);
            }
            offset += 1;
            while offset < bytes.len() && is_ascii_digit(bytes[offset])
                invariant
                    bytes@ == b,
                    valid_utf8(b),
                    start < marker < offset <= b.len(),
                    is_boundary(b, offset as int),
                    b[marker] == 46u8,
                    forall|i: int| start <= i < offset ==> is_number_byte(#[trigger] b[i]),
                decreases bytes.len() - offset,
            {
                proof {
                    lemma_ascii_step(b, offset as int);
                }
                offset += 1;
            }
        }
        let exponent_start = offset;
        proof {
            assert(offset == b.len() || !is_digit_byte(b[offset as int]));
        }
        let (exponent, after) = self.scan_exponent(offset);
        self.offset = after;
        match exponent {
            Err((error_start, error_end)) => {
                return self.invalid_number(start, error_start, error_end);
            },
            Ok(found) => {
                if found {
                    is_float = true;
                    proof {
                        marker = exponent_start as int;
                    }
                }
            },
        }
        let token = self.token(
            if is_float {
                TokenKind::Float
            } else {
                TokenKind::Integer
            },
            start,
            after,
        );
        proof {
            let t = span_text(b, token.spec_span());
            assert(t =~= b.subrange(start as int, after as int));
            assert forall|i: int| 0 <= i < t.len() implies is_number_byte(#[trigger] t[i]) by {
                assert(t[i] == b[start + i]);
            }
            if is_float {
                assert(t[marker - start] == b[marker]);
                assert(t[0] == b[start as int]);
                assert(after == b.len() || !is_digit_byte(b[after as int]));
            } else {
                assert forall|i: int| 0 <= i < t.len() implies is_digit_byte(#[trigger] t[i]) by {
                    assert(t[i] == b[start + i]);
                }
                assert(after == digits_end);
            }
        }
        token
    }

    /// Scans a float that starts with a dot, such as `.5` or `.5e2`.
    fn scan_fractional_number(&mut self) -> (r: Token)
        requires
            old(self).wf(),
            old(self).offset + 1 < old(self).spec_bytes().len(),
            old(self).spec_bytes()[old(self).offset as int] == 46u8,
            is_digit_byte(old(self).spec_bytes()[old(self).offset + 1]),
        ensures
            final(self).wf(),
            final(self).scan_frame(old(self)),
            final(self).scanned(old(self), r),
    {
        proof {
            reveal(Lexer::wf);
        }
        let start = self.offset;
        let source = self.source;
        let bytes = source.as_bytes();
        let ghost b = self.spec_bytes();
        proof {
            lemma_ascii_step(b, start as int);
        }
        let mut offset = start + 1;
        while offset < bytes.len() && is_ascii_digit(bytes[offset])
            invariant
                bytes@ == b,
                valid_utf8(b),
                start < offset <= b.len(),
                is_boundary(b, offset as int),
                b[start as int] == 46u8,
                forall|i: int| start <= i < offset ==> is_number_byte(#[trigger] b[i]),
            decreases bytes.len() - offset,
        {
            proof {
                lemma_ascii_step(b, offset as int);
            }
            offset += 1;
        }
        proof {
            assert(offset == b.len() || !is_digit_byte(b[offset as int]));
        }
        let (exponent, after) = self.scan_exponent(offset);
        self.offset = after;
        match exponent {
            Err((error_start, error_end)) => {
                return self.invalid_number(start, error_start, error_end);
            },
            Ok(_) => {},
        }
        let token = self.token(TokenKind::Float, start, after);
        proof {
            let t = span_text(b, token.spec_span());
            assert(t =~= b.subrange(start as int, after as int));
            assert forall|i: int| 0 <= i < t.len() implies is_number_byte(#[trigger] t[i]) by {
                assert(t[i] == b[start + i]);
            }
            assert(t[0] == b[start as int]);
            assert(after == b.len() || !is_digit_byte(b[after as int])) by {
                let found = exponent->Ok_0;
                assert(exponent == Ok::<bool, (usize, usize)>(found));
                if !found {
                    assert(after == offset);
                }
            }
        }
        token
    }
}

impl<'source> Lexer<'source> {
    /// Reports a diagnostic at a span of the source.
    fn report(&mut self, code: &'static str, message_id: &'static str, span: SourceSpan, message:
        String)
        requires
            old(self).wf(),
            span_fits(old(self).spec_bytes(), span),
        ensures
            final(self).wf(),
            final(self).scan_frame(old(self)),
            final(self).offset == old(self).offset,
            final(self).diagnostics@.len() == old(self).diagnostics@.len() + 1,
            final(self).diagnostics@.last().code == code,
            final(self).diagnostics@.last().span == Some(span),
    {
        let ghost before = *self;
        self.diagnostics.push(Diagnostic::error_at(code, message_id, span, message));
        proof {
            Self::lemma_wf_diagnostic(&before, self);
        }
    }

    /// Adding a diagnostic that points into the source keeps the state
    /// consistent.
    proof fn lemma_wf_diagnostic(old: &Self, new: &Self)
        requires
            old.wf(),
            new.source == old.source,
            new.offset == old.offset,
            new.pending@ == old.pending@,
            new.indent_stack@ == old.indent_stack@,
            new.delimiters@ == old.delimiters@,
            new.emitted_eof == old.emitted_eof,
            new.produced@ == old.produced@,
            new.covered@ == old.covered@,
            new.diagnostics@.len() == old.diagnostics@.len() + 1,
            old.diagnostics@.is_prefix_of(new.diagnostics@),
            diagnostic_of(new.source.spec_bytes(), new.diagnostics@.last()),
        ensures
            new.wf(),
    {
        reveal(Lexer::wf);
        let b = new.source.spec_bytes();
        assert forall|i: int| 0 <= i < new.diagnostics@.len() implies diagnostic_of(b, #[trigger] new.diagnostics@[i]) by {
            if i < old.diagnostics@.len() {
                assert(new.diagnostics@[i] == old.diagnostics@[i]);
            }
        }
    }

    /// Scans a string literal and checks its escapes.
    fn scan_string(&mut self) -> (r: Token)
        requires
            old(self).wf(),
            old(self).offset < old(self).spec_bytes().len(),
            old(self).spec_bytes()[old(self).offset as int] == 34u8
                || old(self).spec_bytes()[old(self).offset as int] == 39u8,
        ensures
            final(self).wf(),
            final(self).scan_frame(old(self)),
            final(self).scanned(old(self), r),
    {
        let start = self.offset;
        let source = self.source;
        let bytes = source.as_bytes();
        let ghost b = self.spec_bytes();
        let quote = bytes[start];
        proof {
            lemma_ascii_step(b, start as int);
        }
        let mut offset = start + 1;
        let mut invalid_escape: Option<(usize, usize, char)> = None;
        while offset < bytes.len()
            invariant
                bytes@ == b,
                b == self.spec_bytes(),
                valid_utf8(b),
                *self == *old(self),
                old(self).wf(),
                start == old(self).offset,
                start < offset <= b.len(),
                is_boundary(b, offset as int),
                quote == b[start as int],
                quote == 34u8 || quote == 39u8,
                invalid_escape matches Some((s, e, _)) ==> {
                    &&& start < s < e <= offset
                    &&& is_boundary(b, s as int)
                    &&& is_boundary(b, e as int)
                },
            decreases bytes.len() - offset,
        {
            let current = bytes[offset];
            if current == quote {
                proof {
                    lemma_ascii_step(b, offset as int);
                }
                offset += 1;
                self.offset = offset;
                proof {
                    Self::lemma_wf_advance(old(self), self);
                }
                let token = self.token(TokenKind::String, start, offset);
                match invalid_escape {
                    Some((escape_start, escape_end, escaped)) => {
                        let span = self.span_of(escape_start, escape_end);
                        let mut message = "不支持的字符串转义：\\".to_owned();
                        message.push(escaped);
                        self.report(INVALID_ESCAPE_CODE, "x01.lex.invalid_escape", span, message);
                        return self.token(TokenKind::Invalid, start, offset);
                    },
                    None => {
                        proof {
                            let t = span_text(b, token.spec_span());
                            assert(t =~= b.subrange(start as int, offset as int));
                            assert(t[0] == b[start as int]);
                            assert(t[t.len() - 1] == b[offset - 1]);
                        }
                        return token;
                    },
                }
            }
            if current == 10u8 || current == 13u8 {
                self.offset = offset;
                proof {
                    Self::lemma_wf_advance(old(self), self);
                }
                let token = self.token(TokenKind::Invalid, start, offset);
                self.report(
                    UNTERMINATED_STRING_CODE,
                    "x01.lex.unterminated_string",
                    token.span(),
                    "字符串在换行前没有闭合".to_owned(),
                );
                return token;
            }
            if current == 92u8 {
                let escape_start = offset;
                proof {
                    lemma_ascii_step(b, offset as int);
                }
                offset += 1;
                if offset >= bytes.len() {
                    self.offset = offset;
                    proof {
                        Self::lemma_wf_advance(old(self), self);
                    }
                proof {
                    Self::lemma_wf_advance(old(self), self);
                }
                    let token = self.token(TokenKind::Invalid, start, offset);
                    self.report(
                        UNTERMINATED_STRING_CODE,
                        "x01.lex.unterminated_string",
                        token.span(),
                        "字符串以未完成的转义结尾".to_owned(),
                    );
                    return token;
                }
                let (escaped, width) = scalar_at(bytes, offset);
                offset += width;
                if !is_valid_escape(escaped) && invalid_escape.is_none() {
                    invalid_escape = Some((escape_start, offset, escaped));
                }
                continue;
            }
            let (_, width) = scalar_at(bytes, offset);
            offset += width;
        }
        self.offset = offset;
        proof {
            Self::lemma_wf_advance(old(self), self);
        }
        let token = self.token(TokenKind::Invalid, start, offset);
        self.report(
            UNTERMINATED_STRING_CODE,
            "x01.lex.unterminated_string",
            token.span(),
            "字符串没有闭合".to_owned(),
        );
        token
    }

    /// Scans a name wrapped in backticks.
    fn scan_backtick_identifier(&mut self) -> (r: Token)
        requires
            old(self).wf(),
            old(self).offset < old(self).spec_bytes().len(),
            old(self).spec_bytes()[old(self).offset as int] == 96u8,
        ensures
            final(self).wf(),
            final(self).scan_frame(old(self)),
            final(self).scanned(old(self), r),
    {
        let start = self.offset;
        let source = self.source;
        let bytes = source.as_bytes();
        let ghost b = self.spec_bytes();
        proof {
            lemma_ascii_step(b, start as int);
        }
        let mut offset = start + 1;
        let mut invalid_escape: Option<(usize, usize)> = None;
        while offset < bytes.len()
            invariant
                bytes@ == b,
                b == self.spec_bytes(),
                valid_utf8(b),
                *self == *old(self),
                old(self).wf(),
                start == old(self).offset,
                start < offset <= b.len(),
                is_boundary(b, offset as int),
                b[start as int] == 96u8,
                invalid_escape matches Some((s, e)) ==> {
                    &&& start < s < e <= offset
                    &&& is_boundary(b, s as int)
                    &&& is_boundary(b, e as int)
                },
            decreases bytes.len() - offset,
        {
            let current = bytes[offset];
            if current == 96u8 {
                proof {
                    lemma_ascii_step(b, offset as int);
                }
                offset += 1;
                self.offset = offset;
                proof {
                    Self::lemma_wf_advance(old(self), self);
                }
                let token = self.token(TokenKind::BacktickIdentifier, start, offset);
                match invalid_escape {
                    Some((escape_start, escape_end)) => {
                        self.push_backtick_escape_diagnostic(escape_start, escape_end);
                        return Token::new(TokenKind::Invalid, token.span());
                    },
                    None => {
                        proof {
                            let t = span_text(b, token.spec_span());
                            assert(t =~= b.subrange(start as int, offset as int));
                            assert(t[0] == b[start as int]);
                            assert(t[t.len() - 1] == b[offset - 1]);
                        }
                        return token;
                    },
                }
            }
            if current == 10u8 || current == 13u8 {
                self.offset = offset;
                proof {
                    Self::lemma_wf_advance(old(self), self);
                }
                let token = self.token(TokenKind::Invalid, start, offset);
                self.report(
                    UNTERMINATED_BACKTICK_CODE,
                    "x01.lex.unterminated_backtick",
                    token.span(),
                    "反引号名称不能跨越换行且没有闭合".to_owned(),
                );
                return token;
            }
            if current == 92u8 {
                let escape_start = offset;
                proof {
                    lemma_ascii_step(b, offset as int);
                }
                offset += 1;
                if offset >= bytes.len() {
                    self.offset = offset;
                    proof {
                        Self::lemma_wf_advance(old(self), self);
                    }
                proof {
                    Self::lemma_wf_advance(old(self), self);
                }
                    let token = self.token(TokenKind::Invalid, start, offset);
                    self.report(
                        UNTERMINATED_BACKTICK_CODE,
                        "x01.lex.unterminated_backtick",
                        token.span(),
                        "反引号名称以未完成的转义结尾".to_owned(),
                    );
                    return token;
                }
                let escaped = bytes[offset];
                if escaped == 10u8 || escaped == 13u8 {
                    // A backtick name never spans physical lines: the line break
                    // is left to the main scan.
                    offset = escape_start + 1;
                    self.offset = offset;
                    proof {
                        Self::lemma_wf_advance(old(self), self);
                    }
                proof {
                    Self::lemma_wf_advance(old(self), self);
                }
                    let token = self.token(TokenKind::Invalid, start, offset);
                    self.report(
                        UNTERMINATED_BACKTICK_CODE,
                        "x01.lex.unterminated_backtick",
                        token.span(),
                        "反引号名称不能跨越换行且没有闭合".to_owned(),
                    );
                    return token;
                }
                let (_, width) = scalar_at(bytes, offset);
                offset += width;
                if !(escaped == 96u8 || escaped == 92u8) && invalid_escape.is_none() {
                    invalid_escape = Some((escape_start, offset));
                }
                continue;
            }
            let (_, width) = scalar_at(bytes, offset);
            offset += width;
        }
        self.offset = offset;
        proof {
            Self::lemma_wf_advance(old(self), self);
        }
        let token = self.token(TokenKind::Invalid, start, offset);
        self.report(
            UNTERMINATED_BACKTICK_CODE,
            "x01.lex.unterminated_backtick",
            token.span(),
            "反引号名称没有闭合".to_owned(),
        );
        token
    }

    /// Reports an escape in a backtick name other than of a backtick or a
    /// backslash.
    fn push_backtick_escape_diagnostic(&mut self, start: usize, end: usize)
        requires
            old(self).wf(),
            start <= end <= old(self).spec_bytes().len(),
            is_boundary(old(self).spec_bytes(), start as int),
            is_boundary(old(self).spec_bytes(), end as int),
        ensures
            final(self).wf(),
            final(self).scan_frame(old(self)),
            final(self).offset == old(self).offset,
            final(self).diagnostics@.len() == old(self).diagnostics@.len() + 1,
    {
        let span = self.span_of(start, end);
        self.report(
            INVALID_BACKTICK_ESCAPE_CODE,
            "x01.lex.invalid_backtick_escape",
            span,
            "反引号名称只允许转义反引号或反斜杠".to_owned(),
        );
    }

    /// Scans a documentation comment up to the next `###` marker.
    fn scan_doc_comment(&mut self) -> (r: Token)
        requires
            old(self).wf(),
            marker_at(old(self).spec_bytes(), old(self).offset as int),
        ensures
            final(self).wf(),
            final(self).scan_frame(old(self)),
            final(self).scanned(old(self), r),
            r.spec_kind() == TokenKind::DocComment || r.spec_kind() == TokenKind::Invalid,
    {
        let start = self.offset;
        let source = self.source;
        let bytes = source.as_bytes();
        let ghost b = self.spec_bytes();
        proof {
            lemma_ascii_step(b, start as int);
            lemma_ascii_step(b, start + 1);
            lemma_ascii_step(b, start + 2);
        }
        let mut offset = start + 3;
        while offset < bytes.len()
            invariant
                bytes@ == b,
                b == self.spec_bytes(),
                valid_utf8(b),
                *self == *old(self),
                old(self).wf(),
                start == old(self).offset,
                start + 3 <= offset <= b.len(),
                is_boundary(b, offset as int),
                marker_at(b, start as int),
            decreases bytes.len() - offset,
        {
            if starts_doc_comment(bytes, offset) {
                proof {
                    lemma_ascii_step(b, offset as int);
                    lemma_ascii_step(b, offset + 1);
                    lemma_ascii_step(b, offset + 2);
                }
                offset += 3;
                self.offset = offset;
                proof {
                    Self::lemma_wf_advance(old(self), self);
                }
                let token = self.token(TokenKind::DocComment, start, offset);
                proof {
                    let t = span_text(b, token.spec_span());
                    assert(t =~= b.subrange(start as int, offset as int));
                    assert(t[0] == b[start as int] && t[1] == b[start + 1] && t[2] == b[start + 2]);
                    assert(t[t.len() - 3] == b[offset - 3] && t[t.len() - 2] == b[offset - 2]
                        && t[t.len() - 1] == b[offset - 1]);
                }
                return token;
            }
            let (_, width) = scalar_at(bytes, offset);
            offset += width;
        }
        self.offset = offset;
        proof {
            Self::lemma_wf_advance(old(self), self);
        }
        let token = self.token(TokenKind::Invalid, start, offset);
        self.report(
            UNTERMINATED_DOC_COMMENT_CODE,
            "x01.lex.unterminated_doc_comment",
            token.span(),
            "文档注释没有闭合的 ### 标记".to_owned(),
        );
        token
    }

    /// Consumes one unrecognised Unicode scalar and reports it.
    fn scan_invalid(&mut self) -> (r: Token)
        requires
            old(self).wf(),
            old(self).offset < old(self).spec_bytes().len(),
            !is_token_start_byte(old(self).spec_bytes()[old(self).offset as int]),
        ensures
            final(self).wf(),
            final(self).scan_frame(old(self)),
            final(self).scanned(old(self), r),
    {
        proof {
            Self::lemma_wf_offset(self);
        }
        let start = self.offset;
        let source = self.source;
        let bytes = source.as_bytes();
        let (character, width) = scalar_at(bytes, start);
        self.offset = start + width;
        proof {
            Self::lemma_wf_advance(old(self), self);
        }
        let token = self.token(TokenKind::Invalid, start, self.offset);
        let shown = debug_char(character);
        let message = joined("无法识别的字符：", shown.as_str(), "");
        self.report(INVALID_CHARACTER_CODE, "x01.lex.invalid_character", token.span(), message);
        token
    }
}

impl<'source> Lexer<'source> {
    /// Skips an ordinary comment up to, not including, the line break.
    fn skip_line_comment(&mut self)
        requires
            old(self).wf(),
            old(self).settled(),
            old(self).offset < old(self).spec_bytes().len(),
            old(self).spec_bytes()[old(self).offset as int] == 35u8,
        ensures
            final(self).wf(),
            final(self).skip_frame(old(self)),
            old(self).offset < final(self).offset,
    {
        let source = self.source;
        let bytes = source.as_bytes();
        let ghost b = self.spec_bytes();
        proof {
            Self::lemma_wf_offset(self);
        }
        let start = self.offset;
        let mut offset = self.offset;
        while offset < bytes.len() && !is_line_break_at(bytes, offset)
            invariant
                bytes@ == b,
                b == self.spec_bytes(),
                valid_utf8(b),
                *self == *old(self),
                start == old(self).offset,
                start < b.len(),
                b[start as int] == 35u8,
                start <= offset <= b.len(),
                is_boundary(b, offset as int),
                offset == start ==> offset < b.len(),
                forall|k: int| start <= k < offset ==> b[k] != 10u8,
            decreases bytes.len() - offset,
        {
            let (_, width) = scalar_at(bytes, offset);
            proof {
                lemma_scalar_step(b, offset as int);
                assert forall|k: int| start <= k < offset + width implies b[k] != 10u8 by {
                    if offset < k {
                        assert(is_continuation_byte(b[k]));
                    }
                }
            }
            offset += width;
        }
        proof {
            if offset == start {
                assert(line_break_at(b, start as int));
                assert(false);
            }
            assert forall|i: int| start <= i < offset implies skippable(b, i) by {
                assert(b[start as int] == 35u8);
                assert(forall|k: int| start <= k <= i ==> b[k] != 10u8);
                assert(in_line_comment(b, i));
            }
        }
        let ghost before = *self;
        self.offset = offset;
        self.covered = Ghost(offset);
        proof {
            Self::lemma_wf_skip(&before, self);
        }
    }

    /// Skips horizontal white space; a tab counts as white space like a space.
    fn skip_horizontal_whitespace(&mut self)
        requires
            old(self).wf(),
            old(self).settled(),
        ensures
            final(self).wf(),
            final(self).skip_frame(old(self)),
            forall|i: int|
                old(self).offset <= i < final(self).offset ==> is_blank_byte(
                    #[trigger] old(self).spec_bytes()[i],
                ),
            final(self).offset == old(self).spec_bytes().len() || !is_blank_byte(
                old(self).spec_bytes()[final(self).offset as int],
            ),
    {
        let source = self.source;
        let bytes = source.as_bytes();
        let ghost b = self.spec_bytes();
        proof {
            Self::lemma_wf_offset(self);
        }
        let mut offset = self.offset;
        while offset < bytes.len() && (bytes[offset] == 32u8 || bytes[offset] == 9u8)
            invariant
                bytes@ == b,
                b == self.spec_bytes(),
                valid_utf8(b),
                *self == *old(self),
                old(self).offset <= offset <= b.len(),
                is_boundary(b, offset as int),
                forall|i: int| old(self).offset <= i < offset ==> is_blank_byte(#[trigger] b[i]),
            decreases bytes.len() - offset,
        {
            proof {
                lemma_ascii_step(b, offset as int);
            }
            offset += 1;
        }
        let ghost before = *self;
        self.offset = offset;
        self.covered = Ghost(offset);
        proof {
            assert forall|i: int| before.offset <= i < offset implies skippable(b, i) by {
                assert(is_blank_byte(b[i]));
            }
            Self::lemma_wf_skip(&before, self);
        }
    }

    /// Consumes the spaces and tabs at the start of a line and returns their
    /// logical width: one per space, four per tab.
    fn consume_line_prefix(&mut self) -> (width: usize)
        requires
            old(self).wf(),
            old(self).settled(),
        ensures
            final(self).wf(),
            final(self).skip_frame(old(self)),
            width <= 4 * (final(self).offset - old(self).offset),
            width == 0 <==> final(self).offset == old(self).offset,
            width == prefix_width(old(self).spec_bytes(), old(self).offset as int, final(self).offset as int),
            final(self).offset == blank_end(old(self).spec_bytes(), old(self).offset as int),
            forall|i: int|
                old(self).offset <= i < final(self).offset ==> is_blank_byte(
                    #[trigger] old(self).spec_bytes()[i],
                ),
            final(self).offset == old(self).spec_bytes().len() || !is_blank_byte(
                old(self).spec_bytes()[final(self).offset as int],
            ),
    {
        let source = self.source;
        let bytes = source.as_bytes();
        let ghost b = self.spec_bytes();
        proof {
            Self::lemma_wf_offset(self);
        }
        let start = self.offset;
        let mut offset = start;
        let mut width: usize = 0;
        while offset < bytes.len() && (bytes[offset] == 32u8 || bytes[offset] == 9u8)
            invariant
                bytes@ == b,
                b == self.spec_bytes(),
                b.len() <= usize::MAX / 4,
                valid_utf8(b),
                *self == *old(self),
                start == old(self).offset,
                start <= offset <= b.len(),
                is_boundary(b, offset as int),
                offset - start <= width <= 4 * (offset - start),
                width == prefix_width(b, start as int, offset as int),
                forall|i: int| start <= i < offset ==> is_blank_byte(#[trigger] b[i]),
            decreases bytes.len() - offset,
        {
            proof {
                lemma_ascii_step(b, offset as int);
            }
            if bytes[offset] == 32u8 {
                width += 1;
            } else {
                width += 4;
            }
            offset += 1;
        }
        let ghost before = *self;
        self.offset = offset;
        self.covered = Ghost(offset);
        proof {
            assert forall|i: int| before.offset <= i < offset implies skippable(b, i) by {
                assert(is_blank_byte(b[i]));
            }
            Self::lemma_wf_skip(&before, self);
            lemma_blank_end(b, start as int, offset as int);
        }
        width
    }
}

impl<'source> Lexer<'source> {
    /// Handing out the first queued token keeps the state consistent.
    proof fn lemma_wf_pop(old: &Self, new: &Self, token: Token)
        requires
            old.wf(),
            old.pending@.len() > 0,
            token == old.pending@[0],
            new.source == old.source,
            new.offset == old.offset,
            new.diagnostics@ == old.diagnostics@,
            new.pending@ == old.pending@.subrange(1, old.pending@.len() as int),
            new.indent_stack@ == old.indent_stack@,
            new.delimiters@ == old.delimiters@,
            new.emitted_eof == old.emitted_eof,
            new.covered@ == old.covered@,
            new.produced@ == old.produced@.push(token),
        ensures
            new.wf(),
            token_of(old.source.spec_bytes(), token),
            token.spec_kind() != TokenKind::Eof,
    {
        reveal(Lexer::wf);
        assert(new.produced@ + new.pending@ =~= old.produced@ + old.pending@);
        assert(token == (old.produced@ + old.pending@)[old.produced@.len() as int]);
        assert forall|i: int|
            0 <= i < new.pending@.len() implies (#[trigger] new.pending@[i]).spec_kind()
            != TokenKind::Eof by {
            assert(new.pending@[i] == old.pending@[i + 1]);
        }
    }

    /// Handing out a token of the source after all earlier ones, with nothing
    /// queued, keeps the state consistent.
    proof fn lemma_wf_emit(old: &Self, new: &Self, token: Token)
        requires
            old.wf(),
            old.pending@.len() == 0,
            new.source == old.source,
            new.offset == old.offset,
            new.diagnostics@ == old.diagnostics@,
            new.pending@ == old.pending@,
            new.indent_stack@ == old.indent_stack@,
            new.delimiters@ == old.delimiters@,
            new.emitted_eof == old.emitted_eof,
            new.produced@ == old.produced@.push(token),
            new.covered@ == old.covered@ || (token.spec_span().spec_start() <= old.covered@ && new.covered@
                == token.spec_span().spec_end() && old.covered@ <= new.covered@),
            token_of(old.source.spec_bytes(), token),
            token.spec_kind() != TokenKind::Indent,
            token.spec_kind() != TokenKind::Dedent,
            token.spec_span().spec_end() <= old.offset,
            old.produced@.len() > 0 ==> old.produced@.last().spec_span().spec_end()
                <= token.spec_span().spec_start(),
            token.spec_kind() == TokenKind::Invalid ==> count_kind(old.produced@, TokenKind::Invalid)
                < old.diagnostics@.len(),
        ensures
            new.wf(),
    {
        reveal(Lexer::wf);
        let all_old = old.produced@ + old.pending@;
        let all_new = new.produced@ + new.pending@;
        assert(all_old =~= old.produced@);
        assert(all_new =~= all_old.push(token));
        lemma_coverage_push(old.source.spec_bytes(), all_old, token, old.covered@ as int, new.covered@ as int);
        lemma_count_push(all_old, token, TokenKind::Indent);
        lemma_count_push(all_old, token, TokenKind::Dedent);
        lemma_count_push(all_old, token, TokenKind::Invalid);
        assert forall|i: int| 0 <= i < all_new.len() implies token_of(
            old.source.spec_bytes(),
            #[trigger] all_new[i],
        ) by {
            if i < all_old.len() {
                assert(all_new[i] == all_old[i]);
            }
        }
        assert forall|i: int|
            0 <= i && i + 1 < all_new.len() implies (#[trigger] all_new[i]).spec_span().spec_end()
            <= all_new[i + 1].spec_span().spec_start() by {
            if i + 1 < all_old.len() {
                assert(all_new[i] == all_old[i] && all_new[i + 1] == all_old[i + 1]);
            } else {
                assert(all_new[i] == all_old.last());
            }
        }
    }

    /// Facts that a consistent lexer state gives about its parts.
    proof fn lemma_wf_facts(s: &Self)
        requires
            s.wf(),
        ensures
            s.offset <= s.source.spec_bytes().len(),
            is_boundary(s.source.spec_bytes(), s.offset as int),
            s.source.spec_bytes().len() <= usize::MAX / 4,
            valid_utf8(s.source.spec_bytes()),
            s.indent_stack@.len() >= 1,
            s.indent_stack@[0] == 0,
            forall|i: int, j: int|
                0 <= i < j < s.indent_stack@.len() ==> s.indent_stack@[i] < s.indent_stack@[j],
            (s.produced@ + s.pending@).len() > 0 ==> (s.produced@ + s.pending@).last().spec_span().spec_end()
                <= s.offset,
            forall|i: int|
                0 <= i < s.delimiters@.len() ==> span_fits(
                    s.source.spec_bytes(),
                    (#[trigger] s.delimiters@[i]).spec_span(),
                ),
            s.emitted_eof ==> s.offset == s.source.spec_bytes().len() && s.indent_stack@.len() == 1,
            count_kind(s.produced@ + s.pending@, TokenKind::Invalid) <= s.diagnostics@.len(),
            forall|i: int|
                0 <= i < s.pending@.len() ==> (#[trigger] s.pending@[i]).spec_kind()
                    != TokenKind::Eof,
            forall|i: int|
                0 <= i < (s.produced@ + s.pending@).len() ==> token_of(
                    s.source.spec_bytes(),
                    #[trigger] (s.produced@ + s.pending@)[i],
                ),
            in_order(s.produced@ + s.pending@),
            count_kind(s.produced@ + s.pending@, TokenKind::Indent) == count_kind(
                s.produced@ + s.pending@,
                TokenKind::Dedent,
            ) + s.indent_stack@.len() - 1,
    {
        reveal(Lexer::wf);
    }

    /// The line-start flag plays no part in consistency.
    proof fn lemma_wf_same(old: &Self, new: &Self)
        requires
            old.wf(),
            new.source == old.source,
            new.offset == old.offset,
            new.diagnostics@ == old.diagnostics@,
            new.pending@ == old.pending@,
            new.indent_stack@ == old.indent_stack@,
            new.delimiters@ == old.delimiters@,
            new.emitted_eof == old.emitted_eof,
            new.covered@ == old.covered@,
            new.produced@ == old.produced@,
        ensures
            new.wf(),
    {
        reveal(Lexer::wf);
    }

    /// Changing the open delimiters to ones that point into the source keeps
    /// the state consistent.
    proof fn lemma_wf_delimiters(old: &Self, new: &Self)
        requires
            old.wf(),
            new.source == old.source,
            new.offset == old.offset,
            new.diagnostics@ == old.diagnostics@,
            new.pending@ == old.pending@,
            new.indent_stack@ == old.indent_stack@,
            new.emitted_eof == old.emitted_eof,
            new.covered@ == old.covered@,
            new.produced@ == old.produced@,
            forall|i: int|
                0 <= i < new.delimiters@.len() ==> (i < old.delimiters@.len() && new.delimiters@[i]
                    == old.delimiters@[i]) || span_fits(
                    new.source.spec_bytes(),
                    (#[trigger] new.delimiters@[i]).spec_span(),
                ),
        ensures
            new.wf(),
    {
        reveal(Lexer::wf);
    }

    /// Marking the end of file once the input is consumed and every block is
    /// closed keeps the state consistent.
    proof fn lemma_wf_eof(old: &Self, new: &Self)
        requires
            old.wf(),
            old.offset == old.source.spec_bytes().len(),
            old.indent_stack@.len() == 1,
            new.source == old.source,
            new.offset == old.offset,
            new.diagnostics@ == old.diagnostics@,
            new.pending@ == old.pending@,
            new.indent_stack@ == old.indent_stack@,
            new.delimiters@ == old.delimiters@,
            new.covered@ == old.covered@,
            new.produced@ == old.produced@,
        ensures
            new.wf(),
    {
        reveal(Lexer::wf);
    }

    /// Queueing a token of the source after all earlier ones keeps the state
    /// consistent, when the indentation stack moves with it: one level more
    /// for `Indent`, one less for `Dedent`, unchanged otherwise.
    proof fn lemma_wf_queue(old: &Self, new: &Self, token: Token)
        requires
            old.wf(),
            new.source == old.source,
            new.offset == old.offset,
            new.diagnostics@ == old.diagnostics@,
            new.delimiters@ == old.delimiters@,
            new.emitted_eof == old.emitted_eof,
            new.produced@ == old.produced@,
            new.pending@ == old.pending@.push(token),
            new.covered@ == old.covered@ || (token.spec_span().spec_start() <= old.covered@ && new.covered@
                == token.spec_span().spec_end() && old.covered@ <= new.covered@),
            token_of(old.source.spec_bytes(), token),
            token.spec_kind() != TokenKind::Eof,
            token.spec_span().spec_end() <= old.offset,
            (old.produced@ + old.pending@).len() > 0 ==> (old.produced@
                + old.pending@).last().spec_span().spec_end() <= token.spec_span().spec_start(),
            token.spec_kind() == TokenKind::Invalid ==> count_kind(
                old.produced@ + old.pending@,
                TokenKind::Invalid,
            ) < old.diagnostics@.len(),
            token.spec_kind() == TokenKind::Indent ==> {
                &&& !old.emitted_eof
                &&& new.indent_stack@.len() == old.indent_stack@.len() + 1
                &&& new.indent_stack@.drop_last() == old.indent_stack@
                &&& new.indent_stack@.last() > old.indent_stack@.last()
            },
            token.spec_kind() == TokenKind::Dedent ==> {
                &&& old.indent_stack@.len() > 1
                &&& new.indent_stack@ == old.indent_stack@.drop_last()
            },
            token.spec_kind() != TokenKind::Indent && token.spec_kind() != TokenKind::Dedent
                ==> new.indent_stack@ == old.indent_stack@,
        ensures
            new.wf(),
    {
        reveal(Lexer::wf);
        let all_old = old.produced@ + old.pending@;
        let all_new = new.produced@ + new.pending@;
        assert(all_new =~= all_old.push(token));
        lemma_coverage_push(old.source.spec_bytes(), all_old, token, old.covered@ as int, new.covered@ as int);
        lemma_count_push(all_old, token, TokenKind::Indent);
        lemma_count_push(all_old, token, TokenKind::Dedent);
        lemma_count_push(all_old, token, TokenKind::Invalid);
        assert forall|i: int| 0 <= i < new.pending@.len() implies (#[trigger] new.pending@[i]).spec_kind()
            != TokenKind::Eof by {
            if i < old.pending@.len() {
                assert(new.pending@[i] == old.pending@[i]);
            }
        }
        assert forall|i: int| 0 <= i < all_new.len() implies token_of(
            old.source.spec_bytes(),
            #[trigger] all_new[i],
        ) by {
            if i < all_old.len() {
                assert(all_new[i] == all_old[i]);
            }
        }
        assert forall|i: int|
            0 <= i && i + 1 < all_new.len() implies (#[trigger] all_new[i]).spec_span().spec_end()
            <= all_new[i + 1].spec_span().spec_start() by {
            if i + 1 < all_old.len() {
                assert(all_new[i] == all_old[i] && all_new[i + 1] == all_old[i + 1]);
            } else {
                assert(all_new[i] == all_old.last());
            }
        }
        if token.spec_kind() == TokenKind::Indent {
            let s = new.indent_stack@;
            assert forall|i: int, j: int| 0 <= i < j < s.len() implies s[i] < s[j] by {
                if j == s.len() - 1 {
                    assert(s[i] == old.indent_stack@[i]);
                    if i < old.indent_stack@.len() - 1 {
                        assert(old.indent_stack@[i] < old.indent_stack@.last());
                    }
                } else {
                    assert(s[i] == old.indent_stack@[i] && s[j] == old.indent_stack@[j]);
                }
            }
            assert(s[0] == old.indent_stack@[0]);
        }
        if token.spec_kind() == TokenKind::Dedent {
            let s = new.indent_stack@;
            assert forall|i: int, j: int| 0 <= i < j < s.len() implies s[i] < s[j] by {
                assert(s[i] == old.indent_stack@[i] && s[j] == old.indent_stack@[j]);
            }
            assert(s[0] == old.indent_stack@[0]);
        }
    }
}

impl<'source> Lexer<'source> {
    /// Reports an indentation width that is not a multiple of four spaces.
    fn push_indent_diagnostic(&mut self, span: SourceSpan, width: usize)
        requires
            old(self).wf(),
            span_fits(old(self).spec_bytes(), span),
        ensures
            final(self).wf(),
            final(self).scan_frame(old(self)),
            final(self).offset == old(self).offset,
            final(self).diagnostics@.len() == old(self).diagnostics@.len() + 1,
    {
        let mut message = "缩进宽度 ".to_owned();
        push_decimal(&mut message, width);
        message.push_str(" 不能对应四个空格的层级");
        self.report(INCONSISTENT_INDENT_CODE, "x01.lex.inconsistent_indent", span, message);
    }

    /// Updates the indentation stack for a line of the given logical width and
    /// queues the `Indent` or `Dedent` tokens it calls for.
    fn apply_indentation(&mut self, start: usize, end: usize, width: usize)
        requires
            old(self).wf(),
            !old(self).emitted_eof,
            start <= end,
            end == old(self).offset,
            is_boundary(old(self).spec_bytes(), start as int),
            forall|i: int| start <= i < end ==> is_blank_byte(#[trigger] old(self).spec_bytes()[i]),
            width <= 4 * (end - start),
            width == 0 <==> end == start,
            (old(self).produced@ + old(self).pending@).len() > 0 ==> (old(self).produced@
                + old(self).pending@).last().spec_span().spec_end() <= start,
        ensures
            final(self).wf(),
            final(self).source == old(self).source,
            final(self).offset == old(self).offset,
            final(self).produced@ == old(self).produced@,
            final(self).delimiters@ == old(self).delimiters@,
            final(self).at_line_start == old(self).at_line_start,
            final(self).emitted_eof == old(self).emitted_eof,
            final(self).covered@ == old(self).covered@,
            old(self).diagnostics@.is_prefix_of(final(self).diagnostics@),
            final(self).pending@.len() >= old(self).pending@.len(),
            final(self).indent_stack@.len() + final(self).pending@.len() <= old(self).indent_stack@.len() + old(self).pending@.len() + (if width > 0 {
                2int
            } else {
                0int
            }),
            width % 4 != 0 ==> final(self).diagnostics@.len() > old(self).diagnostics@.len(),
            width % 4 == 0 && width > old(self).indent_stack@.last() ==> final(self).indent_stack@
                == old(self).indent_stack@.push(width) && final(self).pending@.drop_last() == old(self).pending@ && final(self).pending@.len() == old(self).pending@.len() + 1 && final(self).pending@.last().spec_kind() == TokenKind::Indent && final(self).pending@.last().spec_span().spec_start()
                == start && final(self).pending@.last().spec_span().spec_end() == end
                && final(self).diagnostics@ == old(self).diagnostics@,
            width % 4 == 0 && width == old(self).indent_stack@.last() ==> final(self).indent_stack@
                == old(self).indent_stack@ && final(self).pending@ == old(self).pending@ && final(self).diagnostics@ == old(self).diagnostics@,
            width % 4 == 0 && width < old(self).indent_stack@.last() ==> {
                &&& 1 <= final(self).indent_stack@.len() < old(self).indent_stack@.len()
                &&& final(self).indent_stack@ == old(self).indent_stack@.take(
                    final(self).indent_stack@.len() as int,
                )
                &&& final(self).indent_stack@.last() <= width
                &&& forall|k: int|
                    final(self).indent_stack@.len() <= k < old(self).indent_stack@.len()
                        ==> old(self).indent_stack@[k] > width
                &&& final(self).pending@.len() == old(self).pending@.len() + old(self).indent_stack@.len() - final(self).indent_stack@.len()
                &&& forall|k: int|
                    0 <= k < old(self).pending@.len() ==> final(self).pending@[k] == old(self).pending@[k]
                &&& forall|k: int|
                    old(self).pending@.len() <= k < final(self).pending@.len() ==> (#[trigger] final(self).pending@[k]).spec_kind() == TokenKind::Dedent
                &&& final(self).indent_stack@.last() == width ==> final(self).diagnostics@ == old(self).diagnostics@
                &&& final(self).indent_stack@.last() != width ==> final(self).diagnostics@.len()
                    == old(self).diagnostics@.len() + 1
            },
    {
        proof {
            Self::lemma_wf_facts(self);
        }
        let ghost b = self.spec_bytes();
        let current = self.indent_stack[self.indent_stack.len() - 1];
        let span = self.span_of(start, end);
        let width_invalid = width % 4 != 0;
        if width_invalid {
            self.push_indent_diagnostic(span, width);
        }
        proof {
            Self::lemma_wf_facts(self);
        }
        // An invalid width only falls back to a level that already exists; it
        // never rounds down into a new level.
        let target = if width_invalid {
            let mut best: usize = 0;
            let mut i: usize = 0;
            while i < self.indent_stack.len()
                invariant
                    i <= self.indent_stack@.len(),
                    best <= width,
                decreases self.indent_stack.len() - i,
            {
                let level = self.indent_stack[i];
                if level <= width && level > best {
                    best = level;
                }
                i += 1;
            }
            best
        } else {
            width
        };
        if target > current && !width_invalid {
            let ghost before = *self;
            self.indent_stack.push(target);
            let token = Token::new(TokenKind::Indent, span);
            self.pending.push_back(token);
            proof {
                let t = span_text(b, token.spec_span());
                assert(t =~= b.subrange(start as int, end as int));
                assert forall|i: int| 0 <= i < t.len() implies is_blank_byte(#[trigger] t[i]) by {
                    assert(t[i] == b[start + i]);
                }
                assert(self.indent_stack@.drop_last() =~= before.indent_stack@);
                Self::lemma_wf_queue(&before, self, token);
            }
            return;
        }
        if target == current {
            return;
        }
        let ghost diagnostics_before = self.diagnostics@;
        proof {
            assert(self.indent_stack@ =~= old(self).indent_stack@.take(self.indent_stack@.len() as int));
        }
        while self.indent_stack.len() > 1 && self.indent_stack[self.indent_stack.len() - 1] > target
            invariant
                self.wf(),
                1 <= self.indent_stack@.len() <= old(self).indent_stack@.len(),
                self.indent_stack@ == old(self).indent_stack@.take(self.indent_stack@.len() as int),
                forall|k: int|
                    self.indent_stack@.len() <= k < old(self).indent_stack@.len()
                        ==> old(self).indent_stack@[k] > target,
                forall|k: int|
                    0 <= k < old(self).pending@.len() ==> self.pending@[k] == old(self).pending@[k],
                forall|k: int|
                    old(self).pending@.len() <= k < self.pending@.len() ==> (
                    #[trigger] self.pending@[k]).spec_kind() == TokenKind::Dedent,
                self.diagnostics@ == diagnostics_before,
                old(self).indent_stack@ == old(self).indent_stack@,
                target <= width,
                current == old(self).indent_stack@.last(),
                !width_invalid ==> target == width,
                b == self.spec_bytes(),
                self.source == old(self).source,
                self.offset == old(self).offset,
                self.offset == end,
                self.produced@ == old(self).produced@,
                self.delimiters@ == old(self).delimiters@,
                self.at_line_start == old(self).at_line_start,
                self.emitted_eof == old(self).emitted_eof,
                self.covered@ == old(self).covered@,
                !self.emitted_eof,
                old(self).diagnostics@.is_prefix_of(self.diagnostics@),
                self.pending@.len() >= old(self).pending@.len(),
                self.indent_stack@.len() + self.pending@.len() == old(self).indent_stack@.len()
                    + old(self).pending@.len(),
            decreases self.indent_stack.len(),
        {
            proof {
                Self::lemma_wf_facts(self);
            }
            let ghost before = *self;
            self.indent_stack.pop();
            let token = self.zero_width_token(TokenKind::Dedent, end);
            self.pending.push_back(token);
            proof {
                assert(span_text(b, token.spec_span()) =~= Seq::<u8>::empty());
                assert(self.indent_stack@ =~= before.indent_stack@.drop_last());
                Self::lemma_wf_queue(&before, self, token);
            }
        }
        proof {
            Self::lemma_wf_facts(self);
        }
        let resolved = self.indent_stack[self.indent_stack.len() - 1];
        if resolved != target && !width_invalid {
            self.push_indent_diagnostic(span, width);
        }
    }

    /// Reports a closing delimiter that does not match the open one.
    fn push_unmatched_delimiter_diagnostic(&mut self, span: SourceSpan, expected: &str)
        requires
            old(self).wf(),
            span_fits(old(self).spec_bytes(), span),
        ensures
            final(self).wf(),
            final(self).scan_frame(old(self)),
            final(self).offset == old(self).offset,
            final(self).diagnostics@.len() == old(self).diagnostics@.len() + 1,
            final(self).diagnostics@.last().code == UNMATCHED_DELIMITER_CODE,
            final(self).diagnostics@.last().span == Some(span),
    {
        let message = joined("关闭分隔符与当前打开的 ", expected, " 不匹配");
        self.report(UNMATCHED_DELIMITER_CODE, "x01.lex.unmatched_delimiter", span, message);
    }

    /// Records opening and closing delimiters and reports mismatches.
    fn observe_token(&mut self, token: &Token)
        requires
            old(self).wf(),
            span_fits(old(self).spec_bytes(), token.spec_span()),
        ensures
            final(self).wf(),
            final(self).source == old(self).source,
            final(self).offset == old(self).offset,
            final(self).pending@ == old(self).pending@,
            final(self).indent_stack@ == old(self).indent_stack@,
            final(self).at_line_start == old(self).at_line_start,
            final(self).emitted_eof == old(self).emitted_eof,
            final(self).produced@ == old(self).produced@,
            final(self).covered@ == old(self).covered@,
            old(self).diagnostics@.is_prefix_of(final(self).diagnostics@),
            token.spec_kind() == TokenKind::LeftParen ==> final(self).delimiters@ == old(self).delimiters@.push(OpenDelimiter::Parenthesis(token.spec_span())),
            token.spec_kind() == TokenKind::LeftBracket ==> final(self).delimiters@ == old(self).delimiters@.push(OpenDelimiter::Bracket(token.spec_span())),
            token.spec_kind() == TokenKind::LeftBrace ==> final(self).delimiters@ == old(self).delimiters@.push(OpenDelimiter::Brace(token.spec_span())),
            is_opening_kind(token.spec_kind()) ==> final(self).diagnostics@ == old(self).diagnostics@,
            is_closing_kind(token.spec_kind()) && old(self).delimiters@.len() > 0 && old(self).delimiters@.last().closes(token.spec_kind()) ==> final(self).delimiters@ == old(self).delimiters@.drop_last() && final(self).diagnostics@ == old(self).diagnostics@,
            is_closing_kind(token.spec_kind()) && !(old(self).delimiters@.len() > 0 && old(self).delimiters@.last().closes(token.spec_kind())) ==> final(self).delimiters@ == old(self).delimiters@ && final(self).diagnostics@.len() == old(self).diagnostics@.len() + 1
                && final(self).diagnostics@.last().code == UNMATCHED_DELIMITER_CODE
                && final(self).diagnostics@.last().span == Some(token.spec_span()),
            !is_opening_kind(token.spec_kind()) && !is_closing_kind(token.spec_kind())
                ==> final(self).delimiters@ == old(self).delimiters@ && final(self).diagnostics@
                == old(self).diagnostics@,
    {
        let ghost before = *self;
        let kind = token.kind();
        match kind {
            TokenKind::LeftParen => {
                self.delimiters.push(OpenDelimiter::Parenthesis(token.span()));
                proof {
                    Self::lemma_wf_delimiters(&before, self);
                }
            },
            TokenKind::LeftBracket => {
                self.delimiters.push(OpenDelimiter::Bracket(token.span()));
                proof {
                    Self::lemma_wf_delimiters(&before, self);
                }
            },
            TokenKind::LeftBrace => {
                self.delimiters.push(OpenDelimiter::Brace(token.span()));
                proof {
                    Self::lemma_wf_delimiters(&before, self);
                }
            },
            TokenKind::RightParen | TokenKind::RightBracket | TokenKind::RightBrace => {
                if self.delimiters.len() > 0 {
                    let open = self.delimiters[self.delimiters.len() - 1];
                    if open.matches(kind) {
                        self.delimiters.pop();
                        proof {
                            Self::lemma_wf_delimiters(&before, self);
                        }
                    } else {
                        self.push_unmatched_delimiter_diagnostic(token.span(), open.name());
                    }
                } else {
                    self.push_unmatched_delimiter_diagnostic(token.span(), "无");
                }
            },
            _ => {},
        }
    }

    /// Closes every open block with `Dedent` tokens and reports delimiters that
    /// are still open, once, at the end of file.
    fn finish_eof(&mut self)
        requires
            old(self).wf(),
            old(self).offset == old(self).spec_bytes().len(),
        ensures
            final(self).wf(),
            final(self).emitted_eof,
            final(self).source == old(self).source,
            final(self).offset == old(self).offset,
            final(self).produced@ == old(self).produced@,
            final(self).at_line_start == old(self).at_line_start,
            final(self).covered@ == old(self).covered@,
            old(self).diagnostics@.is_prefix_of(final(self).diagnostics@),
            old(self).emitted_eof ==> final(self).same_state(old(self)),
            !old(self).emitted_eof ==> final(self).remaining_work() < old(self).remaining_work(),
    {
        if self.emitted_eof {
            return;
        }
        let ghost b = self.spec_bytes();
        while self.indent_stack.len() > 1
            invariant
                self.wf(),
                b == self.spec_bytes(),
                self.source == old(self).source,
                self.offset == old(self).offset,
                self.offset == b.len(),
                self.produced@ == old(self).produced@,
                self.delimiters@ == old(self).delimiters@,
                self.at_line_start == old(self).at_line_start,
                self.covered@ == old(self).covered@,
                !self.emitted_eof,
                self.diagnostics@ == old(self).diagnostics@,
                self.indent_stack@.len() + self.pending@.len() == old(self).indent_stack@.len()
                    + old(self).pending@.len(),
            decreases self.indent_stack.len(),
        {
            proof {
                Self::lemma_wf_facts(self);
            }
            let ghost before = *self;
            self.indent_stack.pop();
            let token = self.zero_width_token(TokenKind::Dedent, self.offset);
            self.pending.push_back(token);
            proof {
                assert(span_text(b, token.spec_span()) =~= Seq::<u8>::empty());
                assert(self.indent_stack@ =~= before.indent_stack@.drop_last());
                Self::lemma_wf_queue(&before, self, token);
            }
        }
        proof {
            Self::lemma_wf_facts(self);
        }
        let mut i: usize = 0;
        while i < self.delimiters.len()
            invariant
                self.wf(),
                b == self.spec_bytes(),
                self.source == old(self).source,
                self.offset == old(self).offset,
                self.offset == b.len(),
                self.produced@ == old(self).produced@,
                self.delimiters@ == old(self).delimiters@,
                self.at_line_start == old(self).at_line_start,
                self.covered@ == old(self).covered@,
                !self.emitted_eof,
                self.indent_stack@.len() == 1,
                old(self).diagnostics@.is_prefix_of(self.diagnostics@),
                self.pending@.len() == old(self).indent_stack@.len() - 1 + old(self).pending@.len(),
            decreases self.delimiters.len() - i,
        {
            proof {
                Self::lemma_wf_facts(self);
            }
            let delimiter = self.delimiters[i];
            let message = joined("分隔符 ", delimiter.name(), " 没有闭合");
            self.report(
                UNTERMINATED_DELIMITER_CODE,
                "x01.lex.unterminated_delimiter",
                delimiter.span(),
                message,
            );
            i += 1;
        }
        let ghost before = *self;
        self.emitted_eof = true;
        proof {
            Self::lemma_wf_eof(&before, self);
        }
    }
}

impl<'source> Lexer<'source> {
    /// Handles the white space, comments and indentation at the start of a
    /// line, queueing the tokens that must be handed out first.
    fn prepare_line_start(&mut self)
        requires
            old(self).wf(),
            old(self).at_line_start,
            old(self).pending@.len() == 0,
            !old(self).emitted_eof,
            old(self).settled(),
        ensures
            final(self).wf(),
            final(self).settled(),
            final(self).source == old(self).source,
            final(self).produced@ == old(self).produced@,
            !final(self).emitted_eof,
            old(self).offset <= final(self).offset,
            old(self).diagnostics@.is_prefix_of(final(self).diagnostics@),
            final(self).remaining_work() <= old(self).remaining_work(),
            final(self).pending@.len() > 0 ==> final(self).remaining_work() < old(self).remaining_work(),
            ({
                let b = old(self).spec_bytes();
                let p = blank_end(b, old(self).offset as int);
                &&& p == b.len() || line_break_at(b, p) ==> final(self).offset == p
                    && final(self).at_line_start && final(self).pending@.len() == 0
                    && final(self).indent_stack@ == old(self).indent_stack@
                    && final(self).diagnostics@ == old(self).diagnostics@
                &&& p < b.len() && b[p] == 35u8 && !marker_at(b, p) ==> final(self).at_line_start
                    && final(self).pending@.len() == 0 && final(self).indent_stack@ == old(self).indent_stack@
                &&& marker_at(b, p) ==> !final(self).at_line_start && final(self).pending@.len() == 1
                    && (final(self).pending@[0].spec_kind() == TokenKind::DocComment
                    || final(self).pending@[0].spec_kind() == TokenKind::Invalid)
                    && final(self).indent_stack@ == old(self).indent_stack@
                &&& p < b.len() && !line_break_at(b, p) && b[p] != 35u8 ==> !final(self).at_line_start
                    && final(self).offset == p && (old(self).delimiters@.len() > 0
                    ==> final(self).indent_stack@ == old(self).indent_stack@ && final(self).pending@.len() == 0)
                &&& p < b.len() && !line_break_at(b, p) && b[p] != 35u8 && old(self).delimiters@.len() == 0
                    ==> indentation_step(
                    old(self).indent_stack@,
                    prefix_width(b, old(self).offset as int, p),
                    final(self).indent_stack@,
                    final(self).pending@,
                    final(self).diagnostics@.len() > old(self).diagnostics@.len(),
                ) && (prefix_width(b, old(self).offset as int, p) % 4 == 0 && prefix_width(b, old(self).offset as int, p)
                    > old(self).indent_stack@.last() ==> final(self).pending@[0].spec_span().spec_start() == old(self).offset
                    && final(self).pending@[0].spec_span().spec_end() == p)
            }),
    {
        proof {
            Self::lemma_wf_facts(self);
        }
        let whitespace_start = self.offset;
        let logical_width = self.consume_line_prefix();
        proof {
            Self::lemma_wf_facts(self);
            assert(self.spec_bytes() == old(self).spec_bytes());
        }
        if self.offset >= self.source.len_bytes() {
            // Trailing blank space opens no block; the end of file closes the
            // open ones.
            return;
        }
        let source = self.source;
        let bytes = source.as_bytes();
        if is_line_break_at(bytes, self.offset) {
            // A blank line keeps its line break and leaves the stack alone.
            return;
        }
        if bytes[self.offset] == 35u8 {
            if starts_doc_comment(bytes, self.offset) {
                let ghost before_scan = *self;
                let token = self.scan_doc_comment();
                proof {
                    Self::lemma_wf_facts(&before_scan);
                }
                let ghost before = *self;
                self.pending.push_back(token);
                self.covered = Ghost(self.offset);
                proof {
                    Self::lemma_wf_queue(&before, self, token);
                }
                let ghost queued = *self;
                self.at_line_start = false;
                proof {
                    Self::lemma_wf_same(&queued, self);
                }
            } else {
                self.skip_line_comment();
            }
            return;
        }
        if self.delimiters.len() == 0 {
            proof {
                Self::lemma_wf_facts(self);
            }
            let ghost before_levels = *self;
            self.apply_indentation(whitespace_start, self.offset, logical_width);
            proof {
                let w = logical_width as int;
                let s0 = before_levels.indent_stack@;
                assert(s0 == old(self).indent_stack@);
                assert(before_levels.pending@.len() == 0);
                if w % 4 == 0 && w > s0.last() {
                    assert(self.indent_stack@ == s0.push(logical_width));
                    assert(self.pending@.len() == 1);
                } else if w % 4 == 0 && w < s0.last() {
                    assert forall|k: int| 0 <= k < self.pending@.len() implies (#[trigger] self.pending@[k]).spec_kind()
                        == TokenKind::Dedent by {
                        assert(before_levels.pending@.len() <= k);
                    }
                }
                assert(indentation_step(
                    s0,
                    w,
                    self.indent_stack@,
                    self.pending@,
                    self.diagnostics@.len() > old(self).diagnostics@.len(),
                ));
            }
        }
        let ghost before = *self;
        self.at_line_start = false;
        proof {
            Self::lemma_wf_same(&before, self);
            Self::lemma_wf_facts(self);
            Self::lemma_wf_facts(old(self));
        }
    }

    /// Scans the token that starts at the current offset, which is neither at
    /// the end of the input nor at an ordinary comment.
    fn scan_token(&mut self) -> (r: Token)
        requires
            old(self).wf(),
            old(self).offset < old(self).spec_bytes().len(),
            !(old(self).spec_bytes()[old(self).offset as int] == 35u8 && !marker_at(
                old(self).spec_bytes(),
                old(self).offset as int,
            )),
        ensures
            final(self).wf(),
            final(self).scan_frame(old(self)),
            final(self).scanned(old(self), r),
    {
        proof {
            Self::lemma_wf_facts(self);
        }
        let start = self.offset;
        let source = self.source;
        let bytes = source.as_bytes();
        let ghost b = self.spec_bytes();
        let first = bytes[start];
        let ghost before_scan = *self;
        let token = if first == 10u8 {
            proof {
                lemma_ascii_step(b, start as int);
            }
            self.offset = start + 1;
            proof {
                Self::lemma_wf_advance(&before_scan, self);
            }
            let token = self.token(TokenKind::Newline, start, self.offset);
            proof {
                assert(span_text(b, token.spec_span()) =~= seq![10u8]);
            }
            token
        } else if first == 13u8 && start + 1 < bytes.len() && bytes[start + 1] == 10u8 {
            proof {
                lemma_ascii_step(b, start as int);
                lemma_ascii_step(b, start + 1);
            }
            self.offset = start + 2;
            proof {
                Self::lemma_wf_advance(&before_scan, self);
            }
            let token = self.token(TokenKind::Newline, start, self.offset);
            proof {
                assert(span_text(b, token.spec_span()) =~= seq![13u8, 10u8]);
            }
            token
        } else if first == 35u8 {
            self.scan_doc_comment()
        } else if first == 96u8 {
            self.scan_backtick_identifier()
        } else if first == 39u8 || first == 34u8 {
            self.scan_string()
        } else if is_ascii_digit(first) {
            self.scan_integer()
        } else if first == 46u8 && start + 1 < bytes.len() && is_ascii_digit(bytes[start + 1]) {
            self.scan_fractional_number()
        } else if is_ascii_identifier_start(first) {
            self.scan_identifier_or_keyword()
        } else if first == 61u8 {
            self.scan_one_or_two(61u8, 61u8, TokenKind::EqualEqual, TokenKind::Equal)
        } else if first == 33u8 {
            self.scan_bang()
        } else if first == 60u8 {
            self.scan_one_or_two(60u8, 61u8, TokenKind::LessEqual, TokenKind::Less)
        } else if first == 62u8 {
            self.scan_one_or_two(62u8, 61u8, TokenKind::GreaterEqual, TokenKind::Greater)
        } else if first == 43u8 {
            self.scan_one_or_two(43u8, 61u8, TokenKind::PlusEqual, TokenKind::Plus)
        } else if first == 45u8 {
            self.scan_minus()
        } else if first == 42u8 {
            self.scan_star()
        } else if first == 38u8 {
            self.scan_one_or_two(38u8, 61u8, TokenKind::AmpersandEqual, TokenKind::Ampersand)
        } else if first == 94u8 {
            self.scan_one_or_two(94u8, 61u8, TokenKind::CaretEqual, TokenKind::Caret)
        } else if first == 47u8 {
            self.scan_slash()
        } else if first == 37u8 {
            self.scan_one_or_two(37u8, 61u8, TokenKind::PercentEqual, TokenKind::Percent)
        } else if first == 124u8 {
            self.scan_single(TokenKind::Pipe)
        } else if first == 40u8 {
            self.scan_single(TokenKind::LeftParen)
        } else if first == 41u8 {
            self.scan_single(TokenKind::RightParen)
        } else if first == 91u8 {
            self.scan_single(TokenKind::LeftBracket)
        } else if first == 93u8 {
            self.scan_single(TokenKind::RightBracket)
        } else if first == 123u8 {
            self.scan_single(TokenKind::LeftBrace)
        } else if first == 125u8 {
            self.scan_single(TokenKind::RightBrace)
        } else if first == 44u8 {
            self.scan_single(TokenKind::Comma)
        } else if first == 58u8 {
            self.scan_single(TokenKind::Colon)
        } else if first == 46u8 {
            self.scan_single(TokenKind::Dot)
        } else if first == 126u8 {
            self.scan_single(TokenKind::Tilde)
        } else if first == 63u8 {
            self.scan_single(TokenKind::Question)
        } else if first == 64u8 {
            self.scan_single(TokenKind::At)
        } else if first == 36u8 {
            self.scan_single(TokenKind::Dollar)
        } else {
            self.scan_invalid()
        };
        token
    }

    /// Scans and returns the next token.
    ///
    /// After the end of file every further call returns the same `Eof` token
    /// and leaves the scanning state unchanged.
    ///
    /// At the start of a code line outside brackets the indentation is
    /// applied first: a deeper multiple of four gives an `Indent` spanning the
    /// leading blanks, a shallower one gives the first of the `Dedent` tokens
    /// that close the deeper levels, the same width gives the line's first
    /// token, and a width that is not a multiple of four is reported.
    #[verifier::spinoff_prover]
    #[verifier::rlimit(40)]
    pub fn next_token(&mut self) -> (r: Token)
        requires
            old(self).wf(),
            old(self).settled(),
        ensures
            final(self).wf(),
            final(self).settled(),
            final(self).spec_bytes() == old(self).spec_bytes(),
            final(self).produced() == old(self).produced().push(r),
            token_of(old(self).spec_bytes(), r),
            old(self).spec_offset() <= final(self).spec_offset(),
            old(self).spec_diagnostics().is_prefix_of(final(self).spec_diagnostics()),
            r.spec_kind() == TokenKind::Eof ==> final(self).finished(),
            r.spec_kind() == TokenKind::Eof ==> r.spec_span().spec_start() == old(self).spec_bytes().len(),
            r.spec_kind() != TokenKind::Eof ==> final(self).remaining_work() < old(self).remaining_work(),
            old(self).finished() ==> r.spec_kind() == TokenKind::Eof && final(self).same_state(
                old(self),
            ),
            ({
                let b = old(self).spec_bytes();
                let o = old(self).spec_offset() as int;
                let p = blank_end(b, o);
                let w = prefix_width(b, o, p);
                let s = old(self).spec_levels();
                old(self).at_open_line_start() && p < b.len() && !line_break_at(b, p) && b[p] != 35u8 ==> {
                    &&& w % 4 != 0 ==> final(self).spec_diagnostics().len() > old(self).spec_diagnostics().len()
                    &&& w % 4 == 0 && w != s.last() ==> exists|q: Seq<Token>, rep: bool|
                        #[trigger] indentation_step(s, w, final(self).spec_levels(), q, rep) && q.len() >= 1 && r == q[0]
                    &&& w % 4 == 0 && w > s.last() ==> r.spec_span().spec_start() == o && r.spec_span().spec_end() == p
                    &&& w % 4 == 0 && w == s.last() ==> final(self).spec_levels() == s && r.spec_kind() != TokenKind::Indent
                        && r.spec_kind() != TokenKind::Dedent
                }
            }),
    {
        let ghost b0 = old(self).spec_bytes();
        let ghost o0 = old(self).offset as int;
        let ghost p0 = blank_end(b0, o0);
        let ghost w0 = prefix_width(b0, o0, p0);
        let ghost s0 = old(self).indent_stack@;
        let ghost code = old(self).at_open_line_start() && p0 < b0.len() && !line_break_at(b0, p0) && b0[p0] != 35u8;
        proof {
            Self::lemma_wf_offset(old(self));
            lemma_blank_end_stops(b0, o0);
        }
        loop
            invariant
                code == (old(self).at_open_line_start() && p0 < b0.len() && !line_break_at(b0, p0) && b0[p0] != 35u8),
                b0 == old(self).spec_bytes(),
                o0 == old(self).offset,
                p0 == blank_end(b0, o0),
                w0 == prefix_width(b0, o0, p0),
                s0 == old(self).indent_stack@,
                p0 == b0.len() || !is_blank_byte(b0[p0]),
                code ==> self.produced@ == old(self).produced@ && !self.emitted_eof && ((self.offset == old(self).offset
                    && self.at_line_start && self.pending@.len() == 0 && self.indent_stack@ == s0
                    && self.delimiters@.len() == 0 && self.diagnostics@ == old(self).diagnostics@) || (!self.at_line_start
                    && self.offset == p0 && self.pending@.len() > 0 && indentation_step(
                    s0,
                    w0,
                    self.indent_stack@,
                    self.pending@,
                    self.diagnostics@.len() > old(self).diagnostics@.len(),
                ) && (w0 % 4 == 0 && w0 > s0.last() ==> self.pending@[0].spec_span().spec_start() == o0
                    && self.pending@[0].spec_span().spec_end() == p0))),
                self.wf(),
                self.settled(),
                self.source == old(self).source,
                self.produced@ == old(self).produced@,
                old(self).offset <= self.offset,
                old(self).diagnostics@.is_prefix_of(self.diagnostics@),
                self.remaining_work() <= old(self).remaining_work(),
                old(self).finished() ==> self.same_state(old(self)),
            decreases self.remaining_work(),
        {
            proof {
                Self::lemma_wf_facts(self);
            }
            let ghost before_pop = *self;
            match self.pending.pop_front() {
                None => {
                    proof {
                        Self::lemma_wf_same(&before_pop, self);
                    }
                },
                Some(token) => {
                    self.produced = Ghost(self.produced@.push(token));
                    proof {
                        Self::lemma_wf_pop(&before_pop, self, token);
                        if code {
                            assert(indentation_step(
                                s0,
                                w0,
                                self.indent_stack@,
                                before_pop.pending@,
                                before_pop.diagnostics@.len() > old(self).diagnostics@.len(),
                            ));
                            assert(token == before_pop.pending@[0]);
                            assert(exists|q: Seq<Token>, rep: bool|
                                #[trigger] indentation_step(s0, w0, self.indent_stack@, q, rep) && q.len() >= 1 && token
                                    == q[0]);
                            assert(old(self).spec_levels() == s0);
                            assert(self.spec_levels() == self.indent_stack@);
                            assert(old(self).spec_offset() as int == o0);
                            assert(w0 % 4 != 0 ==> self.spec_diagnostics().len() > old(self).spec_diagnostics().len());
                            assert(w0 % 4 == 0 && w0 > s0.last() ==> token.spec_span().spec_start() == o0);
                        }
                    }
                    return token;
                },
            }
            if self.emitted_eof {
                let token = self.eof_token();
                let ghost before = *self;
                self.produced = Ghost(self.produced@.push(token));
                proof {
                    assert(span_text(self.spec_bytes(), token.spec_span()) =~= Seq::<u8>::empty());
                    Self::lemma_wf_emit(&before, self, token);
                }
                return token;
            }
            if self.at_line_start {
                self.prepare_line_start();
                if self.pending.len() > 0 {
                    continue;
                }
            }
            let ghost after_prepare = *self;
            if !self.at_line_start {
                self.skip_horizontal_whitespace();
            }
            proof {
                Self::lemma_wf_facts(self);
                if code {
                    assert(!is_blank_byte(b0[p0]));
                    if self.offset > p0 {
                        assert(is_blank_byte(after_prepare.spec_bytes()[p0 as int]));
                    }
                    assert(self.offset == p0);
                }
            }
            if self.offset >= self.source.len_bytes() {
                self.finish_eof();
                continue;
            }
            let start = self.offset;
            let source = self.source;
            let bytes = source.as_bytes();
            let first = bytes[start];
            if first == 35u8 && !starts_doc_comment(bytes, start) {
                self.skip_line_comment();
                continue;
            }
            let ghost before_scan = *self;
            let token = self.scan_token();
            proof {
                Self::lemma_wf_facts(&before_scan);
            }
            self.observe_token(&token);
            let ghost observed = *self;
            self.at_line_start = match token.kind() {
                TokenKind::Newline => true,
                _ => false,
            };
            proof {
                Self::lemma_wf_same(&observed, self);
                Self::lemma_wf_facts(self);
            }
            let ghost before = *self;
            self.produced = Ghost(self.produced@.push(token));
            self.covered = Ghost(self.offset);
            proof {
                Self::lemma_wf_emit(&before, self, token);
            }
            return token;
        }
    }

    /// Consumes the rest of the input and returns the tokens and diagnostics.
    ///
    /// The tokens end with exactly one `Eof`, are tokens of the source in
    /// source order, and, counted together with those handed out before, hold
    /// as many `Indent` as `Dedent` tokens and account for every byte of the
    /// input: each lies in a token or is a space, a tab or part of a comment.
    pub fn tokenize(self) -> (r: LexResult)
        requires
            self.wf(),
            self.settled(),
        ensures
            r.tokens@.len() >= 1,
            r.tokens@.last().spec_kind() == TokenKind::Eof,
            r.tokens@.last().spec_span().spec_start() == self.spec_bytes().len(),
            forall|i: int|
                0 <= i < r.tokens@.len() - 1 ==> (#[trigger] r.tokens@[i]).spec_kind()
                    != TokenKind::Eof,
            forall|i: int|
                0 <= i < r.tokens@.len() ==> token_of(self.spec_bytes(), #[trigger] r.tokens@[i]),
            in_order(self.produced() + r.tokens@),
            count_kind(self.produced() + r.tokens@, TokenKind::Indent) == count_kind(
                self.produced() + r.tokens@,
                TokenKind::Dedent,
            ),
            self.spec_diagnostics().is_prefix_of(r.diagnostics@),
            forall|i: int|
                0 <= i < r.diagnostics@.len() ==> diagnostic_of(
                    self.spec_bytes(),
                    #[trigger] r.diagnostics@[i],
                ),
            count_kind(self.produced() + r.tokens@, TokenKind::Invalid) <= r.diagnostics@.len(),
            coverage(self.spec_bytes(), self.produced() + r.tokens@, self.spec_bytes().len() as int),
    {
        let mut lexer = self;
        let mut tokens: Vec<Token> = Vec::new();
        loop
            invariant_except_break
                forall|i: int|
                    0 <= i < tokens@.len() ==> (#[trigger] tokens@[i]).spec_kind()
                        != TokenKind::Eof,
            invariant
                lexer.wf(),
                lexer.settled(),
                lexer.spec_bytes() == self.spec_bytes(),
                lexer.produced() == self.produced() + tokens@,
                self.spec_diagnostics().is_prefix_of(lexer.spec_diagnostics()),
                forall|i: int|
                    0 <= i < tokens@.len() ==> token_of(self.spec_bytes(), #[trigger] tokens@[i]),
            ensures
                lexer.wf(),
                lexer.settled(),
                lexer.finished(),
                lexer.produced() == self.produced() + tokens@,
                self.spec_diagnostics().is_prefix_of(lexer.spec_diagnostics()),
                tokens@.len() >= 1,
                tokens@.last().spec_kind() == TokenKind::Eof,
                tokens@.last().spec_span().spec_start() == self.spec_bytes().len(),
                forall|i: int|
                    0 <= i < tokens@.len() - 1 ==> (#[trigger] tokens@[i]).spec_kind()
                        != TokenKind::Eof,
                forall|i: int|
                    0 <= i < tokens@.len() ==> token_of(self.spec_bytes(), #[trigger] tokens@[i]),
            decreases lexer.remaining_work(),
        {
            let token = lexer.next_token();
            let done = token.kind().is_eof();
            tokens.push(token);
            proof {
                assert(lexer.produced() =~= self.produced() + tokens@);
            }
            if done {
                break;
            }
        }
        proof {
            Self::lemma_wf_facts(&lexer);
            reveal(Lexer::wf);
            assert(lexer.pending@.len() == 0);
            assert(lexer.produced@ + lexer.pending@ =~= lexer.produced@);
            assert(lexer.offset == lexer.spec_bytes().len());
            assert(coverage(self.spec_bytes(), lexer.produced@ + lexer.pending@, lexer.covered@ as int));
        }
        LexResult { tokens, diagnostics: lexer.diagnostics }
    }
}

} // verus!
