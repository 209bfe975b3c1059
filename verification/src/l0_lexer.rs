//! The minimal L0 token stream: names, decimal integers, `=`, line breaks
//! and `Eof`, with one diagnostic for every character it cannot recognise.
//!
//! This is the first lexing stage; it runs no type checks and no program
//! code. Its whole output is pinned down by the spec function `l0_tokens`.

use vstd::prelude::*;
use vstd::utf8::*;
use vstd::string::StringSliceAdditionalSpecFns;
use crate::diagnostics::{Diagnostic, Severity, INVALID_CHARACTER_CODE};
use crate::lexer::{is_digit_byte, is_word_byte, is_word_start_byte};
use crate::source::{scalar_at, span_fits, SourceError, SourceFile, SourcePosition, SourceSpan, position_of};
use crate::text::{debug_char, joined};
use crate::utf8_layout::{is_boundary, lemma_scalar_step, scalar_width};

verus! {

broadcast use vstd::utf8::group_utf8_lib;

/// Kinds of the minimal token stream.
#[derive(Clone, Copy, Debug, PartialEq, Eq, Structural, Hash)]
pub enum TokenKind {
    /// ASCII identifier.
    Identifier,
    /// Decimal integer literal; its raw text stays in the source.
    Integer,
    /// Assignment `=`.
    Equal,
    /// A logical line break from LF or CRLF.
    Newline,
    /// The zero-width end of the input.
    Eof,
    /// One Unicode scalar that cannot be recognised.
    Invalid,
}

impl TokenKind {
    /// The stable name used in snapshots and machine output.
    pub open spec fn name(self) -> &'static str {
        match self {
            TokenKind::Identifier => "Identifier",
            TokenKind::Integer => "Integer",
            TokenKind::Equal => "Equal",
            TokenKind::Newline => "Newline",
            TokenKind::Eof => "Eof",
            TokenKind::Invalid => "Invalid",
        }
    }

    /// Returns the stable name of the kind.
    pub fn as_str(self) -> (r: &'static str)
        ensures
            r == self.name(),
    {
        match self {
            TokenKind::Identifier => "Identifier",
            TokenKind::Integer => "Integer",
            TokenKind::Equal => "Equal",
            TokenKind::Newline => "Newline",
            TokenKind::Eof => "Eof",
            TokenKind::Invalid => "Invalid",
        }
    }

    /// Returns whether the kind is the end of the input.
    pub fn is_eof(self) -> (r: bool)
        ensures
            r == (self is Eof),
    {
        match self {
            TokenKind::Eof => true,
            _ => false,
        }
    }
}

/// A minimal token with its source span.
#[derive(Clone, Copy, Debug, PartialEq, Eq, Structural, Hash)]
pub struct Token {
    kind: TokenKind,
    span: SourceSpan,
}

impl Token {
    /// The kind of the token.
    pub closed spec fn spec_kind(self) -> TokenKind {
        self.kind
    }

    /// The span of the token.
    pub closed spec fn spec_span(self) -> SourceSpan {
        self.span
    }

    /// The token as a kind with the start and end of its span.
    pub open spec fn spec_view(self) -> (TokenKind, int, int) {
        (self.spec_kind(), self.spec_span().spec_start() as int, self.spec_span().spec_end() as int)
    }

    /// Creates a token.
    pub fn new(kind: TokenKind, span: SourceSpan) -> (r: Self)
        ensures
            r.spec_kind() == kind,
            r.spec_span() == span,
    {
        Token { kind, span }
    }

    /// Returns the kind of the token.
    pub fn kind(self) -> (r: TokenKind)
        ensures
            r == self.spec_kind(),
    {
        self.kind
    }

    /// Returns the span of the token.
    pub fn span(self) -> (r: SourceSpan)
        ensures
            r == self.spec_span(),
    {
        self.span
    }

    /// Reads the raw text of the token from the source it came from.
    pub fn text(self, source: &SourceFile) -> (r: &str)
        requires
            span_fits(source.spec_bytes(), self.spec_span()),
        ensures
            r.spec_bytes() == source.spec_bytes().subrange(
                self.spec_span().spec_start() as int,
                self.spec_span().spec_end() as int,
            ),
    {
        source.slice(self.span)
    }

    /// Returns the line and column where the token starts.
    pub fn start_position(self, source: &SourceFile) -> (r: Result<SourcePosition, SourceError>)
        ensures
            span_fits(source.spec_bytes(), self.spec_span()) ==> r == Ok::<
                SourcePosition,
                SourceError,
            >(position_of(source.spec_bytes(), self.spec_span().spec_start() as int)),
    {
        source.position_at(self.span.start())
    }

    /// Returns the line and column just after the token; the end offset is
    /// not part of the token.
    pub fn end_position(self, source: &SourceFile) -> (r: Result<SourcePosition, SourceError>)
        ensures
            span_fits(source.spec_bytes(), self.spec_span()) ==> r == Ok::<
                SourcePosition,
                SourceError,
            >(position_of(source.spec_bytes(), self.spec_span().spec_end() as int)),
    {
        source.position_at(self.span.end())
    }
}

/// Diagnostics of the minimal lexer share the structured diagnostic type.
pub type LexDiagnostic = Diagnostic;

/// Tokens and diagnostics of a complete scan.
#[derive(Clone, Debug, PartialEq, Eq)]
pub struct LexResult {
    /// Tokens in source order, `Invalid` and `Eof` included.
    pub tokens: Vec<Token>,
    /// Diagnostics collected during the scan.
    pub diagnostics: Vec<LexDiagnostic>,
}

// ---------------------------------------------------------------------------
// The token stream as a function of the input
// ---------------------------------------------------------------------------

/// The offset after the spaces and tabs that start at `o`.
pub open spec fn blank_end(b: Seq<u8>, o: int) -> int
    decreases b.len() - o,
{
    if 0 <= o < b.len() && (b[o] == 32u8 || b[o] == 9u8) {
        blank_end(b, o + 1)
    } else {
        o
    }
}

/// The offset after the decimal digits that start at `o`.
pub open spec fn digits_end(b: Seq<u8>, o: int) -> int
    decreases b.len() - o,
{
    if 0 <= o < b.len() && is_digit_byte(b[o]) {
        digits_end(b, o + 1)
    } else {
        o
    }
}

/// The offset after the identifier bytes that start at `o`.
pub open spec fn word_end(b: Seq<u8>, o: int) -> int
    decreases b.len() - o,
{
    if 0 <= o < b.len() && is_word_byte(b[o]) {
        word_end(b, o + 1)
    } else {
        o
    }
}

/// The next token from offset `o`: its kind, start and end. Spaces and tabs
/// are skipped; a lone carriage return is an invalid character.
pub open spec fn l0_next(b: Seq<u8>, o: int) -> (TokenKind, int, int) {
    let s = blank_end(b, o);
    if s >= b.len() {
        (TokenKind::Eof, s, s)
    } else if b[s] == 10u8 {
        (TokenKind::Newline, s, s + 1)
    } else if b[s] == 13u8 && s + 1 < b.len() && b[s + 1] == 10u8 {
        (TokenKind::Newline, s, s + 2)
    } else if b[s] == 61u8 {
        (TokenKind::Equal, s, s + 1)
    } else if is_digit_byte(b[s]) {
        (TokenKind::Integer, s, digits_end(b, s))
    } else if is_word_start_byte(b[s]) {
        (TokenKind::Identifier, s, word_end(b, s))
    } else {
        (TokenKind::Invalid, s, s + scalar_width(b[s]))
    }
}

/// The whole token stream from offset `o`, ending with the `Eof` token.
pub open spec fn l0_tokens(b: Seq<u8>, o: int) -> Seq<(TokenKind, int, int)>
    decreases b.len() - o,
{
    let t = l0_next(b, o);
    if t.0 is Eof || t.2 <= o || t.2 > b.len() {
        seq![t]
    } else {
        seq![t] + l0_tokens(b, t.2)
    }
}

/// The spans of the invalid tokens of `ts`, in order.
pub open spec fn invalid_spans(ts: Seq<(TokenKind, int, int)>) -> Seq<(int, int)>
    decreases ts.len(),
{
    if ts.len() == 0 {
        Seq::empty()
    } else {
        invalid_spans(ts.drop_last()) + if ts.last().0 is Invalid {
            seq![(ts.last().1, ts.last().2)]
        } else {
            Seq::empty()
        }
    }
}

/// `d` reports an invalid character at `[s, e)`.
pub open spec fn invalid_character_at(d: Diagnostic, s: int, e: int) -> bool {
    &&& d.severity == Severity::Error
    &&& d.code == INVALID_CHARACTER_CODE
    &&& d.message_id == "x01.lex.invalid_character"
    &&& d.span matches Some(span) && span.spec_start() == s && span.spec_end() == e
}

/// `ds` report, one for one and in order, the invalid characters at `spans`.
pub open spec fn reports_invalid(ds: Seq<Diagnostic>, spans: Seq<(int, int)>) -> bool {
    &&& ds.len() == spans.len()
    &&& forall|i: int| 0 <= i < ds.len() ==> invalid_character_at(#[trigger] ds[i], spans[i].0, spans[i].1)
}

proof fn lemma_blank_end(b: Seq<u8>, o: int)
    requires
        valid_utf8(b),
        0 <= o <= b.len(),
        is_boundary(b, o),
    ensures
        o <= blank_end(b, o) <= b.len(),
        is_boundary(b, blank_end(b, o)),
    decreases b.len() - o,
{
    if o < b.len() && (b[o] == 32u8 || b[o] == 9u8) {
        lemma_scalar_step(b, o);
        lemma_blank_end(b, o + 1);
    }
}

proof fn lemma_digits_end(b: Seq<u8>, o: int)
    requires
        valid_utf8(b),
        0 <= o <= b.len(),
        is_boundary(b, o),
    ensures
        o <= digits_end(b, o) <= b.len(),
        is_boundary(b, digits_end(b, o)),
    decreases b.len() - o,
{
    if o < b.len() && is_digit_byte(b[o]) {
        lemma_scalar_step(b, o);
        lemma_digits_end(b, o + 1);
    }
}

proof fn lemma_word_end(b: Seq<u8>, o: int)
    requires
        valid_utf8(b),
        0 <= o <= b.len(),
        is_boundary(b, o),
    ensures
        o <= word_end(b, o) <= b.len(),
        is_boundary(b, word_end(b, o)),
    decreases b.len() - o,
{
    if o < b.len() && is_word_byte(b[o]) {
        lemma_scalar_step(b, o);
        lemma_word_end(b, o + 1);
    }
}

/// The next token lies in the input on scalar boundaries, and every token but
/// `Eof` is non-empty.
proof fn lemma_next(b: Seq<u8>, o: int)
    requires
        valid_utf8(b),
        0 <= o <= b.len(),
        is_boundary(b, o),
    ensures
        o <= l0_next(b, o).1 <= l0_next(b, o).2 <= b.len(),
        is_boundary(b, l0_next(b, o).1),
        is_boundary(b, l0_next(b, o).2),
        !(l0_next(b, o).0 is Eof) ==> l0_next(b, o).1 < l0_next(b, o).2,
        l0_next(b, o).0 is Eof ==> l0_next(b, o).1 == b.len() && l0_next(b, o).2 == b.len(),
{
    lemma_blank_end(b, o);
    let s = blank_end(b, o);
    if s < b.len() {
        lemma_scalar_step(b, s);
        if b[s] == 13u8 && s + 1 < b.len() && b[s + 1] == 10u8 {
            lemma_scalar_step(b, s + 1);
        }
        if is_digit_byte(b[s]) {
            lemma_digits_end(b, s + 1);
        }
        if is_word_start_byte(b[s]) {
            lemma_word_end(b, s + 1);
        }
    }
}

/// Unfolds the stream one token.
proof fn lemma_tokens_step(b: Seq<u8>, o: int)
    requires
        valid_utf8(b),
        0 <= o <= b.len(),
        is_boundary(b, o),
        !(l0_next(b, o).0 is Eof),
    ensures
        l0_tokens(b, o) == seq![l0_next(b, o)] + l0_tokens(b, l0_next(b, o).2),
{
    lemma_next(b, o);
}

/// Adding a token adds its span to the invalid spans when it is invalid.
proof fn lemma_invalid_push(ts: Seq<(TokenKind, int, int)>, t: (TokenKind, int, int))
    ensures
        invalid_spans(ts.push(t)) == invalid_spans(ts) + if t.0 is Invalid {
            seq![(t.1, t.2)]
        } else {
            Seq::<(int, int)>::empty()
        },
{
    assert(ts.push(t).drop_last() =~= ts);
}

// ---------------------------------------------------------------------------
// The lexer
// ---------------------------------------------------------------------------

/// The minimal lexer.
pub struct Lexer<'source> {
    source: &'source SourceFile,
    offset: usize,
    diagnostics: Vec<LexDiagnostic>,
    emitted_eof: bool,
}

impl<'source> Lexer<'source> {
    /// The bytes being scanned.
    pub closed spec fn spec_bytes(&self) -> Seq<u8> {
        self.source.spec_bytes()
    }

    /// The current byte offset.
    pub closed spec fn spec_offset(&self) -> int {
        self.offset as int
    }

    /// The diagnostics collected so far.
    pub closed spec fn spec_diagnostics(&self) -> Seq<Diagnostic> {
        self.diagnostics@
    }

    /// Whether `Eof` was already returned.
    pub closed spec fn spec_finished(&self) -> bool {
        self.emitted_eof
    }

    /// The offset lies on a scalar boundary of the input; after `Eof` it is
    /// the end of the input.
    pub closed spec fn wf(&self) -> bool {
        &&& self.offset <= self.source.spec_bytes().len()
        &&& is_boundary(self.source.spec_bytes(), self.offset as int)
        &&& self.emitted_eof ==> self.offset == self.source.spec_bytes().len()
    }

    /// Creates a lexer at the start of a source.
    pub fn new(source: &'source SourceFile) -> (r: Self)
        ensures
            r.wf(),
            r.spec_bytes() == source.spec_bytes(),
            r.spec_offset() == 0,
            r.spec_diagnostics() == Seq::<Diagnostic>::empty(),
            !r.spec_finished(),
    {
        proof {
            let b = source.spec_bytes();
            is_char_boundary_start_end_of_seq(b);
            if b.len() > 0 {
                crate::utf8_layout::lemma_char_boundary_is_boundary(b, 0);
            }
        }
        Lexer { source, offset: 0, diagnostics: Vec::new(), emitted_eof: false }
    }

    /// Returns the current byte offset.
    pub fn offset(&self) -> (r: usize)
        ensures
            r == self.spec_offset(),
    {
        self.offset
    }

    /// Returns the diagnostics collected so far.
    pub fn diagnostics(&self) -> (r: &[LexDiagnostic])
        ensures
            r@ == self.spec_diagnostics(),
    {
        self.diagnostics.as_slice()
    }

    /// Builds the token of `[start, end)`.
    fn token(&self, kind: TokenKind, start: usize, end: usize) -> (r: Token)
        requires
            start <= end <= self.spec_bytes().len(),
            is_boundary(self.spec_bytes(), start as int),
            is_boundary(self.spec_bytes(), end as int),
        ensures
            r.spec_view() == (kind, start as int, end as int),
            span_fits(self.spec_bytes(), r.spec_span()),
    {
        let span = self.source.span(start, end).unwrap();
        Token::new(kind, span)
    }

    /// Skips spaces and tabs.
    fn skip_horizontal_whitespace(&mut self)
        requires
            old(self).wf(),
            !old(self).spec_finished(),
        ensures
            final(self).wf(),
            final(self).source == old(self).source,
            final(self).diagnostics == old(self).diagnostics,
            final(self).emitted_eof == old(self).emitted_eof,
            final(self).offset == blank_end(old(self).spec_bytes(), old(self).offset as int),
    {
        let bytes = self.source.as_bytes();
        let ghost b = self.spec_bytes();
        while self.offset < bytes.len() && (bytes[self.offset] == 32u8 || bytes[self.offset] == 9u8)
            invariant
                bytes@ == b,
                b == self.spec_bytes(),
                valid_utf8(b),
                self.wf(),
                !self.spec_finished(),
                self.source == old(self).source,
                self.diagnostics == old(self).diagnostics,
                self.emitted_eof == old(self).emitted_eof,
                blank_end(b, self.offset as int) == blank_end(b, old(self).offset as int),
            decreases b.len() - self.offset,
        {
            proof {
                lemma_scalar_step(b, self.offset as int);
            }
            self.offset = self.offset + 1;
        }
    }

    /// Scans the maximal run of bytes of one class from the current offset.
    fn scan_run(&mut self, digits: bool) -> (r: usize)
        requires
            old(self).wf(),
            !old(self).spec_finished(),
        ensures
            final(self).wf(),
            final(self).source == old(self).source,
            final(self).diagnostics == old(self).diagnostics,
            final(self).emitted_eof == old(self).emitted_eof,
            r == old(self).offset,
            digits ==> final(self).offset == digits_end(old(self).spec_bytes(), old(self).offset as int),
            !digits ==> final(self).offset == word_end(old(self).spec_bytes(), old(self).offset as int),
    {
        let start = self.offset;
        let bytes = self.source.as_bytes();
        let ghost b = self.spec_bytes();
        loop
            invariant
                bytes@ == b,
                b == self.spec_bytes(),
                valid_utf8(b),
                self.wf(),
                !self.spec_finished(),
                self.source == old(self).source,
                self.diagnostics == old(self).diagnostics,
                self.emitted_eof == old(self).emitted_eof,
                digits ==> digits_end(b, self.offset as int) == digits_end(b, start as int),
                !digits ==> word_end(b, self.offset as int) == word_end(b, start as int),
            ensures
                self.wf(),
                !self.spec_finished(),
                self.source == old(self).source,
                self.diagnostics == old(self).diagnostics,
                self.emitted_eof == old(self).emitted_eof,
                digits ==> self.offset == digits_end(b, start as int),
                !digits ==> self.offset == word_end(b, start as int),
            decreases b.len() - self.offset,
        {
            if self.offset >= bytes.len() {
                break;
            }
            let byte = bytes[self.offset];
            let accepted = if digits {
                48u8 <= byte && byte <= 57u8
            } else {
                (65u8 <= byte && byte <= 90u8) || (97u8 <= byte && byte <= 122u8) || byte == 95u8
                    || (48u8 <= byte && byte <= 57u8)
            };
            if !accepted {
                break;
            }
            proof {
                lemma_scalar_step(b, self.offset as int);
            }
            self.offset = self.offset + 1;
        }
        start
    }

    /// Consumes one character that cannot be recognised and reports it.
    fn scan_invalid(&mut self) -> (r: Token)
        requires
            old(self).wf(),
            !old(self).spec_finished(),
            old(self).offset < old(self).spec_bytes().len(),
        ensures
            final(self).wf(),
            final(self).source == old(self).source,
            final(self).emitted_eof == old(self).emitted_eof,
            r.spec_view() == (
                TokenKind::Invalid,
                old(self).offset as int,
                old(self).offset + scalar_width(old(self).spec_bytes()[old(self).offset as int]),
            ),
            final(self).offset == r.spec_view().2,
            span_fits(final(self).spec_bytes(), r.spec_span()),
            final(self).diagnostics@ == old(self).diagnostics@.push(final(self).diagnostics@.last()),
            invalid_character_at(final(self).diagnostics@.last(), r.spec_view().1, r.spec_view().2),
    {
        let start = self.offset;
        let bytes = self.source.as_bytes();
        proof {
            lemma_scalar_step(bytes@, start as int);
        }
        let (character, width) = scalar_at(bytes, start);
        self.offset = start + width;
        let token = self.token(TokenKind::Invalid, start, self.offset);
        let shown = debug_char(character);
        let message = joined("无法识别的字符：", shown.as_str(), "");
        self.diagnostics.push(
            Diagnostic::error_at(
                INVALID_CHARACTER_CODE,
                "x01.lex.invalid_character",
                token.span(),
                message,
            ),
        );
        token
    }

    /// Returns the current `Eof` token.
    fn eof_token(&self) -> (r: Token)
        requires
            self.wf(),
            self.offset == self.spec_bytes().len(),
        ensures
            r.spec_view() == (TokenKind::Eof, self.offset as int, self.offset as int),
            span_fits(self.spec_bytes(), r.spec_span()),
    {
        self.token(TokenKind::Eof, self.offset, self.offset)
    }

    /// Returns the next token. After `Eof`, every call returns `Eof` again at
    /// the same place and changes nothing.
    pub fn next_token(&mut self) -> (r: Token)
        requires
            old(self).wf(),
        ensures
            final(self).wf(),
            final(self).spec_bytes() == old(self).spec_bytes(),
            span_fits(final(self).spec_bytes(), r.spec_span()),
            !old(self).spec_finished() ==> r.spec_view() == l0_next(
                old(self).spec_bytes(),
                old(self).spec_offset(),
            ),
            !old(self).spec_finished() ==> final(self).spec_offset() == r.spec_view().2,
            final(self).spec_finished() == (old(self).spec_finished() || r.spec_kind() is Eof),
            old(self).spec_finished() ==> r.spec_view() == (
                TokenKind::Eof,
                old(self).spec_offset(),
                old(self).spec_offset(),
            ) && final(self).spec_offset() == old(self).spec_offset(),
            !(r.spec_kind() is Invalid) ==> final(self).spec_diagnostics()
                == old(self).spec_diagnostics(),
            r.spec_kind() is Invalid ==> final(self).spec_diagnostics() == old(
                self,
            ).spec_diagnostics().push(final(self).spec_diagnostics().last())
                && invalid_character_at(
                final(self).spec_diagnostics().last(),
                r.spec_view().1,
                r.spec_view().2,
            ),
    {
        if self.emitted_eof {
            return self.eof_token();
        }
        let ghost b = self.spec_bytes();
        let ghost o = self.offset as int;
        proof {
            lemma_next(b, o);
            lemma_blank_end(b, o);
        }
        self.skip_horizontal_whitespace();
        let bytes = self.source.as_bytes();
        if self.offset >= bytes.len() {
            self.emitted_eof = true;
            return self.eof_token();
        }
        let start = self.offset;
        let byte = bytes[start];
        proof {
            lemma_scalar_step(b, start as int);
        }
        if byte == 10u8 {
            self.offset = start + 1;
            return self.token(TokenKind::Newline, start, self.offset);
        }
        if byte == 13u8 && start + 1 < bytes.len() && bytes[start + 1] == 10u8 {
            proof {
                lemma_scalar_step(b, start + 1);
            }
            self.offset = start + 2;
            return self.token(TokenKind::Newline, start, self.offset);
        }
        if byte == 61u8 {
            self.offset = start + 1;
            return self.token(TokenKind::Equal, start, self.offset);
        }
        if 48u8 <= byte && byte <= 57u8 {
            let start = self.scan_run(true);
            proof {
                lemma_digits_end(b, start as int);
            }
            return self.token(TokenKind::Integer, start, self.offset);
        }
        if (65u8 <= byte && byte <= 90u8) || (97u8 <= byte && byte <= 122u8) || byte == 95u8 {
            let start = self.scan_run(false);
            proof {
                lemma_word_end(b, start as int);
            }
            return self.token(TokenKind::Identifier, start, self.offset);
        }
        self.scan_invalid()
    }

    /// Consumes the whole input and returns the tokens with the diagnostics.
    pub fn tokenize(self) -> (r: LexResult)
        requires
            self.wf(),
        ensures
            !self.spec_finished() ==> r.tokens@.map_values(|t: Token| t.spec_view()) == l0_tokens(
                self.spec_bytes(),
                self.spec_offset(),
            ),
            self.spec_finished() ==> r.tokens@.map_values(|t: Token| t.spec_view()) == seq![
                (TokenKind::Eof, self.spec_offset(), self.spec_offset()),
            ],
            forall|i: int|
                0 <= i < r.tokens@.len() ==> span_fits(
                    self.spec_bytes(),
                    (#[trigger] r.tokens@[i]).spec_span(),
                ),
            self.spec_diagnostics().is_prefix_of(r.diagnostics@),
            reports_invalid(
                r.diagnostics@.subrange(
                    self.spec_diagnostics().len() as int,
                    r.diagnostics@.len() as int,
                ),
                invalid_spans(r.tokens@.map_values(|t: Token| t.spec_view())),
            ),
    {
        let ghost b = self.spec_bytes();
        let ghost initial = self.spec_diagnostics();
        let ghost whole = if self.emitted_eof {
            seq![(TokenKind::Eof, self.offset as int, self.offset as int)]
        } else {
            l0_tokens(b, self.offset as int)
        };
        let mut lexer = self;
        let mut tokens: Vec<Token> = Vec::new();
        loop
            invariant_except_break
                !lexer.spec_finished() ==> tokens@.map_values(|t: Token| t.spec_view()) + l0_tokens(
                    b,
                    lexer.spec_offset(),
                ) == whole,
                lexer.spec_finished() ==> tokens@.len() == 0 && whole == seq![
                    (TokenKind::Eof, lexer.spec_offset(), lexer.spec_offset()),
                ],
            invariant
                lexer.wf(),
                lexer.spec_bytes() == b,
                valid_utf8(b),
                forall|i: int|
                    0 <= i < tokens@.len() ==> span_fits(b, (#[trigger] tokens@[i]).spec_span()),
                initial.is_prefix_of(lexer.spec_diagnostics()),
                reports_invalid(
                    lexer.spec_diagnostics().subrange(
                        initial.len() as int,
                        lexer.spec_diagnostics().len() as int,
                    ),
                    invalid_spans(tokens@.map_values(|t: Token| t.spec_view())),
                ),
            ensures
                tokens@.map_values(|t: Token| t.spec_view()) == whole,
                forall|i: int|
                    0 <= i < tokens@.len() ==> span_fits(b, (#[trigger] tokens@[i]).spec_span()),
                initial.is_prefix_of(lexer.spec_diagnostics()),
                reports_invalid(
                    lexer.spec_diagnostics().subrange(
                        initial.len() as int,
                        lexer.spec_diagnostics().len() as int,
                    ),
                    invalid_spans(tokens@.map_values(|t: Token| t.spec_view())),
                ),
            decreases b.len() - lexer.spec_offset(), if lexer.spec_finished() { 0int } else { 1int },
        {
            let ghost before = lexer;
            let ghost old_views = tokens@.map_values(|t: Token| t.spec_view());
            proof {
                if !lexer.spec_finished() {
                    lemma_next(b, lexer.spec_offset());
                }
            }
            let token = lexer.next_token();
            let done = token.kind().is_eof();
            tokens.push(token);
            proof {
                let views = tokens@.map_values(|t: Token| t.spec_view());
                assert(views =~= old_views.push(token.spec_view()));
                lemma_invalid_push(old_views, token.spec_view());
                let ds = lexer.spec_diagnostics();
                let olds = before.spec_diagnostics();
                let new_part = ds.subrange(initial.len() as int, ds.len() as int);
                let old_part = olds.subrange(initial.len() as int, olds.len() as int);
                if token.spec_kind() is Invalid {
                    assert(new_part =~= old_part.push(ds.last()));
                } else {
                    assert(new_part =~= old_part);
                }
                assert(old_views.push(token.spec_view()) =~= old_views + seq![token.spec_view()]);
                if !before.spec_finished() {
                    if token.spec_kind() is Eof {
                        assert(l0_tokens(b, before.spec_offset()) =~= seq![token.spec_view()]);
                    } else {
                        lemma_tokens_step(b, before.spec_offset());
                        assert(old_views + l0_tokens(b, before.spec_offset()) =~= views + l0_tokens(
                            b,
                            lexer.spec_offset(),
                        ));
                    }
                }
            }
            if done {
                break;
            }
        }
        LexResult { tokens, diagnostics: lexer.diagnostics }
    }
}

} // verus!
