//! Tokens, keywords and their stable names.
//!
//! A token only stores its kind and source span; it never decodes user values.
//! The lexer and parser talk through these types.

use vstd::prelude::*;
use vstd::string::StringSliceAdditionalSpecFns;
use crate::source::{span_fits, SourceError, SourceFile, SourcePosition, SourceSpan, position_of};
use crate::utf8_layout::is_boundary;

verus! {

broadcast use vstd::utf8::group_utf8_lib;

/// Returns whether two string slices hold the same characters.
pub(crate) fn same_text(a: &str, b: &str) -> (r: bool)
    ensures
        r == (a@ == b@),
{
    let x = a.as_bytes();
    let y = b.as_bytes();
    proof {
        vstd::utf8::encode_utf8_decode_utf8(a@);
        vstd::utf8::encode_utf8_decode_utf8(b@);
    }
    if x.len() != y.len() {
        return false;
    }
    let mut i: usize = 0;
    while i < x.len()
        invariant
            x@ == a.spec_bytes(),
            y@ == b.spec_bytes(),
            x@.len() == y@.len(),
            i <= x@.len(),
            forall|j: int| 0 <= j < i ==> x@[j] == y@[j],
        decreases x@.len() - i,
    {
        if x[i] != y[i] {
            return false;
        }
        i += 1;
    }
    assert(x@ =~= y@);
    true
}

/// Reserved word of the Xiao language.
///
/// Type names are registered as keywords too, so later stages read one token stream.
#[derive(Clone, Copy, Debug, PartialEq, Eq, Structural, Hash)]
pub enum KeywordKind {
    /// Function definition `def`.
    Def,
    /// Condition `if`.
    If,
    /// Condition branch `elif`.
    Elif,
    /// Condition branch `else`.
    Else,
    /// Iteration `for`.
    For,
    /// Membership `in`.
    In,
    /// Loop `while`.
    While,
    /// Return `return`.
    Return,
    /// Loop control `break`.
    Break,
    /// Loop control `continue`.
    Continue,
    /// Guarded block `try`.
    Try,
    /// Error handler `catch`.
    Catch,
    /// Cleanup block `finally`.
    Finally,
    /// Raising an error `raise`.
    Raise,
    /// Compile-time constant `const`.
    Const,
    /// Module import `import`.
    Import,
    /// Module import `from`.
    From,
    /// Explicit conversion `as`.
    As,
    /// Construction `new`.
    New,
    /// Explicit release `free`.
    Free,
    /// Logical and `and`.
    And,
    /// Logical or `or`.
    Or,
    /// Logical not `not`.
    Not,
    /// Identity comparison `is`.
    Is,
    /// 64-bit integer type `int`.
    Int,
    /// 32-bit integer type `sint`.
    Sint,
    /// Unbounded integer type `lint`.
    Lint,
    /// 64-bit float type `float`.
    Float,
    /// 32-bit float type `sfloat`.
    Sfloat,
    /// Unbounded float type `lfloat`.
    Lfloat,
    /// String type `str`.
    Str,
    /// Boolean type `bool`.
    Bool,
}

impl KeywordKind {
    /// The source spelling of the keyword.
    pub open spec fn spelling(self) -> &'static str {
        match self {
            KeywordKind::Def => "def",
            KeywordKind::If => "if",
            KeywordKind::Elif => "elif",
            KeywordKind::Else => "else",
            KeywordKind::For => "for",
            KeywordKind::In => "in",
            KeywordKind::While => "while",
            KeywordKind::Return => "return",
            KeywordKind::Break => "break",
            KeywordKind::Continue => "continue",
            KeywordKind::Try => "try",
            KeywordKind::Catch => "catch",
            KeywordKind::Finally => "finally",
            KeywordKind::Raise => "raise",
            KeywordKind::Const => "const",
            KeywordKind::Import => "import",
            KeywordKind::From => "from",
            KeywordKind::As => "as",
            KeywordKind::New => "new",
            KeywordKind::Free => "free",
            KeywordKind::And => "and",
            KeywordKind::Or => "or",
            KeywordKind::Not => "not",
            KeywordKind::Is => "is",
            KeywordKind::Int => "int",
            KeywordKind::Sint => "sint",
            KeywordKind::Lint => "lint",
            KeywordKind::Float => "float",
            KeywordKind::Sfloat => "sfloat",
            KeywordKind::Lfloat => "lfloat",
            KeywordKind::Str => "str",
            KeywordKind::Bool => "bool",
        }
    }

    /// Returns the stable source spelling of the keyword.
    pub fn as_str(self) -> (r: &'static str)
        ensures
            r == self.spelling(),
    {
        match self {
            KeywordKind::Def => "def",
            KeywordKind::If => "if",
            KeywordKind::Elif => "elif",
            KeywordKind::Else => "else",
            KeywordKind::For => "for",
            KeywordKind::In => "in",
            KeywordKind::While => "while",
            KeywordKind::Return => "return",
            KeywordKind::Break => "break",
            KeywordKind::Continue => "continue",
            KeywordKind::Try => "try",
            KeywordKind::Catch => "catch",
            KeywordKind::Finally => "finally",
            KeywordKind::Raise => "raise",
            KeywordKind::Const => "const",
            KeywordKind::Import => "import",
            KeywordKind::From => "from",
            KeywordKind::As => "as",
            KeywordKind::New => "new",
            KeywordKind::Free => "free",
            KeywordKind::And => "and",
            KeywordKind::Or => "or",
            KeywordKind::Not => "not",
            KeywordKind::Is => "is",
            KeywordKind::Int => "int",
            KeywordKind::Sint => "sint",
            KeywordKind::Lint => "lint",
            KeywordKind::Float => "float",
            KeywordKind::Sfloat => "sfloat",
            KeywordKind::Lfloat => "lfloat",
            KeywordKind::Str => "str",
            KeywordKind::Bool => "bool",
        }
    }

    /// Looks up the keyword spelled `word`; unknown words give `None`.
    pub fn from_word(word: &str) -> (r: Option<Self>)
        ensures
            r matches Some(k) ==> word@ == k.spelling()@,
            r is None ==> forall|k: KeywordKind| word@ != (#[trigger] k.spelling())@,
            forall|k: KeywordKind| word@ == (#[trigger] k.spelling())@ ==> r == Some(k),
    {
        if same_text(word, "def") {
            proof {
                lemma_keyword_spelled_once(KeywordKind::Def);
            }
            return Some(KeywordKind::Def);
        }
        if same_text(word, "if") {
            proof {
                lemma_keyword_spelled_once(KeywordKind::If);
            }
            return Some(KeywordKind::If);
        }
        if same_text(word, "elif") {
            proof {
                lemma_keyword_spelled_once(KeywordKind::Elif);
            }
            return Some(KeywordKind::Elif);
        }
        if same_text(word, "else") {
            proof {
                lemma_keyword_spelled_once(KeywordKind::Else);
            }
            return Some(KeywordKind::Else);
        }
        if same_text(word, "for") {
            proof {
                lemma_keyword_spelled_once(KeywordKind::For);
            }
            return Some(KeywordKind::For);
        }
        if same_text(word, "in") {
            proof {
                lemma_keyword_spelled_once(KeywordKind::In);
            }
            return Some(KeywordKind::In);
        }
        if same_text(word, "while") {
            proof {
                lemma_keyword_spelled_once(KeywordKind::While);
            }
            return Some(KeywordKind::While);
        }
        if same_text(word, "return") {
            proof {
                lemma_keyword_spelled_once(KeywordKind::Return);
            }
            return Some(KeywordKind::Return);
        }
        if same_text(word, "break") {
            proof {
                lemma_keyword_spelled_once(KeywordKind::Break);
            }
            return Some(KeywordKind::Break);
        }
        if same_text(word, "continue") {
            proof {
                lemma_keyword_spelled_once(KeywordKind::Continue);
            }
            return Some(KeywordKind::Continue);
        }
        if same_text(word, "try") {
            proof {
                lemma_keyword_spelled_once(KeywordKind::Try);
            }
            return Some(KeywordKind::Try);
        }
        if same_text(word, "catch") {
            proof {
                lemma_keyword_spelled_once(KeywordKind::Catch);
            }
            return Some(KeywordKind::Catch);
        }
        if same_text(word, "finally") {
            proof {
                lemma_keyword_spelled_once(KeywordKind::Finally);
            }
            return Some(KeywordKind::Finally);
        }
        if same_text(word, "raise") {
            proof {
                lemma_keyword_spelled_once(KeywordKind::Raise);
            }
            return Some(KeywordKind::Raise);
        }
        if same_text(word, "const") {
            proof {
                lemma_keyword_spelled_once(KeywordKind::Const);
            }
            return Some(KeywordKind::Const);
        }
        if same_text(word, "import") {
            proof {
                lemma_keyword_spelled_once(KeywordKind::Import);
            }
            return Some(KeywordKind::Import);
        }
        if same_text(word, "from") {
            proof {
                lemma_keyword_spelled_once(KeywordKind::From);
            }
            return Some(KeywordKind::From);
        }
        if same_text(word, "as") {
            proof {
                lemma_keyword_spelled_once(KeywordKind::As);
            }
            return Some(KeywordKind::As);
        }
        if same_text(word, "new") {
            proof {
                lemma_keyword_spelled_once(KeywordKind::New);
            }
            return Some(KeywordKind::New);
        }
        if same_text(word, "free") {
            proof {
                lemma_keyword_spelled_once(KeywordKind::Free);
            }
            return Some(KeywordKind::Free);
        }
        if same_text(word, "and") {
            proof {
                lemma_keyword_spelled_once(KeywordKind::And);
            }
            return Some(KeywordKind::And);
        }
        if same_text(word, "or") {
            proof {
                lemma_keyword_spelled_once(KeywordKind::Or);
            }
            return Some(KeywordKind::Or);
        }
        if same_text(word, "not") {
            proof {
                lemma_keyword_spelled_once(KeywordKind::Not);
            }
            return Some(KeywordKind::Not);
        }
        if same_text(word, "is") {
            proof {
                lemma_keyword_spelled_once(KeywordKind::Is);
            }
            return Some(KeywordKind::Is);
        }
        if same_text(word, "int") {
            proof {
                lemma_keyword_spelled_once(KeywordKind::Int);
            }
            return Some(KeywordKind::Int);
        }
        if same_text(word, "sint") {
            proof {
                lemma_keyword_spelled_once(KeywordKind::Sint);
            }
            return Some(KeywordKind::Sint);
        }
        if same_text(word, "lint") {
            proof {
                lemma_keyword_spelled_once(KeywordKind::Lint);
            }
            return Some(KeywordKind::Lint);
        }
        if same_text(word, "float") {
            proof {
                lemma_keyword_spelled_once(KeywordKind::Float);
            }
            return Some(KeywordKind::Float);
        }
        if same_text(word, "sfloat") {
            proof {
                lemma_keyword_spelled_once(KeywordKind::Sfloat);
            }
            return Some(KeywordKind::Sfloat);
        }
        if same_text(word, "lfloat") {
            proof {
                lemma_keyword_spelled_once(KeywordKind::Lfloat);
            }
            return Some(KeywordKind::Lfloat);
        }
        if same_text(word, "str") {
            proof {
                lemma_keyword_spelled_once(KeywordKind::Str);
            }
            return Some(KeywordKind::Str);
        }
        if same_text(word, "bool") {
            proof {
                lemma_keyword_spelled_once(KeywordKind::Bool);
            }
            return Some(KeywordKind::Bool);
        }
        assert forall|k: KeywordKind| word@ != (#[trigger] k.spelling())@ by {
                match k {
                    KeywordKind::Def => {},
                    KeywordKind::If => {},
                    KeywordKind::Elif => {},
                    KeywordKind::Else => {},
                    KeywordKind::For => {},
                    KeywordKind::In => {},
                    KeywordKind::While => {},
                    KeywordKind::Return => {},
                    KeywordKind::Break => {},
                    KeywordKind::Continue => {},
                    KeywordKind::Try => {},
                    KeywordKind::Catch => {},
                    KeywordKind::Finally => {},
                    KeywordKind::Raise => {},
                    KeywordKind::Const => {},
                    KeywordKind::Import => {},
                    KeywordKind::From => {},
                    KeywordKind::As => {},
                    KeywordKind::New => {},
                    KeywordKind::Free => {},
                    KeywordKind::And => {},
                    KeywordKind::Or => {},
                    KeywordKind::Not => {},
                    KeywordKind::Is => {},
                    KeywordKind::Int => {},
                    KeywordKind::Sint => {},
                    KeywordKind::Lint => {},
                    KeywordKind::Float => {},
                    KeywordKind::Sfloat => {},
                    KeywordKind::Lfloat => {},
                    KeywordKind::Str => {},
                    KeywordKind::Bool => {},
                }
            }
        None
    }
}

/// Kind of a lexical token.
#[derive(Clone, Copy, Debug, PartialEq, Eq, Structural, Hash)]
pub enum TokenKind {
    /// ASCII identifier.
    Identifier,
    /// Decimal integer literal.
    Integer,
    /// Decimal floating literal.
    Float,
    /// Single- or double-quoted string literal.
    String,
    /// `true` or `false`.
    Boolean,
    /// `none`.
    NoneLiteral,
    /// A reserved word.
    Keyword(KeywordKind),
    /// UTF-8 name in backticks.
    BacktickIdentifier,
    /// A complete `### ... ###` documentation comment.
    DocComment,
    /// Assignment `=`.
    Equal,
    /// Equality `==`.
    EqualEqual,
    /// Inequality `!=`.
    BangEqual,
    /// `<`.
    Less,
    /// `<=`.
    LessEqual,
    /// `>`.
    Greater,
    /// `>=`.
    GreaterEqual,
    /// `+`, addition or set union.
    Plus,
    /// `-`.
    Minus,
    /// `*`.
    Star,
    /// `/`.
    Slash,
    /// `//`.
    FloorDiv,
    /// `%`.
    Percent,
    /// `**`.
    Power,
    /// `&`, set intersection.
    Ampersand,
    /// `^`, set symmetric difference.
    Caret,
    /// `|`, union of type terms.
    Pipe,
    /// `+=`.
    PlusEqual,
    /// `-=`.
    MinusEqual,
    /// `*=`.
    StarEqual,
    /// `/=`.
    SlashEqual,
    /// `//=`.
    FloorDivEqual,
    /// `%=`.
    PercentEqual,
    /// `**=`.
    PowerEqual,
    /// `&=`.
    AmpersandEqual,
    /// `^=`.
    CaretEqual,
    /// `(`.
    LeftParen,
    /// `)`.
    RightParen,
    /// `[`.
    LeftBracket,
    /// `]`.
    RightBracket,
    /// `{`.
    LeftBrace,
    /// `}`.
    RightBrace,
    /// `,`.
    Comma,
    /// `:`.
    Colon,
    /// `.`.
    Dot,
    /// Range `~`.
    Tilde,
    /// Random selection prefix `?`.
    Question,
    /// `!`.
    Bang,
    /// Random selection with replacement `!?`.
    BangQuestion,
    /// Redefinition prefix `@`.
    At,
    /// Interpolation prefix `$`.
    Dollar,
    /// Indentation at the start of a block.
    Indent,
    /// Dedentation at the end of a block.
    Dedent,
    /// Logical line break from LF or CRLF.
    Newline,
    /// Zero-width end of file.
    Eof,
    /// A single unrecognised Unicode scalar or malformed literal.
    Invalid,
}

impl TokenKind {
    /// The stable name of the kind used in snapshots and machine output.
    pub open spec fn name(self) -> &'static str {
        match self {
            TokenKind::Identifier => "Identifier",
            TokenKind::Integer => "Integer",
            TokenKind::Float => "Float",
            TokenKind::String => "String",
            TokenKind::Boolean => "Boolean",
            TokenKind::NoneLiteral => "None",
            TokenKind::Keyword(keyword) => keyword.spelling(),
            TokenKind::BacktickIdentifier => "BacktickIdentifier",
            TokenKind::DocComment => "DocComment",
            TokenKind::Equal => "Equal",
            TokenKind::EqualEqual => "EqualEqual",
            TokenKind::BangEqual => "BangEqual",
            TokenKind::Less => "Less",
            TokenKind::LessEqual => "LessEqual",
            TokenKind::Greater => "Greater",
            TokenKind::GreaterEqual => "GreaterEqual",
            TokenKind::Plus => "Plus",
            TokenKind::Minus => "Minus",
            TokenKind::Star => "Star",
            TokenKind::Slash => "Slash",
            TokenKind::FloorDiv => "FloorDiv",
            TokenKind::Percent => "Percent",
            TokenKind::Power => "Power",
            TokenKind::Ampersand => "Ampersand",
            TokenKind::Caret => "Caret",
            TokenKind::Pipe => "Pipe",
            TokenKind::PlusEqual => "PlusEqual",
            TokenKind::MinusEqual => "MinusEqual",
            TokenKind::StarEqual => "StarEqual",
            TokenKind::SlashEqual => "SlashEqual",
            TokenKind::FloorDivEqual => "FloorDivEqual",
            TokenKind::PercentEqual => "PercentEqual",
            TokenKind::PowerEqual => "PowerEqual",
            TokenKind::AmpersandEqual => "AmpersandEqual",
            TokenKind::CaretEqual => "CaretEqual",
            TokenKind::LeftParen => "LeftParen",
            TokenKind::RightParen => "RightParen",
            TokenKind::LeftBracket => "LeftBracket",
            TokenKind::RightBracket => "RightBracket",
            TokenKind::LeftBrace => "LeftBrace",
            TokenKind::RightBrace => "RightBrace",
            TokenKind::Comma => "Comma",
            TokenKind::Colon => "Colon",
            TokenKind::Dot => "Dot",
            TokenKind::Tilde => "Tilde",
            TokenKind::Question => "Question",
            TokenKind::Bang => "Bang",
            TokenKind::BangQuestion => "BangQuestion",
            TokenKind::At => "At",
            TokenKind::Dollar => "Dollar",
            TokenKind::Indent => "Indent",
            TokenKind::Dedent => "Dedent",
            TokenKind::Newline => "Newline",
            TokenKind::Eof => "Eof",
            TokenKind::Invalid => "Invalid",
        }
    }

    /// Returns the stable name of the kind.
    pub fn as_str(self) -> (r: &'static str)
        ensures
            r == self.name(),
    {
        match self {
            TokenKind::Identifier => "Identifier",
            TokenKind::Integer => "Integer",
            TokenKind::Float => "Float",
            TokenKind::String => "String",
            TokenKind::Boolean => "Boolean",
            TokenKind::NoneLiteral => "None",
            TokenKind::Keyword(keyword) => keyword.as_str(),
            TokenKind::BacktickIdentifier => "BacktickIdentifier",
            TokenKind::DocComment => "DocComment",
            TokenKind::Equal => "Equal",
            TokenKind::EqualEqual => "EqualEqual",
            TokenKind::BangEqual => "BangEqual",
            TokenKind::Less => "Less",
            TokenKind::LessEqual => "LessEqual",
            TokenKind::Greater => "Greater",
            TokenKind::GreaterEqual => "GreaterEqual",
            TokenKind::Plus => "Plus",
            TokenKind::Minus => "Minus",
            TokenKind::Star => "Star",
            TokenKind::Slash => "Slash",
            TokenKind::FloorDiv => "FloorDiv",
            TokenKind::Percent => "Percent",
            TokenKind::Power => "Power",
            TokenKind::Ampersand => "Ampersand",
            TokenKind::Caret => "Caret",
            TokenKind::Pipe => "Pipe",
            TokenKind::PlusEqual => "PlusEqual",
            TokenKind::MinusEqual => "MinusEqual",
            TokenKind::StarEqual => "StarEqual",
            TokenKind::SlashEqual => "SlashEqual",
            TokenKind::FloorDivEqual => "FloorDivEqual",
            TokenKind::PercentEqual => "PercentEqual",
            TokenKind::PowerEqual => "PowerEqual",
            TokenKind::AmpersandEqual => "AmpersandEqual",
            TokenKind::CaretEqual => "CaretEqual",
            TokenKind::LeftParen => "LeftParen",
            TokenKind::RightParen => "RightParen",
            TokenKind::LeftBracket => "LeftBracket",
            TokenKind::RightBracket => "RightBracket",
            TokenKind::LeftBrace => "LeftBrace",
            TokenKind::RightBrace => "RightBrace",
            TokenKind::Comma => "Comma",
            TokenKind::Colon => "Colon",
            TokenKind::Dot => "Dot",
            TokenKind::Tilde => "Tilde",
            TokenKind::Question => "Question",
            TokenKind::Bang => "Bang",
            TokenKind::BangQuestion => "BangQuestion",
            TokenKind::At => "At",
            TokenKind::Dollar => "Dollar",
            TokenKind::Indent => "Indent",
            TokenKind::Dedent => "Dedent",
            TokenKind::Newline => "Newline",
            TokenKind::Eof => "Eof",
            TokenKind::Invalid => "Invalid",
        }
    }

    /// Returns whether the token ends the file.
    pub fn is_eof(self) -> (r: bool)
        ensures
            r == (self == TokenKind::Eof),
    {
        match self {
            TokenKind::Eof => true,
            _ => false,
        }
    }

    /// Returns the keyword carried by the token, if any.
    pub fn keyword(self) -> (r: Option<KeywordKind>)
        ensures
            r == (match self {
                TokenKind::Keyword(k) => Some(k),
                _ => None::<KeywordKind>,
            }),
    {
        match self {
            TokenKind::Keyword(keyword) => Some(keyword),
            _ => None,
        }
    }

    /// The literal kinds: integer, float, string, boolean and `none`.
    pub open spec fn spec_is_literal(self) -> bool {
        self is Integer || self is Float || self is String || self is Boolean || self is NoneLiteral
    }

    /// Returns whether the token is a literal.
    pub fn is_literal(self) -> (r: bool)
        ensures
            r == self.spec_is_literal(),
    {
        match self {
            TokenKind::Integer | TokenKind::Float | TokenKind::String | TokenKind::Boolean
            | TokenKind::NoneLiteral => true,
            _ => false,
        }
    }

    /// The operator kinds, including selector prefixes.
    pub open spec fn spec_is_operator(self) -> bool {
        self is Equal
            || self is EqualEqual
            || self is BangEqual
            || self is Less
            || self is LessEqual
            || self is Greater
            || self is GreaterEqual
            || self is Plus
            || self is Minus
            || self is Star
            || self is Slash
            || self is FloorDiv
            || self is Percent
            || self is Power
            || self is Ampersand
            || self is Caret
            || self is Pipe
            || self is PlusEqual
            || self is MinusEqual
            || self is StarEqual
            || self is SlashEqual
            || self is FloorDivEqual
            || self is PercentEqual
            || self is PowerEqual
            || self is AmpersandEqual
            || self is CaretEqual
            || self is Tilde
            || self is Question
            || self is Bang
            || self is BangQuestion
    }

    /// Returns whether the token is an operator.
    pub fn is_operator(self) -> (r: bool)
        ensures
            r == self.spec_is_operator(),
    {
        match self {
            TokenKind::Equal
            | TokenKind::EqualEqual
            | TokenKind::BangEqual
            | TokenKind::Less
            | TokenKind::LessEqual
            | TokenKind::Greater
            | TokenKind::GreaterEqual
            | TokenKind::Plus
            | TokenKind::Minus
            | TokenKind::Star
            | TokenKind::Slash
            | TokenKind::FloorDiv
            | TokenKind::Percent
            | TokenKind::Power
            | TokenKind::Ampersand
            | TokenKind::Caret
            | TokenKind::Pipe
            | TokenKind::PlusEqual
            | TokenKind::MinusEqual
            | TokenKind::StarEqual
            | TokenKind::SlashEqual
            | TokenKind::FloorDivEqual
            | TokenKind::PercentEqual
            | TokenKind::PowerEqual
            | TokenKind::AmpersandEqual
            | TokenKind::CaretEqual
            | TokenKind::Tilde
            | TokenKind::Question
            | TokenKind::Bang
            | TokenKind::BangQuestion => true,
            _ => false,
        }
    }
}

/// A lexical token with its source span.
#[derive(Clone, Copy, Debug, PartialEq, Eq, Structural, Hash)]
pub struct Token {
    kind: TokenKind,
    span: SourceSpan,
}

impl Token {
    /// The kind of the token.
    pub closed spec fn spec_kind(self) -> TokenKind {
        self.kind
    }

    /// The source span of the token.
    pub closed spec fn spec_span(self) -> SourceSpan {
        self.span
    }

    /// Creates a token.
    pub fn new(kind: TokenKind, span: SourceSpan) -> (r: Self)
        ensures
            r.spec_kind() == kind,
            r.spec_span() == span,
    {
        Token { kind, span }
    }

    /// Returns the kind of the token.
    pub fn kind(self) -> (r: TokenKind)
        ensures
            r == self.spec_kind(),
    {
        self.kind
    }

    /// Returns the source span of the token.
    pub fn span(self) -> (r: SourceSpan)
        ensures
            r == self.spec_span(),
    {
        self.span
    }

    /// Reads the raw text of the token from the source it came from.
    pub fn text(self, source: &SourceFile) -> (r: &str)
        requires
            span_fits(source.spec_bytes(), self.spec_span()),
        ensures
            r.spec_bytes() == source.spec_bytes().subrange(
                self.spec_span().spec_start() as int,
                self.spec_span().spec_end() as int,
            ),
    {
        source.slice(self.span)
    }

    /// Returns the line and column where the token starts.
    pub fn start_position(self, source: &SourceFile) -> (r: Result<SourcePosition, SourceError>)
        ensures
            span_fits(source.spec_bytes(), self.spec_span()) ==> r == Ok::<
                SourcePosition,
                SourceError,
            >(position_of(source.spec_bytes(), self.spec_span().spec_start() as int)),
    {
        source.position_at(self.span.start())
    }

    /// Returns the line and column just after the token.
    pub fn end_position(self, source: &SourceFile) -> (r: Result<SourcePosition, SourceError>)
        ensures
            span_fits(source.spec_bytes(), self.spec_span()) ==> r == Ok::<
                SourcePosition,
                SourceError,
            >(position_of(source.spec_bytes(), self.spec_span().spec_end() as int)),
    {
        source.position_at(self.span.end())
    }
}

/// Different keywords are spelled differently.
pub proof fn lemma_keyword_spellings_distinct(a: KeywordKind, b: KeywordKind)
    requires
        a != b,
    ensures
        a.spelling()@ != b.spelling()@,
{
    keyword_key_matches(a);
    keyword_key_matches(b);
}

/// A keyword is the only one with its spelling.
proof fn lemma_keyword_spelled_once(x: KeywordKind)
    ensures
        forall|k: KeywordKind| (#[trigger] k.spelling())@ == x.spelling()@ ==> k == x,
{
    assert forall|k: KeywordKind| (#[trigger] k.spelling())@ == x.spelling()@ implies k == x by {
        if k != x {
            lemma_keyword_spellings_distinct(k, x);
        }
    }
}

/// The length, first and last character of each spelling; no two agree.
spec fn keyword_key(k: KeywordKind) -> (int, char, char) {
    match k {
        KeywordKind::Def => (3int, 'd', 'f'),
        KeywordKind::If => (2int, 'i', 'f'),
        KeywordKind::Elif => (4int, 'e', 'f'),
        KeywordKind::Else => (4int, 'e', 'e'),
        KeywordKind::For => (3int, 'f', 'r'),
        KeywordKind::In => (2int, 'i', 'n'),
        KeywordKind::While => (5int, 'w', 'e'),
        KeywordKind::Return => (6int, 'r', 'n'),
        KeywordKind::Break => (5int, 'b', 'k'),
        KeywordKind::Continue => (8int, 'c', 'e'),
        KeywordKind::Try => (3int, 't', 'y'),
        KeywordKind::Catch => (5int, 'c', 'h'),
        KeywordKind::Finally => (7int, 'f', 'y'),
        KeywordKind::Raise => (5int, 'r', 'e'),
        KeywordKind::Const => (5int, 'c', 't'),
        KeywordKind::Import => (6int, 'i', 't'),
        KeywordKind::From => (4int, 'f', 'm'),
        KeywordKind::As => (2int, 'a', 's'),
        KeywordKind::New => (3int, 'n', 'w'),
        KeywordKind::Free => (4int, 'f', 'e'),
        KeywordKind::And => (3int, 'a', 'd'),
        KeywordKind::Or => (2int, 'o', 'r'),
        KeywordKind::Not => (3int, 'n', 't'),
        KeywordKind::Is => (2int, 'i', 's'),
        KeywordKind::Int => (3int, 'i', 't'),
        KeywordKind::Sint => (4int, 's', 't'),
        KeywordKind::Lint => (4int, 'l', 't'),
        KeywordKind::Float => (5int, 'f', 't'),
        KeywordKind::Sfloat => (6int, 's', 't'),
        KeywordKind::Lfloat => (6int, 'l', 't'),
        KeywordKind::Str => (3int, 's', 'r'),
        KeywordKind::Bool => (4int, 'b', 'l'),
    }
}

/// Each spelling has the length and end characters that `keyword_key` lists.
proof fn keyword_key_matches(k: KeywordKind)
    ensures
        k.spelling()@.len() == keyword_key(k).0,
        k.spelling()@.len() > 0,
        k.spelling()@[0] == keyword_key(k).1,
        k.spelling()@[k.spelling()@.len() - 1] == keyword_key(k).2,
{
    reveal_strlit("def");
    reveal_strlit("if");
    reveal_strlit("elif");
    reveal_strlit("else");
    reveal_strlit("for");
    reveal_strlit("in");
    reveal_strlit("while");
    reveal_strlit("return");
    reveal_strlit("break");
    reveal_strlit("continue");
    reveal_strlit("try");
    reveal_strlit("catch");
    reveal_strlit("finally");
    reveal_strlit("raise");
    reveal_strlit("const");
    reveal_strlit("import");
    reveal_strlit("from");
    reveal_strlit("as");
    reveal_strlit("new");
    reveal_strlit("free");
    reveal_strlit("and");
    reveal_strlit("or");
    reveal_strlit("not");
    reveal_strlit("is");
    reveal_strlit("int");
    reveal_strlit("sint");
    reveal_strlit("lint");
    reveal_strlit("float");
    reveal_strlit("sfloat");
    reveal_strlit("lfloat");
    reveal_strlit("str");
    reveal_strlit("bool");
}

} // verus!
