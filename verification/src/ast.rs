//! Abstract syntax tree of Xiao programs and stable node identities.
//!
//! The tree keeps raw UTF-8 byte spans and performs no type checking. A node
//! index is kept on the side as metadata so that node identity does not leak
//! into the node layout.

use vstd::prelude::*;
use vstd::string::StringSliceAdditionalSpecFns;
use crate::imports::ImportStatement;
use crate::selectors::{IndexPath, Selector, SelectorItem};
use crate::source::{span_fits, SourceFile, SourceSpan};
use crate::token::{KeywordKind, TokenKind};
use crate::utf8_layout::is_boundary;

verus! {

broadcast use vstd::utf8::group_utf8_lib;

/// Root node of a parsed program.
///
/// `statements` holds, in source order, the top-level statements that could be
/// recovered; documentation comments not attached to a later statement are kept
/// in `orphan_doc_comments`.
#[derive(Debug, PartialEq, Eq)]
pub struct Program {
    /// Top-level statements in source order.
    pub statements: Vec<Statement>,
    /// Documentation comments at the end of the file with no following statement.
    pub orphan_doc_comments: Vec<SourceSpan>,
    /// Span covering the whole input.
    pub span: SourceSpan,
    /// Entry mode; script mode unless a `[main]` header appears.
    pub entry_mode: EntryMode,
}

impl Program {
    /// Returns the span covered by the program.
    pub fn span(&self) -> (r: SourceSpan)
        ensures
            r == self.span,
    {
        self.span
    }

    /// Returns whether the program holds neither statements nor documentation comments.
    pub fn is_empty(&self) -> (r: bool)
        ensures
            r == (self.statements@.len() == 0 && self.orphan_doc_comments@.len() == 0),
    {
        self.statements.len() == 0 && self.orphan_doc_comments.len() == 0
    }
}

/// Static entry mode of a program.
#[derive(Clone, Copy, Debug, PartialEq, Eq, Structural)]
pub enum EntryMode {
    /// Top-level executable statements form the entry.
    Script,
    /// An explicit `[main]` entry header is present.
    Project {
        /// Span of the `[main]` header.
        span: SourceSpan,
    },
}

impl EntryMode {
    /// Returns whether this is script mode.
    pub fn is_script(self) -> (r: bool)
        ensures
            r == (self is Script),
    {
        match self {
            EntryMode::Script => true,
            EntryMode::Project { .. } => false,
        }
    }

    /// Returns whether this is project mode.
    pub fn is_project(self) -> (r: bool)
        ensures
            r == (self is Project),
    {
        match self {
            EntryMode::Script => false,
            EntryMode::Project { .. } => true,
        }
    }
}

/// The two static shapes of a table declaration.
///
/// A singleton table (`[Name]`) is a stable namespace; an instance table
/// (`[[Name]]`) is a target of `new`.
#[derive(Clone, Copy, Debug, PartialEq, Eq, Structural, Hash)]
pub enum TableKind {
    /// `[Name]` singleton table.
    Singleton,
    /// `[[Name]]` instance table.
    Instance,
}

impl TableKind {
    /// Returns the number of opening brackets of the header.
    pub fn opening_bracket_count(self) -> (r: usize)
        ensures
            r == (if self is Singleton { 1usize } else { 2usize }),
    {
        match self {
            TableKind::Singleton => 1,
            TableKind::Instance => 2,
        }
    }

    /// Returns whether the table can be constructed with `new`.
    pub fn is_instantiable(self) -> (r: bool)
        ensures
            r == (self is Instance),
    {
        match self {
            TableKind::Singleton => false,
            TableKind::Instance => true,
        }
    }

    /// Returns the stable header spelling.
    pub fn as_str(self) -> (r: &'static str)
        ensures
            r == (if self is Singleton { "[Table]" } else { "[[Table]]" }),
    {
        match self {
            TableKind::Singleton => "[Table]",
            TableKind::Instance => "[[Table]]",
        }
    }
}

/// Unary operators.
#[derive(Clone, Copy, Debug, PartialEq, Eq, Structural, Hash)]
pub enum UnaryOperator {
    /// Unary plus.
    Plus,
    /// Unary minus.
    Minus,
    /// Logical `not`.
    Not,
}

impl UnaryOperator {
    /// The source spelling of the operator.
    pub open spec fn spelling(self) -> &'static str {
        match self {
            UnaryOperator::Plus => "+",
            UnaryOperator::Minus => "-",
            UnaryOperator::Not => "not",
        }
    }

    /// Returns the source spelling of the operator.
    pub fn as_str(self) -> (r: &'static str)
        ensures
            r == self.spelling(),
    {
        match self {
            UnaryOperator::Plus => "+",
            UnaryOperator::Minus => "-",
            UnaryOperator::Not => "not",
        }
    }
}

/// Binary operators.
#[derive(Clone, Copy, Debug, PartialEq, Eq, Structural, Hash)]
pub enum BinaryOperator {
    /// Power `**`, right associative.
    Power,
    /// Multiplication `*`.
    Multiply,
    /// Division `/`.
    Divide,
    /// Floor division `//`.
    FloorDivide,
    /// Remainder `%`.
    Remainder,
    /// Addition or set union `+`.
    Add,
    /// Subtraction `-`.
    Subtract,
    /// Set intersection `&`.
    Intersect,
    /// Set symmetric difference `^`.
    SymmetricDifference,
    /// Less than `<`.
    Less,
    /// Less or equal `<=`.
    LessEqual,
    /// Greater than `>`.
    Greater,
    /// Greater or equal `>=`.
    GreaterEqual,
    /// Equality `==`.
    Equal,
    /// Inequality `!=`.
    NotEqual,
    /// Membership `in`.
    In,
    /// Negated membership `not in`.
    NotIn,
    /// Identity `is`.
    Is,
    /// Negated identity `is not`.
    IsNot,
    /// Logical `and`.
    And,
    /// Logical `or`.
    Or,
}

impl BinaryOperator {
    /// The source spelling of the operator.
    pub open spec fn spelling(self) -> &'static str {
        match self {
            BinaryOperator::Power => "**",
            BinaryOperator::Multiply => "*",
            BinaryOperator::Divide => "/",
            BinaryOperator::FloorDivide => "//",
            BinaryOperator::Remainder => "%",
            BinaryOperator::Add => "+",
            BinaryOperator::Subtract => "-",
            BinaryOperator::Intersect => "&",
            BinaryOperator::SymmetricDifference => "^",
            BinaryOperator::Less => "<",
            BinaryOperator::LessEqual => "<=",
            BinaryOperator::Greater => ">",
            BinaryOperator::GreaterEqual => ">=",
            BinaryOperator::Equal => "==",
            BinaryOperator::NotEqual => "!=",
            BinaryOperator::In => "in",
            BinaryOperator::NotIn => "not in",
            BinaryOperator::Is => "is",
            BinaryOperator::IsNot => "is not",
            BinaryOperator::And => "and",
            BinaryOperator::Or => "or",
        }
    }

    /// Returns the source spelling.
    pub fn as_str(self) -> (r: &'static str)
        ensures
            r == self.spelling(),
    {
        match self {
            BinaryOperator::Power => "**",
            BinaryOperator::Multiply => "*",
            BinaryOperator::Divide => "/",
            BinaryOperator::FloorDivide => "//",
            BinaryOperator::Remainder => "%",
            BinaryOperator::Add => "+",
            BinaryOperator::Subtract => "-",
            BinaryOperator::Intersect => "&",
            BinaryOperator::SymmetricDifference => "^",
            BinaryOperator::Less => "<",
            BinaryOperator::LessEqual => "<=",
            BinaryOperator::Greater => ">",
            BinaryOperator::GreaterEqual => ">=",
            BinaryOperator::Equal => "==",
            BinaryOperator::NotEqual => "!=",
            BinaryOperator::In => "in",
            BinaryOperator::NotIn => "not in",
            BinaryOperator::Is => "is",
            BinaryOperator::IsNot => "is not",
            BinaryOperator::And => "and",
            BinaryOperator::Or => "or",
        }
    }
}

/// Assignment operators.
#[derive(Clone, Copy, Debug, PartialEq, Eq, Structural, Hash)]
pub enum AssignmentOperator {
    /// Plain assignment `=`.
    Assign,
    /// `+=`.
    AddAssign,
    /// `-=`.
    SubtractAssign,
    /// `&=`.
    IntersectAssign,
    /// `^=`.
    SymmetricDifferenceAssign,
    /// `*=`.
    MultiplyAssign,
    /// `/=`.
    DivideAssign,
    /// `//=`.
    FloorDivideAssign,
    /// `%=`.
    RemainderAssign,
    /// `**=`.
    PowerAssign,
}

impl AssignmentOperator {
    /// The source spelling of the operator.
    pub open spec fn spelling(self) -> &'static str {
        match self {
            AssignmentOperator::Assign => "=",
            AssignmentOperator::AddAssign => "+=",
            AssignmentOperator::SubtractAssign => "-=",
            AssignmentOperator::IntersectAssign => "&=",
            AssignmentOperator::SymmetricDifferenceAssign => "^=",
            AssignmentOperator::MultiplyAssign => "*=",
            AssignmentOperator::DivideAssign => "/=",
            AssignmentOperator::FloorDivideAssign => "//=",
            AssignmentOperator::RemainderAssign => "%=",
            AssignmentOperator::PowerAssign => "**=",
        }
    }

    /// Returns the source spelling.
    pub fn as_str(self) -> (r: &'static str)
        ensures
            r == self.spelling(),
    {
        match self {
            AssignmentOperator::Assign => "=",
            AssignmentOperator::AddAssign => "+=",
            AssignmentOperator::SubtractAssign => "-=",
            AssignmentOperator::IntersectAssign => "&=",
            AssignmentOperator::SymmetricDifferenceAssign => "^=",
            AssignmentOperator::MultiplyAssign => "*=",
            AssignmentOperator::DivideAssign => "/=",
            AssignmentOperator::FloorDivideAssign => "//=",
            AssignmentOperator::RemainderAssign => "%=",
            AssignmentOperator::PowerAssign => "**=",
        }
    }
}

/// Scalar target types of `as` conversions and declarations.
#[derive(Clone, Copy, Debug, PartialEq, Eq, Structural, Hash)]
pub enum ScalarType {
    /// Default 64-bit integer.
    Int,
    /// 32-bit integer.
    Sint,
    /// Unbounded integer.
    Lint,
    /// Default 64-bit float.
    Float,
    /// 32-bit float.
    Sfloat,
    /// Unbounded float.
    Lfloat,
    /// String.
    Str,
    /// Boolean.
    Bool,
}

impl ScalarType {
    /// The source spelling of the type.
    pub open spec fn spelling(self) -> &'static str {
        match self {
            ScalarType::Int => "int",
            ScalarType::Sint => "sint",
            ScalarType::Lint => "lint",
            ScalarType::Float => "float",
            ScalarType::Sfloat => "sfloat",
            ScalarType::Lfloat => "lfloat",
            ScalarType::Str => "str",
            ScalarType::Bool => "bool",
        }
    }

    /// Returns the source spelling.
    pub fn as_str(self) -> (r: &'static str)
        ensures
            r == self.spelling(),
    {
        match self {
            ScalarType::Int => "int",
            ScalarType::Sint => "sint",
            ScalarType::Lint => "lint",
            ScalarType::Float => "float",
            ScalarType::Sfloat => "sfloat",
            ScalarType::Lfloat => "lfloat",
            ScalarType::Str => "str",
            ScalarType::Bool => "bool",
        }
    }

    /// Looks up a scalar type by its source spelling; unknown spellings give `None`.
    ///
    /// Shares one spelling table with [`Self::as_str`].
    pub fn from_name(name: &str) -> (r: Option<Self>)
        ensures
            r matches Some(t) ==> name@ == t.spelling()@,
            r is None ==> forall|t: ScalarType| name@ != (#[trigger] t.spelling())@,
            forall|t: ScalarType| name@ == (#[trigger] t.spelling())@ ==> r == Some(t),
    {
        if crate::token::same_text(name, "int") {
            proof {
                lemma_scalar_spelled_once(ScalarType::Int);
            }
            return Some(ScalarType::Int);
        }
        if crate::token::same_text(name, "sint") {
            proof {
                lemma_scalar_spelled_once(ScalarType::Sint);
            }
            return Some(ScalarType::Sint);
        }
        if crate::token::same_text(name, "lint") {
            proof {
                lemma_scalar_spelled_once(ScalarType::Lint);
            }
            return Some(ScalarType::Lint);
        }
        if crate::token::same_text(name, "float") {
            proof {
                lemma_scalar_spelled_once(ScalarType::Float);
            }
            return Some(ScalarType::Float);
        }
        if crate::token::same_text(name, "sfloat") {
            proof {
                lemma_scalar_spelled_once(ScalarType::Sfloat);
            }
            return Some(ScalarType::Sfloat);
        }
        if crate::token::same_text(name, "lfloat") {
            proof {
                lemma_scalar_spelled_once(ScalarType::Lfloat);
            }
            return Some(ScalarType::Lfloat);
        }
        if crate::token::same_text(name, "str") {
            proof {
                lemma_scalar_spelled_once(ScalarType::Str);
            }
            return Some(ScalarType::Str);
        }
        if crate::token::same_text(name, "bool") {
            proof {
                lemma_scalar_spelled_once(ScalarType::Bool);
            }
            return Some(ScalarType::Bool);
        }
        assert forall|t: ScalarType| name@ != (#[trigger] t.spelling())@ by {
            match t {
                ScalarType::Int => {},
                ScalarType::Sint => {},
                ScalarType::Lint => {},
                ScalarType::Float => {},
                ScalarType::Sfloat => {},
                ScalarType::Lfloat => {},
                ScalarType::Str => {},
                ScalarType::Bool => {},
            }
        }
        None
    }

    /// The scalar type named by a type keyword.
    pub open spec fn of_keyword(keyword: KeywordKind) -> Option<ScalarType> {
        match keyword {
            KeywordKind::Int => Some(ScalarType::Int),
            KeywordKind::Sint => Some(ScalarType::Sint),
            KeywordKind::Lint => Some(ScalarType::Lint),
            KeywordKind::Float => Some(ScalarType::Float),
            KeywordKind::Sfloat => Some(ScalarType::Sfloat),
            KeywordKind::Lfloat => Some(ScalarType::Lfloat),
            KeywordKind::Str => Some(ScalarType::Str),
            KeywordKind::Bool => Some(ScalarType::Bool),
            _ => None,
        }
    }

    /// Maps a type keyword to a conversion target; other keywords give `None`.
    pub fn from_keyword(keyword: KeywordKind) -> (r: Option<Self>)
        ensures
            r == Self::of_keyword(keyword),
            r matches Some(t) ==> t.spelling() == keyword.spelling(),
    {
        match keyword {
            KeywordKind::Int => Some(ScalarType::Int),
            KeywordKind::Sint => Some(ScalarType::Sint),
            KeywordKind::Lint => Some(ScalarType::Lint),
            KeywordKind::Float => Some(ScalarType::Float),
            KeywordKind::Sfloat => Some(ScalarType::Sfloat),
            KeywordKind::Lfloat => Some(ScalarType::Lfloat),
            KeywordKind::Str => Some(ScalarType::Str),
            KeywordKind::Bool => Some(ScalarType::Bool),
            _ => None,
        }
    }
}

/// Type terms allowed inside a set type annotation.
#[derive(Clone, Copy, Debug, PartialEq, Eq, Structural, Hash)]
pub enum TypeTerm {
    /// A scalar type term.
    Scalar(ScalarType),
    /// The `none` type term.
    NoneType,
}

impl TypeTerm {
    /// The stable spelling of the type term.
    pub open spec fn spelling(self) -> &'static str {
        match self {
            TypeTerm::Scalar(scalar) => scalar.spelling(),
            TypeTerm::NoneType => "none",
        }
    }

    /// Returns the stable spelling of the type term.
    pub fn as_str(self) -> (r: &'static str)
        ensures
            r == self.spelling(),
    {
        match self {
            TypeTerm::Scalar(scalar) => scalar.as_str(),
            TypeTerm::NoneType => "none",
        }
    }
}

/// A set type annotation such as `set<int | str>`.
#[derive(Clone, Debug, PartialEq, Eq, Hash)]
pub struct SetTypeAnnotation {
    /// Type terms in source order; the type layer deduplicates and normalises them.
    pub members: Vec<TypeTerm>,
    /// Span covering `set<...>`.
    pub span: SourceSpan,
}

impl SetTypeAnnotation {
    /// Creates a set type annotation.
    pub fn new(members: Vec<TypeTerm>, span: SourceSpan) -> (r: Self)
        ensures
            r.members@ == members@,
            r.span == span,
    {
        SetTypeAnnotation { members, span }
    }

    /// Returns whether the annotation has no type terms.
    pub fn is_empty(&self) -> (r: bool)
        ensures
            r == (self.members@.len() == 0),
    {
        self.members.len() == 0
    }
}

/// Explicit type of a declaration.
#[derive(Clone, Debug, PartialEq, Eq, Hash)]
pub enum DeclaredType {
    /// A scalar declaration such as `int name`.
    Scalar(ScalarType),
    /// A set declaration such as `set<T>` or `set<T | U>`.
    SetType(SetTypeAnnotation),
}

impl DeclaredType {
    /// The scalar type of a scalar declaration.
    pub open spec fn scalar_of(&self) -> Option<ScalarType> {
        match self {
            DeclaredType::Scalar(scalar) => Some(*scalar),
            DeclaredType::SetType(_) => None,
        }
    }

    /// Returns the scalar type; a set declaration gives `None`.
    pub fn as_scalar(&self) -> (r: Option<ScalarType>)
        ensures
            r == self.scalar_of(),
    {
        match self {
            DeclaredType::Scalar(scalar) => Some(*scalar),
            DeclaredType::SetType(_) => None,
        }
    }

    /// Returns the set annotation; a scalar declaration gives `None`.
    pub fn as_set(&self) -> (r: Option<&SetTypeAnnotation>)
        ensures
            r matches Some(a) ==> *self == DeclaredType::SetType(*a),
            r is None <==> self is Scalar,
    {
        match self {
            DeclaredType::Scalar(_) => None,
            DeclaredType::SetType(annotation) => Some(annotation),
        }
    }
}

/// Binding kind of a function parameter.
#[derive(Clone, Copy, Debug, PartialEq, Eq, Structural, Hash)]
pub enum FunctionParameterKind {
    /// Passed by position only (before the `/` marker).
    PositionalOnly,
    /// Passed by position or keyword.
    PositionalOrKeyword,
    /// Passed by keyword only (after a bare `*`).
    KeywordOnly,
    /// Variadic positional parameter (`*args`).
    VarArgs,
    /// Variadic keyword parameter (`**kwargs`).
    VarKeywords,
}

impl FunctionParameterKind {
    /// Returns whether the parameter consumes ordinary positional arguments.
    pub fn accepts_positional(self) -> (r: bool)
        ensures
            r == (self is PositionalOnly || self is PositionalOrKeyword || self is VarArgs),
    {
        match self {
            FunctionParameterKind::PositionalOnly | FunctionParameterKind::PositionalOrKeyword
            | FunctionParameterKind::VarArgs => true,
            _ => false,
        }
    }

    /// Returns whether the parameter can be passed by keyword.
    pub fn accepts_keyword(self) -> (r: bool)
        ensures
            r == (self is PositionalOrKeyword || self is KeywordOnly || self is VarKeywords),
    {
        match self {
            FunctionParameterKind::PositionalOrKeyword | FunctionParameterKind::KeywordOnly
            | FunctionParameterKind::VarKeywords => true,
            _ => false,
        }
    }
}

/// Explicit type annotation of a parameter or return value.
#[derive(Clone, Copy, Debug, PartialEq, Eq, Structural, Hash)]
pub enum FunctionTypeAnnotation {
    /// A scalar type.
    Scalar(ScalarType),
    /// The `none` type.
    NoneType,
}

impl FunctionTypeAnnotation {
    /// The stable spelling of the annotation.
    pub open spec fn spelling(self) -> &'static str {
        match self {
            FunctionTypeAnnotation::Scalar(scalar) => scalar.spelling(),
            FunctionTypeAnnotation::NoneType => "none",
        }
    }

    /// Returns the stable spelling of the annotation.
    pub fn as_str(self) -> (r: &'static str)
        ensures
            r == self.spelling(),
    {
        match self {
            FunctionTypeAnnotation::Scalar(scalar) => scalar.as_str(),
            FunctionTypeAnnotation::NoneType => "none",
        }
    }
}

/// A parameter of a function definition.
#[derive(Debug, PartialEq, Eq)]
pub struct FunctionParameter {
    /// Parameter name.
    pub name: Name,
    /// Binding kind.
    pub kind: FunctionParameterKind,
    /// Optional explicit type annotation.
    pub annotation: Option<FunctionTypeAnnotation>,
    /// Optional default value; variadic parameters have none.
    pub default: Option<Expression>,
    /// Span covering the whole parameter.
    pub span: SourceSpan,
}

impl FunctionParameter {
    /// Returns whether the parameter is variadic.
    pub fn is_variadic(&self) -> (r: bool)
        ensures
            r == (self.kind is VarArgs || self.kind is VarKeywords),
    {
        match self.kind {
            FunctionParameterKind::VarArgs | FunctionParameterKind::VarKeywords => true,
            _ => false,
        }
    }
}

/// How an argument is passed in a call.
#[derive(Clone, Copy, Debug, PartialEq, Eq, Structural, Hash)]
pub enum CallArgumentKind {
    /// Ordinary positional argument.
    Positional,
    /// `name=value` keyword argument.
    Keyword,
    /// `*values` positional expansion.
    Star,
    /// `**values` keyword expansion.
    DoubleStar,
}

/// An argument of a call expression.
#[derive(Debug, PartialEq, Eq)]
pub struct CallArgument {
    /// Name of a keyword argument; `None` for other kinds.
    pub name: Option<Name>,
    /// Argument expression (the expanded source for expansions).
    pub value: Expression,
    /// How the argument is passed.
    pub kind: CallArgumentKind,
    /// Span covering prefix, name and expression.
    pub span: SourceSpan,
}

impl CallArgument {
    /// Creates an ordinary positional argument spanning its expression.
    pub fn positional(value: Expression) -> (r: Self)
        ensures
            r.name is None,
            r.value == value,
            r.kind == CallArgumentKind::Positional,
            r.span == value.spec_span(),
    {
        let span = value.span();
        CallArgument { name: None, value, kind: CallArgumentKind::Positional, span }
    }

    /// Returns whether the argument is a keyword argument or an expansion.
    pub fn is_named_or_expanded(&self) -> (r: bool)
        ensures
            r == !(self.kind is Positional),
    {
        match self.kind {
            CallArgumentKind::Positional => false,
            _ => true,
        }
    }

    /// Returns the span of the argument.
    pub fn span(&self) -> (r: SourceSpan)
        ensures
            r == self.span,
    {
        self.span
    }
}

/// Condition and body of an `elif` branch.
#[derive(Debug, PartialEq, Eq)]
pub struct ElifBranch {
    /// Branch condition.
    pub condition: Expression,
    /// Indented branch body.
    pub body: Vec<Statement>,
    /// Documentation comments next to the branch.
    pub leading_docs: Vec<SourceSpan>,
    /// Span covering the `elif` header and its block.
    pub span: SourceSpan,
}

/// Static shape of a `catch` handler.
///
/// The error type stays a name so user-defined errors share the same tree; the
/// type layer checks its shape and the order of handlers.
#[derive(Debug, PartialEq, Eq)]
pub struct CatchClause {
    /// Name bound to the caught error.
    pub binding: Name,
    /// Name of the error type matched.
    pub error_type: Name,
    /// Handler body.
    pub body: Vec<Statement>,
    /// Documentation comments next to the `catch` header.
    pub leading_docs: Vec<SourceSpan>,
    /// Span covering the `catch` header and handler.
    pub span: SourceSpan,
}

/// Statements of Xiao programs.
#[derive(Debug, PartialEq, Eq)]
pub enum Statement {
    /// A standalone expression statement.
    Expression {
        /// The expression of the statement.
        expression: Expression,
        /// Documentation comments directly before the statement, in source order.
        leading_docs: Vec<SourceSpan>,
        /// Span of the statement without its line break.
        span: SourceSpan,
    },
    /// Assignment to a simple name.
    Assignment {
        /// Name on the left.
        target: Name,
        /// Expression on the right.
        value: Expression,
        /// Documentation comments directly before the statement.
        leading_docs: Vec<SourceSpan>,
        /// Span of the statement without its line break.
        span: SourceSpan,
    },
    /// Compound assignment or assignment to a selector target.
    ExtendedAssignment {
        /// Target expression; writability is checked later.
        target: Expression,
        /// Assignment operator.
        operator: AssignmentOperator,
        /// Expression on the right.
        value: Expression,
        /// Documentation comments directly before the statement.
        leading_docs: Vec<SourceSpan>,
        /// Span of the statement without its line break.
        span: SourceSpan,
    },
    /// Declaration with an explicit type, such as `int count = 1`.
    ///
    /// A missing `value` declares without initialising; reading such a name is
    /// reported by the type checker, not by the parser.
    Declaration {
        /// Declared name.
        target: Name,
        /// Explicit type fixed at declaration.
        declared_type: DeclaredType,
        /// Optional nested array path constraint such as `[3/2]`.
        constraint_path: Option<IndexPath>,
        /// Optional initialiser.
        value: Option<Expression>,
        /// Documentation comments directly before the statement.
        leading_docs: Vec<SourceSpan>,
        /// Span of the statement without its line break.
        span: SourceSpan,
    },
    /// Compile-time constant such as `const PI = 3.14`.
    ConstDeclaration {
        /// Constant name.
        target: Name,
        /// Optional explicit scalar type.
        declared_type: Option<ScalarType>,
        /// Required initialiser.
        value: Expression,
        /// Documentation comments directly before the statement.
        leading_docs: Vec<SourceSpan>,
        /// Span of the statement without its line break.
        span: SourceSpan,
    },
    /// `import` or `from ... import ...` statement.
    Import {
        /// The concrete import form.
        import: ImportStatement,
        /// Documentation comments directly before the statement.
        leading_docs: Vec<SourceSpan>,
        /// Span of the statement.
        span: SourceSpan,
    },
    /// `[Table]` or `[[Table]]` declaration.
    Table {
        /// Table name.
        name: Name,
        /// Singleton or instance shape.
        kind: TableKind,
        /// Members in source order.
        body: Vec<Statement>,
        /// Documentation comments next to the header.
        leading_docs: Vec<SourceSpan>,
        /// Span covering header and body.
        span: SourceSpan,
    },
    /// `def name(...) -> type` function definition.
    Function {
        /// Function name.
        name: Name,
        /// Parameters.
        parameters: Vec<FunctionParameter>,
        /// Optional return type annotation.
        return_type: Option<FunctionTypeAnnotation>,
        /// Indented body.
        body: Vec<Statement>,
        /// Documentation comments next to the definition.
        leading_docs: Vec<SourceSpan>,
        /// Span covering header and body.
        span: SourceSpan,
    },
    /// `if`, `elif`, `else` conditional.
    If {
        /// First condition.
        condition: Expression,
        /// First body.
        body: Vec<Statement>,
        /// Following `elif` branches.
        elif_branches: Vec<ElifBranch>,
        /// Optional `else` body.
        else_body: Option<Vec<Statement>>,
        /// Documentation comments next to the `if`.
        leading_docs: Vec<SourceSpan>,
        /// Span covering the whole chain.
        span: SourceSpan,
    },
    /// `for name in iterable` loop.
    For {
        /// Loop binding.
        target: Name,
        /// Iterated expression.
        iterable: Expression,
        /// Loop body.
        body: Vec<Statement>,
        /// Documentation comments next to the loop.
        leading_docs: Vec<SourceSpan>,
        /// Span covering header and body.
        span: SourceSpan,
    },
    /// `while condition` loop.
    While {
        /// Loop condition.
        condition: Expression,
        /// Loop body.
        body: Vec<Statement>,
        /// Documentation comments next to the loop.
        leading_docs: Vec<SourceSpan>,
        /// Span covering header and body.
        span: SourceSpan,
    },
    /// `return` statement.
    Return {
        /// Optional value; omitted means `none`.
        value: Option<Expression>,
        /// Documentation comments next to the statement.
        leading_docs: Vec<SourceSpan>,
        /// Span of the statement.
        span: SourceSpan,
    },
    /// `break` statement.
    Break {
        /// Documentation comments next to the statement.
        leading_docs: Vec<SourceSpan>,
        /// Span of the statement.
        span: SourceSpan,
    },
    /// `continue` statement.
    Continue {
        /// Documentation comments next to the statement.
        leading_docs: Vec<SourceSpan>,
        /// Span of the statement.
        span: SourceSpan,
    },
    /// `try` body, typed `catch` handlers and optional `finally` body.
    Try {
        /// Protected body.
        body: Vec<Statement>,
        /// Handlers in source order.
        catches: Vec<CatchClause>,
        /// Optional cleanup body.
        finally_body: Option<Vec<Statement>>,
        /// Documentation comments next to the `try`.
        leading_docs: Vec<SourceSpan>,
        /// Span covering the whole construct.
        span: SourceSpan,
    },
    /// Raises a recoverable error value.
    Raise {
        /// Error expression.
        value: Expression,
        /// Documentation comments next to the statement.
        leading_docs: Vec<SourceSpan>,
        /// Span of the statement.
        span: SourceSpan,
    },
}

impl Statement {
    /// The span of the statement.
    pub open spec fn spec_span(&self) -> SourceSpan {
        match self {
            Statement::Expression { span, .. } => *span,
            Statement::Assignment { span, .. } => *span,
            Statement::ExtendedAssignment { span, .. } => *span,
            Statement::Declaration { span, .. } => *span,
            Statement::ConstDeclaration { span, .. } => *span,
            Statement::Import { span, .. } => *span,
            Statement::Table { span, .. } => *span,
            Statement::Function { span, .. } => *span,
            Statement::If { span, .. } => *span,
            Statement::For { span, .. } => *span,
            Statement::While { span, .. } => *span,
            Statement::Return { span, .. } => *span,
            Statement::Break { span, .. } => *span,
            Statement::Continue { span, .. } => *span,
            Statement::Try { span, .. } => *span,
            Statement::Raise { span, .. } => *span,
        }
    }

    /// The documentation comments attached before the statement.
    pub open spec fn spec_leading_docs(&self) -> Seq<SourceSpan> {
        match self {
            Statement::Expression { leading_docs, .. } => leading_docs@,
            Statement::Assignment { leading_docs, .. } => leading_docs@,
            Statement::ExtendedAssignment { leading_docs, .. } => leading_docs@,
            Statement::Declaration { leading_docs, .. } => leading_docs@,
            Statement::ConstDeclaration { leading_docs, .. } => leading_docs@,
            Statement::Import { leading_docs, .. } => leading_docs@,
            Statement::Table { leading_docs, .. } => leading_docs@,
            Statement::Function { leading_docs, .. } => leading_docs@,
            Statement::If { leading_docs, .. } => leading_docs@,
            Statement::For { leading_docs, .. } => leading_docs@,
            Statement::While { leading_docs, .. } => leading_docs@,
            Statement::Return { leading_docs, .. } => leading_docs@,
            Statement::Break { leading_docs, .. } => leading_docs@,
            Statement::Continue { leading_docs, .. } => leading_docs@,
            Statement::Try { leading_docs, .. } => leading_docs@,
            Statement::Raise { leading_docs, .. } => leading_docs@,
        }
    }

    /// The main expression of the statement: the right-hand side of an
    /// assignment, the initialiser of a declaration, the value of `return` or
    /// `raise`, or the expression of an expression statement.
    pub open spec fn main_expression(&self) -> Option<Expression> {
        match self {
            Statement::Expression { expression, .. } => Some(*expression),
            Statement::Assignment { value, .. } => Some(*value),
            Statement::ExtendedAssignment { value, .. } => Some(*value),
            Statement::Declaration { value, .. } => *value,
            Statement::ConstDeclaration { value, .. } => Some(*value),
            Statement::Return { value, .. } => *value,
            Statement::Raise { value, .. } => Some(*value),
            _ => None,
        }
    }

    /// Returns the span of the statement.
    pub fn span(&self) -> (r: SourceSpan)
        ensures
            r == self.spec_span(),
    {
        match self {
            Statement::Expression { span, .. } => *span,
            Statement::Assignment { span, .. } => *span,
            Statement::ExtendedAssignment { span, .. } => *span,
            Statement::Declaration { span, .. } => *span,
            Statement::ConstDeclaration { span, .. } => *span,
            Statement::Import { span, .. } => *span,
            Statement::Table { span, .. } => *span,
            Statement::Function { span, .. } => *span,
            Statement::If { span, .. } => *span,
            Statement::For { span, .. } => *span,
            Statement::While { span, .. } => *span,
            Statement::Return { span, .. } => *span,
            Statement::Break { span, .. } => *span,
            Statement::Continue { span, .. } => *span,
            Statement::Try { span, .. } => *span,
            Statement::Raise { span, .. } => *span,
        }
    }

    /// Returns the documentation comments attached before the statement.
    pub fn leading_docs(&self) -> (r: &[SourceSpan])
        ensures
            r@ == self.spec_leading_docs(),
    {
        match self {
            Statement::Expression { leading_docs, .. } => leading_docs.as_slice(),
            Statement::Assignment { leading_docs, .. } => leading_docs.as_slice(),
            Statement::ExtendedAssignment { leading_docs, .. } => leading_docs.as_slice(),
            Statement::Declaration { leading_docs, .. } => leading_docs.as_slice(),
            Statement::ConstDeclaration { leading_docs, .. } => leading_docs.as_slice(),
            Statement::Import { leading_docs, .. } => leading_docs.as_slice(),
            Statement::Table { leading_docs, .. } => leading_docs.as_slice(),
            Statement::Function { leading_docs, .. } => leading_docs.as_slice(),
            Statement::If { leading_docs, .. } => leading_docs.as_slice(),
            Statement::For { leading_docs, .. } => leading_docs.as_slice(),
            Statement::While { leading_docs, .. } => leading_docs.as_slice(),
            Statement::Return { leading_docs, .. } => leading_docs.as_slice(),
            Statement::Break { leading_docs, .. } => leading_docs.as_slice(),
            Statement::Continue { leading_docs, .. } => leading_docs.as_slice(),
            Statement::Try { leading_docs, .. } => leading_docs.as_slice(),
            Statement::Raise { leading_docs, .. } => leading_docs.as_slice(),
        }
    }

    /// Returns the main expression of a statement that has one.
    ///
    /// Statements without a main expression (an uninitialised declaration, an
    /// import, a block statement, a bare `return`, `break` or `continue`) are
    /// excluded; use [`Self::try_expression`] to ask first.
    pub fn expression(&self) -> (r: &Expression)
        requires
            self.main_expression() is Some,
        ensures
            self.main_expression() == Some(*r),
    {
        match self {
            Statement::Expression { expression, .. } => expression,
            Statement::Assignment { value, .. } => value,
            Statement::ExtendedAssignment { value, .. } => value,
            Statement::Declaration { value, .. } => value.as_ref().unwrap(),
            Statement::ConstDeclaration { value, .. } => value,
            Statement::Return { value, .. } => value.as_ref().unwrap(),
            Statement::Raise { value, .. } => value,
            _ => unreached(),
        }
    }

    /// Returns the main expression, or `None` when the statement has none.
    pub fn try_expression(&self) -> (r: Option<&Expression>)
        ensures
            r is Some <==> self.main_expression() is Some,
            r matches Some(e) ==> self.main_expression() == Some(*e),
    {
        match self {
            Statement::Expression { expression, .. } => Some(expression),
            Statement::Assignment { value, .. } => Some(value),
            Statement::ExtendedAssignment { value, .. } => Some(value),
            Statement::Declaration { value, .. } => value.as_ref(),
            Statement::ConstDeclaration { value, .. } => Some(value),
            Statement::Return { value, .. } => value.as_ref(),
            Statement::Raise { value, .. } => Some(value),
            _ => None,
        }
    }

    /// Returns the assignment operator; other statements give `None`.
    pub fn assignment_operator(&self) -> (r: Option<AssignmentOperator>)
        ensures
            r == (match self {
                Statement::Assignment { .. } => Some(AssignmentOperator::Assign),
                Statement::ExtendedAssignment { operator, .. } => Some(*operator),
                _ => None::<AssignmentOperator>,
            }),
    {
        match self {
            Statement::Assignment { .. } => Some(AssignmentOperator::Assign),
            Statement::ExtendedAssignment { operator, .. } => Some(*operator),
            _ => None,
        }
    }

    /// Returns the declared name; non-declarations give `None`.
    pub fn declaration_target(&self) -> (r: Option<Name>)
        ensures
            r == (match self {
                Statement::Declaration { target, .. } => Some(*target),
                Statement::ConstDeclaration { target, .. } => Some(*target),
                _ => None::<Name>,
            }),
    {
        match self {
            Statement::Declaration { target, .. } => Some(*target),
            Statement::ConstDeclaration { target, .. } => Some(*target),
            _ => None,
        }
    }

    /// Returns the explicit scalar type of a declaration; untyped constants,
    /// set declarations and other statements give `None`.
    pub fn declared_type(&self) -> (r: Option<ScalarType>)
        ensures
            r == (match self {
                Statement::Declaration { declared_type, .. } => declared_type.scalar_of(),
                Statement::ConstDeclaration { declared_type, .. } => *declared_type,
                _ => None::<ScalarType>,
            }),
    {
        match self {
            Statement::Declaration { declared_type, .. } => declared_type.as_scalar(),
            Statement::ConstDeclaration { declared_type, .. } => *declared_type,
            _ => None,
        }
    }

    /// Returns the full type annotation of a typed declaration.
    pub fn type_annotation(&self) -> (r: Option<&DeclaredType>)
        ensures
            r is Some <==> self is Declaration,
            r matches Some(t) ==> (self matches Statement::Declaration { declared_type, .. }
                && declared_type == *t),
    {
        match self {
            Statement::Declaration { declared_type, .. } => Some(declared_type),
            _ => None,
        }
    }

    /// Returns whether the statement is a compile-time constant declaration.
    pub fn is_const_declaration(&self) -> (r: bool)
        ensures
            r == (self is ConstDeclaration),
    {
        match self {
            Statement::ConstDeclaration { .. } => true,
            _ => false,
        }
    }

    /// Returns the initialiser of a declaration, if any.
    pub fn initializer(&self) -> (r: Option<&Expression>)
        ensures
            r is Some <==> (self matches Statement::Declaration { value: Some(_), .. }
                || self is ConstDeclaration),
            r matches Some(e) ==> self.main_expression() == Some(*e),
    {
        match self {
            Statement::Declaration { value, .. } => value.as_ref(),
            Statement::ConstDeclaration { value, .. } => Some(value),
            _ => None,
        }
    }

    /// Returns the array path constraint of a declaration, if any.
    pub fn declaration_path(&self) -> (r: Option<&IndexPath>)
        ensures
            r is Some <==> (self matches Statement::Declaration { constraint_path: Some(_), .. }),
            r matches Some(p) ==> (self matches Statement::Declaration {
                constraint_path: Some(q),
                ..
            } && q == *p),
    {
        match self {
            Statement::Declaration { constraint_path, .. } => constraint_path.as_ref(),
            _ => None,
        }
    }

    /// Returns the name of a table declaration.
    pub fn table_name(&self) -> (r: Option<Name>)
        ensures
            r == (match self {
                Statement::Table { name, .. } => Some(*name),
                _ => None::<Name>,
            }),
    {
        match self {
            Statement::Table { name, .. } => Some(*name),
            _ => None,
        }
    }

    /// Returns the shape of a table declaration.
    pub fn table_kind(&self) -> (r: Option<TableKind>)
        ensures
            r == (match self {
                Statement::Table { kind, .. } => Some(*kind),
                _ => None::<TableKind>,
            }),
    {
        match self {
            Statement::Table { kind, .. } => Some(*kind),
            _ => None,
        }
    }

    /// Returns the members of a table declaration.
    pub fn table_body(&self) -> (r: Option<&[Statement]>)
        ensures
            r is Some <==> self is Table,
            r matches Some(members) ==> (self matches Statement::Table { body, .. }
                && members@ == body@),
    {
        match self {
            Statement::Table { body, .. } => Some(body.as_slice()),
            _ => None,
        }
    }
}

/// A name and its raw source span.
#[derive(Clone, Copy, Debug, PartialEq, Eq, Structural, Hash)]
pub struct Name {
    /// Full span; backtick names include both backticks.
    pub span: SourceSpan,
    /// Whether the name is wrapped in backticks.
    pub backticked: bool,
}

impl Name {
    /// Returns the full span of the name.
    pub fn span(self) -> (r: SourceSpan)
        ensures
            r == self.span,
    {
        self.span
    }

    /// Reads the raw text of the name, keeping backticks and escapes.
    pub fn text(self, source: &SourceFile) -> (r: &str)
        requires
            span_fits(source.spec_bytes(), self.span),
        ensures
            r.spec_bytes() == source.spec_bytes().subrange(
                self.span.spec_start() as int,
                self.span.spec_end() as int,
            ),
    {
        source.slice(self.span)
    }

    /// The bytes of the name without one pair of outer backticks.
    pub open spec fn unquoted_bytes(self, b: Seq<u8>) -> Seq<u8> {
        let s = self.span.spec_start() as int;
        let e = self.span.spec_end() as int;
        if self.backticked && e - s >= 2 {
            b.subrange(s + 1, e - 1)
        } else {
            b.subrange(s, e)
        }
    }

    /// Reads the text of the name with one pair of outer backticks removed;
    /// escapes inside are kept as written.
    pub fn unquoted_text(self, source: &SourceFile) -> (r: &str)
        requires
            span_fits(source.spec_bytes(), self.span),
            self.backticked && self.span.spec_end() - self.span.spec_start() >= 2 ==> {
                &&& is_boundary(source.spec_bytes(), self.span.spec_start() + 1)
                &&& is_boundary(source.spec_bytes(), self.span.spec_end() - 1)
            },
        ensures
            r.spec_bytes() == self.unquoted_bytes(source.spec_bytes()),
    {
        let text = self.text(source);
        if self.backticked && text.len() >= 2 {
            let ghost b = source.spec_bytes();
            let ghost t = text.spec_bytes();
            let ghost s = self.span.spec_start() as int;
            proof {
                assert(t == b.subrange(s, self.span.spec_end() as int));
                assert(t[1] == b[s + 1]);
                assert(t[t.len() - 1] == b[self.span.spec_end() - 1]);
                crate::utf8_layout::lemma_boundary_is_char_boundary(t, 1);
            }
            let (_, tail) = text.split_at(1);
            proof {
                assert(tail.spec_bytes() == t.subrange(1, t.len() as int));
                assert(tail.spec_bytes()[t.len() - 2] == t[t.len() - 1]);
                crate::utf8_layout::lemma_boundary_is_char_boundary(tail.spec_bytes(), t.len() - 2);
            }
            let (middle, _) = tail.split_at(text.len() - 2);
            proof {
                assert(middle.spec_bytes() =~= b.subrange(s + 1, self.span.spec_end() - 1));
            }
            middle
        } else {
            text
        }
    }
}

/// Expression tree.
#[derive(Debug, PartialEq, Eq)]
pub enum Expression {
    /// A literal with its raw span.
    Literal {
        /// Literal kind.
        kind: LiteralKind,
        /// Literal span.
        span: SourceSpan,
    },
    /// Array literal; elements may be any expression.
    ArrayLiteral {
        /// Elements in source order.
        elements: Vec<Expression>,
        /// Span including the brackets.
        span: SourceSpan,
    },
    /// Tuple literal.
    TupleLiteral {
        /// Elements in source order.
        elements: Vec<Expression>,
        /// Span including the parentheses.
        span: SourceSpan,
    },
    /// Unordered dictionary table literal.
    DictTableLiteral {
        /// Entries in source order; the semantics do not depend on it.
        entries: Vec<DictEntry>,
        /// Span including the braces.
        span: SourceSpan,
    },
    /// Unordered set literal.
    ///
    /// Elements keep source order only so that diagnostics and node indices are
    /// stable; the order is not an observable iteration order.
    SetLiteral {
        /// Elements in source order.
        elements: Vec<Expression>,
        /// Span including the braces.
        span: SourceSpan,
    },
    /// Dictionary column literal, which keeps its written order.
    DictColumnLiteral {
        /// Entries in source order.
        entries: Vec<DictEntry>,
        /// Span including the angle brackets.
        span: SourceSpan,
    },
    /// A plain, backtick or constructor-type name reference.
    Name(Name),
    /// Parenthesised expression.
    Group {
        /// Inner expression.
        expression: Box<Expression>,
        /// Span including the parentheses.
        span: SourceSpan,
    },
    /// Unary expression.
    Unary {
        /// Operator.
        operator: UnaryOperator,
        /// Operand.
        operand: Box<Expression>,
        /// Span of the expression.
        span: SourceSpan,
    },
    /// Binary expression.
    Binary {
        /// Operator.
        operator: BinaryOperator,
        /// Left operand.
        left: Box<Expression>,
        /// Right operand.
        right: Box<Expression>,
        /// Span of the expression.
        span: SourceSpan,
    },
    /// Ordinary call of a function or constructor.
    Call {
        /// Called expression.
        callee: Box<Expression>,
        /// Positional, keyword and expanded arguments in source order.
        arguments: Vec<CallArgument>,
        /// Span of the expression.
        span: SourceSpan,
    },
    /// `new Type(args...)` construction.
    NewCall {
        /// Constructed type or name.
        callee: Box<Expression>,
        /// Positional, keyword and expanded arguments in source order.
        arguments: Vec<CallArgument>,
        /// Span of the expression.
        span: SourceSpan,
    },
    /// Member access with a dot.
    Member {
        /// Object owning the member.
        object: Box<Expression>,
        /// Member name.
        member: Name,
        /// Span of the expression.
        span: SourceSpan,
    },
    /// `value as scalar_type` conversion.
    Cast {
        /// Converted expression.
        expression: Box<Expression>,
        /// Scalar target type.
        target: ScalarType,
        /// Span of the expression.
        span: SourceSpan,
    },
    /// Index or selector suffix with an optional step.
    Selector {
        /// Selected source expression.
        source: Box<Expression>,
        /// Optional step expression.
        step: Option<Box<Expression>>,
        /// Bracketed selector.
        selector: Selector,
        /// Span of the expression.
        span: SourceSpan,
    },
}

impl Expression {
    /// The span covered by the expression.
    pub open spec fn spec_span(&self) -> SourceSpan {
        match self {
            Expression::Literal { span, .. } => *span,
            Expression::ArrayLiteral { span, .. } => *span,
            Expression::TupleLiteral { span, .. } => *span,
            Expression::DictTableLiteral { span, .. } => *span,
            Expression::SetLiteral { span, .. } => *span,
            Expression::DictColumnLiteral { span, .. } => *span,
            Expression::Name(name) => name.span,
            Expression::Group { span, .. } => *span,
            Expression::Unary { span, .. } => *span,
            Expression::Binary { span, .. } => *span,
            Expression::Call { span, .. } => *span,
            Expression::NewCall { span, .. } => *span,
            Expression::Member { span, .. } => *span,
            Expression::Cast { span, .. } => *span,
            Expression::Selector { span, .. } => *span,
        }
    }

    /// Returns the span covered by the expression.
    pub fn span(&self) -> (r: SourceSpan)
        ensures
            r == self.spec_span(),
    {
        match self {
            Expression::Literal { span, .. } => *span,
            Expression::ArrayLiteral { span, .. } => *span,
            Expression::TupleLiteral { span, .. } => *span,
            Expression::DictTableLiteral { span, .. } => *span,
            Expression::SetLiteral { span, .. } => *span,
            Expression::DictColumnLiteral { span, .. } => *span,
            Expression::Name(name) => name.span,
            Expression::Group { span, .. } => *span,
            Expression::Unary { span, .. } => *span,
            Expression::Binary { span, .. } => *span,
            Expression::Call { span, .. } => *span,
            Expression::NewCall { span, .. } => *span,
            Expression::Member { span, .. } => *span,
            Expression::Cast { span, .. } => *span,
            Expression::Selector { span, .. } => *span,
        }
    }

    /// Returns the end offset of the expression's span.
    pub fn span_end(&self) -> (r: usize)
        ensures
            r == self.spec_span().spec_end(),
    {
        self.span().end()
    }

    /// Returns the literal kind; non-literals give `None`.
    pub fn literal_kind(&self) -> (r: Option<LiteralKind>)
        ensures
            r == (match self {
                Expression::Literal { kind, .. } => Some(*kind),
                _ => None::<LiteralKind>,
            }),
    {
        match self {
            Expression::Literal { kind, .. } => Some(*kind),
            _ => None,
        }
    }

    /// Reads the raw source text of the expression.
    pub fn text<'source>(&self, source: &'source SourceFile) -> (r: &'source str)
        requires
            span_fits(source.spec_bytes(), self.spec_span()),
        ensures
            r.spec_bytes() == source.spec_bytes().subrange(
                self.spec_span().spec_start() as int,
                self.spec_span().spec_end() as int,
            ),
    {
        source.slice(self.span())
    }
}

/// Literal kinds recognised by the parser.
#[derive(Clone, Copy, Debug, PartialEq, Eq, Structural, Hash)]
pub enum LiteralKind {
    /// Decimal integer.
    Integer,
    /// Decimal floating point number.
    Float,
    /// Single- or double-quoted string.
    String,
    /// `true` or `false`.
    Boolean,
    /// `none`.
    NoneLiteral,
}

impl LiteralKind {
    /// The literal kind of a literal token kind.
    pub open spec fn of_token_kind(kind: TokenKind) -> Option<LiteralKind> {
        match kind {
            TokenKind::Integer => Some(LiteralKind::Integer),
            TokenKind::Float => Some(LiteralKind::Float),
            TokenKind::String => Some(LiteralKind::String),
            TokenKind::Boolean => Some(LiteralKind::Boolean),
            TokenKind::NoneLiteral => Some(LiteralKind::NoneLiteral),
            _ => None,
        }
    }

    /// Maps a literal token kind to a literal kind; other kinds give `None`.
    pub fn from_token_kind(kind: TokenKind) -> (r: Option<Self>)
        ensures
            r == Self::of_token_kind(kind),
            r is Some <==> kind.spec_is_literal(),
    {
        match kind {
            TokenKind::Integer => Some(LiteralKind::Integer),
            TokenKind::Float => Some(LiteralKind::Float),
            TokenKind::String => Some(LiteralKind::String),
            TokenKind::Boolean => Some(LiteralKind::Boolean),
            TokenKind::NoneLiteral => Some(LiteralKind::NoneLiteral),
            _ => None,
        }
    }
}

/// Key of a dictionary entry: a name or a string literal.
#[derive(Clone, Copy, Debug, PartialEq, Eq, Structural, Hash)]
pub enum DictKey {
    /// Bare or backtick name key.
    Name(Name),
    /// String literal key; the span includes the quotes.
    String(SourceSpan),
}

impl DictKey {
    /// The span of the key.
    pub open spec fn spec_span(self) -> SourceSpan {
        match self {
            DictKey::Name(name) => name.span,
            DictKey::String(span) => span,
        }
    }

    /// Returns the span of the key.
    pub fn span(self) -> (r: SourceSpan)
        ensures
            r == self.spec_span(),
    {
        match self {
            DictKey::Name(name) => name.span,
            DictKey::String(span) => span,
        }
    }
}

/// An entry of a dictionary table or column.
#[derive(Debug, PartialEq, Eq)]
pub struct DictEntry {
    /// Name or string key.
    pub key: DictKey,
    /// Value expression.
    pub value: Expression,
    /// Span from the key to the end of the value.
    pub span: SourceSpan,
}

/// Identity of a syntax node, stable within one module.
///
/// Identities are handed out by [`NodeIndex::build`] in source preorder; they
/// encode no memory address and are never shared between modules.
#[derive(Clone, Copy, Debug, PartialEq, Eq, Structural, Hash, PartialOrd, Ord)]
pub struct NodeId(u32);

impl NodeId {
    /// The numeric value of the identity.
    pub closed spec fn spec_get(self) -> u32 {
        self.0
    }

    /// Creates an identity; meant for the syntax and type layers building indices.
    pub fn new(raw: u32) -> (r: Self)
        ensures
            r.spec_get() == raw,
    {
        NodeId(raw)
    }

    /// Returns the numeric value of the identity.
    pub fn get(self) -> (r: u32)
        ensures
            r == self.spec_get(),
    {
        self.0
    }
}

/// The spans of a list of numbered nodes, in order.
pub open spec fn spans_of(nodes: Seq<(NodeId, SourceSpan)>) -> Seq<SourceSpan> {
    nodes.map_values(|node: (NodeId, SourceSpan)| node.1)
}

/// Every node is numbered by its position in the list.
pub open spec fn ids_sequential(nodes: Seq<(NodeId, SourceSpan)>) -> bool {
    forall|i: int| 0 <= i < nodes.len() ==> (#[trigger] nodes[i]).0.spec_get() == i as u32
}

/// Preorder spans of the nodes of an expression: the expression itself, then
/// its parts in written order.
pub open spec fn expression_nodes(e: Expression) -> Seq<SourceSpan>
    decreases e, 0int,
{
    let own = seq![e.spec_span()];
    match e {
        Expression::Literal { .. } => own,
        Expression::Name(_) => own,
        Expression::ArrayLiteral { elements, .. } => own + expressions_nodes(
            elements@,
            elements@.len() as int,
        ),
        Expression::TupleLiteral { elements, .. } => own + expressions_nodes(
            elements@,
            elements@.len() as int,
        ),
        Expression::SetLiteral { elements, .. } => own + expressions_nodes(
            elements@,
            elements@.len() as int,
        ),
        Expression::DictTableLiteral { entries, .. } => own + entries_nodes(
            entries@,
            entries@.len() as int,
        ),
        Expression::DictColumnLiteral { entries, .. } => own + entries_nodes(
            entries@,
            entries@.len() as int,
        ),
        Expression::Group { expression, .. } => own + expression_nodes(*expression),
        Expression::Unary { operand, .. } => own + expression_nodes(*operand),
        Expression::Cast { expression, .. } => own + expression_nodes(*expression),
        Expression::Binary { left, right, .. } => own + expression_nodes(*left)
            + expression_nodes(*right),
        Expression::Call { callee, arguments, .. } => own + expression_nodes(*callee)
            + arguments_nodes(arguments@, arguments@.len() as int),
        Expression::NewCall { callee, arguments, .. } => own + expression_nodes(*callee)
            + arguments_nodes(arguments@, arguments@.len() as int),
        Expression::Member { object, .. } => own + expression_nodes(*object),
        Expression::Selector { source, step, selector, .. } => own + expression_nodes(*source)
            + match step {
            Some(step) => expression_nodes(*step),
            None => Seq::empty(),
        } + items_nodes(selector.items@, selector.items@.len() as int),
    }
}

/// Preorder spans of the first `n` expressions of a list.
pub open spec fn expressions_nodes(es: Seq<Expression>, n: int) -> Seq<SourceSpan>
    decreases es, n,
{
    if n <= 0 || n > es.len() {
        Seq::empty()
    } else {
        expressions_nodes(es, n - 1) + expression_nodes(es[n - 1])
    }
}

/// Preorder spans of the first `n` dictionary entries: each key, then its value.
pub open spec fn entries_nodes(es: Seq<DictEntry>, n: int) -> Seq<SourceSpan>
    decreases es, n,
{
    if n <= 0 || n > es.len() {
        Seq::empty()
    } else {
        entries_nodes(es, n - 1) + seq![es[n - 1].key.spec_span()] + expression_nodes(
            es[n - 1].value,
        )
    }
}

/// Preorder spans of the first `n` call arguments: each argument, then its value.
pub open spec fn arguments_nodes(args: Seq<CallArgument>, n: int) -> Seq<SourceSpan>
    decreases args, n,
{
    if n <= 0 || n > args.len() {
        Seq::empty()
    } else {
        arguments_nodes(args, n - 1) + seq![args[n - 1].span] + expression_nodes(
            args[n - 1].value,
        )
    }
}

/// Preorder spans of the count expressions of the random items among the
/// first `n` selector items.
pub open spec fn items_nodes(items: Seq<SelectorItem>, n: int) -> Seq<SourceSpan>
    decreases items, n,
{
    if n <= 0 || n > items.len() {
        Seq::empty()
    } else {
        items_nodes(items, n - 1) + match items[n - 1] {
            SelectorItem::Random { count, .. } => expression_nodes(*count),
            _ => Seq::empty(),
        }
    }
}

/// Preorder spans of the first `n` parameters: each parameter, then its default.
pub open spec fn parameters_nodes(ps: Seq<FunctionParameter>, n: int) -> Seq<SourceSpan>
    decreases n,
{
    if n <= 0 || n > ps.len() {
        Seq::empty()
    } else {
        parameters_nodes(ps, n - 1) + seq![ps[n - 1].span] + match ps[n - 1].default {
            Some(d) => expression_nodes(d),
            None => Seq::empty(),
        }
    }
}

/// Preorder spans of the nodes of a statement: the statement itself, then its
/// expressions, parameters, branches and bodies in written order.
pub open spec fn statement_nodes(s: Statement) -> Seq<SourceSpan>
    decreases s, 0int,
{
    let own = seq![s.spec_span()];
    match s {
        Statement::Expression { expression, .. } => own + expression_nodes(expression),
        Statement::Assignment { value, .. } => own + expression_nodes(value),
        Statement::ConstDeclaration { value, .. } => own + expression_nodes(value),
        Statement::Declaration { value, .. } => match value {
            Some(v) => own + expression_nodes(v),
            None => own,
        },
        Statement::Import { .. } => own,
        Statement::Table { body, .. } => own + statements_nodes(body@, body@.len() as int),
        Statement::ExtendedAssignment { target, value, .. } => own + expression_nodes(target)
            + expression_nodes(value),
        Statement::Function { parameters, body, .. } => own + parameters_nodes(
            parameters@,
            parameters@.len() as int,
        ) + statements_nodes(body@, body@.len() as int),
        Statement::If { condition, body, elif_branches, else_body, .. } => own + expression_nodes(
            condition,
        ) + statements_nodes(body@, body@.len() as int) + elifs_nodes(
            elif_branches@,
            elif_branches@.len() as int,
        ) + match else_body {
            Some(b) => statements_nodes(b@, b@.len() as int),
            None => Seq::empty(),
        },
        Statement::For { iterable, body, .. } => own + expression_nodes(iterable)
            + statements_nodes(body@, body@.len() as int),
        Statement::While { condition, body, .. } => own + expression_nodes(condition)
            + statements_nodes(body@, body@.len() as int),
        Statement::Return { value, .. } => match value {
            Some(v) => own + expression_nodes(v),
            None => own,
        },
        Statement::Break { .. } => own,
        Statement::Continue { .. } => own,
        Statement::Raise { value, .. } => own + expression_nodes(value),
        Statement::Try { body, catches, finally_body, .. } => own + statements_nodes(
            body@,
            body@.len() as int,
        ) + catches_nodes(catches@, catches@.len() as int) + match finally_body {
            Some(b) => statements_nodes(b@, b@.len() as int),
            None => Seq::empty(),
        },
    }
}

/// Preorder spans of the first `n` statements of a block.
pub open spec fn statements_nodes(ss: Seq<Statement>, n: int) -> Seq<SourceSpan>
    decreases ss, n,
{
    if n <= 0 || n > ss.len() {
        Seq::empty()
    } else {
        statements_nodes(ss, n - 1) + statement_nodes(ss[n - 1])
    }
}

/// Preorder spans of the first `n` `elif` branches: each branch, its condition,
/// then its body.
pub open spec fn elifs_nodes(bs: Seq<ElifBranch>, n: int) -> Seq<SourceSpan>
    decreases bs, n,
{
    if n <= 0 || n > bs.len() {
        Seq::empty()
    } else {
        elifs_nodes(bs, n - 1) + seq![bs[n - 1].span] + expression_nodes(bs[n - 1].condition)
            + statements_nodes(bs[n - 1].body@, bs[n - 1].body@.len() as int)
    }
}

/// Preorder spans of the first `n` `catch` handlers: each handler, its binding,
/// its error type, then its body.
pub open spec fn catches_nodes(cs: Seq<CatchClause>, n: int) -> Seq<SourceSpan>
    decreases cs, n,
{
    if n <= 0 || n > cs.len() {
        Seq::empty()
    } else {
        catches_nodes(cs, n - 1) + seq![
            cs[n - 1].span,
            cs[n - 1].binding.span,
            cs[n - 1].error_type.span,
        ] + statements_nodes(cs[n - 1].body@, cs[n - 1].body@.len() as int)
    }
}

/// Preorder spans of all nodes of a program.
pub open spec fn program_nodes(p: Program) -> Seq<SourceSpan> {
    statements_nodes(p.statements@, p.statements@.len() as int)
}

/// Side index from syntax nodes to stable identities.
#[derive(Clone, Debug, PartialEq, Eq)]
pub struct NodeIndex {
    /// Node identities and spans in source preorder.
    pub nodes: Vec<(NodeId, SourceSpan)>,
}

proof fn lemma_spans_push(nodes: Seq<(NodeId, SourceSpan)>, node: (NodeId, SourceSpan))
    ensures
        spans_of(nodes.push(node)) == spans_of(nodes).push(node.1),
{
    assert(spans_of(nodes.push(node)) =~= spans_of(nodes).push(node.1));
}

proof fn lemma_append_assoc(a: Seq<SourceSpan>, b: Seq<SourceSpan>, c: Seq<SourceSpan>)
    ensures
        a + b + c == a + (b + c),
{
    assert(a + b + c =~= a + (b + c));
}

impl NodeIndex {
    /// Builds the node index of a program, numbering nodes in source preorder.
    pub fn build(program: &Program) -> (r: Self)
        ensures
            ids_sequential(r.nodes@),
            spans_of(r.nodes@) == program_nodes(*program),
    {
        let mut index = NodeIndex { nodes: Vec::new() };
        proof {
            assert(spans_of(index.nodes@) =~= Seq::<SourceSpan>::empty());
        }
        index.visit_block(&program.statements);
        index
    }

    /// Returns the number of indexed nodes.
    pub fn len(&self) -> (r: usize)
        ensures
            r == self.nodes@.len(),
    {
        self.nodes.len()
    }

    /// Returns whether the index holds no node.
    pub fn is_empty(&self) -> (r: bool)
        ensures
            r == (self.nodes@.len() == 0),
    {
        self.nodes.len() == 0
    }

    /// Hands the next identity to a span.
    fn push(&mut self, span: SourceSpan)
        requires
            ids_sequential(old(self).nodes@),
        ensures
            ids_sequential(final(self).nodes@),
            spans_of(final(self).nodes@) == spans_of(old(self).nodes@).push(span),
    {
        let id = NodeId::new(self.nodes.len() as u32);
        self.nodes.push((id, span));
        proof {
            lemma_spans_push(old(self).nodes@, (id, span));
        }
    }

    /// Visits the statements of a block in order.
    #[verifier::loop_isolation(false)]
    fn visit_block(&mut self, body: &Vec<Statement>)
        requires
            ids_sequential(old(self).nodes@),
        ensures
            ids_sequential(final(self).nodes@),
            spans_of(final(self).nodes@) == spans_of(old(self).nodes@) + statements_nodes(
                body@,
                body@.len() as int,
            ),
        decreases body, 1int,
    {
        let ghost before = spans_of(self.nodes@);
        let mut i: usize = 0;
        proof {
            assert(before + statements_nodes(body@, 0) =~= before);
        }
        while i < body.len()
            invariant
                i <= body.len(),
                ids_sequential(self.nodes@),
                spans_of(self.nodes@) == before + statements_nodes(body@, i as int),
            decreases body.len() - i,
        {
            self.visit_statement(&body[i]);
            proof {
                lemma_append_assoc(before, statements_nodes(body@, i as int), statement_nodes(body@[i as int]));
            }
            i += 1;
        }
    }

    /// Visits a list of expressions in order.
    #[verifier::loop_isolation(false)]
    fn visit_expressions(&mut self, es: &Vec<Expression>)
        requires
            ids_sequential(old(self).nodes@),
        ensures
            ids_sequential(final(self).nodes@),
            spans_of(final(self).nodes@) == spans_of(old(self).nodes@) + expressions_nodes(
                es@,
                es@.len() as int,
            ),
        decreases es, 1int,
    {
        let ghost before = spans_of(self.nodes@);
        let mut i: usize = 0;
        proof {
            assert(before + expressions_nodes(es@, 0) =~= before);
        }
        while i < es.len()
            invariant
                i <= es.len(),
                ids_sequential(self.nodes@),
                spans_of(self.nodes@) == before + expressions_nodes(es@, i as int),
            decreases es.len() - i,
        {
            let ghost mid = spans_of(self.nodes@);
            let item = &es[i];
            self.visit_expression(item);
            proof {
                assert(spans_of(self.nodes@) == mid + (expression_nodes(es@[i as int])));
                lemma_append_assoc(before, expressions_nodes(es@, i as int), expression_nodes(es@[i as int]));
            }
            i += 1;
        }
    }

    /// Visits dictionary entries: each key, then its value.
    #[verifier::loop_isolation(false)]
    fn visit_entries(&mut self, es: &Vec<DictEntry>)
        requires
            ids_sequential(old(self).nodes@),
        ensures
            ids_sequential(final(self).nodes@),
            spans_of(final(self).nodes@) == spans_of(old(self).nodes@) + entries_nodes(
                es@,
                es@.len() as int,
            ),
        decreases es, 1int,
    {
        let ghost before = spans_of(self.nodes@);
        let mut i: usize = 0;
        proof {
            assert(before + entries_nodes(es@, 0) =~= before);
        }
        while i < es.len()
            invariant
                i <= es.len(),
                ids_sequential(self.nodes@),
                spans_of(self.nodes@) == before + entries_nodes(es@, i as int),
            decreases es.len() - i,
        {
            let ghost mid = spans_of(self.nodes@);
            let item = &es[i];
            self.push(item.key.span());
            self.visit_expression(&item.value);
            proof {
                assert(spans_of(self.nodes@) == mid + (seq![es@[i as int].key.spec_span()] + expression_nodes(es@[i as int].value)));
                lemma_append_assoc(before, entries_nodes(es@, i as int), seq![es@[i as int].key.spec_span()] + expression_nodes(es@[i as int].value));
            }
            i += 1;
        }
    }

    /// Visits call arguments: each argument, then its value.
    #[verifier::loop_isolation(false)]
    fn visit_arguments(&mut self, args: &Vec<CallArgument>)
        requires
            ids_sequential(old(self).nodes@),
        ensures
            ids_sequential(final(self).nodes@),
            spans_of(final(self).nodes@) == spans_of(old(self).nodes@) + arguments_nodes(
                args@,
                args@.len() as int,
            ),
        decreases args, 1int,
    {
        let ghost before = spans_of(self.nodes@);
        let mut i: usize = 0;
        proof {
            assert(before + arguments_nodes(args@, 0) =~= before);
        }
        while i < args.len()
            invariant
                i <= args.len(),
                ids_sequential(self.nodes@),
                spans_of(self.nodes@) == before + arguments_nodes(args@, i as int),
            decreases args.len() - i,
        {
            let ghost mid = spans_of(self.nodes@);
            let item = &args[i];
            self.push(item.span);
            self.visit_expression(&item.value);
            proof {
                assert(spans_of(self.nodes@) == mid + (seq![args@[i as int].span] + expression_nodes(args@[i as int].value)));
                lemma_append_assoc(before, arguments_nodes(args@, i as int), seq![args@[i as int].span] + expression_nodes(args@[i as int].value));
            }
            i += 1;
        }
    }

    /// Visits the count expressions of random selector items.
    #[verifier::loop_isolation(false)]
    fn visit_items(&mut self, items: &Vec<SelectorItem>)
        requires
            ids_sequential(old(self).nodes@),
        ensures
            ids_sequential(final(self).nodes@),
            spans_of(final(self).nodes@) == spans_of(old(self).nodes@) + items_nodes(
                items@,
                items@.len() as int,
            ),
        decreases items, 1int,
    {
        let ghost before = spans_of(self.nodes@);
        let mut i: usize = 0;
        proof {
            assert(before + items_nodes(items@, 0) =~= before);
        }
        while i < items.len()
            invariant
                i <= items.len(),
                ids_sequential(self.nodes@),
                spans_of(self.nodes@) == before + items_nodes(items@, i as int),
            decreases items.len() - i,
        {
            let ghost mid = spans_of(self.nodes@);
            let item = &items[i];
            match item {
                SelectorItem::Random { count, .. } => self.visit_expression(count),
                _ => {}
            }
            proof {
                assert(spans_of(self.nodes@) == mid + (match items@[i as int] {
                    SelectorItem::Random { count, .. } => expression_nodes(*count),
                    _ => Seq::empty(),
                }));
                lemma_append_assoc(before, items_nodes(items@, i as int), match items@[i as int] {
                    SelectorItem::Random { count, .. } => expression_nodes(*count),
                    _ => Seq::empty(),
                });
            }
            i += 1;
        }
    }

    /// Visits parameters: each parameter, then its default value.
    #[verifier::loop_isolation(false)]
    fn visit_parameters(&mut self, ps: &Vec<FunctionParameter>)
        requires
            ids_sequential(old(self).nodes@),
        ensures
            ids_sequential(final(self).nodes@),
            spans_of(final(self).nodes@) == spans_of(old(self).nodes@) + parameters_nodes(
                ps@,
                ps@.len() as int,
            ),
        decreases ps, 1int,
    {
        let ghost before = spans_of(self.nodes@);
        let mut i: usize = 0;
        proof {
            assert(before + parameters_nodes(ps@, 0) =~= before);
        }
        while i < ps.len()
            invariant
                i <= ps.len(),
                ids_sequential(self.nodes@),
                spans_of(self.nodes@) == before + parameters_nodes(ps@, i as int),
            decreases ps.len() - i,
        {
            let ghost mid = spans_of(self.nodes@);
            let item = &ps[i];
            self.push(item.span);
            match &item.default {
                Some(default) => self.visit_expression(default),
                None => {}
            }
            proof {
                assert(spans_of(self.nodes@) == mid + (seq![ps@[i as int].span] + match ps@[i as int].default {
                    Some(d) => expression_nodes(d),
                    None => Seq::empty(),
                }));
                lemma_append_assoc(before, parameters_nodes(ps@, i as int), seq![ps@[i as int].span] + match ps@[i as int].default {
                    Some(d) => expression_nodes(d),
                    None => Seq::empty(),
                });
            }
            i += 1;
        }
    }

    /// Visits `elif` branches: each branch, its condition, then its body.
    #[verifier::loop_isolation(false)]
    fn visit_elifs(&mut self, bs: &Vec<ElifBranch>)
        requires
            ids_sequential(old(self).nodes@),
        ensures
            ids_sequential(final(self).nodes@),
            spans_of(final(self).nodes@) == spans_of(old(self).nodes@) + elifs_nodes(
                bs@,
                bs@.len() as int,
            ),
        decreases bs, 1int,
    {
        let ghost before = spans_of(self.nodes@);
        let mut i: usize = 0;
        proof {
            assert(before + elifs_nodes(bs@, 0) =~= before);
        }
        while i < bs.len()
            invariant
                i <= bs.len(),
                ids_sequential(self.nodes@),
                spans_of(self.nodes@) == before + elifs_nodes(bs@, i as int),
            decreases bs.len() - i,
        {
            let ghost mid = spans_of(self.nodes@);
            let item = &bs[i];
            self.push(item.span);
            self.visit_expression(&item.condition);
            self.visit_block(&item.body);
            proof {
                assert(spans_of(self.nodes@) == mid + (seq![bs@[i as int].span] + expression_nodes(bs@[i as int].condition) + statements_nodes(bs@[i as int].body@, bs@[i as int].body@.len() as int)));
                lemma_append_assoc(before, elifs_nodes(bs@, i as int), seq![bs@[i as int].span] + expression_nodes(bs@[i as int].condition) + statements_nodes(bs@[i as int].body@, bs@[i as int].body@.len() as int));
            }
            i += 1;
        }
    }

    /// Visits `catch` handlers: each handler, its binding, its error type, then its body.
    #[verifier::loop_isolation(false)]
    fn visit_catches(&mut self, cs: &Vec<CatchClause>)
        requires
            ids_sequential(old(self).nodes@),
        ensures
            ids_sequential(final(self).nodes@),
            spans_of(final(self).nodes@) == spans_of(old(self).nodes@) + catches_nodes(
                cs@,
                cs@.len() as int,
            ),
        decreases cs, 1int,
    {
        let ghost before = spans_of(self.nodes@);
        let mut i: usize = 0;
        proof {
            assert(before + catches_nodes(cs@, 0) =~= before);
        }
        while i < cs.len()
            invariant
                i <= cs.len(),
                ids_sequential(self.nodes@),
                spans_of(self.nodes@) == before + catches_nodes(cs@, i as int),
            decreases cs.len() - i,
        {
            let ghost mid = spans_of(self.nodes@);
            let item = &cs[i];
            self.push(item.span);
            self.push(item.binding.span);
            self.push(item.error_type.span);
            self.visit_block(&item.body);
            proof {
                assert(spans_of(self.nodes@) == mid + (seq![cs@[i as int].span, cs@[i as int].binding.span, cs@[i as int].error_type.span] + statements_nodes(cs@[i as int].body@, cs@[i as int].body@.len() as int)));
                lemma_append_assoc(before, catches_nodes(cs@, i as int), seq![cs@[i as int].span, cs@[i as int].binding.span, cs@[i as int].error_type.span] + statements_nodes(cs@[i as int].body@, cs@[i as int].body@.len() as int));
            }
            i += 1;
        }
    }

    /// Visits a statement and its parts in source preorder.
    fn visit_statement(&mut self, statement: &Statement)
        requires
            ids_sequential(old(self).nodes@),
        ensures
            ids_sequential(final(self).nodes@),
            spans_of(final(self).nodes@) == spans_of(old(self).nodes@) + statement_nodes(*statement),
        decreases statement, 0int,
    {
        let ghost before = spans_of(self.nodes@);
        self.push(statement.span());
        match statement {
            Statement::Expression { expression, .. } => {
                self.visit_expression(expression);
            },
            Statement::Assignment { value, .. } => {
                self.visit_expression(value);
            },
            Statement::ConstDeclaration { value, .. } => {
                self.visit_expression(value);
            },
            Statement::Declaration { value, .. } => {
                match value {
                    Some(v) => self.visit_expression(v),
                    None => {},
                }
            },
            Statement::Import { .. } => {},
            Statement::Table { body, .. } => {
                self.visit_block(body);
            },
            Statement::ExtendedAssignment { target, value, .. } => {
                self.visit_expression(target);
                self.visit_expression(value);
            },
            Statement::Function { parameters, body, .. } => {
                self.visit_parameters(parameters);
                self.visit_block(body);
            },
            Statement::If { condition, body, elif_branches, else_body, .. } => {
                self.visit_expression(condition);
                self.visit_block(body);
                self.visit_elifs(elif_branches);
                match else_body {
                    Some(b) => self.visit_block(b),
                    None => {},
                }
            },
            Statement::For { iterable, body, .. } => {
                self.visit_expression(iterable);
                self.visit_block(body);
            },
            Statement::While { condition, body, .. } => {
                self.visit_expression(condition);
                self.visit_block(body);
            },
            Statement::Return { value, .. } => {
                match value {
                    Some(v) => self.visit_expression(v),
                    None => {},
                }
            },
            Statement::Break { .. } => {},
            Statement::Continue { .. } => {},
            Statement::Raise { value, .. } => {
                self.visit_expression(value);
            },
            Statement::Try { body, catches, finally_body, .. } => {
                self.visit_block(body);
                self.visit_catches(catches);
                match finally_body {
                    Some(b) => self.visit_block(b),
                    None => {},
                }
            },
        }
        proof {
            assert(spans_of(self.nodes@) =~= before + statement_nodes(*statement));
        }
    }

    /// Visits an expression and its parts in written order.
    fn visit_expression(&mut self, expression: &Expression)
        requires
            ids_sequential(old(self).nodes@),
        ensures
            ids_sequential(final(self).nodes@),
            spans_of(final(self).nodes@) == spans_of(old(self).nodes@) + expression_nodes(*expression),
        decreases expression, 0int,
    {
        let ghost before = spans_of(self.nodes@);
        self.push(expression.span());
        match expression {
            Expression::Literal { .. } => {},
            Expression::Name(_) => {},
            Expression::ArrayLiteral { elements, .. } => {
                self.visit_expressions(elements);
            },
            Expression::TupleLiteral { elements, .. } => {
                self.visit_expressions(elements);
            },
            Expression::SetLiteral { elements, .. } => {
                self.visit_expressions(elements);
            },
            Expression::DictTableLiteral { entries, .. } => {
                self.visit_entries(entries);
            },
            Expression::DictColumnLiteral { entries, .. } => {
                self.visit_entries(entries);
            },
            Expression::Group { expression, .. } => {
                self.visit_expression(expression);
            },
            Expression::Unary { operand, .. } => {
                self.visit_expression(operand);
            },
            Expression::Cast { expression, .. } => {
                self.visit_expression(expression);
            },
            Expression::Binary { left, right, .. } => {
                self.visit_expression(left);
                self.visit_expression(right);
            },
            Expression::Call { callee, arguments, .. } => {
                self.visit_expression(callee);
                self.visit_arguments(arguments);
            },
            Expression::NewCall { callee, arguments, .. } => {
                self.visit_expression(callee);
                self.visit_arguments(arguments);
            },
            Expression::Member { object, .. } => {
                self.visit_expression(object);
            },
            Expression::Selector { source, step, selector, .. } => {
                self.visit_expression(source);
                match step {
                    Some(step) => self.visit_expression(step),
                    None => {},
                }
                self.visit_items(&selector.items);
            },
        }
        proof {
            assert(spans_of(self.nodes@) =~= before + expression_nodes(*expression));
        }
    }
}

/// Different binary operators are spelled differently, so an operator can be
/// read back from its spelling.
pub proof fn lemma_binary_spellings_distinct(a: BinaryOperator, b: BinaryOperator)
    requires
        a != b,
    ensures
        a.spelling()@ != b.spelling()@,
{
    binary_key_matches(a);
    binary_key_matches(b);
}

/// Different scalar types are spelled differently.
pub proof fn lemma_scalar_spellings_distinct(a: ScalarType, b: ScalarType)
    requires
        a != b,
    ensures
        a.spelling()@ != b.spelling()@,
{
    scalar_key_matches(a);
    scalar_key_matches(b);
}

/// A scalar type is the only one with its spelling.
proof fn lemma_scalar_spelled_once(x: ScalarType)
    ensures
        forall|t: ScalarType| (#[trigger] t.spelling())@ == x.spelling()@ ==> t == x,
{
    assert forall|t: ScalarType| (#[trigger] t.spelling())@ == x.spelling()@ implies t == x by {
        if t != x {
            lemma_scalar_spellings_distinct(t, x);
        }
    }
}

/// The length, first and last character of each spelling; no two agree.
spec fn binary_key(k: BinaryOperator) -> (int, char, char) {
    match k {
        BinaryOperator::Power => (2int, '*', '*'),
        BinaryOperator::Multiply => (1int, '*', '*'),
        BinaryOperator::Divide => (1int, '/', '/'),
        BinaryOperator::FloorDivide => (2int, '/', '/'),
        BinaryOperator::Remainder => (1int, '%', '%'),
        BinaryOperator::Add => (1int, '+', '+'),
        BinaryOperator::Subtract => (1int, '-', '-'),
        BinaryOperator::Intersect => (1int, '&', '&'),
        BinaryOperator::SymmetricDifference => (1int, '^', '^'),
        BinaryOperator::Less => (1int, '<', '<'),
        BinaryOperator::LessEqual => (2int, '<', '='),
        BinaryOperator::Greater => (1int, '>', '>'),
        BinaryOperator::GreaterEqual => (2int, '>', '='),
        BinaryOperator::Equal => (2int, '=', '='),
        BinaryOperator::NotEqual => (2int, '!', '='),
        BinaryOperator::In => (2int, 'i', 'n'),
        BinaryOperator::NotIn => (6int, 'n', 'n'),
        BinaryOperator::Is => (2int, 'i', 's'),
        BinaryOperator::IsNot => (6int, 'i', 't'),
        BinaryOperator::And => (3int, 'a', 'd'),
        BinaryOperator::Or => (2int, 'o', 'r'),
    }
}

/// Each spelling has the length and end characters that `binary_key` lists.
proof fn binary_key_matches(k: BinaryOperator)
    ensures
        k.spelling()@.len() == binary_key(k).0,
        k.spelling()@.len() > 0,
        k.spelling()@[0] == binary_key(k).1,
        k.spelling()@[k.spelling()@.len() - 1] == binary_key(k).2,
{
    reveal_strlit("**");
    reveal_strlit("*");
    reveal_strlit("/");
    reveal_strlit("//");
    reveal_strlit("%");
    reveal_strlit("+");
    reveal_strlit("-");
    reveal_strlit("&");
    reveal_strlit("^");
    reveal_strlit("<");
    reveal_strlit("<=");
    reveal_strlit(">");
    reveal_strlit(">=");
    reveal_strlit("==");
    reveal_strlit("!=");
    reveal_strlit("in");
    reveal_strlit("not in");
    reveal_strlit("is");
    reveal_strlit("is not");
    reveal_strlit("and");
    reveal_strlit("or");
}

/// The length, first and last character of each spelling; no two agree.
spec fn scalar_key(k: ScalarType) -> (int, char, char) {
    match k {
        ScalarType::Int => (3int, 'i', 't'),
        ScalarType::Sint => (4int, 's', 't'),
        ScalarType::Lint => (4int, 'l', 't'),
        ScalarType::Float => (5int, 'f', 't'),
        ScalarType::Sfloat => (6int, 's', 't'),
        ScalarType::Lfloat => (6int, 'l', 't'),
        ScalarType::Str => (3int, 's', 'r'),
        ScalarType::Bool => (4int, 'b', 'l'),
    }
}

/// Each spelling has the length and end characters that `scalar_key` lists.
proof fn scalar_key_matches(k: ScalarType)
    ensures
        k.spelling()@.len() == scalar_key(k).0,
        k.spelling()@.len() > 0,
        k.spelling()@[0] == scalar_key(k).1,
        k.spelling()@[k.spelling()@.len() - 1] == scalar_key(k).2,
{
    reveal_strlit("int");
    reveal_strlit("sint");
    reveal_strlit("lint");
    reveal_strlit("float");
    reveal_strlit("sfloat");
    reveal_strlit("lfloat");
    reveal_strlit("str");
    reveal_strlit("bool");
}

} // verus!
