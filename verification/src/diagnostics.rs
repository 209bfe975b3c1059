//! Stable diagnostic codes of the lexer and parser, and the structured
//! diagnostic value they produce.

use vstd::prelude::*;
use crate::source::SourceSpan;

verus! {

/// Stable code for input that is not valid UTF-8 (shared with the source layer).
pub const INVALID_UTF8_CODE: &'static str = "X01-SOURCE-001";

/// Stable code for a character the lexer cannot recognise.
pub const INVALID_CHARACTER_CODE: &'static str = "X01-LEX-001";

/// Stable code for a string literal that is not closed.
pub const UNTERMINATED_STRING_CODE: &'static str = "X01-LEX-002";

/// Stable code for an unsupported escape in a string literal.
pub const INVALID_ESCAPE_CODE: &'static str = "X01-LEX-003";

/// Stable code for a number literal with an incomplete structure.
pub const INVALID_NUMBER_CODE: &'static str = "X01-LEX-004";

/// Stable code for a backtick name that is not closed.
pub const UNTERMINATED_BACKTICK_CODE: &'static str = "X01-LEX-005";

/// Stable code for a documentation comment that is not closed.
pub const UNTERMINATED_DOC_COMMENT_CODE: &'static str = "X01-LEX-006";

/// Stable code for an indentation width that is not a level of four spaces.
pub const INCONSISTENT_INDENT_CODE: &'static str = "X01-LEX-007";

/// Stable code for an unsupported escape inside a backtick name.
pub const INVALID_BACKTICK_ESCAPE_CODE: &'static str = "X01-LEX-008";

/// Stable code for a closing delimiter that does not match the innermost open one.
pub const UNMATCHED_DELIMITER_CODE: &'static str = "X01-LEX-009";

/// Stable code for delimiters still open at the end of the file.
pub const UNTERMINATED_DELIMITER_CODE: &'static str = "X01-LEX-010";

/// Stable code for a token that cannot start an expression.
pub const INVALID_EXPRESSION_CODE: &'static str = "X01-PARSE-001";

/// Stable code for an assignment whose target is not a name.
pub const INVALID_ASSIGNMENT_TARGET_CODE: &'static str = "X01-PARSE-002";

/// Stable code for an indented block where none is supported.
pub const UNSUPPORTED_BLOCK_CODE: &'static str = "X01-PARSE-003";

/// Stable code for an assignment without a right-hand side.
pub const MISSING_ASSIGNMENT_VALUE_CODE: &'static str = "X01-PARSE-004";

/// Stable code for an unsupported expression tail.
pub const UNSUPPORTED_EXPRESSION_CODE: &'static str = "X01-PARSE-005";

/// Stable code for a malformed selector or path.
pub const INVALID_SELECTOR_CODE: &'static str = "X01-PARSE-006";

/// Stable code for a missing paired delimiter.
pub const MISSING_DELIMITER_CODE: &'static str = "X01-PARSE-007";

/// Stable code for an `as` target that is not a supported scalar type.
pub const INVALID_CAST_TARGET_CODE: &'static str = "X01-PARSE-008";

/// Stable code for a missing expression.
pub const MISSING_EXPRESSION_CODE: &'static str = "X01-PARSE-009";

/// Stable code for an invalid expression after an assignment operator.
pub const INVALID_ASSIGNMENT_CODE: &'static str = "X01-PARSE-010";

/// Stable code for an incomplete declaration.
pub const INVALID_DECLARATION_CODE: &'static str = "X02-PARSE-001";

/// Stable code for a `const` declaration without a value.
pub const MISSING_CONST_VALUE_CODE: &'static str = "X02-PARSE-002";

/// Stable code for a declaration target that is not a name.
pub const INVALID_DECLARATION_TARGET_CODE: &'static str = "X02-PARSE-003";

/// Stable code for a malformed container literal.
pub const INVALID_CONTAINER_CODE: &'static str = "X03-PARSE-001";

/// Stable code for a container entry without value or key separator.
pub const INVALID_CONTAINER_ENTRY_CODE: &'static str = "X03-PARSE-002";

/// Stable code for a container selector other than an exact index.
pub const UNSUPPORTED_CONTAINER_SELECTOR_CODE: &'static str = "X03-PARSE-003";

/// Stable code for an unsupported `const name[path]` form.
pub const UNSUPPORTED_CONST_PATH_CODE: &'static str = "X03-PARSE-004";

/// Stable code for a malformed `set<...>` type annotation.
pub const INVALID_SET_TYPE_ANNOTATION_CODE: &'static str = "X03-PARSE-005";

/// Stable code for a `const` declaration with a set type, which is not supported yet.
pub const UNSUPPORTED_CONST_SET_TYPE_CODE: &'static str = "X03-PARSE-006";

/// Stable code for a set type annotation on a declaration with a path.
pub const UNSUPPORTED_SET_TYPE_PATH_CODE: &'static str = "X03-PARSE-007";

/// Stable code for a malformed function header.
pub const INVALID_FUNCTION_CODE: &'static str = "X04-PARSE-001";

/// Stable code for a malformed function parameter list.
pub const INVALID_PARAMETER_CODE: &'static str = "X04-PARSE-002";

/// Stable code for a block header without an indented body.
pub const MISSING_BLOCK_CODE: &'static str = "X04-PARSE-003";

/// Stable code for a malformed control-flow statement.
pub const INVALID_CONTROL_FLOW_CODE: &'static str = "X04-PARSE-004";

/// Stable code for a function return type that is not a scalar or `none`.
pub const INVALID_FUNCTION_TYPE_CODE: &'static str = "X04-PARSE-005";

/// Stable code for a malformed or repeated `[main]` entry header.
pub const INVALID_ENTRY_CODE: &'static str = "X04-PARSE-006";

/// Stable code for an import path that does not start with an ASCII module name.
pub const INVALID_IMPORT_PATH_CODE: &'static str = "X05-PARSE-001";

/// Stable code for a malformed list of import targets.
pub const INVALID_IMPORT_TARGET_CODE: &'static str = "X05-PARSE-002";

/// Stable code for a missing or invalid import alias.
pub const INVALID_IMPORT_ALIAS_CODE: &'static str = "X05-PARSE-003";

/// Stable code for relative and wildcard imports, which are not supported.
pub const UNSUPPORTED_IMPORT_FORM_CODE: &'static str = "X05-PARSE-004";

/// Stable code for a malformed table header.
pub const INVALID_TABLE_HEADER_CODE: &'static str = "X05-PARSE-005";

/// Stable code for a table member that is not a field or a method.
pub const INVALID_TABLE_MEMBER_CODE: &'static str = "X05-PARSE-006";

/// Stable code for a table declaration without an indented body.
pub const MISSING_TABLE_BODY_CODE: &'static str = "X05-PARSE-007";

/// Stable code for a malformed `catch` header or `raise` statement.
pub const INVALID_ERROR_CONTROL_FLOW_CODE: &'static str = "X07-PARSE-001";

/// Stable code for a `try` block with neither `catch` nor `finally`.
pub const MISSING_ERROR_HANDLER_CODE: &'static str = "X07-PARSE-002";

/// Stable code for `raise` without an error expression.
pub const MISSING_RAISE_VALUE_CODE: &'static str = "X07-PARSE-003";

/// How serious a diagnostic is.
#[derive(Clone, Copy, Debug, PartialEq, Eq, Structural, Hash)]
pub enum Severity {
    /// The input is rejected.
    Error,
    /// The input is accepted with a remark.
    Warning,
}

/// A structured diagnostic: stable code, message identity, optional source
/// span and rendered message.
#[derive(Clone, Debug, PartialEq, Eq)]
pub struct Diagnostic {
    /// Severity of the diagnostic.
    pub severity: Severity,
    /// Stable machine code, for example `X01-LEX-001`.
    pub code: &'static str,
    /// Stable message identity for localisation.
    pub message_id: &'static str,
    /// Source span the diagnostic points at.
    pub span: Option<SourceSpan>,
    /// Rendered message text.
    pub message: String,
}

impl Diagnostic {
    /// Creates an error diagnostic at a span.
    pub fn error_at(
        code: &'static str,
        message_id: &'static str,
        span: SourceSpan,
        message: String,
    ) -> (r: Self)
        ensures
            r.severity == Severity::Error,
            r.code == code,
            r.message_id == message_id,
            r.span == Some(span),
            r.message@ == message@,
    {
        Diagnostic { severity: Severity::Error, code, message_id, span: Some(span), message }
    }

    /// Returns the stable machine code.
    pub fn code(&self) -> (r: &'static str)
        ensures
            r == self.code,
    {
        self.code
    }

    /// Returns the stable message identity.
    pub fn message_id(&self) -> (r: &'static str)
        ensures
            r == self.message_id,
    {
        self.message_id
    }

    /// Returns the span the diagnostic points at.
    pub fn span(&self) -> (r: Option<SourceSpan>)
        ensures
            r == self.span,
    {
        self.span
    }

    /// Returns the rendered message.
    pub fn message(&self) -> (r: &str)
        ensures
            r@ == self.message@,
    {
        self.message.as_str()
    }

    /// Returns whether the diagnostic is an error.
    pub fn is_error(&self) -> (r: bool)
        ensures
            r == (self.severity == Severity::Error),
    {
        match self.severity {
            Severity::Error => true,
            Severity::Warning => false,
        }
    }
}

} // verus!
