//! Syntax of import statements.
//!
//! Only paths, aliases and spans are kept here; finding files, building the
//! module graph and binding names happen elsewhere.

use vstd::prelude::*;
use crate::ast::Name;
use crate::source::SourceSpan;

verus! {

/// An absolute module path separated by dots.
#[derive(Clone, Debug, PartialEq, Eq)]
pub struct ImportPath {
    /// Segments in source order.
    pub segments: Vec<Name>,
    /// Span covering all segments.
    pub span: SourceSpan,
}

impl ImportPath {
    /// Creates a module path.
    pub fn new(segments: Vec<Name>, span: SourceSpan) -> (r: Self)
        ensures
            r.segments@ == segments@,
            r.span == span,
    {
        ImportPath { segments, span }
    }

    /// Returns the span of the path.
    pub fn span(&self) -> (r: SourceSpan)
        ensures
            r == self.span,
    {
        self.span
    }

    /// Returns whether the path has no segment.
    pub fn is_empty(&self) -> (r: bool)
        ensures
            r == (self.segments@.len() == 0),
    {
        self.segments.len() == 0
    }
}

/// One item of `import module.path [as alias]`.
#[derive(Clone, Debug, PartialEq, Eq)]
pub struct ModuleImport {
    /// Imported absolute module or namespace path.
    pub path: ImportPath,
    /// Optional local alias.
    pub alias: Option<Name>,
    /// Span covering the path and the alias.
    pub span: SourceSpan,
}

impl ModuleImport {
    /// Returns the span of the item.
    pub fn span(&self) -> (r: SourceSpan)
        ensures
            r == self.span,
    {
        self.span
    }
}

/// One item of `from module.path import name [as alias]`.
#[derive(Clone, Debug, PartialEq, Eq)]
pub struct SelectedImport {
    /// Name in the target module or namespace.
    pub name: Name,
    /// Optional local alias.
    pub alias: Option<Name>,
    /// Span covering the name and the alias.
    pub span: SourceSpan,
}

impl SelectedImport {
    /// Returns the span of the item.
    pub fn span(&self) -> (r: SourceSpan)
        ensures
            r == self.span,
    {
        self.span
    }
}

/// A complete import statement.
#[derive(Clone, Debug, PartialEq, Eq)]
pub enum ImportStatement {
    /// One or more module or namespace imports.
    Modules {
        /// Items in source order.
        imports: Vec<ModuleImport>,
        /// Span of the whole statement.
        span: SourceSpan,
    },
    /// Selects one or more names from a module or namespace.
    From {
        /// Target module or namespace path.
        module: ImportPath,
        /// Items in source order.
        imports: Vec<SelectedImport>,
        /// Span of the whole statement.
        span: SourceSpan,
    },
}

impl ImportStatement {
    /// Returns the span of the whole statement.
    pub fn span(&self) -> (r: SourceSpan)
        ensures
            r == (match self {
                ImportStatement::Modules { span, .. } => *span,
                ImportStatement::From { span, .. } => *span,
            }),
    {
        match self {
            ImportStatement::Modules { span, .. } => *span,
            ImportStatement::From { span, .. } => *span,
        }
    }
}

} // verus!
