//! Index paths and selectors of the syntax tree.
//!
//! This module describes only the source structure of selectors; indexing,
//! bounds checks and random draws belong to later stages. Paths and items keep
//! their raw [`SourceSpan`] for diagnostics.

use vstd::prelude::*;
use crate::ast::{Expression, Name};
use crate::source::SourceSpan;

verus! {

/// A nestable index path such as `3/2`.
#[derive(Clone, Debug, PartialEq, Eq)]
pub struct IndexPath {
    /// Segments in source order.
    pub segments: Vec<PathSegment>,
    /// Span covering the whole path.
    pub span: SourceSpan,
}

impl IndexPath {
    /// Creates an index path.
    pub fn new(segments: Vec<PathSegment>, span: SourceSpan) -> (r: Self)
        ensures
            r.segments@ == segments@,
            r.span == span,
    {
        IndexPath { segments, span }
    }

    /// Returns the span of the path.
    pub fn span(&self) -> (r: SourceSpan)
        ensures
            r == self.span,
    {
        self.span
    }

    /// Returns the number of segments.
    pub fn len(&self) -> (r: usize)
        ensures
            r == self.segments@.len(),
    {
        self.segments.len()
    }

    /// Returns whether the path has no segment.
    pub fn is_empty(&self) -> (r: bool)
        ensures
            r == (self.segments@.len() == 0),
    {
        self.segments.len() == 0
    }
}

/// One segment of an index path.
#[derive(Clone, Debug, PartialEq, Eq, Structural)]
pub enum PathSegment {
    /// Numeric index; `negative` records a leading minus sign.
    Integer {
        /// Span of the optional minus sign and the digits.
        span: SourceSpan,
        /// Whether the index is negative.
        negative: bool,
    },
    /// Dictionary key or named segment.
    Name(Name),
}

impl PathSegment {
    /// The span of the segment.
    pub open spec fn spec_span(&self) -> SourceSpan {
        match self {
            PathSegment::Integer { span, .. } => *span,
            PathSegment::Name(name) => name.span,
        }
    }

    /// Returns the span of the segment.
    pub fn span(&self) -> (r: SourceSpan)
        ensures
            r == self.spec_span(),
    {
        match self {
            PathSegment::Integer { span, .. } => *span,
            PathSegment::Name(name) => name.span,
        }
    }

    /// Returns whether the segment is a negative integer index.
    pub fn is_negative_integer(&self) -> (r: bool)
        ensures
            r == (self matches PathSegment::Integer { negative: true, .. }),
    {
        match self {
            PathSegment::Integer { negative, .. } => *negative,
            PathSegment::Name(_) => false,
        }
    }
}

/// A complete bracketed selector.
#[derive(Debug, PartialEq, Eq)]
pub struct Selector {
    /// Items in source order; duplicates are kept.
    pub items: Vec<SelectorItem>,
    /// Span covering the brackets and separators.
    pub span: SourceSpan,
}

impl Selector {
    /// Creates a selector.
    pub fn new(items: Vec<SelectorItem>, span: SourceSpan) -> (r: Self)
        ensures
            r.items@ == items@,
            r.span == span,
    {
        Selector { items, span }
    }

    /// Returns the span of the selector.
    pub fn span(&self) -> (r: SourceSpan)
        ensures
            r == self.span,
    {
        self.span
    }
}

/// One selector item.
#[derive(Debug, PartialEq, Eq)]
pub enum SelectorItem {
    /// Exact selection by a path of one or more nested segments.
    Exact {
        /// Selected path.
        path: IndexPath,
        /// Span of the item.
        span: SourceSpan,
    },
    /// Closed range `start~end`, both ends included.
    Range {
        /// Start path.
        start: IndexPath,
        /// End path.
        end: IndexPath,
        /// Span of the item.
        span: SourceSpan,
    },
    /// One-sided range; a missing end is `None`.
    OpenRange {
        /// Optional start.
        start: Option<IndexPath>,
        /// Optional end.
        end: Option<IndexPath>,
        /// Whether the start is included (meaningful only with a start).
        include_start: bool,
        /// Whether the end is included (meaningful only with an end).
        include_end: bool,
        /// Span of the item.
        span: SourceSpan,
    },
    /// Full selection `[=]`.
    All {
        /// Span of the item.
        span: SourceSpan,
    },
    /// Random selection `[?count]` or `[!?count]`.
    Random {
        /// With or without replacement.
        mode: RandomMode,
        /// Number of draws.
        count: Box<Expression>,
        /// Span of the item.
        span: SourceSpan,
    },
}

impl SelectorItem {
    /// The span of the item.
    pub open spec fn spec_span(&self) -> SourceSpan {
        match self {
            SelectorItem::Exact { span, .. } => *span,
            SelectorItem::Range { span, .. } => *span,
            SelectorItem::OpenRange { span, .. } => *span,
            SelectorItem::All { span } => *span,
            SelectorItem::Random { span, .. } => *span,
        }
    }

    /// Returns the span of the item.
    pub fn span(&self) -> (r: SourceSpan)
        ensures
            r == self.spec_span(),
    {
        match self {
            SelectorItem::Exact { span, .. } => *span,
            SelectorItem::Range { span, .. } => *span,
            SelectorItem::OpenRange { span, .. } => *span,
            SelectorItem::All { span } => *span,
            SelectorItem::Random { span, .. } => *span,
        }
    }
}

/// Random selection mode.
#[derive(Clone, Copy, Debug, PartialEq, Eq, Structural, Hash)]
pub enum RandomMode {
    /// Draw without replacement, written `?`.
    WithoutReplacement,
    /// Draw with replacement, written `!?`.
    WithReplacement,
}

impl RandomMode {
    /// Returns the source spelling of the random selection prefix.
    pub fn as_str(self) -> (r: &'static str)
        ensures
            r == (if self is WithoutReplacement { "?" } else { "!?" }),
    {
        match self {
            RandomMode::WithoutReplacement => "?",
            RandomMode::WithReplacement => "!?",
        }
    }
}

} // verus!
