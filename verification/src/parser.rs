//! The Xiao parser and its recoverable diagnostics.
//!
//! The parser consumes the stable token stream of the lexer and builds the
//! syntax tree, recovering from errors where it can; it does no type inference,
//! container bound checks or execution. Lexer diagnostics stay first in the
//! result, and a token the lexer already reported as `Invalid` is not reported
//! again.

use vstd::prelude::*;
use vstd::utf8::*;
use crate::ast::{
    AssignmentOperator, BinaryOperator, CallArgument, CallArgumentKind, DeclaredType, DictEntry,
    CatchClause, DictKey, ElifBranch, EntryMode, Expression, FunctionParameter, FunctionParameterKind,
    FunctionTypeAnnotation, LiteralKind, Name, Program, ScalarType, SetTypeAnnotation, Statement,
    TableKind, TypeTerm, UnaryOperator, arguments_nodes, catches_nodes, elifs_nodes,
    entries_nodes, expression_nodes, expressions_nodes, items_nodes, parameters_nodes,
    program_nodes, spans_of, statement_nodes, statements_nodes, NodeIndex,
};
use crate::diagnostics::{
    Diagnostic, Severity, INVALID_ASSIGNMENT_CODE, INVALID_ASSIGNMENT_TARGET_CODE,
    INVALID_CAST_TARGET_CODE, INVALID_CONTAINER_CODE, INVALID_CONTAINER_ENTRY_CODE,
    INVALID_CONTROL_FLOW_CODE, INVALID_DECLARATION_CODE, INVALID_ERROR_CONTROL_FLOW_CODE,
    MISSING_ERROR_HANDLER_CODE, MISSING_RAISE_VALUE_CODE, INVALID_DECLARATION_TARGET_CODE,
    INVALID_ENTRY_CODE, INVALID_EXPRESSION_CODE, INVALID_FUNCTION_CODE,
    INVALID_FUNCTION_TYPE_CODE, INVALID_IMPORT_ALIAS_CODE, INVALID_IMPORT_PATH_CODE,
    INVALID_IMPORT_TARGET_CODE, INVALID_PARAMETER_CODE, INVALID_SELECTOR_CODE,
    INVALID_SET_TYPE_ANNOTATION_CODE, INVALID_TABLE_HEADER_CODE, INVALID_TABLE_MEMBER_CODE,
    MISSING_ASSIGNMENT_VALUE_CODE, MISSING_BLOCK_CODE, MISSING_CONST_VALUE_CODE,
    MISSING_DELIMITER_CODE, MISSING_EXPRESSION_CODE, MISSING_TABLE_BODY_CODE,
    UNSUPPORTED_BLOCK_CODE, UNSUPPORTED_CONST_PATH_CODE, UNSUPPORTED_CONST_SET_TYPE_CODE,
    UNSUPPORTED_EXPRESSION_CODE, UNSUPPORTED_IMPORT_FORM_CODE, UNSUPPORTED_SET_TYPE_PATH_CODE,
};
use crate::imports::{ImportPath, ImportStatement, ModuleImport, SelectedImport};
use crate::lexer::{count_kind, diagnostic_of, in_order, token_of, Lexer};
use crate::selectors::{IndexPath, PathSegment, RandomMode, Selector, SelectorItem};
use crate::source::{span_fits, SourceFile, SourceSpan};
use crate::text::joined;
use crate::token::{KeywordKind, Token, TokenKind};
use crate::utf8_layout::is_boundary;

verus! {

broadcast use vstd::utf8::group_utf8_lib;

// ---------------------------------------------------------------------------
// Result of a parse
// ---------------------------------------------------------------------------

/// Whether some diagnostic of `ds` is an error.
pub open spec fn has_error(ds: Seq<Diagnostic>) -> bool {
    exists|i: int| 0 <= i < ds.len() && (#[trigger] ds[i]).severity == Severity::Error
}

/// Every span of `ss` lies inside `b` on scalar boundaries.
pub open spec fn all_fit(b: Seq<u8>, ss: Seq<SourceSpan>) -> bool {
    forall|i: int| 0 <= i < ss.len() ==> span_fits(b, #[trigger] ss[i])
}

/// Parse diagnostics share the structured diagnostic type.
pub type ParseDiagnostic = Diagnostic;

/// Lexer and parser output: the recovered program and the diagnostics.
#[derive(Debug, PartialEq, Eq)]
pub struct ParseResult {
    /// The program recovered from the input; partial where errors were recovered.
    pub program: Option<Program>,
    /// Lexer diagnostics followed by parser diagnostics, in the order found.
    pub diagnostics: Vec<Diagnostic>,
}

impl ParseResult {
    /// Returns whether some diagnostic is an error.
    pub fn has_errors(&self) -> (r: bool)
        ensures
            r == has_error(self.diagnostics@),
    {
        let mut i: usize = 0;
        while i < self.diagnostics.len()
            invariant
                i <= self.diagnostics@.len(),
                forall|j: int| 0 <= j < i ==> (#[trigger] self.diagnostics@[j]).severity
                    != Severity::Error,
            decreases self.diagnostics@.len() - i,
        {
            if self.diagnostics[i].is_error() {
                return true;
            }
            i += 1;
        }
        false
    }

    /// Returns whether a program was produced without any error.
    pub fn is_success(&self) -> (r: bool)
        ensures
            r == (self.program is Some && !has_error(self.diagnostics@)),
    {
        self.program.is_some() && !self.has_errors()
    }
}

// ---------------------------------------------------------------------------
// Token classes used by the grammar
// ---------------------------------------------------------------------------

/// The scalar type keywords.
pub open spec fn is_scalar_type_kind(kind: TokenKind) -> bool {
    match kind {
        TokenKind::Keyword(k) => ScalarType::of_keyword(k) is Some,
        _ => false,
    }
}

/// Tokens that can name something inside an expression: names and the scalar
/// type keywords, so that conversions such as `int(value)` parse as calls.
pub open spec fn is_expression_name_kind(kind: TokenKind) -> bool {
    kind is Identifier || kind is BacktickIdentifier || is_scalar_type_kind(kind)
}

/// Tokens that can name a declaration, a parameter or an import item.
pub open spec fn is_declaration_name_kind(kind: TokenKind) -> bool {
    kind is Identifier || kind is BacktickIdentifier
}

/// A parameter written as the bare name `t`, with no type and no default:
/// keyword-only when `keyword_only`, else positional or keyword.
pub open spec fn entry_parameter(p: FunctionParameter, t: Token, keyword_only: bool) -> bool {
    &&& p.name.span == t.spec_span()
    &&& p.kind == (if keyword_only {
        FunctionParameterKind::KeywordOnly
    } else {
        FunctionParameterKind::PositionalOrKeyword
    })
    &&& p.default is None
    &&& p.annotation is None
}

/// The list entry that the `q`-th parameter comes from when the entry at
/// `m` is a bare `*`.
pub open spec fn entry_index(q: int, m: int) -> int {
    if q < m {
        q
    } else {
        q + 1
    }
}

/// Tokens that end a statement.
pub open spec fn is_statement_boundary_kind(kind: TokenKind) -> bool {
    kind is Newline || kind is Dedent || kind is Eof
}

/// Tokens that end an item of a selector.
pub open spec fn is_selector_item_boundary_kind(kind: TokenKind) -> bool {
    kind is Comma || kind is RightBracket || kind is Newline || kind is Dedent || kind is Eof
}

/// Tokens where skipping a broken set type annotation stops.
pub open spec fn ends_set_type_recovery(kind: TokenKind) -> bool {
    kind is Greater || kind is Newline || kind is Indent || kind is Dedent || kind is Eof
}

/// Tokens at which a path segment is missing without an error of its own: the
/// caller reports what the path lacks.
pub open spec fn ends_path(kind: TokenKind) -> bool {
    kind is Comma || kind is RightBracket || kind is Newline || kind is Eof
}

/// Line-structure tokens: newlines and indentation changes.
pub open spec fn is_layout_kind(kind: TokenKind) -> bool {
    kind is Newline || kind is Indent || kind is Dedent
}

/// The assignment operator written by a token kind.
pub open spec fn assignment_operator_of(kind: TokenKind) -> Option<AssignmentOperator> {
    match kind {
        TokenKind::Equal => Some(AssignmentOperator::Assign),
        TokenKind::PlusEqual => Some(AssignmentOperator::AddAssign),
        TokenKind::MinusEqual => Some(AssignmentOperator::SubtractAssign),
        TokenKind::AmpersandEqual => Some(AssignmentOperator::IntersectAssign),
        TokenKind::CaretEqual => Some(AssignmentOperator::SymmetricDifferenceAssign),
        TokenKind::StarEqual => Some(AssignmentOperator::MultiplyAssign),
        TokenKind::SlashEqual => Some(AssignmentOperator::DivideAssign),
        TokenKind::FloorDivEqual => Some(AssignmentOperator::FloorDivideAssign),
        TokenKind::PercentEqual => Some(AssignmentOperator::RemainderAssign),
        TokenKind::PowerEqual => Some(AssignmentOperator::PowerAssign),
        _ => None,
    }
}

/// Returns whether the token is a scalar type keyword.
fn is_scalar_type_token(kind: TokenKind) -> (r: bool)
    ensures
        r == is_scalar_type_kind(kind),
{
    match kind {
        TokenKind::Keyword(keyword) => ScalarType::from_keyword(keyword).is_some(),
        _ => false,
    }
}

/// Returns whether the token can name something inside an expression.
fn is_expression_name_token(kind: TokenKind) -> (r: bool)
    ensures
        r == is_expression_name_kind(kind),
{
    match kind {
        TokenKind::Identifier | TokenKind::BacktickIdentifier => true,
        _ => is_scalar_type_token(kind),
    }
}

/// Returns whether the token can start a set type term: a scalar type or `none`.
fn is_set_type_term_token(kind: TokenKind) -> (r: bool)
    ensures
        r == (is_scalar_type_kind(kind) || kind is NoneLiteral),
{
    is_scalar_type_token(kind) || kind == TokenKind::NoneLiteral
}

/// Returns whether the token can name a declaration.
fn is_declaration_name_token(kind: TokenKind) -> (r: bool)
    ensures
        r == is_declaration_name_kind(kind),
{
    match kind {
        TokenKind::Identifier | TokenKind::BacktickIdentifier => true,
        _ => false,
    }
}

/// Returns whether the statement may stand in a table body: a field
/// assignment or declaration, or a method.
fn is_table_member_statement(statement: &Statement) -> (r: bool)
    ensures
        r == (statement is Assignment || statement is Declaration || statement is ConstDeclaration
            || statement is Function),
{
    match statement {
        Statement::Assignment { .. } | Statement::Declaration { .. }
        | Statement::ConstDeclaration { .. } | Statement::Function { .. } => true,
        _ => false,
    }
}

/// Maps an assignment token to its operator.
fn assignment_operator(kind: TokenKind) -> (r: Option<AssignmentOperator>)
    ensures
        r == assignment_operator_of(kind),
{
    match kind {
        TokenKind::Equal => Some(AssignmentOperator::Assign),
        TokenKind::PlusEqual => Some(AssignmentOperator::AddAssign),
        TokenKind::MinusEqual => Some(AssignmentOperator::SubtractAssign),
        TokenKind::AmpersandEqual => Some(AssignmentOperator::IntersectAssign),
        TokenKind::CaretEqual => Some(AssignmentOperator::SymmetricDifferenceAssign),
        TokenKind::StarEqual => Some(AssignmentOperator::MultiplyAssign),
        TokenKind::SlashEqual => Some(AssignmentOperator::DivideAssign),
        TokenKind::FloorDivEqual => Some(AssignmentOperator::FloorDivideAssign),
        TokenKind::PercentEqual => Some(AssignmentOperator::RemainderAssign),
        TokenKind::PowerEqual => Some(AssignmentOperator::PowerAssign),
        _ => None,
    }
}

/// Returns whether the expression has the shape of an assignment target.
fn is_assignable_syntax(expression: &Expression) -> (r: bool)
    ensures
        r == (expression is Name || expression is Member || expression is Selector),
{
    match expression {
        Expression::Name(_) | Expression::Member { .. } | Expression::Selector { .. } => true,
        _ => false,
    }
}

/// Returns whether a selector item ends at this token.
fn selector_item_boundary(kind: TokenKind) -> (r: bool)
    ensures
        r == is_selector_item_boundary_kind(kind),
{
    match kind {
        TokenKind::Comma | TokenKind::RightBracket | TokenKind::Newline | TokenKind::Dedent
        | TokenKind::Eof => true,
        _ => false,
    }
}

/// Returns whether a statement ends at this token.
fn is_statement_boundary(kind: TokenKind) -> (r: bool)
    ensures
        r == is_statement_boundary_kind(kind),
{
    match kind {
        TokenKind::Newline | TokenKind::Dedent | TokenKind::Eof => true,
        _ => false,
    }
}

/// Module path segments are plain ASCII identifiers.
fn is_module_segment_token(kind: TokenKind) -> (r: bool)
    ensures
        r == (kind is Identifier),
{
    match kind {
        TokenKind::Identifier => true,
        _ => false,
    }
}

/// The debug name of a closing delimiter, as the diagnostics spell it.
fn delimiter_name(kind: TokenKind) -> (r: &'static str)
    ensures
        r == (match kind {
            TokenKind::RightParen => "RightParen",
            TokenKind::RightBracket => "RightBracket",
            TokenKind::RightBrace => "RightBrace",
            TokenKind::Greater => "Greater",
            _ => "Eof",
        }),
{
    match kind {
        TokenKind::RightParen => "RightParen",
        TokenKind::RightBracket => "RightBracket",
        TokenKind::RightBrace => "RightBrace",
        TokenKind::Greater => "Greater",
        _ => "Eof",
    }
}

// ---------------------------------------------------------------------------
// Node spans of the trees the parser builds
// ---------------------------------------------------------------------------

/// The concatenation of two lists of fitting spans fits.
proof fn lemma_fit_concat(b: Seq<u8>, x: Seq<SourceSpan>, y: Seq<SourceSpan>)
    requires
        all_fit(b, x),
        all_fit(b, y),
    ensures
        all_fit(b, x + y),
{
    assert forall|i: int| 0 <= i < (x + y).len() implies span_fits(b, #[trigger] (x + y)[i]) by {
        if i < x.len() {
            assert((x + y)[i] == x[i]);
        } else {
            assert((x + y)[i] == y[i - x.len()]);
        }
    }
}

/// A single fitting span fits.
proof fn lemma_fit_one(b: Seq<u8>, s: SourceSpan)
    requires
        span_fits(b, s),
    ensures
        all_fit(b, seq![s]),
{
    assert forall|i: int| 0 <= i < seq![s].len() implies span_fits(b, #[trigger] seq![s][i]) by {
        assert(seq![s][i] == s);
    }
}

proof fn lemma_expressions_prefix(es: Seq<Expression>, e: Expression, k: int)
    requires
        0 <= k <= es.len(),
    ensures
        expressions_nodes(es.push(e), k) == expressions_nodes(es, k),
    decreases k,
{
    if k > 0 {
        lemma_expressions_prefix(es, e, k - 1);
        assert(es.push(e)[k - 1] == es[k - 1]);
    }
}

/// Appending an expression appends its nodes.
proof fn lemma_expressions_push(b: Seq<u8>, es: Seq<Expression>, e: Expression)
    requires
        all_fit(b, expressions_nodes(es, es.len() as int)),
        all_fit(b, expression_nodes(e)),
    ensures
        all_fit(b, expressions_nodes(es.push(e), es.push(e).len() as int)),
{
    lemma_expressions_prefix(es, e, es.len() as int);
    assert(es.push(e)[es.len() as int] == e);
    lemma_fit_concat(b, expressions_nodes(es, es.len() as int), expression_nodes(e));
}

proof fn lemma_entries_prefix(es: Seq<DictEntry>, e: DictEntry, k: int)
    requires
        0 <= k <= es.len(),
    ensures
        entries_nodes(es.push(e), k) == entries_nodes(es, k),
    decreases k,
{
    if k > 0 {
        lemma_entries_prefix(es, e, k - 1);
        assert(es.push(e)[k - 1] == es[k - 1]);
    }
}

/// Appending a dictionary entry appends its key and value nodes.
proof fn lemma_entries_push(b: Seq<u8>, es: Seq<DictEntry>, e: DictEntry)
    requires
        all_fit(b, entries_nodes(es, es.len() as int)),
        span_fits(b, e.key.spec_span()),
        all_fit(b, expression_nodes(e.value)),
    ensures
        all_fit(b, entries_nodes(es.push(e), es.push(e).len() as int)),
{
    lemma_entries_prefix(es, e, es.len() as int);
    assert(es.push(e)[es.len() as int] == e);
    lemma_fit_one(b, e.key.spec_span());
    lemma_fit_concat(b, entries_nodes(es, es.len() as int), seq![e.key.spec_span()]);
    lemma_fit_concat(
        b,
        entries_nodes(es, es.len() as int) + seq![e.key.spec_span()],
        expression_nodes(e.value),
    );
}

proof fn lemma_arguments_prefix(args: Seq<CallArgument>, a: CallArgument, k: int)
    requires
        0 <= k <= args.len(),
    ensures
        arguments_nodes(args.push(a), k) == arguments_nodes(args, k),
    decreases k,
{
    if k > 0 {
        lemma_arguments_prefix(args, a, k - 1);
        assert(args.push(a)[k - 1] == args[k - 1]);
    }
}

/// Appending a call argument appends its own node and its value nodes.
proof fn lemma_arguments_push(b: Seq<u8>, args: Seq<CallArgument>, a: CallArgument)
    requires
        all_fit(b, arguments_nodes(args, args.len() as int)),
        span_fits(b, a.span),
        all_fit(b, expression_nodes(a.value)),
    ensures
        all_fit(b, arguments_nodes(args.push(a), args.push(a).len() as int)),
{
    lemma_arguments_prefix(args, a, args.len() as int);
    assert(args.push(a)[args.len() as int] == a);
    lemma_fit_one(b, a.span);
    lemma_fit_concat(b, arguments_nodes(args, args.len() as int), seq![a.span]);
    lemma_fit_concat(
        b,
        arguments_nodes(args, args.len() as int) + seq![a.span],
        expression_nodes(a.value),
    );
}

/// The nodes a selector item contributes: the count of a random item.
pub open spec fn item_nodes(item: SelectorItem) -> Seq<SourceSpan> {
    match item {
        SelectorItem::Random { count, .. } => expression_nodes(*count),
        _ => Seq::empty(),
    }
}

proof fn lemma_items_prefix(items: Seq<SelectorItem>, item: SelectorItem, k: int)
    requires
        0 <= k <= items.len(),
    ensures
        items_nodes(items.push(item), k) == items_nodes(items, k),
    decreases k,
{
    if k > 0 {
        lemma_items_prefix(items, item, k - 1);
        assert(items.push(item)[k - 1] == items[k - 1]);
    }
}

/// Appending a selector item appends the nodes of its count, if any.
proof fn lemma_items_push(b: Seq<u8>, items: Seq<SelectorItem>, item: SelectorItem)
    requires
        all_fit(b, items_nodes(items, items.len() as int)),
        all_fit(b, item_nodes(item)),
    ensures
        all_fit(b, items_nodes(items.push(item), items.push(item).len() as int)),
{
    lemma_items_prefix(items, item, items.len() as int);
    assert(items.push(item)[items.len() as int] == item);
    lemma_fit_concat(b, items_nodes(items, items.len() as int), item_nodes(item));
}

proof fn lemma_parameters_prefix(ps: Seq<FunctionParameter>, p: FunctionParameter, k: int)
    requires
        0 <= k <= ps.len(),
    ensures
        parameters_nodes(ps.push(p), k) == parameters_nodes(ps, k),
    decreases k,
{
    if k > 0 {
        lemma_parameters_prefix(ps, p, k - 1);
        assert(ps.push(p)[k - 1] == ps[k - 1]);
    }
}

/// The nodes a parameter contributes: itself, then its default.
pub open spec fn parameter_nodes(p: FunctionParameter) -> Seq<SourceSpan> {
    seq![p.span] + match p.default {
        Some(d) => expression_nodes(d),
        None => Seq::empty(),
    }
}

/// Appending a parameter appends its nodes.
proof fn lemma_parameters_push(b: Seq<u8>, ps: Seq<FunctionParameter>, p: FunctionParameter)
    requires
        all_fit(b, parameters_nodes(ps, ps.len() as int)),
        all_fit(b, parameter_nodes(p)),
    ensures
        all_fit(b, parameters_nodes(ps.push(p), ps.push(p).len() as int)),
{
    lemma_parameters_prefix(ps, p, ps.len() as int);
    assert(ps.push(p)[ps.len() as int] == p);
    assert(parameters_nodes(ps.push(p), ps.push(p).len() as int) =~= parameters_nodes(
        ps,
        ps.len() as int,
    ) + parameter_nodes(p));
    lemma_fit_concat(b, parameters_nodes(ps, ps.len() as int), parameter_nodes(p));
}

proof fn lemma_statements_prefix(ss: Seq<Statement>, st: Statement, k: int)
    requires
        0 <= k <= ss.len(),
    ensures
        statements_nodes(ss.push(st), k) == statements_nodes(ss, k),
    decreases k,
{
    if k > 0 {
        lemma_statements_prefix(ss, st, k - 1);
        assert(ss.push(st)[k - 1] == ss[k - 1]);
    }
}

/// Appending a statement appends its nodes.
proof fn lemma_statements_push(b: Seq<u8>, ss: Seq<Statement>, st: Statement)
    requires
        all_fit(b, statements_nodes(ss, ss.len() as int)),
        all_fit(b, statement_nodes(st)),
    ensures
        all_fit(b, statements_nodes(ss.push(st), ss.push(st).len() as int)),
{
    lemma_statements_prefix(ss, st, ss.len() as int);
    assert(ss.push(st)[ss.len() as int] == st);
    lemma_fit_concat(b, statements_nodes(ss, ss.len() as int), statement_nodes(st));
}

proof fn lemma_elifs_prefix(bs: Seq<ElifBranch>, e: ElifBranch, k: int)
    requires
        0 <= k <= bs.len(),
    ensures
        elifs_nodes(bs.push(e), k) == elifs_nodes(bs, k),
    decreases k,
{
    if k > 0 {
        lemma_elifs_prefix(bs, e, k - 1);
        assert(bs.push(e)[k - 1] == bs[k - 1]);
    }
}

/// The nodes an `elif` branch contributes: itself, its condition, its body.
pub open spec fn elif_nodes(e: ElifBranch) -> Seq<SourceSpan> {
    seq![e.span] + expression_nodes(e.condition) + statements_nodes(
        e.body@,
        e.body@.len() as int,
    )
}

/// Appending an `elif` branch appends its nodes.
proof fn lemma_elifs_push(b: Seq<u8>, bs: Seq<ElifBranch>, e: ElifBranch)
    requires
        all_fit(b, elifs_nodes(bs, bs.len() as int)),
        all_fit(b, elif_nodes(e)),
    ensures
        all_fit(b, elifs_nodes(bs.push(e), bs.push(e).len() as int)),
{
    lemma_elifs_prefix(bs, e, bs.len() as int);
    assert(bs.push(e)[bs.len() as int] == e);
    assert(elifs_nodes(bs.push(e), bs.push(e).len() as int) =~= elifs_nodes(bs, bs.len() as int)
        + elif_nodes(e));
    lemma_fit_concat(b, elifs_nodes(bs, bs.len() as int), elif_nodes(e));
}

proof fn lemma_catches_prefix(cs: Seq<CatchClause>, c: CatchClause, k: int)
    requires
        0 <= k <= cs.len(),
    ensures
        catches_nodes(cs.push(c), k) == catches_nodes(cs, k),
    decreases k,
{
    if k > 0 {
        lemma_catches_prefix(cs, c, k - 1);
        assert(cs.push(c)[k - 1] == cs[k - 1]);
    }
}

/// The nodes a `catch` handler contributes.
pub open spec fn catch_nodes(c: CatchClause) -> Seq<SourceSpan> {
    seq![c.span, c.binding.span, c.error_type.span] + statements_nodes(
        c.body@,
        c.body@.len() as int,
    )
}

/// Appending a `catch` handler appends its nodes.
proof fn lemma_catches_push(b: Seq<u8>, cs: Seq<CatchClause>, c: CatchClause)
    requires
        all_fit(b, catches_nodes(cs, cs.len() as int)),
        all_fit(b, catch_nodes(c)),
    ensures
        all_fit(b, catches_nodes(cs.push(c), cs.push(c).len() as int)),
{
    lemma_catches_prefix(cs, c, cs.len() as int);
    assert(cs.push(c)[cs.len() as int] == c);
    assert(catches_nodes(cs.push(c), cs.push(c).len() as int) =~= catches_nodes(
        cs,
        cs.len() as int,
    ) + catch_nodes(c));
    lemma_fit_concat(b, catches_nodes(cs, cs.len() as int), catch_nodes(c));
}

/// A span and then the nodes of two parts fit.
proof fn lemma_fit_node2(b: Seq<u8>, own: SourceSpan, x: Seq<SourceSpan>, y: Seq<SourceSpan>)
    requires
        span_fits(b, own),
        all_fit(b, x),
        all_fit(b, y),
    ensures
        all_fit(b, seq![own] + x + y),
{
    lemma_fit_one(b, own);
    lemma_fit_concat(b, seq![own], x);
    lemma_fit_concat(b, seq![own] + x, y);
}

/// A span and then the nodes of one part fit.
proof fn lemma_fit_node1(b: Seq<u8>, own: SourceSpan, x: Seq<SourceSpan>)
    requires
        span_fits(b, own),
        all_fit(b, x),
    ensures
        all_fit(b, seq![own] + x),
{
    lemma_fit_one(b, own);
    lemma_fit_concat(b, seq![own], x);
}

// ---------------------------------------------------------------------------
// The token cursor
// ---------------------------------------------------------------------------

/// Every token ends before every later token starts.
pub open spec fn tokens_ordered(ts: Seq<Token>) -> bool {
    forall|i: int, j: int|
        #![trigger ts[i], ts[j]]
        0 <= i < j < ts.len() ==> ts[i].spec_span().spec_end() <= ts[j].spec_span().spec_start()
}

/// The token stream a parser reads: it ends with the only `Eof`, which sits at
/// the end of `b`; every token spans text of `b`; tokens come in order.
pub open spec fn token_stream(b: Seq<u8>, ts: Seq<Token>) -> bool {
    &&& ts.len() >= 1
    &&& ts.last().spec_kind() == TokenKind::Eof
    &&& ts.last().spec_span().spec_start() == b.len()
    &&& forall|i: int| 0 <= i < ts.len() - 1 ==> (#[trigger] ts[i]).spec_kind() != TokenKind::Eof
    &&& forall|i: int| 0 <= i < ts.len() ==> span_fits(b, (#[trigger] ts[i]).spec_span())
    &&& tokens_ordered(ts)
}

/// Every diagnostic is an error pointing at text of `b`.
pub open spec fn diagnostics_fit(b: Seq<u8>, ds: Seq<Diagnostic>) -> bool {
    forall|i: int| 0 <= i < ds.len() ==> diagnostic_of(b, #[trigger] ds[i])
}

/// The tokens form a stream of `b` and the diagnostics point into `b`.
#[verifier::opaque]
spec fn stream_ok(b: Seq<u8>, ts: Seq<Token>, ds: Seq<Diagnostic>) -> bool {
    &&& token_stream(b, ts)
    &&& diagnostics_fit(b, ds)
}

/// `Indent` tokens minus `Dedent` tokens among `ts[lo..hi]`.
pub open spec fn indent_balance(ts: Seq<Token>, lo: int, hi: int) -> int
    decreases hi - lo,
{
    if hi <= lo {
        0
    } else {
        indent_balance(ts, lo, hi - 1) + if ts[hi - 1].spec_kind() == TokenKind::Indent {
            1int
        } else if ts[hi - 1].spec_kind() == TokenKind::Dedent {
            -1int
        } else {
            0int
        }
    }
}

/// The spans of the documentation comments among `ts[lo..hi]`, in order.
pub open spec fn doc_spans(ts: Seq<Token>, lo: int, hi: int) -> Seq<SourceSpan>
    decreases hi - lo,
{
    if hi <= lo {
        Seq::empty()
    } else {
        doc_spans(ts, lo, hi - 1) + if ts[hi - 1].spec_kind() == TokenKind::DocComment {
            seq![ts[hi - 1].spec_span()]
        } else {
            Seq::empty()
        }
    }
}

/// Consecutive order of the token spans implies the order of any two of them.
proof fn lemma_consecutive_order(ts: Seq<Token>, i: int, j: int)
    requires
        in_order(ts),
        forall|k: int|
            0 <= k < ts.len() ==> (#[trigger] ts[k]).spec_span().spec_start()
                <= ts[k].spec_span().spec_end(),
        0 <= i < j < ts.len(),
    ensures
        ts[i].spec_span().spec_end() <= ts[j].spec_span().spec_start(),
    decreases j - i,
{
    if j > i + 1 {
        lemma_consecutive_order(ts, i, j - 1);
        assert(ts[j - 1].spec_span().spec_start() <= ts[j - 1].spec_span().spec_end());
        assert(ts[j - 1].spec_span().spec_end() <= ts[j].spec_span().spec_start());
    }
}

/// A recursive-descent parser over the tokens of one source.
pub struct Parser<'source> {
    source: &'source SourceFile,
    tokens: Vec<Token>,
    diagnostics: Vec<Diagnostic>,
    cursor: usize,
    /// Depth of parentheses, brackets and step braces; newlines inside are soft.
    soft_newline_depth: usize,
    /// Depth of dictionary column literals; a `>` may close one.
    angle_depth: usize,
    /// Depth of indented blocks being parsed.
    block_context_depth: usize,
}

impl<'source> Parser<'source> {
    /// The bytes of the source being parsed.
    pub closed spec fn spec_bytes(&self) -> Seq<u8> {
        self.source.spec_bytes()
    }

    /// The tokens being parsed.
    pub closed spec fn spec_tokens(&self) -> Seq<Token> {
        self.tokens@
    }

    /// The diagnostics collected so far.
    pub closed spec fn spec_diagnostics(&self) -> Seq<Diagnostic> {
        self.diagnostics@
    }

    /// The index of the current token.
    pub closed spec fn spec_cursor(&self) -> int {
        self.cursor as int
    }

    /// The parser is at the first token, outside any bracket or dictionary
    /// column.
    pub closed spec fn at_start(&self) -> bool {
        self.cursor == 0 && self.soft_newline_depth == 0 && self.angle_depth == 0
    }

    /// The parser state is consistent: the token stream is well formed, every
    /// diagnostic points into the source, and the cursor is on a token.
    pub closed spec fn wf(&self) -> bool {
        &&& self.cursor < self.tokens@.len()
        &&& self.tokens@.len() <= usize::MAX
        &&& stream_ok(self.source.spec_bytes(), self.tokens@, self.diagnostics@)
    }

    spec fn cur(&self) -> Token {
        self.tokens@[self.cursor as int]
    }

    spec fn cur_kind(&self) -> TokenKind {
        self.cur().spec_kind()
    }

    /// The start offset of the current token.
    spec fn pos(&self) -> int {
        self.cur().spec_span().spec_start() as int
    }

    /// The kind of the token after the current one, if there is one.
    spec fn next_kind(&self) -> Option<TokenKind> {
        if self.cursor + 1 < self.tokens@.len() {
            Some(self.tokens@[self.cursor + 1].spec_kind())
        } else {
            None
        }
    }

    /// Where an expression parsed from here starts: newlines are skipped
    /// inside parentheses, brackets and step braces.
    spec fn expression_start(&self) -> int {
        if self.soft_newline_depth > 0 {
            next_non_newline(self.tokens@, self.cursor as int)
        } else {
            self.cursor as int
        }
    }

    /// A parse that gave up from `old` to `self` was reported: a diagnostic was
    /// added, or a token the lexer had already reported as invalid was passed.
    spec fn failure_reported(&self, old: &Self) -> bool {
        ||| self.diagnostics@.len() > old.diagnostics@.len()
        ||| exists|k: int| old.cursor <= k < self.cursor && (#[trigger] self.tokens@[k]).spec_kind()
            == TokenKind::Invalid
    }

    /// At `c` stands a literal or name that forms a whole expression: the next
    /// token is not a newline that would be skipped, and it neither continues
    /// the operand nor is a binary operator.
    spec fn lone_operand_at(&self, c: int) -> bool {
        let ts = self.tokens@;
        &&& (self.soft_newline_depth == 0 || !(ts[c + 1].spec_kind() is Newline))
        &&& 0 <= c && c + 1 < ts.len()
        &&& is_simple_operand_kind(ts[c].spec_kind())
        &&& !continues_postfix_kind(ts[c + 1].spec_kind())
        &&& infix_of(ts[c + 1].spec_kind(), if c + 2 < ts.len() { Some(ts[c + 2].spec_kind()) } else { None }) is None
    }

    /// The binary operator the token at `i` starts, given the token after it.
    spec fn infix_at(&self, i: int) -> Option<(BinaryOperator, u8, u8, usize)> {
        let ts = self.tokens@;
        infix_of(ts[i].spec_kind(), if i + 1 < ts.len() { Some(ts[i + 1].spec_kind()) } else { None })
    }

    /// The token at `i` neither continues an operand nor is a binary operator.
    spec fn ends_operand_at(&self, i: int) -> bool {
        &&& 0 <= i < self.tokens@.len()
        &&& !continues_postfix_kind(self.tokens@[i].spec_kind())
        &&& self.infix_at(i) is None
    }

    /// `a op b` stands at `c`, with two literal or name operands, a one-token
    /// operator binding at least as strongly as `min`, and a token after it
    /// that ends the expression.
    spec fn binary_at(&self, c: int, min: u8) -> bool {
        let ts = self.tokens@;
        &&& self.soft_newline_depth == 0
        &&& self.angle_depth == 0
        &&& 0 <= c && c + 3 < ts.len()
        &&& is_simple_operand_kind(ts[c].spec_kind())
        &&& self.infix_at(c + 1) matches Some(op) && op.3 == 1 && op.1 >= min
        &&& is_simple_operand_kind(ts[c + 2].spec_kind())
        &&& self.ends_operand_at(c + 3)
    }

    /// At `c` stands a literal or name followed by a binary operator that
    /// binds more weakly than `min`.
    spec fn weaker_operator_at(&self, c: int, min: u8) -> bool {
        let ts = self.tokens@;
        &&& self.soft_newline_depth == 0
        &&& self.angle_depth == 0
        &&& 0 <= c && c + 1 < ts.len()
        &&& is_simple_operand_kind(ts[c].spec_kind())
        &&& self.infix_at(c + 1) matches Some(op) && op.1 < min
    }

    /// `a op1 b op2 c` stands at `c`, with literal or name operands and
    /// one-token operators that both bind at least as strongly as `min`,
    /// followed by a token that ends the expression.
    spec fn chain_at(&self, c: int, min: u8) -> bool {
        let ts = self.tokens@;
        &&& self.soft_newline_depth == 0
        &&& self.angle_depth == 0
        &&& 0 <= c && c + 5 < ts.len()
        &&& is_simple_operand_kind(ts[c].spec_kind())
        &&& self.infix_at(c + 1) matches Some(op) && op.3 == 1 && op.1 >= min
        &&& is_simple_operand_kind(ts[c + 2].spec_kind())
        &&& self.infix_at(c + 3) matches Some(op) && op.3 == 1 && op.1 >= min
        &&& is_simple_operand_kind(ts[c + 4].spec_kind())
        &&& self.ends_operand_at(c + 5)
    }

    /// The tree of the chain at `c`: the second operator takes `b` when it
    /// binds at least as strongly as the first one's right side (so `*`
    /// before `+`, and `**` to the right), and otherwise the first
    /// operation becomes its left operand (so `-` and `/` to the left).
    spec fn chain_tree(&self, c: int, e: Expression) -> bool {
        let ts = self.tokens@;
        let op1 = self.infix_at(c + 1)->Some_0;
        let op2 = self.infix_at(c + 3)->Some_0;
        if second_takes_middle(self.infix_at(c + 1), self.infix_at(c + 3)) {
            nested_right(e, op1.0, op2.0, simple_operand(ts[c]), simple_operand(ts[c + 2]), simple_operand(ts[c + 4]))
        } else {
            nested_left(e, op1.0, op2.0, simple_operand(ts[c]), simple_operand(ts[c + 2]), simple_operand(ts[c + 4]))
        }
    }

    spec fn remaining(&self) -> int {
        self.tokens@.len() - self.cursor
    }

    /// `self` follows `old`: same source and tokens, the cursor did not move
    /// back, and the old diagnostics are kept in front.
    spec fn steps_from(&self, old: &Self) -> bool {
        &&& self.wf()
        &&& self.source == old.source
        &&& self.tokens@ == old.tokens@
        &&& old.cursor <= self.cursor
        &&& old.pos() <= self.pos()
        &&& old.diagnostics@.len() <= self.diagnostics@.len()
        &&& forall|i: int|
            0 <= i < old.diagnostics@.len() ==> self.diagnostics@[i] == old.diagnostics@[i]
    }

    /// Every span of `ss` lies in the source.
    spec fn nodes_fit(&self, ss: Seq<SourceSpan>) -> bool {
        all_fit(self.source.spec_bytes(), ss)
    }

    /// `span` fits the source and lies between `start` and the current position.
    spec fn covers(&self, start: int, span: SourceSpan) -> bool {
        &&& span_fits(self.source.spec_bytes(), span)
        &&& start <= span.spec_start()
        &&& span.spec_end() <= self.pos()
    }

    proof fn lemma_token(&self, i: int)
        requires
            self.wf(),
            0 <= i < self.tokens@.len(),
        ensures
            span_fits(self.source.spec_bytes(), self.tokens@[i].spec_span()),
            (self.tokens@[i].spec_kind() == TokenKind::Eof) == (i == self.tokens@.len() - 1),
            i == self.tokens@.len() - 1 ==> self.tokens@[i].spec_span().spec_start()
                == self.source.spec_bytes().len(),
    {
        reveal(stream_ok);
    }

    proof fn lemma_order(&self, i: int, j: int)
        requires
            self.wf(),
            0 <= i < j < self.tokens@.len(),
        ensures
            self.tokens@[i].spec_span().spec_end() <= self.tokens@[j].spec_span().spec_start(),
    {
        reveal(stream_ok);
        assert(self.tokens@[i] == self.tokens@[i]);
        assert(self.tokens@[j] == self.tokens@[j]);
    }

    proof fn lemma_starts(&self, i: int, j: int)
        requires
            self.wf(),
            0 <= i <= j < self.tokens@.len(),
        ensures
            self.tokens@[i].spec_span().spec_start() <= self.tokens@[j].spec_span().spec_start(),
    {
        if i < j {
            self.lemma_order(i, j);
            self.lemma_token(i);
        }
    }

    /// Returns the current token; the stream always ends with `Eof`.
    fn current(&self) -> (t: Token)
        requires
            self.wf(),
        ensures
            t == self.cur(),
            span_fits(self.spec_bytes(), t.spec_span()),
            t.spec_span().spec_start() == self.pos(),
            (t.spec_kind() == TokenKind::Eof) == (self.cursor == self.tokens@.len() - 1),
    {
        proof {
            self.lemma_token(self.cursor as int);
        }
        self.tokens[self.cursor]
    }

    /// Consumes the current token; `Eof` is never consumed.
    fn bump(&mut self) -> (t: Token)
        requires
            old(self).wf(),
        ensures
            final(self).steps_from(old(self)),
            final(self).diagnostics@ == old(self).diagnostics@,
            final(self).soft_newline_depth == old(self).soft_newline_depth,
            final(self).angle_depth == old(self).angle_depth,
            final(self).block_context_depth == old(self).block_context_depth,
            t == old(self).cur(),
            span_fits(old(self).spec_bytes(), t.spec_span()),
            t.spec_span().spec_start() == old(self).pos(),
            t.spec_span().spec_end() <= final(self).pos(),
            final(self).cursor == if t.spec_kind() == TokenKind::Eof {
                old(self).cursor as int
            } else {
                old(self).cursor + 1
            },
    {
        let token = self.current();
        proof {
            self.lemma_token(self.cursor as int);
        }
        if token.kind() != TokenKind::Eof && self.cursor < self.tokens.len() {
            proof {
                self.lemma_order(self.cursor as int, self.cursor + 1);
            }
            self.cursor = self.cursor + 1;
        }
        proof {
            reveal(stream_ok);
        }
        token
    }

    /// Returns whether the current token has the given kind.
    fn at(&self, kind: TokenKind) -> (r: bool)
        requires
            self.wf(),
        ensures
            r == (self.cur_kind() == kind),
    {
        self.current().kind() == kind
    }

    /// Returns the kind of the token `distance` places ahead, if there is one.
    fn lookahead_kind(&self, distance: usize) -> (r: Option<TokenKind>)
        requires
            self.wf(),
        ensures
            r == if self.cursor + distance < self.tokens@.len() {
                Some(self.tokens@[self.cursor + distance].spec_kind())
            } else {
                None::<TokenKind>
            },
    {
        let index = self.cursor.saturating_add(distance);
        if index < self.tokens.len() {
            Some(self.tokens[index].kind())
        } else {
            None
        }
    }

    /// Returns the kind of the first token from the current one on that is not
    /// a newline; used to tell a soft newline inside a selector from the end of
    /// a statement.
    fn lookahead_non_newline_kind(&self) -> (r: Option<TokenKind>)
        requires
            self.wf(),
        ensures
            r matches Some(k) ==> exists|i: int|
                self.cursor <= i < self.tokens@.len() && (#[trigger] self.tokens@[i]).spec_kind()
                    == k && k != TokenKind::Newline && forall|j: int|
                    self.cursor <= j < i ==> (#[trigger] self.tokens@[j]).spec_kind()
                        == TokenKind::Newline,
            r is None ==> forall|j: int|
                self.cursor <= j < self.tokens@.len() ==> (#[trigger] self.tokens@[j]).spec_kind()
                    == TokenKind::Newline,
    {
        let mut i = self.cursor;
        while i < self.tokens.len()
            invariant
                self.cursor <= i <= self.tokens@.len(),
                forall|j: int|
                    self.cursor <= j < i ==> (#[trigger] self.tokens@[j]).spec_kind()
                        == TokenKind::Newline,
            decreases self.tokens@.len() - i,
        {
            let kind = self.tokens[i].kind();
            if kind != TokenKind::Newline {
                return Some(kind);
            }
            i = i + 1;
        }
        None
    }

    /// Returns the kind of the last token before the current one that is not a
    /// newline.
    fn previous_non_newline_kind(&self) -> (r: Option<TokenKind>)
        requires
            self.wf(),
        ensures
            r matches Some(k) ==> exists|i: int|
                0 <= i < self.cursor && (#[trigger] self.tokens@[i]).spec_kind() == k && k
                    != TokenKind::Newline && forall|j: int|
                    i < j < self.cursor ==> (#[trigger] self.tokens@[j]).spec_kind()
                        == TokenKind::Newline,
            r is None ==> forall|j: int|
                0 <= j < self.cursor ==> (#[trigger] self.tokens@[j]).spec_kind()
                    == TokenKind::Newline,
    {
        let mut i = self.cursor;
        while i > 0
            invariant
                i <= self.cursor < self.tokens@.len(),
                forall|j: int|
                    i <= j < self.cursor ==> (#[trigger] self.tokens@[j]).spec_kind()
                        == TokenKind::Newline,
            decreases i,
        {
            let kind = self.tokens[i - 1].kind();
            if kind != TokenKind::Newline {
                return Some(kind);
            }
            i = i - 1;
        }
        None
    }

    /// Returns the end offset of the token consumed last, or the start of the
    /// current token when nothing was consumed.
    fn previous_span_end(&self) -> (r: usize)
        requires
            self.wf(),
        ensures
            r <= self.pos(),
            is_boundary(self.spec_bytes(), r as int),
            self.cursor > 0 ==> r == self.tokens@[self.cursor - 1].spec_span().spec_end(),
            self.cursor == 0 ==> r == self.pos(),
    {
        if self.cursor > 0 {
            proof {
                self.lemma_token(self.cursor - 1);
                self.lemma_order(self.cursor - 1, self.cursor as int);
            }
            self.tokens[self.cursor - 1].span().end()
        } else {
            self.current().span().start()
        }
    }

    /// Skips newlines inside parentheses, brackets, paths and step braces.
    fn skip_soft_newlines(&mut self)
        requires
            old(self).wf(),
        ensures
            final(self).steps_from(old(self)),
            final(self).diagnostics@ == old(self).diagnostics@,
            final(self).soft_newline_depth == old(self).soft_newline_depth,
            final(self).angle_depth == old(self).angle_depth,
            final(self).block_context_depth == old(self).block_context_depth,
            old(self).cur_kind() != TokenKind::Newline ==> final(self).cursor == old(self).cursor,
            old(self).soft_newline_depth == 0 ==> final(self).cursor == old(self).cursor,
            old(self).soft_newline_depth > 0 ==> final(self).cur_kind() != TokenKind::Newline,
            forall|k: int|
                old(self).cursor <= k < final(self).cursor ==> (#[trigger] old(self).tokens@[k]).spec_kind()
                    == TokenKind::Newline,
    {
        if self.soft_newline_depth == 0 {
            return;
        }
        while self.at(TokenKind::Newline)
            invariant
                self.steps_from(old(self)),
                self.diagnostics@ == old(self).diagnostics@,
                self.soft_newline_depth == old(self).soft_newline_depth,
                self.angle_depth == old(self).angle_depth,
                self.block_context_depth == old(self).block_context_depth,
                old(self).cur_kind() != TokenKind::Newline ==> self.cursor == old(self).cursor,
                forall|k: int|
                    old(self).cursor <= k < self.cursor ==> (#[trigger] old(self).tokens@[k]).spec_kind()
                        == TokenKind::Newline,
            decreases self.remaining(),
        {
            self.bump();
        }
    }

    /// Appends a parse error at a span of the source.
    fn push_error(
        &mut self,
        code: &'static str,
        message_id: &'static str,
        span: SourceSpan,
        message: String,
    )
        requires
            old(self).wf(),
            span_fits(old(self).spec_bytes(), span),
        ensures
            final(self).steps_from(old(self)),
            final(self).cursor == old(self).cursor,
            final(self).soft_newline_depth == old(self).soft_newline_depth,
            final(self).angle_depth == old(self).angle_depth,
            final(self).block_context_depth == old(self).block_context_depth,
            final(self).diagnostics@.len() == old(self).diagnostics@.len() + 1,
            final(self).diagnostics@.last().code == code,
            final(self).diagnostics@.last().message_id == message_id,
            final(self).diagnostics@.last().span == Some(span),
    {
        let diagnostic = Diagnostic::error_at(code, message_id, span, message);
        self.diagnostics.push(diagnostic);
        proof {
            reveal(stream_ok);
            let ds = self.diagnostics@;
            assert forall|i: int| 0 <= i < ds.len() implies diagnostic_of(
                self.source.spec_bytes(),
                #[trigger] ds[i],
            ) by {
                if i < ds.len() - 1 {
                    assert(ds[i] == old(self).diagnostics@[i]);
                }
            }
        }
    }

    /// Builds the span between two boundaries of the source.
    fn source_span(&self, start: usize, end: usize) -> (r: SourceSpan)
        requires
            start <= end <= self.spec_bytes().len(),
            is_boundary(self.spec_bytes(), start as int),
            is_boundary(self.spec_bytes(), end as int),
        ensures
            r.spec_start() == start,
            r.spec_end() == end,
            span_fits(self.spec_bytes(), r),
    {
        self.source.span(start, end).unwrap()
    }

    /// Expects a closing delimiter; a missing one is reported without
    /// consuming the token where parsing may resynchronise.
    fn expect_delimiter(&mut self, expected: TokenKind, opener: SourceSpan) -> (r: Option<Token>)
        requires
            old(self).wf(),
            span_fits(old(self).spec_bytes(), opener),
            expected != TokenKind::Eof,
        ensures
            final(self).steps_from(old(self)),
            final(self).soft_newline_depth == old(self).soft_newline_depth,
            final(self).angle_depth == old(self).angle_depth,
            final(self).block_context_depth == old(self).block_context_depth,
            r matches Some(t) ==> t == old(self).cur() && t.spec_kind() == expected
                && final(self).cursor == old(self).cursor + 1 && span_fits(
                old(self).spec_bytes(),
                t.spec_span(),
            ) && t.spec_span().spec_start() == old(self).pos() && t.spec_span().spec_end()
                <= final(self).pos(),
            r is None ==> final(self).cursor == old(self).cursor && old(self).cur_kind()
                != expected,
            r is None ==> final(self).diagnostics@.len() == old(self).diagnostics@.len() + 1
                && final(self).diagnostics@.last().code == MISSING_DELIMITER_CODE,
            r is Some ==> final(self).diagnostics@ == old(self).diagnostics@,
    {
        if self.at(expected) {
            return Some(self.bump());
        }
        let current = self.current();
        let span = if current.span().is_empty() {
            opener
        } else {
            current.span()
        };
        let message = joined("缺少配对分隔符 ", delimiter_name(expected), "");
        self.push_error(MISSING_DELIMITER_CODE, "x01.parse.missing_delimiter", span, message);
        None
    }

    /// Consumes the newline that ends a statement; `Dedent` and `Eof` are left
    /// to the enclosing loop.
    fn consume_newline(&mut self)
        requires
            old(self).wf(),
        ensures
            final(self).steps_from(old(self)),
            final(self).diagnostics@ == old(self).diagnostics@,
            final(self).soft_newline_depth == old(self).soft_newline_depth,
            final(self).angle_depth == old(self).angle_depth,
            final(self).block_context_depth == old(self).block_context_depth,
            old(self).cur_kind() == TokenKind::Newline ==> final(self).cursor == old(self).cursor
                + 1,
            old(self).cur_kind() != TokenKind::Newline ==> final(self).cursor == old(self).cursor,
    {
        if self.at(TokenKind::Newline) {
            self.bump();
        }
    }

    /// Reports the unconsumed tail after a complete expression, unless the
    /// lexer already reported it as invalid.
    fn report_unexpected_tail(&mut self)
        requires
            old(self).wf(),
        ensures
            final(self).steps_from(old(self)),
            final(self).cursor == old(self).cursor,
            final(self).soft_newline_depth == old(self).soft_newline_depth,
            final(self).angle_depth == old(self).angle_depth,
            final(self).block_context_depth == old(self).block_context_depth,
            old(self).cur_kind() == TokenKind::Invalid ==> final(self).diagnostics@ == old(self).diagnostics@,
            old(self).cur_kind() != TokenKind::Invalid ==> final(self).diagnostics@.len() == old(self).diagnostics@.len() + 1
                && final(self).diagnostics@.last().code == UNSUPPORTED_EXPRESSION_CODE
                && final(self).diagnostics@.last().span == Some(old(self).cur().spec_span()),
    {
        let current = self.current();
        if current.kind() != TokenKind::Invalid {
            self.push_error(
                UNSUPPORTED_EXPRESSION_CODE,
                "x01.parse.unsupported_expression",
                current.span(),
                "表达式后存在未预期的语法内容".to_owned(),
            );
        }
    }

    /// Consumes erroneous input up to and including a newline, or up to a
    /// `Dedent` or `Eof`, so that the following statements can be parsed.
    fn synchronize_to_boundary(&mut self)
        requires
            old(self).wf(),
        ensures
            final(self).steps_from(old(self)),
            final(self).diagnostics@ == old(self).diagnostics@,
            final(self).soft_newline_depth == old(self).soft_newline_depth,
            final(self).angle_depth == old(self).angle_depth,
            final(self).block_context_depth == old(self).block_context_depth,
            !(old(self).cur_kind() is Dedent || old(self).cur_kind() is Eof) ==> final(self).cursor
                > old(self).cursor,
    {
        loop
            invariant
                self.steps_from(old(self)),
                self.diagnostics@ == old(self).diagnostics@,
                self.soft_newline_depth == old(self).soft_newline_depth,
                self.angle_depth == old(self).angle_depth,
                self.block_context_depth == old(self).block_context_depth,
                self.cursor == old(self).cursor ==> self.cur_kind() == old(self).cur_kind(),
            ensures
                self.steps_from(old(self)),
                self.diagnostics@ == old(self).diagnostics@,
                self.soft_newline_depth == old(self).soft_newline_depth,
                self.angle_depth == old(self).angle_depth,
                self.block_context_depth == old(self).block_context_depth,
                !(old(self).cur_kind() is Dedent || old(self).cur_kind() is Eof) ==> self.cursor
                    > old(self).cursor,
            decreases self.remaining(),
        {
            let kind = self.current().kind();
            match kind {
                TokenKind::Newline => {
                    self.bump();
                    break;
                },
                TokenKind::Dedent | TokenKind::Eof => {
                    break;
                },
                _ => {
                    self.bump();
                },
            }
        }
    }

    /// Skips an indented region that is not supported at the top level,
    /// keeping the documentation comments inside it.
    fn skip_indented_region(&mut self, orphan_doc_comments: &mut Vec<SourceSpan>)
        requires
            old(self).wf(),
            all_fit(old(self).spec_bytes(), old(orphan_doc_comments)@),
        ensures
            final(self).steps_from(old(self)),
            final(self).diagnostics@ == old(self).diagnostics@,
            final(self).soft_newline_depth == old(self).soft_newline_depth,
            final(self).angle_depth == old(self).angle_depth,
            final(self).block_context_depth == old(self).block_context_depth,
            all_fit(final(self).spec_bytes(), final(orphan_doc_comments)@),
            final(self).cur_kind() == TokenKind::Eof || 1 + indent_balance(
                old(self).tokens@,
                old(self).cursor as int,
                final(self).cursor as int,
            ) == 0,
            forall|k: int|
                old(self).cursor <= k < final(self).cursor ==> 1 + indent_balance(
                    old(self).tokens@,
                    old(self).cursor as int,
                    k,
                ) > 0,
            final(orphan_doc_comments)@ == old(orphan_doc_comments)@ + doc_spans(
                old(self).tokens@,
                old(self).cursor as int,
                final(self).cursor as int,
            ),
    {
        let mut depth: usize = 1;
        let ghost ts = self.tokens@;
        let ghost c0 = self.cursor as int;
        let ghost docs0 = orphan_doc_comments@;
        proof {
            assert(docs0 + doc_spans(ts, c0, c0) =~= docs0);
        }
        while depth > 0 && !self.at(TokenKind::Eof)
            invariant
                self.steps_from(old(self)),
                self.diagnostics@ == old(self).diagnostics@,
                self.soft_newline_depth == old(self).soft_newline_depth,
                self.angle_depth == old(self).angle_depth,
                self.block_context_depth == old(self).block_context_depth,
                all_fit(self.spec_bytes(), orphan_doc_comments@),
                depth <= self.cursor + 1,
                ts == old(self).tokens@,
                c0 == old(self).cursor,
                docs0 == old(orphan_doc_comments)@,
                depth == 1 + indent_balance(ts, c0, self.cursor as int),
                forall|k: int| c0 <= k < self.cursor ==> 1 + indent_balance(ts, c0, k) > 0,
                orphan_doc_comments@ == docs0 + doc_spans(ts, c0, self.cursor as int),
            decreases self.remaining(),
        {
            proof {
                assert(indent_balance(ts, c0, self.cursor + 1) == indent_balance(ts, c0, self.cursor as int)
                    + if ts[self.cursor as int].spec_kind() == TokenKind::Indent {
                    1int
                } else if ts[self.cursor as int].spec_kind() == TokenKind::Dedent {
                    -1int
                } else {
                    0int
                });
            }
            let kind = self.current().kind();
            match kind {
                TokenKind::DocComment => {
                    let token = self.bump();
                    orphan_doc_comments.push(token.span());
                },
                TokenKind::Indent => {
                    depth = depth + 1;
                    self.bump();
                },
                TokenKind::Dedent => {
                    depth = depth - 1;
                    self.bump();
                },
                _ => {
                    self.bump();
                },
            }
            proof {
                assert(orphan_doc_comments@ =~= docs0 + doc_spans(ts, c0, self.cursor as int));
            }
        }
    }
}

// ---------------------------------------------------------------------------
// Expressions
// ---------------------------------------------------------------------------

/// The binary operator that a token of `kind` starts, followed by `next`:
/// the operator, its left and right binding powers, and how many tokens it
/// spans.
pub open spec fn infix_of(kind: TokenKind, next: Option<TokenKind>) -> Option<(BinaryOperator, u8, u8, usize)> {
    match kind {
        TokenKind::Power => Some((BinaryOperator::Power, 60u8, 60u8, 1usize)),
        TokenKind::Star => Some((BinaryOperator::Multiply, 50u8, 51u8, 1usize)),
        TokenKind::Slash => Some((BinaryOperator::Divide, 50u8, 51u8, 1usize)),
        TokenKind::FloorDiv => Some((BinaryOperator::FloorDivide, 50u8, 51u8, 1usize)),
        TokenKind::Percent => Some((BinaryOperator::Remainder, 50u8, 51u8, 1usize)),
        TokenKind::Plus => Some((BinaryOperator::Add, 40u8, 41u8, 1usize)),
        TokenKind::Minus => Some((BinaryOperator::Subtract, 40u8, 41u8, 1usize)),
        TokenKind::Ampersand => Some((BinaryOperator::Intersect, 25u8, 26u8, 1usize)),
        TokenKind::Caret => Some((BinaryOperator::SymmetricDifference, 24u8, 25u8, 1usize)),
        TokenKind::Less => Some((BinaryOperator::Less, 30u8, 31u8, 1usize)),
        TokenKind::LessEqual => Some((BinaryOperator::LessEqual, 30u8, 31u8, 1usize)),
        TokenKind::Greater => Some((BinaryOperator::Greater, 30u8, 31u8, 1usize)),
        TokenKind::GreaterEqual => Some((BinaryOperator::GreaterEqual, 30u8, 31u8, 1usize)),
        TokenKind::EqualEqual => Some((BinaryOperator::Equal, 30u8, 31u8, 1usize)),
        TokenKind::BangEqual => Some((BinaryOperator::NotEqual, 30u8, 31u8, 1usize)),
        TokenKind::Keyword(KeywordKind::In) => Some((BinaryOperator::In, 30u8, 31u8, 1usize)),
        TokenKind::Keyword(KeywordKind::Is) => if next == Some(TokenKind::Keyword(KeywordKind::Not)) {
            Some((BinaryOperator::IsNot, 30u8, 31u8, 2usize))
        } else {
            Some((BinaryOperator::Is, 30u8, 31u8, 1usize))
        },
        TokenKind::Keyword(KeywordKind::Not) => if next == Some(TokenKind::Keyword(KeywordKind::In)) {
            Some((BinaryOperator::NotIn, 30u8, 31u8, 2usize))
        } else {
            None
        },
        TokenKind::Keyword(KeywordKind::And) => Some((BinaryOperator::And, 20u8, 21u8, 1usize)),
        TokenKind::Keyword(KeywordKind::Or) => Some((BinaryOperator::Or, 10u8, 11u8, 1usize)),
        _ => None,
    }
}

/// In `a op1 b op2 c`, whether the second operator takes `b`, giving
/// `a op1 (b op2 c)`, rather than the first operation becoming its left
/// operand, `(a op1 b) op2 c`: it does when its left binding power is at
/// least the first one's right binding power.
pub open spec fn second_takes_middle(
    first: Option<(BinaryOperator, u8, u8, usize)>,
    second: Option<(BinaryOperator, u8, u8, usize)>,
) -> bool {
    second->Some_0.1 >= first->Some_0.2
}

/// The precedence ladder of the binary operators, from loosest to
/// tightest: `or`, `and`, the set operators `^` and `&`, comparisons, `+`
/// and `-`, `*`, `/`, `//` and `%`, then `**`. Between two levels, `a loose b tight c` groups as
/// `a loose (b tight c)` and `a tight b loose c` as `(a tight b) loose c`;
/// within a level the operators group to the left, except `**`, which
/// groups to the right. `and` and `or` are the logical operators.
pub proof fn lemma_operator_precedence(n1: Option<TokenKind>, n2: Option<TokenKind>)
    ensures
        infix_of(TokenKind::Keyword(KeywordKind::And), n1) matches Some(op) && op.0 == BinaryOperator::And,
        infix_of(TokenKind::Keyword(KeywordKind::Or), n1) matches Some(op) && op.0 == BinaryOperator::Or,
        second_takes_middle(
            infix_of(TokenKind::Keyword(KeywordKind::Or), n1),
            infix_of(TokenKind::Keyword(KeywordKind::And), n2),
        ),
        !second_takes_middle(
            infix_of(TokenKind::Keyword(KeywordKind::And), n1),
            infix_of(TokenKind::Keyword(KeywordKind::Or), n2),
        ),
        second_takes_middle(infix_of(TokenKind::Keyword(KeywordKind::And), n1), infix_of(TokenKind::Less, n2)),
        !second_takes_middle(infix_of(TokenKind::Less, n1), infix_of(TokenKind::Keyword(KeywordKind::And), n2)),
        second_takes_middle(infix_of(TokenKind::Keyword(KeywordKind::Or), n1), infix_of(TokenKind::EqualEqual, n2)),
        second_takes_middle(infix_of(TokenKind::Less, n1), infix_of(TokenKind::Plus, n2)),
        !second_takes_middle(infix_of(TokenKind::Plus, n1), infix_of(TokenKind::Less, n2)),
        second_takes_middle(infix_of(TokenKind::Plus, n1), infix_of(TokenKind::Star, n2)),
        !second_takes_middle(infix_of(TokenKind::Star, n1), infix_of(TokenKind::Plus, n2)),
        second_takes_middle(infix_of(TokenKind::Minus, n1), infix_of(TokenKind::Percent, n2)),
        second_takes_middle(infix_of(TokenKind::Star, n1), infix_of(TokenKind::Power, n2)),
        !second_takes_middle(infix_of(TokenKind::Power, n1), infix_of(TokenKind::Star, n2)),
        !second_takes_middle(infix_of(TokenKind::Minus, n1), infix_of(TokenKind::Minus, n2)),
        !second_takes_middle(infix_of(TokenKind::Plus, n1), infix_of(TokenKind::Minus, n2)),
        !second_takes_middle(infix_of(TokenKind::Slash, n1), infix_of(TokenKind::Slash, n2)),
        !second_takes_middle(infix_of(TokenKind::Star, n1), infix_of(TokenKind::FloorDiv, n2)),
        !second_takes_middle(
            infix_of(TokenKind::Keyword(KeywordKind::Or), n1),
            infix_of(TokenKind::Keyword(KeywordKind::Or), n2),
        ),
        !second_takes_middle(
            infix_of(TokenKind::Keyword(KeywordKind::And), n1),
            infix_of(TokenKind::Keyword(KeywordKind::And), n2),
        ),
        second_takes_middle(infix_of(TokenKind::Power, n1), infix_of(TokenKind::Power, n2)),
{
}

/// The index of the first token from `i` on that is not a newline, or the
/// length of `ts` when there is none.
pub open spec fn next_non_newline(ts: Seq<Token>, i: int) -> int
    decreases ts.len() - i,
{
    if i < 0 || i >= ts.len() {
        ts.len() as int
    } else if ts[i].spec_kind() != TokenKind::Newline {
        i
    } else {
        next_non_newline(ts, i + 1)
    }
}

/// A run of newlines from `a` up to a token at `b` that is not one ends at `b`.
proof fn lemma_next_non_newline(ts: Seq<Token>, a: int, b: int)
    requires
        0 <= a <= b < ts.len(),
        forall|k: int| a <= k < b ==> (#[trigger] ts[k]).spec_kind() == TokenKind::Newline,
        ts[b].spec_kind() != TokenKind::Newline,
    ensures
        next_non_newline(ts, a) == b,
    decreases b - a,
{
    if a < b {
        lemma_next_non_newline(ts, a + 1, b);
    }
}

/// A stream whose last token is not a newline has a token that is not one
/// from any index on.
proof fn lemma_next_non_newline_bound(ts: Seq<Token>, a: int)
    requires
        0 <= a < ts.len(),
        ts.last().spec_kind() != TokenKind::Newline,
    ensures
        a <= next_non_newline(ts, a) < ts.len(),
    decreases ts.len() - a,
{
    if ts[a].spec_kind() == TokenKind::Newline && a + 1 < ts.len() {
        lemma_next_non_newline_bound(ts, a + 1);
    }
}

/// Whether the brace at `c` opens a dictionary table: newlines aside, it is
/// closed at once, or its first token is followed by `=` or `:`.
pub open spec fn brace_has_entries(ts: Seq<Token>, c: int) -> bool {
    let i1 = next_non_newline(ts, c + 1);
    if i1 >= ts.len() {
        false
    } else if ts[i1].spec_kind() == TokenKind::RightBrace {
        true
    } else {
        let i2 = next_non_newline(ts, i1 + 1);
        i2 < ts.len() && (ts[i2].spec_kind() == TokenKind::Equal || ts[i2].spec_kind()
            == TokenKind::Colon)
    }
}

/// The scalar type a token names, if it is a scalar type keyword.
pub open spec fn scalar_of_kind(kind: TokenKind) -> Option<ScalarType> {
    match kind {
        TokenKind::Keyword(k) => ScalarType::of_keyword(k),
        _ => None,
    }
}

/// Tokens that begin an operand on their own: literals and names.
pub open spec fn is_simple_operand_kind(kind: TokenKind) -> bool {
    kind.spec_is_literal() || is_expression_name_kind(kind)
}

/// Tokens that may begin an expression.
pub open spec fn starts_expression_kind(kind: TokenKind) -> bool {
    ||| is_simple_operand_kind(kind)
    ||| kind is Plus || kind is Minus || kind == TokenKind::Keyword(KeywordKind::Not)
    ||| kind is LeftParen || kind is LeftBracket || kind is LeftBrace || kind is Less
    ||| kind == TokenKind::Keyword(KeywordKind::New)
}

/// Tokens that continue an operand with a call, member, cast, step or
/// selector.
pub open spec fn continues_postfix_kind(kind: TokenKind) -> bool {
    kind is LeftParen || kind is Dot || kind == TokenKind::Keyword(KeywordKind::As) || kind is LeftBrace
        || kind is LeftBracket
}

/// How many call, member, cast and selector layers wrap the innermost
/// operand of `e`.
pub open spec fn postfix_height(e: Expression) -> nat
    decreases e,
{
    match e {
        Expression::Call { callee, .. } => 1 + postfix_height(*callee),
        Expression::Member { object, .. } => 1 + postfix_height(*object),
        Expression::Cast { expression, .. } => 1 + postfix_height(*expression),
        Expression::Selector { source, .. } => 1 + postfix_height(*source),
        _ => 0,
    }
}

/// `e` is `base` wrapped in zero or more call, member, cast and selector
/// layers.
pub open spec fn wraps(e: Expression, base: Expression) -> bool
    decreases e,
{
    e == base || match e {
        Expression::Call { callee, .. } => wraps(*callee, base),
        Expression::Member { object, .. } => wraps(*object, base),
        Expression::Cast { expression, .. } => wraps(*expression, base),
        Expression::Selector { source, .. } => wraps(*source, base),
        _ => false,
    }
}

/// The layer of `e` that sits directly around `base`.
pub open spec fn innermost_layer(e: Expression, base: Expression) -> Expression
    decreases e,
{
    match e {
        Expression::Call { callee, .. } => if *callee == base {
            e
        } else {
            innermost_layer(*callee, base)
        },
        Expression::Member { object, .. } => if *object == base {
            e
        } else {
            innermost_layer(*object, base)
        },
        Expression::Cast { expression, .. } => if *expression == base {
            e
        } else {
            innermost_layer(*expression, base)
        },
        Expression::Selector { source, .. } => if *source == base {
            e
        } else {
            innermost_layer(*source, base)
        },
        _ => e,
    }
}

/// The layer a postfix token opens: a call for `(`, a member for `.`, a cast
/// for `as`, a selector for `[` and for a step in braces.
pub open spec fn layer_opened_by(kind: TokenKind, e: Expression) -> bool {
    (kind is LeftParen ==> e is Call) && (kind is Dot ==> e is Member) && (kind == TokenKind::Keyword(
        KeywordKind::As,
    ) ==> e is Cast) && (kind is LeftBracket || kind is LeftBrace ==> e is Selector)
}

/// A wrapped expression is at least as tall as what it wraps.
proof fn lemma_wraps_height(e: Expression, base: Expression)
    requires
        wraps(e, base),
    ensures
        postfix_height(e) >= postfix_height(base),
    decreases e,
{
    if e != base {
        match e {
            Expression::Call { callee, .. } => lemma_wraps_height(*callee, base),
            Expression::Member { object, .. } => lemma_wraps_height(*object, base),
            Expression::Cast { expression, .. } => lemma_wraps_height(*expression, base),
            Expression::Selector { source, .. } => lemma_wraps_height(*source, base),
            _ => {},
        }
    }
}

/// The expression a literal or name token stands for on its own.
pub open spec fn simple_operand(t: Token) -> Expression {
    match LiteralKind::of_token_kind(t.spec_kind()) {
        Some(kind) => Expression::Literal { kind, span: t.spec_span() },
        None => Expression::Name(Name {
            span: t.spec_span(),
            backticked: t.spec_kind() == TokenKind::BacktickIdentifier,
        }),
    }
}

/// No token is invalid or the keyword `raise`.
pub open spec fn quiet_tokens(ts: Seq<Token>) -> bool {
    forall|k: int| 0 <= k < ts.len() ==> !(#[trigger] ts[k].spec_kind() is Invalid) && ts[k].spec_kind()
        != TokenKind::Keyword(KeywordKind::Raise)
}

/// The parse gave a program in script mode without statements.
pub open spec fn empty_script(r: ParseResult) -> bool {
    r.program matches Some(p) && p.statements@.len() == 0 && p.entry_mode is Script
}

/// Tokens that form a path segment on their own: a decimal integer or a
/// plain or backtick name.
pub open spec fn is_simple_segment_kind(kind: TokenKind) -> bool {
    kind is Integer || kind is Identifier || kind is BacktickIdentifier
}

/// The path segment a lone integer or name token forms.
pub open spec fn simple_segment(t: Token) -> PathSegment {
    if t.spec_kind() is Integer {
        PathSegment::Integer { span: t.spec_span(), negative: false }
    } else {
        PathSegment::Name(Name { span: t.spec_span(), backticked: t.spec_kind() is BacktickIdentifier })
    }
}

/// `item` is the one-sided range that `kind` (`<`, `<=`, `>` or `>=`) opens
/// with the single segment `seg` as its endpoint.
pub open spec fn open_range_of(item: SelectorItem, kind: TokenKind, seg: PathSegment) -> bool {
    &&& item matches SelectorItem::OpenRange { start, end, include_start, include_end, .. }
    &&& if kind is Less || kind is LessEqual {
        &&& start is None
        &&& end matches Some(p) && p.segments@ == seq![seg]
        &&& !include_start
        &&& include_end == (kind is LessEqual)
    } else {
        &&& end is None
        &&& start matches Some(p) && p.segments@ == seq![seg]
        &&& include_start == (kind is GreaterEqual)
        &&& !include_end
    }
}

/// `item` selects exactly the one-segment path `seg`.
pub open spec fn exact_item_of(item: SelectorItem, seg: PathSegment) -> bool {
    item matches SelectorItem::Exact { path, .. } && path.segments@ == seq![seg]
}

/// The name a plain or backtick name token forms.
pub open spec fn name_of(t: Token) -> Name {
    Name { span: t.spec_span(), backticked: t.spec_kind() is BacktickIdentifier }
}

/// `st` declares the name token `name` with scalar type `t`, no path and
/// the initial value `value`.
pub open spec fn scalar_declaration(st: Statement, t: ScalarType, name: Token, value: Option<Expression>) -> bool {
    &&& st matches Statement::Declaration { target, declared_type, constraint_path, value: v, .. }
    &&& target == name_of(name)
    &&& declared_type == DeclaredType::Scalar(t)
    &&& constraint_path is None
    &&& v == value
}

/// `st` declares the constant `name` with the optional scalar type `declared`
/// and the value `value`.
pub open spec fn const_declaration(st: Statement, declared: Option<ScalarType>, name: Token, value: Expression) -> bool {
    &&& st matches Statement::ConstDeclaration { target, declared_type, value: v, .. }
    &&& target == name_of(name)
    &&& declared_type == declared
    &&& v == value
}

/// The index of line `j` of a run of four-token lines starting at `start`.
pub open spec fn line_start(start: int, j: int) -> int {
    start + 4 * j
}

/// A line `name = operand` ending in a newline starts at `i`.
pub open spec fn assignment_line(ts: Seq<Token>, i: int) -> bool {
    &&& 0 <= i && i + 3 < ts.len()
    &&& ts[i].spec_kind() is Identifier
    &&& ts[i + 1].spec_kind() is Equal
    &&& is_simple_operand_kind(ts[i + 2].spec_kind())
    &&& ts[i + 3].spec_kind() is Newline
}

/// A line `name = a op b` with literal or name operands and a one-token
/// binary operator, ending in a newline, starts at `i`.
pub open spec fn binary_line(ts: Seq<Token>, i: int) -> bool {
    &&& 0 <= i && i + 5 < ts.len()
    &&& ts[i].spec_kind() is Identifier
    &&& ts[i + 1].spec_kind() is Equal
    &&& is_simple_operand_kind(ts[i + 2].spec_kind())
    &&& infix_of(ts[i + 3].spec_kind(), Some(ts[i + 4].spec_kind())) matches Some(op) && op.3 == 1
    &&& is_simple_operand_kind(ts[i + 4].spec_kind())
    &&& ts[i + 5].spec_kind() is Newline
}

/// The `j`-th item of the bracketed list whose opening bracket is at `c`.
pub open spec fn bracket_item(ts: Seq<Token>, c: int, j: int) -> Token {
    ts[c + 1 + 2 * j]
}

/// The separator after the `j`-th item of the bracketed list at `c`.
pub open spec fn bracket_separator(ts: Seq<Token>, c: int, j: int) -> Token {
    ts[c + 2 + 2 * j]
}

/// A line `name = [o0, ..., o(k-1)]` with `k` literal or name items,
/// ending in a newline, starts at `i`.
pub open spec fn array_line(ts: Seq<Token>, i: int, k: int) -> bool {
    &&& 0 <= i && k >= 1 && i + 2 * k + 3 < ts.len()
    &&& ts[i].spec_kind() is Identifier
    &&& ts[i + 1].spec_kind() is Equal
    &&& ts[i + 2].spec_kind() is LeftBracket
    &&& forall|j: int| 0 <= j < k ==> is_simple_operand_kind((#[trigger] bracket_item(ts, i + 2, j)).spec_kind())
    &&& forall|j: int| 0 <= j < k - 1 ==> (#[trigger] bracket_separator(ts, i + 2, j)).spec_kind() is Comma
    &&& ts[i + 2 * k + 2].spec_kind() is RightBracket
    &&& ts[i + 2 * k + 3].spec_kind() is Newline
}

/// The number of items of the array line at `i`.
pub open spec fn array_line_items(ts: Seq<Token>, i: int) -> int {
    choose|k: int| array_line(ts, i, k)
}

/// `e` is the array literal of the `k` items in the brackets at `c`.
pub open spec fn array_value(e: Expression, ts: Seq<Token>, c: int, k: int) -> bool {
    &&& e matches Expression::ArrayLiteral { elements, .. }
    &&& elements@.len() == k
    &&& forall|j: int| 0 <= j < k ==> #[trigger] elements@[j] == simple_operand(bracket_item(ts, c, j))
}

/// A line `TYPE name = operand` declaring a scalar with a literal or name
/// value, ending in a newline, starts at `i`.
pub open spec fn declaration_line(ts: Seq<Token>, i: int) -> bool {
    &&& 0 <= i && i + 4 < ts.len()
    &&& scalar_of_kind(ts[i].spec_kind()) is Some
    &&& is_declaration_name_kind(ts[i + 1].spec_kind())
    &&& ts[i + 2].spec_kind() is Equal
    &&& is_simple_operand_kind(ts[i + 3].spec_kind())
    &&& ts[i + 4].spec_kind() is Newline
}

/// How many tokens the line at `i` takes, or `0` when no assignment or
/// declaration line starts there.
pub open spec fn line_length(ts: Seq<Token>, i: int) -> int {
    if assignment_line(ts, i) {
        4
    } else if binary_line(ts, i) {
        6
    } else if declaration_line(ts, i) {
        5
    } else if exists|k: int| array_line(ts, i, k) {
        2 * array_line_items(ts, i) + 4
    } else {
        0
    }
}

/// Where the assignment lines that follow one another from `i` start.
pub open spec fn line_starts(ts: Seq<Token>, i: int) -> Seq<int>
    decreases ts.len() - i,
{
    if 0 <= i && line_length(ts, i) > 0 {
        seq![i] + line_starts(ts, i + line_length(ts, i))
    } else {
        Seq::empty()
    }
}

/// Where the run of assignment lines from `i` ends.
pub open spec fn lines_end(ts: Seq<Token>, i: int) -> int
    decreases ts.len() - i,
{
    if 0 <= i && line_length(ts, i) > 0 {
        lines_end(ts, i + line_length(ts, i))
    } else {
        i
    }
}

/// `st` is the statement the assignment line at `i` stands for.
pub open spec fn line_statement(st: Statement, ts: Seq<Token>, i: int) -> bool {
    if assignment_line(ts, i) {
        assigns_operand(st, ts[i], ts[i + 2])
    } else if binary_line(ts, i) {
        &&& st matches Statement::Assignment { target, value, .. }
        &&& target == name_of(ts[i])
        &&& binary_of(
            value,
            infix_of(ts[i + 3].spec_kind(), Some(ts[i + 4].spec_kind()))->Some_0.0,
            simple_operand(ts[i + 2]),
            simple_operand(ts[i + 4]),
        )
    } else if declaration_line(ts, i) {
        scalar_declaration(st, scalar_of_kind(ts[i].spec_kind())->Some_0, ts[i + 1], Some(simple_operand(ts[i + 3])))
    } else {
        &&& st matches Statement::Assignment { target, value, .. }
        &&& target == name_of(ts[i])
        &&& array_value(value, ts, i + 2, array_line_items(ts, i))
    }
}

/// A block opens at `i`: a newline, an indent, a run of one or more
/// assignment or declaration lines, and the dedent that closes them.
pub open spec fn line_block(ts: Seq<Token>, i: int) -> bool {
    &&& 0 <= i && i + 1 < ts.len()
    &&& ts[i].spec_kind() is Newline
    &&& ts[i + 1].spec_kind() is Indent
    &&& line_starts(ts, i + 2).len() >= 1
    &&& lines_end(ts, i + 2) < ts.len()
    &&& ts[lines_end(ts, i + 2)].spec_kind() is Dedent
}

/// At `c` stands `if` with a literal or name as its condition and a block
/// of lines, followed by neither a blank line nor `elif`.
pub open spec fn if_shape(ts: Seq<Token>, c: int) -> bool {
    let e = lines_end(ts, c + 4);
    &&& 0 <= c && c + 1 < ts.len()
    &&& is_simple_operand_kind(ts[c + 1].spec_kind())
    &&& line_block(ts, c + 2)
    &&& e + 1 < ts.len()
    &&& !(ts[e + 1].spec_kind() is Newline)
    &&& ts[e + 1].spec_kind() != TokenKind::Keyword(KeywordKind::Elif)
}

/// The `if` at `c` either has no `else`, or its `else` opens a block of
/// lines.
pub open spec fn if_settled(ts: Seq<Token>, c: int) -> bool {
    let e = lines_end(ts, c + 4);
    ts[e + 1].spec_kind() != TokenKind::Keyword(KeywordKind::Else) || line_block(ts, e + 2)
}

/// `st` is the `if` at `c`: its condition, the statements of its block and,
/// when `else` follows the block, those of the `else` block.
pub open spec fn if_tree(st: Statement, ts: Seq<Token>, c: int) -> bool {
    let e = lines_end(ts, c + 4);
    &&& st matches Statement::If { condition, body, elif_branches, else_body, .. }
    &&& condition == simple_operand(ts[c + 1])
    &&& block_statements(body@, ts, c + 2)
    &&& elif_branches@.len() == 0
    &&& if ts[e + 1].spec_kind() == TokenKind::Keyword(KeywordKind::Else) {
        line_block(ts, e + 2) ==> (else_body matches Some(b) && block_statements(b@, ts, e + 2))
    } else {
        else_body is None
    }
}

/// A top-level `if` with no `else` starts at `i`; its length in tokens.
pub open spec fn if_line_length(ts: Seq<Token>, i: int) -> int {
    if 0 <= i < ts.len() && ts[i].spec_kind() == TokenKind::Keyword(KeywordKind::If) && if_shape(ts, i)
        && ts[lines_end(ts, i + 4) + 1].spec_kind() != TokenKind::Keyword(KeywordKind::Else) {
        lines_end(ts, i + 4) + 1 - i
    } else {
        0
    }
}

/// How many tokens the program line at `i` takes: an assignment or
/// declaration line, or an `if` whose block holds such lines; `0` when
/// none starts there.
pub open spec fn program_line_length(ts: Seq<Token>, i: int) -> int {
    if line_length(ts, i) > 0 {
        line_length(ts, i)
    } else {
        if_line_length(ts, i)
    }
}

/// Where the program lines that follow one another from `i` start.
pub open spec fn program_line_starts(ts: Seq<Token>, i: int) -> Seq<int>
    decreases ts.len() - i,
{
    if 0 <= i && program_line_length(ts, i) > 0 {
        seq![i] + program_line_starts(ts, i + program_line_length(ts, i))
    } else {
        Seq::empty()
    }
}

/// Where the run of program lines from `i` ends.
pub open spec fn program_lines_end(ts: Seq<Token>, i: int) -> int
    decreases ts.len() - i,
{
    if 0 <= i && program_line_length(ts, i) > 0 {
        program_lines_end(ts, i + program_line_length(ts, i))
    } else {
        i
    }
}

/// `st` is the statement the program line at `i` stands for.
pub open spec fn program_line_statement(st: Statement, ts: Seq<Token>, i: int) -> bool {
    if line_length(ts, i) > 0 {
        line_statement(st, ts, i)
    } else {
        if_tree(st, ts, i)
    }
}

/// `sts` are the statements of the lines of the block at `i`, in order.
pub open spec fn block_statements(sts: Seq<Statement>, ts: Seq<Token>, i: int) -> bool {
    let ls = line_starts(ts, i + 2);
    &&& sts.len() == ls.len()
    &&& forall|j: int| 0 <= j < ls.len() ==> line_statement(#[trigger] sts[j], ts, ls[j])
}

/// How many assignment lines follow one another from `start` on.
pub open spec fn assignment_lines(ts: Seq<Token>, start: int) -> nat
    decreases ts.len() - start,
{
    if 0 <= start && assignment_line(ts, start) {
        1 + assignment_lines(ts, start + 4)
    } else {
        0
    }
}

/// Each of the first `assignment_lines(ts, start)` lines from `start` is an
/// assignment line, and the run from line `j` on is `j` lines shorter.
proof fn lemma_assignment_lines(ts: Seq<Token>, start: int, j: int)
    requires
        0 <= start,
        0 <= j < assignment_lines(ts, start),
    ensures
        assignment_line(ts, line_start(start, j)),
        assignment_lines(ts, line_start(start, j)) == assignment_lines(ts, start) - j,
        assignment_lines(ts, line_start(start, j + 1)) == assignment_lines(ts, start) - j - 1,
    decreases j,
{
    if j > 0 {
        lemma_assignment_lines(ts, start + 4, j - 1);
        assert(line_start(start + 4, j - 1) == line_start(start, j));
        assert(line_start(start + 4, j) == line_start(start, j + 1));
    }
}

/// `e` applies `operator` to `left` and `right`.
pub open spec fn binary_of(e: Expression, operator: BinaryOperator, left: Expression, right: Expression) -> bool {
    e matches Expression::Binary { operator: o, left: l, right: rr, .. } && o == operator && *l == left
        && *rr == right
}

/// `e` is `a op1 (b op2 c)`.
pub open spec fn nested_right(e: Expression, op1: BinaryOperator, op2: BinaryOperator, a: Expression, b: Expression, c: Expression) -> bool {
    e matches Expression::Binary { operator, left, right, .. } && operator == op1 && *left == a && binary_of(
        *right,
        op2,
        b,
        c,
    )
}

/// `e` is `(a op1 b) op2 c`.
pub open spec fn nested_left(e: Expression, op1: BinaryOperator, op2: BinaryOperator, a: Expression, b: Expression, c: Expression) -> bool {
    e matches Expression::Binary { operator, left, right, .. } && operator == op2 && binary_of(*left, op1, a, b)
        && *right == c
}

/// What the innermost postfix layer holds beyond its kind: a member access
/// names the token after the dot, and a cast converts to the scalar type
/// the token after `as` names.
pub open spec fn layer_details(kind: TokenKind, layer: Expression, after: Token) -> bool {
    &&& kind is Dot ==> (layer matches Expression::Member { member, .. } && member == name_of(after))
    &&& kind == TokenKind::Keyword(KeywordKind::As) ==> (layer matches Expression::Cast { target, .. }
        && Some(target) == scalar_of_kind(after.spec_kind()))
}

/// `a` passes the literal or name token `t` by position.
pub open spec fn positional_operand(a: CallArgument, t: Token) -> bool {
    &&& a.name is None
    &&& a.kind == CallArgumentKind::Positional
    &&& a.value == simple_operand(t)
}

/// A statement a table body may hold: a field assignment or declaration, or
/// a method.
pub open spec fn is_table_member(st: Statement) -> bool {
    st is Assignment || st is Declaration || st is ConstDeclaration || st is Function
}

/// `st` is the plain assignment `name = operand` of the name token `name`
/// and the literal or name token `operand`.
pub open spec fn assigns_operand(st: Statement, name: Token, operand: Token) -> bool {
    &&& st matches Statement::Assignment { target, value, span, .. }
    &&& target.span == name.spec_span()
    &&& !target.backticked
    &&& value == simple_operand(operand)
    &&& span.spec_start() == name.spec_span().spec_start()
    &&& span.spec_end() == operand.spec_span().spec_end()
}

/// The statement kinds a statement starting with a token of `kind` can be:
/// each keyword opens its own statement, and anything else is a table, a
/// declaration, an assignment or an expression statement.
pub open spec fn statement_fits_start(st: Statement, kind: TokenKind) -> bool {
    match kind {
        TokenKind::Keyword(KeywordKind::Import) | TokenKind::Keyword(KeywordKind::From) => st is Import,
        TokenKind::Keyword(KeywordKind::Def) => st is Function,
        TokenKind::Keyword(KeywordKind::If) => st is If,
        TokenKind::Keyword(KeywordKind::For) => st is For,
        TokenKind::Keyword(KeywordKind::While) => st is While,
        TokenKind::Keyword(KeywordKind::Return) => st is Return,
        TokenKind::Keyword(KeywordKind::Break) => st is Break,
        TokenKind::Keyword(KeywordKind::Continue) => st is Continue,
        TokenKind::Keyword(KeywordKind::Try) => st is Try,
        TokenKind::Keyword(KeywordKind::Raise) => st is Raise,
        TokenKind::Keyword(KeywordKind::Const) => st is ConstDeclaration,
        TokenKind::LeftBracket => st is Table || st is Expression || st is Assignment || st is ExtendedAssignment,
        _ => st is Declaration || st is ConstDeclaration || st is Expression || st is Assignment
            || st is ExtendedAssignment,
    }
}

/// Whether a `>` followed by `next` closes a dictionary column: nothing
/// follows, or what follows closes or continues an operand.
pub open spec fn greater_closes_before(next: Option<TokenKind>) -> bool {
    match next {
        None => true,
        Some(kind) => kind == TokenKind::Comma || kind == TokenKind::RightParen || kind
            == TokenKind::RightBracket || kind == TokenKind::RightBrace || kind == TokenKind::LeftParen
            || kind == TokenKind::LeftBracket || kind == TokenKind::LeftBrace || kind == TokenKind::Dot
            || kind == TokenKind::Plus || kind == TokenKind::Minus || kind == TokenKind::Star || kind
            == TokenKind::Slash || kind == TokenKind::FloorDiv || kind == TokenKind::Percent || kind
            == TokenKind::Power || kind == TokenKind::Keyword(KeywordKind::As) || kind
            == TokenKind::Greater || kind == TokenKind::Newline || kind == TokenKind::Eof,
    }
}

impl<'source> Parser<'source> {
    /// Consumes a name token and returns it as a name.
    fn parse_name(&mut self) -> (r: Name)
        requires
            old(self).wf(),
            old(self).cur_kind() != TokenKind::Eof,
        ensures
            final(self).steps_from(old(self)),
            final(self).diagnostics@ == old(self).diagnostics@,
            final(self).cursor == old(self).cursor + 1,
            final(self).soft_newline_depth == old(self).soft_newline_depth,
            final(self).angle_depth == old(self).angle_depth,
            final(self).block_context_depth == old(self).block_context_depth,
            r.span == old(self).cur().spec_span(),
            r.backticked == (old(self).cur_kind() == TokenKind::BacktickIdentifier),
            final(self).covers(old(self).pos(), r.span),
            r.span.spec_start() == old(self).pos(),
    {
        let token = self.bump();
        Name { span: token.span(), backticked: token.kind() == TokenKind::BacktickIdentifier }
    }

    /// Parses a complete expression at the lowest binding power.
    fn parse_expression(&mut self) -> (r: Option<Expression>)
        requires
            old(self).wf(),
        ensures
            final(self).steps_from(old(self)),
            r matches Some(e) ==> final(self).covers(old(self).pos(), e.spec_span()),
            r matches Some(e) ==> final(self).nodes_fit(expression_nodes(e)),
            old(self).cursor <= old(self).expression_start() < old(self).tokens@.len(),
            is_simple_operand_kind(old(self).tokens@[old(self).expression_start()].spec_kind()) ==> r is Some,
            !starts_expression_kind(old(self).tokens@[old(self).expression_start()].spec_kind()) ==> r is None
                && final(self).diagnostics@ == old(self).diagnostics@,
            old(self).lone_operand_at(old(self).cursor as int) ==> r == Some(simple_operand(old(self).cur()))
                && final(self).cursor == old(self).cursor + 1 && final(self).diagnostics@ == old(self).diagnostics@
                && final(self).soft_newline_depth == old(self).soft_newline_depth && final(self).angle_depth == old(self).angle_depth,
            (old(self).binary_at(old(self).cursor as int, 0) ==> binary_of(
                r->Some_0,
                old(self).infix_at(old(self).cursor + 1)->Some_0.0,
                simple_operand(old(self).cur()),
                simple_operand(old(self).tokens@[old(self).cursor + 2]),
            ) && r is Some && final(self).cursor == old(self).cursor + 3 && final(self).diagnostics@ == old(self).diagnostics@
                && final(self).soft_newline_depth == 0 && final(self).angle_depth == 0),
            (old(self).chain_at(old(self).cursor as int, 0) ==> r is Some && old(self).chain_tree(
                old(self).cursor as int,
                r->Some_0,
            ) && final(self).cursor == old(self).cursor + 5 && final(self).diagnostics@ == old(self).diagnostics@
                && final(self).soft_newline_depth == 0 && final(self).angle_depth == 0),
            forall|k: int|
                #[trigger] old(self).array_expression_at(old(self).cursor as int, k) && old(self).soft_newline_depth == 0
                    && old(self).angle_depth == 0 ==> (r matches Some(e) && old(self).array_of_list(
                    old(self).cursor as int,
                    k,
                    e,
                )) && final(self).cursor == old(self).cursor + 2 * k + 1 && final(self).diagnostics@
                    == old(self).diagnostics@ && final(self).soft_newline_depth == 0 && final(self).angle_depth == 0,
        decreases old(self).remaining(), 30int,
    {
        self.parse_expression_bp(0)
    }

    /// Returns the binary operator at the current token with its left and
    /// right binding powers and the number of tokens it spans.
    fn current_infix(&self) -> (r: Option<(BinaryOperator, u8, u8, usize)>)
        requires
            self.wf(),
        ensures
            r matches Some(t) ==> self.cur_kind() != TokenKind::Eof && (t.3 == 1 || (t.3 == 2
                && self.cursor + 1 < self.tokens@.len())),
            r == infix_of(self.cur_kind(), self.next_kind()),
    {
        let kind = self.current().kind();
        match kind {
            TokenKind::Power => Some((BinaryOperator::Power, 60, 60, 1)),
            TokenKind::Star => Some((BinaryOperator::Multiply, 50, 51, 1)),
            TokenKind::Slash => Some((BinaryOperator::Divide, 50, 51, 1)),
            TokenKind::FloorDiv => Some((BinaryOperator::FloorDivide, 50, 51, 1)),
            TokenKind::Percent => Some((BinaryOperator::Remainder, 50, 51, 1)),
            TokenKind::Plus => Some((BinaryOperator::Add, 40, 41, 1)),
            TokenKind::Minus => Some((BinaryOperator::Subtract, 40, 41, 1)),
            TokenKind::Ampersand => Some((BinaryOperator::Intersect, 25, 26, 1)),
            TokenKind::Caret => Some((BinaryOperator::SymmetricDifference, 24, 25, 1)),
            TokenKind::Less => Some((BinaryOperator::Less, 30, 31, 1)),
            TokenKind::LessEqual => Some((BinaryOperator::LessEqual, 30, 31, 1)),
            TokenKind::Greater => Some((BinaryOperator::Greater, 30, 31, 1)),
            TokenKind::GreaterEqual => Some((BinaryOperator::GreaterEqual, 30, 31, 1)),
            TokenKind::EqualEqual => Some((BinaryOperator::Equal, 30, 31, 1)),
            TokenKind::BangEqual => Some((BinaryOperator::NotEqual, 30, 31, 1)),
            TokenKind::Keyword(KeywordKind::In) => Some((BinaryOperator::In, 30, 31, 1)),
            TokenKind::Keyword(KeywordKind::Is) => {
                if matches!(self.lookahead_kind(1), Some(TokenKind::Keyword(KeywordKind::Not))) {
                    Some((BinaryOperator::IsNot, 30, 31, 2))
                } else {
                    Some((BinaryOperator::Is, 30, 31, 1))
                }
            },
            TokenKind::Keyword(KeywordKind::Not) => {
                if matches!(self.lookahead_kind(1), Some(TokenKind::Keyword(KeywordKind::In))) {
                    Some((BinaryOperator::NotIn, 30, 31, 2))
                } else {
                    None
                }
            },
            TokenKind::Keyword(KeywordKind::And) => Some((BinaryOperator::And, 20, 21, 1)),
            TokenKind::Keyword(KeywordKind::Or) => Some((BinaryOperator::Or, 10, 11, 1)),
            _ => None,
        }
    }

    /// Returns whether a `>` at the current token closes the innermost
    /// dictionary column rather than comparing: it does when the next token
    /// closes or follows an operand, or there is none.
    fn greater_closes_column(&self) -> (r: bool)
        requires
            self.wf(),
        ensures
            r == (self.angle_depth > 0 && self.cur_kind() == TokenKind::Greater
                && greater_closes_before(self.next_kind())),
    {
        if self.angle_depth == 0 || !self.at(TokenKind::Greater) {
            return false;
        }
        match self.lookahead_kind(1) {
            None => true,
            Some(kind) => match kind {
                TokenKind::Comma | TokenKind::RightParen | TokenKind::RightBracket
                | TokenKind::RightBrace | TokenKind::LeftParen | TokenKind::LeftBracket
                | TokenKind::LeftBrace | TokenKind::Dot | TokenKind::Plus | TokenKind::Minus
                | TokenKind::Star | TokenKind::Slash | TokenKind::FloorDiv | TokenKind::Percent
                | TokenKind::Power | TokenKind::Keyword(KeywordKind::As) | TokenKind::Greater
                | TokenKind::Newline | TokenKind::Eof => true,
                _ => false,
            },
        }
    }

    /// The Pratt loop: parses an operand, then binary operators that bind at
    /// least as strongly as `minimum_binding_power`.
    fn parse_expression_bp(&mut self, minimum_binding_power: u8) -> (r: Option<Expression>)
        requires
            old(self).wf(),
        ensures
            final(self).steps_from(old(self)),
            r matches Some(e) ==> final(self).covers(old(self).pos(), e.spec_span()),
            r matches Some(e) ==> final(self).nodes_fit(expression_nodes(e)),
            old(self).cursor <= old(self).expression_start() < old(self).tokens@.len(),
            is_simple_operand_kind(old(self).tokens@[old(self).expression_start()].spec_kind()) ==> r is Some,
            !starts_expression_kind(old(self).tokens@[old(self).expression_start()].spec_kind()) ==> r is None
                && final(self).diagnostics@ == old(self).diagnostics@,
            old(self).lone_operand_at(old(self).cursor as int) ==> r == Some(simple_operand(old(self).cur()))
                && final(self).cursor == old(self).cursor + 1 && final(self).diagnostics@ == old(self).diagnostics@
                && final(self).soft_newline_depth == old(self).soft_newline_depth && final(self).angle_depth == old(self).angle_depth,
            (old(self).binary_at(old(self).cursor as int, minimum_binding_power) ==> binary_of(
                r->Some_0,
                old(self).infix_at(old(self).cursor + 1)->Some_0.0,
                simple_operand(old(self).cur()),
                simple_operand(old(self).tokens@[old(self).cursor + 2]),
            ) && r is Some && final(self).cursor == old(self).cursor + 3 && final(self).diagnostics@ == old(self).diagnostics@
                && final(self).soft_newline_depth == 0 && final(self).angle_depth == 0),
            (old(self).weaker_operator_at(old(self).cursor as int, minimum_binding_power) ==> r == Some(
                simple_operand(old(self).cur()),
            ) && final(self).cursor == old(self).cursor + 1 && final(self).diagnostics@ == old(self).diagnostics@
                && final(self).soft_newline_depth == 0 && final(self).angle_depth == 0),
            (old(self).chain_at(old(self).cursor as int, minimum_binding_power) ==> r is Some && old(self).chain_tree(
                old(self).cursor as int,
                r->Some_0,
            ) && final(self).cursor == old(self).cursor + 5 && final(self).diagnostics@ == old(self).diagnostics@
                && final(self).soft_newline_depth == 0 && final(self).angle_depth == 0),
            forall|k: int|
                #[trigger] old(self).array_expression_at(old(self).cursor as int, k) && old(self).soft_newline_depth == 0
                    && old(self).angle_depth == 0 ==> (r matches Some(e) && old(self).array_of_list(
                    old(self).cursor as int,
                    k,
                    e,
                )) && final(self).cursor == old(self).cursor + 2 * k + 1 && final(self).diagnostics@
                    == old(self).diagnostics@ && final(self).soft_newline_depth == 0 && final(self).angle_depth == 0,
        decreases old(self).remaining(), 29int,
    {
        let ghost c0 = self.cursor as int;
        let ghost ak = choose|k: int| old(self).array_expression_at(c0, k);
        let ghost arr = old(self).array_expression_at(c0, ak) && old(self).soft_newline_depth == 0
            && old(self).angle_depth == 0;
        proof {
            if arr {
                assert forall|k: int| #[trigger] old(self).array_expression_at(c0, k) implies k == ak by {
                    old(self).lemma_operand_list_unique(c0, k, ak, TokenKind::RightBracket);
                }
            }
        }
        proof {
            self.lemma_token(self.tokens@.len() - 1);
            if self.soft_newline_depth > 0 {
                lemma_next_non_newline_bound(self.tokens@, c0);
            }
        }
        self.skip_soft_newlines();
        proof {
            if old(self).soft_newline_depth > 0 {
                self.lemma_token(self.cursor as int);
                lemma_next_non_newline(self.tokens@, c0, self.cursor as int);
            }
        }
        let ghost s1 = *self;
        proof {
            if arr {
                old(self).lemma_operand_list_tokens(self, c0, ak, TokenKind::RightBracket);
            }
        }
        let mut left = match self.parse_prefix_expression() {
            Some(left) => left,
            None => {
                return None;
            },
        };
        proof {
            if arr {
                s1.lemma_array_of_list_tokens(old(self), c0, ak, left);
            }
        }
        loop
            invariant
                arr ==> old(self).array_of_list(c0, ak, left) && self.cursor == c0 + 2 * ak + 1 && self.diagnostics@
                    == old(self).diagnostics@ && self.soft_newline_depth == 0 && self.angle_depth == 0,
                arr == (old(self).array_expression_at(c0, ak) && old(self).soft_newline_depth == 0
                    && old(self).angle_depth == 0),
                c0 == old(self).cursor,
                self.steps_from(old(self)),
                self.covers(old(self).pos(), left.spec_span()),
                self.nodes_fit(expression_nodes(left)),
                old(self).lone_operand_at(old(self).cursor as int) ==> left == simple_operand(old(self).cur())
                    && self.cursor == old(self).cursor + 1 && self.diagnostics@ == old(self).diagnostics@
                    && self.soft_newline_depth == old(self).soft_newline_depth && self.angle_depth == old(self).angle_depth,
                old(self).binary_at(old(self).cursor as int, minimum_binding_power) ==> self.diagnostics@ == old(self).diagnostics@
                    && self.soft_newline_depth == 0 && self.angle_depth == 0 && ((self.cursor == old(self).cursor + 1
                    && left == simple_operand(old(self).cur())) || (self.cursor == old(self).cursor + 3 && binary_of(
                    left,
                    old(self).infix_at(old(self).cursor + 1)->Some_0.0,
                    simple_operand(old(self).cur()),
                    simple_operand(old(self).tokens@[old(self).cursor + 2]),
                ))),
                old(self).weaker_operator_at(old(self).cursor as int, minimum_binding_power) ==> self.diagnostics@
                    == old(self).diagnostics@ && self.soft_newline_depth == 0 && self.angle_depth == 0 && self.cursor
                    == old(self).cursor + 1 && left == simple_operand(old(self).cur()),
                old(self).chain_at(old(self).cursor as int, minimum_binding_power) ==> self.diagnostics@ == old(self).diagnostics@
                    && self.soft_newline_depth == 0 && self.angle_depth == 0 && ((self.cursor == old(self).cursor + 1
                    && left == simple_operand(old(self).cur())) || (self.cursor == old(self).cursor + 3
                    && old(self).infix_at(old(self).cursor + 3)->Some_0.1 < old(self).infix_at(old(self).cursor + 1)->Some_0.2
                    && binary_of(
                    left,
                    old(self).infix_at(old(self).cursor + 1)->Some_0.0,
                    simple_operand(old(self).cur()),
                    simple_operand(old(self).tokens@[old(self).cursor + 2]),
                )) || (self.cursor == old(self).cursor + 5 && old(self).chain_tree(old(self).cursor as int, left))),
            ensures
                arr ==> old(self).array_of_list(c0, ak, left) && self.cursor == c0 + 2 * ak + 1 && self.diagnostics@
                    == old(self).diagnostics@ && self.soft_newline_depth == 0 && self.angle_depth == 0,
                arr == (old(self).array_expression_at(c0, ak) && old(self).soft_newline_depth == 0
                    && old(self).angle_depth == 0),
                c0 == old(self).cursor,
                self.steps_from(old(self)),
                self.covers(old(self).pos(), left.spec_span()),
                self.nodes_fit(expression_nodes(left)),
                old(self).lone_operand_at(old(self).cursor as int) ==> left == simple_operand(old(self).cur())
                    && self.cursor == old(self).cursor + 1 && self.diagnostics@ == old(self).diagnostics@
                    && self.soft_newline_depth == old(self).soft_newline_depth && self.angle_depth == old(self).angle_depth,
                old(self).binary_at(old(self).cursor as int, minimum_binding_power) ==> self.diagnostics@ == old(self).diagnostics@
                    && self.soft_newline_depth == 0 && self.angle_depth == 0 && ((self.cursor == old(self).cursor + 1
                    && left == simple_operand(old(self).cur()) && false) || (self.cursor == old(self).cursor + 3 && binary_of(
                    left,
                    old(self).infix_at(old(self).cursor + 1)->Some_0.0,
                    simple_operand(old(self).cur()),
                    simple_operand(old(self).tokens@[old(self).cursor + 2]),
                ))),
                old(self).weaker_operator_at(old(self).cursor as int, minimum_binding_power) ==> self.diagnostics@
                    == old(self).diagnostics@ && self.soft_newline_depth == 0 && self.angle_depth == 0 && self.cursor
                    == old(self).cursor + 1 && left == simple_operand(old(self).cur()),
                old(self).chain_at(old(self).cursor as int, minimum_binding_power) ==> self.diagnostics@ == old(self).diagnostics@
                    && self.soft_newline_depth == 0 && self.angle_depth == 0 && ((self.cursor == old(self).cursor + 1
                    && left == simple_operand(old(self).cur()) && false) || (self.cursor == old(self).cursor + 3 && false
                    && old(self).infix_at(old(self).cursor + 3)->Some_0.1 < old(self).infix_at(old(self).cursor + 1)->Some_0.2
                    && binary_of(
                    left,
                    old(self).infix_at(old(self).cursor + 1)->Some_0.0,
                    simple_operand(old(self).cur()),
                    simple_operand(old(self).tokens@[old(self).cursor + 2]),
                )) || (self.cursor == old(self).cursor + 5 && old(self).chain_tree(old(self).cursor as int, left))),
            decreases self.remaining(),
        {
            self.skip_soft_newlines();
            proof {
                if arr {
                    assert(old(self).ends_operand_at(c0 + 2 * ak + 1));
                    assert(self.cur() == old(self).tokens@[c0 + 2 * ak + 1]);
                }
                if old(self).lone_operand_at(old(self).cursor as int) {
                    assert(self.tokens@ == old(self).tokens@);
                    assert(self.cur_kind() == old(self).tokens@[old(self).cursor + 1].spec_kind());
                    assert(infix_of(self.cur_kind(), self.next_kind()) is None);
                }
            }
            if self.greater_closes_column() {
                break;
            }
            match self.current_infix() {
                Some((operator, left_bp, right_bp, extra_tokens)) => {
                    if left_bp < minimum_binding_power {
                        break;
                    }
                    self.bump();
                    if extra_tokens == 2 {
                        self.bump();
                    }
                    let right = match self.parse_expression_bp(right_bp) {
                        Some(right) => right,
                        None => {
                            let span = self.current().span();
                            self.push_error(
                                MISSING_EXPRESSION_CODE,
                                "x01.parse.missing_expression",
                                span,
                                "二元运算符右侧缺少表达式".to_owned(),
                            );
                            break;
                        },
                    };
                    let span = self.source_span(left.span().start(), right.span().end());
                    proof {
                        lemma_fit_node2(
                            self.spec_bytes(),
                            span,
                            expression_nodes(left),
                            expression_nodes(right),
                        );
                    }
                    left = Expression::Binary {
                        operator,
                        left: Box::new(left),
                        right: Box::new(right),
                        span,
                    };
                },
                None => {
                    break;
                },
            }
        }
        Some(left)
    }

    /// Parses a unary operand after a `+`, `-` or `not` token.
    fn parse_unary_operand(&mut self, token: Token) -> (r: Option<Expression>)
        requires
            old(self).wf(),
            token == old(self).cur(),
            token.spec_kind() is Plus || token.spec_kind() is Minus || token.spec_kind()
                == TokenKind::Keyword(KeywordKind::Not),
        ensures
            final(self).steps_from(old(self)),
            r matches Some(e) ==> final(self).covers(old(self).pos(), e.spec_span()),
            r matches Some(e) ==> final(self).nodes_fit(expression_nodes(e)),
            r is None ==> final(self).diagnostics@.len() > old(self).diagnostics@.len()
                && final(self).diagnostics@.last().code == MISSING_EXPRESSION_CODE
                && final(self).diagnostics@.last().span == Some(token.spec_span()),
            (r matches Some(e) ==> e matches Expression::Unary { operator, .. } && operator == (
                if token.spec_kind() is Plus {
                    UnaryOperator::Plus
                } else if token.spec_kind() is Minus {
                    UnaryOperator::Minus
                } else {
                    UnaryOperator::Not
                }) && e.spec_span().spec_start() == old(self).pos()),
        decreases old(self).remaining(), 27int,
    {
        self.bump();
        let operand = match self.parse_expression_bp(55) {
            Some(operand) => operand,
            None => {
                let message = if token.kind() == TokenKind::Keyword(KeywordKind::Not) {
                    "not 后缺少表达式"
                } else {
                    "一元运算符后缺少表达式"
                };
                self.push_error(
                    MISSING_EXPRESSION_CODE,
                    "x01.parse.missing_unary_operand",
                    token.span(),
                    message.to_owned(),
                );
                return None;
            },
        };
        let span = self.source_span(token.span().start(), operand.span().end());
        proof {
            lemma_fit_node1(self.spec_bytes(), span, expression_nodes(operand));
        }
        let operator = match token.kind() {
            TokenKind::Plus => UnaryOperator::Plus,
            TokenKind::Minus => UnaryOperator::Minus,
            _ => UnaryOperator::Not,
        };
        Some(Expression::Unary { operator, operand: Box::new(operand), span })
    }

    /// Parses a prefix operand and then its postfix suffixes.
    fn parse_prefix_expression(&mut self) -> (r: Option<Expression>)
        requires
            old(self).wf(),
        ensures
            final(self).steps_from(old(self)),
            r matches Some(e) ==> final(self).covers(old(self).pos(), e.spec_span()),
            r matches Some(e) ==> final(self).nodes_fit(expression_nodes(e)),
            is_simple_operand_kind(old(self).cur_kind()) ==> (r matches Some(e) && e.spec_span().spec_start()
                == old(self).pos()),
            !starts_expression_kind(old(self).cur_kind()) ==> r is None && final(self).cursor == old(self).cursor
                && final(self).diagnostics@ == old(self).diagnostics@,
            is_simple_operand_kind(old(self).cur_kind()) && !(old(self).next_kind() matches Some(k)
                && continues_postfix_kind(k)) ==> r == Some(simple_operand(old(self).cur())) && final(self).cursor
                == old(self).cursor + 1 && final(self).diagnostics@ == old(self).diagnostics@
                && final(self).soft_newline_depth == old(self).soft_newline_depth && final(self).angle_depth == old(self).angle_depth,
            forall|k: int|
                #[trigger] old(self).operand_list_at(old(self).cursor as int, k, TokenKind::RightBracket)
                    && old(self).cur_kind() is LeftBracket && old(self).cursor + 2 * k + 1 < old(self).tokens@.len()
                    && !continues_postfix_kind(old(self).tokens@[old(self).cursor + 2 * k + 1].spec_kind()) ==> (r matches Some(
                    e,
                ) && old(self).array_of_list(old(self).cursor as int, k, e)) && final(self).cursor == old(self).cursor
                    + 2 * k + 1 && final(self).diagnostics@ == old(self).diagnostics@ && final(self).angle_depth
                    == old(self).angle_depth && (old(self).soft_newline_depth < usize::MAX
                    ==> final(self).soft_newline_depth == old(self).soft_newline_depth),
        decreases old(self).remaining(), 28int,
    {
        let token = self.current();
        let kind = token.kind();
        let expression = match LiteralKind::from_token_kind(kind) {
            Some(literal) => {
                self.bump();
                proof {
                    lemma_fit_one(self.spec_bytes(), token.spec_span());
                }
                Expression::Literal { kind: literal, span: token.span() }
            },
            None => {
                if is_expression_name_token(kind) {
                    let name = self.parse_name();
                    proof {
                        lemma_fit_one(self.spec_bytes(), name.span);
                    }
                    Expression::Name(name)
                } else {
                    let parsed = match kind {
                        TokenKind::Plus | TokenKind::Minus | TokenKind::Keyword(KeywordKind::Not) => {
                            self.parse_unary_operand(token)
                        },
                        TokenKind::LeftParen => self.parse_parenthesized_expression(),
                        TokenKind::LeftBracket => self.parse_array_literal(),
                        TokenKind::LeftBrace => self.parse_brace_literal(),
                        TokenKind::Less => self.parse_dict_column_literal(),
                        TokenKind::Keyword(KeywordKind::New) => self.parse_new_expression(),
                        _ => None,
                    };
                    match parsed {
                        Some(expression) => expression,
                        None => {
                            return None;
                        },
                    }
                }
            },
        };
        self.parse_postfix_expression(expression)
    }

    /// Parses a parenthesised group or a tuple literal.
    fn parse_parenthesized_expression(&mut self) -> (r: Option<Expression>)
        requires
            old(self).wf(),
            old(self).cur_kind() == TokenKind::LeftParen,
        ensures
            final(self).steps_from(old(self)),
            final(self).cursor > old(self).cursor,
            r matches Some(e) ==> final(self).covers(old(self).pos(), e.spec_span()),
            r matches Some(e) ==> final(self).nodes_fit(expression_nodes(e)),
            old(self).cursor + 1 < old(self).tokens@.len() && old(self).tokens@[old(self).cursor + 1].spec_kind()
                is RightParen ==> (r matches Some(Expression::TupleLiteral { elements, .. }) && elements@.len() == 0)
                && final(self).diagnostics@ == old(self).diagnostics@,
            old(self).operand_list_at(old(self).cursor as int, 1, TokenKind::RightParen) ==> (r matches Some(
                Expression::Group { expression, .. },
            ) && *expression == simple_operand(old(self).list_item(old(self).cursor as int, 0)))
                && final(self).diagnostics@ == old(self).diagnostics@,
            forall|k: int|
                k >= 2 && #[trigger] old(self).operand_list_at(old(self).cursor as int, k, TokenKind::RightParen)
                    ==> (r matches Some(Expression::TupleLiteral { elements, .. }) && elements@.len() == k && forall|
                    j: int,
                | 0 <= j < k ==> #[trigger] elements@[j] == simple_operand(
                    old(self).list_item(old(self).cursor as int, j),
                )) && final(self).diagnostics@ == old(self).diagnostics@,
        decreases old(self).remaining(), 26int,
    {
        let ghost ts = self.tokens@;
        let ghost c0 = self.cursor as int;
        let ghost kk = choose|k: int| old(self).operand_list_at(c0, k, TokenKind::RightParen);
        let ghost listed = old(self).operand_list_at(c0, kk, TokenKind::RightParen);
        proof {
            if listed {
                assert forall|k: int| #[trigger] old(self).operand_list_at(c0, k, TokenKind::RightParen) implies k
                    == kk by {
                    if k < kk {
                        assert(old(self).list_separator(c0, k - 1).spec_kind() is Comma);
                    } else if kk < k {
                        assert(old(self).list_separator(c0, kk - 1).spec_kind() is Comma);
                    }
                }
                assert(old(self).list_item(c0, 0) == ts[c0 + 1]);
                assert(is_simple_operand_kind(old(self).list_item(c0, 0).spec_kind()));
            }
        }
        let open = self.bump();
        self.soft_newline_depth = self.soft_newline_depth.saturating_add(1);
        self.skip_soft_newlines();
        if self.at(TokenKind::RightParen) {
            let close = self.bump();
            self.soft_newline_depth = self.soft_newline_depth.saturating_sub(1);
            let elements: Vec<Expression> = Vec::new();
            let span = self.source_span(open.span().start(), close.span().end());
            proof {
                lemma_fit_node1(
                    self.spec_bytes(),
                    span,
                    expressions_nodes(elements@, elements@.len() as int),
                );
            }
            return Some(Expression::TupleLiteral { elements, span });
        }
        proof {
            if listed {
                assert(ts[self.cursor + 1] == old(self).list_separator(c0, 0));
                if 0 < kk - 1 {
                    assert(old(self).list_separator(c0, 0).spec_kind() is Comma);
                }
                assert(self.lone_operand_at(self.cursor as int));
            }
        }
        let first = match self.parse_expression_bp(0) {
            Some(first) => first,
            None => {
                self.push_error(
                    MISSING_EXPRESSION_CODE,
                    "x01.parse.missing_group_expression",
                    open.span(),
                    "括号中缺少表达式".to_owned(),
                );
                let _ = self.expect_delimiter(TokenKind::RightParen, open.span());
                self.soft_newline_depth = self.soft_newline_depth.saturating_sub(1);
                return None;
            },
        };
        self.skip_soft_newlines();
        if !self.at(TokenKind::Comma) {
            let close = self.expect_delimiter(TokenKind::RightParen, open.span());
            self.soft_newline_depth = self.soft_newline_depth.saturating_sub(1);
            let end = match close {
                Some(token) => token.span().end(),
                None => first.span().end(),
            };
            let span = self.source_span(open.span().start(), end);
            proof {
                lemma_fit_node1(self.spec_bytes(), span, expression_nodes(first));
            }
            return Some(Expression::Group { expression: Box::new(first), span });
        }
        let mut last_end = first.span().end();
        let mut elements: Vec<Expression> = Vec::new();
        proof {
            lemma_expressions_push(self.spec_bytes(), elements@, first);
        }
        elements.push(first);
        proof {
            if listed {
                assert(self.cur() == old(self).list_separator(c0, 0));
            }
        }
        while self.at(TokenKind::Comma)
            invariant
                self.steps_from(old(self)),
                self.cursor > old(self).cursor,
                span_fits(self.spec_bytes(), open.spec_span()),
                open.spec_span().spec_start() == old(self).pos(),
                open.spec_span().spec_end() <= last_end <= self.pos(),
                is_boundary(self.spec_bytes(), last_end as int),
                self.nodes_fit(expressions_nodes(elements@, elements@.len() as int)),
                ts == old(self).tokens@,
                c0 == old(self).cursor,
                listed == old(self).operand_list_at(c0, kk, TokenKind::RightParen),
                listed ==> 1 <= elements@.len() <= kk && self.cursor == c0 + 2 * elements@.len()
                    && self.diagnostics@ == old(self).diagnostics@,
                listed ==> self.cur() == old(self).list_separator(c0, elements@.len() - 1),
                listed ==> forall|j: int|
                    0 <= j < elements@.len() ==> #[trigger] elements@[j] == simple_operand(old(self).list_item(c0, j)),
            ensures
                self.steps_from(old(self)),
                self.cursor > old(self).cursor,
                span_fits(self.spec_bytes(), open.spec_span()),
                open.spec_span().spec_start() == old(self).pos(),
                open.spec_span().spec_end() <= last_end <= self.pos(),
                is_boundary(self.spec_bytes(), last_end as int),
                self.nodes_fit(expressions_nodes(elements@, elements@.len() as int)),
                ts == old(self).tokens@,
                c0 == old(self).cursor,
                listed == old(self).operand_list_at(c0, kk, TokenKind::RightParen),
                listed ==> 1 <= elements@.len() <= kk && self.cursor == c0 + 2 * elements@.len()
                    && self.diagnostics@ == old(self).diagnostics@,
                listed ==> self.cur() == old(self).list_separator(c0, elements@.len() - 1),
                listed ==> forall|j: int|
                    0 <= j < elements@.len() ==> #[trigger] elements@[j] == simple_operand(old(self).list_item(c0, j)),
                listed ==> elements@.len() == kk,
            decreases self.remaining(),
        {
            proof {
                if listed {
                    let i = elements@.len() as int;
                    assert(self.cur() == old(self).list_separator(c0, i - 1));
                    if i == kk {
                        assert(self.tokens@[c0 + 2 * kk].spec_kind() is RightParen);
                    }
                    assert(i < kk);
                    assert(ts[self.cursor + 1] == old(self).list_item(c0, i));
                    assert(is_simple_operand_kind(old(self).list_item(c0, i).spec_kind()));
                    assert(ts[self.cursor + 2] == old(self).list_separator(c0, i));
                    if i < kk - 1 {
                        assert(old(self).list_separator(c0, i).spec_kind() is Comma);
                    }
                }
            }
            self.bump();
            self.skip_soft_newlines();
            if self.at(TokenKind::RightParen) {
                break;
            }
            let element = match self.parse_expression_bp(0) {
                Some(element) => element,
                None => {
                    let span = self.current().span();
                    self.push_error(
                        MISSING_EXPRESSION_CODE,
                        "x01.parse.missing_tuple_element",
                        span,
                        "元组逗号后缺少表达式".to_owned(),
                    );
                    self.recover_delimited(TokenKind::RightParen);
                    break;
                },
            };
            last_end = element.span().end();
            proof {
                lemma_expressions_push(self.spec_bytes(), elements@, element);
            }
            elements.push(element);
            self.skip_soft_newlines();
        }
        let close = self.expect_delimiter(TokenKind::RightParen, open.span());
        self.soft_newline_depth = self.soft_newline_depth.saturating_sub(1);
        let end = match close {
            Some(token) => token.span().end(),
            None => last_end,
        };
        let span = self.source_span(open.span().start(), end);
        proof {
            lemma_fit_node1(
                self.spec_bytes(),
                span,
                expressions_nodes(elements@, elements@.len() as int),
            );
        }
        Some(Expression::TupleLiteral { elements, span })
    }

    /// Consumes erroneous input inside a delimited container, leaving the
    /// closing delimiter to the caller.
    fn recover_delimited(&mut self, close: TokenKind)
        requires
            old(self).wf(),
        ensures
            final(self).steps_from(old(self)),
            final(self).diagnostics@ == old(self).diagnostics@,
            final(self).soft_newline_depth == old(self).soft_newline_depth,
            final(self).angle_depth == old(self).angle_depth,
            final(self).block_context_depth == old(self).block_context_depth,
            final(self).cur_kind() == close || final(self).cur_kind() == TokenKind::Eof,
            forall|k: int|
                old(self).cursor <= k < final(self).cursor ==> (#[trigger] old(self).tokens@[k]).spec_kind()
                    != close && old(self).tokens@[k].spec_kind() != TokenKind::Eof,
    {
        while self.current().kind() != close && self.current().kind() != TokenKind::Eof
            invariant
                self.steps_from(old(self)),
                self.diagnostics@ == old(self).diagnostics@,
                self.soft_newline_depth == old(self).soft_newline_depth,
                self.angle_depth == old(self).angle_depth,
                self.block_context_depth == old(self).block_context_depth,
                forall|k: int|
                    old(self).cursor <= k < self.cursor ==> (#[trigger] old(self).tokens@[k]).spec_kind()
                        != close && old(self).tokens@[k].spec_kind() != TokenKind::Eof,
            decreases self.remaining(),
        {
            self.bump();
        }
    }
}

impl<'source> Parser<'source> {
    /// Parses an array literal.
    fn parse_array_literal(&mut self) -> (r: Option<Expression>)
        requires
            old(self).wf(),
            old(self).cur_kind() == TokenKind::LeftBracket,
        ensures
            final(self).steps_from(old(self)),
            final(self).cursor > old(self).cursor,
            r matches Some(e) ==> final(self).covers(old(self).pos(), e.spec_span()),
            r matches Some(e) ==> final(self).nodes_fit(expression_nodes(e)),
            old(self).cursor + 1 < old(self).tokens@.len() && old(self).tokens@[old(self).cursor + 1].spec_kind()
                is RightBracket ==> (r matches Some(Expression::ArrayLiteral { elements, .. }) && elements@.len() == 0)
                && final(self).diagnostics@ == old(self).diagnostics@,
            forall|k: int|
                #[trigger] old(self).operand_list_at(old(self).cursor as int, k, TokenKind::RightBracket) ==> (
                r matches Some(Expression::ArrayLiteral { elements, .. }) && elements@.len() == k && forall|j: int|
                    0 <= j < k ==> #[trigger] elements@[j] == simple_operand(
                        old(self).list_item(old(self).cursor as int, j),
                    )) && final(self).diagnostics@ == old(self).diagnostics@ && final(self).cursor == old(self).cursor
                    + 2 * k + 1 && final(self).angle_depth == old(self).angle_depth && (old(self).soft_newline_depth
                    < usize::MAX ==> final(self).soft_newline_depth == old(self).soft_newline_depth),
        decreases old(self).remaining(), 26int,
    {
        let ghost ts = self.tokens@;
        let ghost c0 = self.cursor as int;
        let ghost kk = choose|k: int| old(self).operand_list_at(c0, k, TokenKind::RightBracket);
        let ghost listed = old(self).operand_list_at(c0, kk, TokenKind::RightBracket);
        proof {
            if listed {
                assert forall|k: int| #[trigger] old(self).operand_list_at(c0, k, TokenKind::RightBracket) implies k
                    == kk by {
                    if k < kk {
                        assert(old(self).list_separator(c0, k - 1).spec_kind() is Comma);
                    } else if kk < k {
                        assert(old(self).list_separator(c0, kk - 1).spec_kind() is Comma);
                    }
                }
                assert(old(self).list_item(c0, 0) == ts[c0 + 1]);
                assert(is_simple_operand_kind(old(self).list_item(c0, 0).spec_kind()));
            }
        }
        let open = self.bump();
        self.soft_newline_depth = self.soft_newline_depth.saturating_add(1);
        let ghost soft1 = self.soft_newline_depth;
        self.skip_soft_newlines();
        let mut elements: Vec<Expression> = Vec::new();
        let mut last_end = open.span().end();
        if !self.at(TokenKind::RightBracket) {
            loop
                invariant_except_break
                    listed ==> elements@.len() < kk,
                invariant
                    ts == old(self).tokens@,
                    c0 == old(self).cursor,
                    listed == old(self).operand_list_at(c0, kk, TokenKind::RightBracket),
                    listed ==> self.angle_depth == old(self).angle_depth && self.soft_newline_depth == soft1,
                    listed ==> elements@.len() <= kk && self.diagnostics@ == old(self).diagnostics@ && (elements@.len()
                        < kk ==> self.cursor == c0 + 1 + 2 * elements@.len() && self.cur() == old(self).list_item(
                        c0,
                        elements@.len() as int,
                    )) && (elements@.len() == kk ==> self.cursor == c0 + 2 * kk),
                    listed ==> forall|j: int|
                        0 <= j < elements@.len() ==> #[trigger] elements@[j] == simple_operand(
                            old(self).list_item(c0, j),
                        ),
                    self.steps_from(old(self)),
                    self.cursor > old(self).cursor,
                    span_fits(self.spec_bytes(), open.spec_span()),
                    open.spec_span().spec_start() == old(self).pos(),
                    open.spec_span().spec_end() <= last_end <= self.pos(),
                    is_boundary(self.spec_bytes(), last_end as int),
                    self.nodes_fit(expressions_nodes(elements@, elements@.len() as int)),
                ensures
                    ts == old(self).tokens@,
                    c0 == old(self).cursor,
                    listed == old(self).operand_list_at(c0, kk, TokenKind::RightBracket),
                    listed ==> self.angle_depth == old(self).angle_depth && self.soft_newline_depth == soft1,
                    listed ==> elements@.len() <= kk && self.diagnostics@ == old(self).diagnostics@ && (elements@.len()
                        < kk ==> self.cursor == c0 + 1 + 2 * elements@.len() && self.cur() == old(self).list_item(
                        c0,
                        elements@.len() as int,
                    )) && (elements@.len() == kk ==> self.cursor == c0 + 2 * kk),
                    listed ==> forall|j: int|
                        0 <= j < elements@.len() ==> #[trigger] elements@[j] == simple_operand(
                            old(self).list_item(c0, j),
                        ),
                    self.steps_from(old(self)),
                    self.cursor > old(self).cursor,
                    span_fits(self.spec_bytes(), open.spec_span()),
                    open.spec_span().spec_start() == old(self).pos(),
                    open.spec_span().spec_end() <= last_end <= self.pos(),
                    is_boundary(self.spec_bytes(), last_end as int),
                    self.nodes_fit(expressions_nodes(elements@, elements@.len() as int)),
                    listed ==> elements@.len() == kk,
                decreases self.remaining(),
            {
                proof {
                    if listed {
                        let i = elements@.len() as int;
                        assert(is_simple_operand_kind(old(self).list_item(c0, i).spec_kind()));
                        assert(ts[self.cursor + 1] == old(self).list_separator(c0, i));
                        if i < kk - 1 {
                            assert(old(self).list_separator(c0, i).spec_kind() is Comma);
                        }
                        assert(self.lone_operand_at(self.cursor as int));
                    }
                }
                let element = match self.parse_expression_bp(0) {
                    Some(element) => element,
                    None => {
                        let span = self.current().span();
                        self.push_error(
                            MISSING_EXPRESSION_CODE,
                            "x03.parse.missing_array_element",
                            span,
                            "数组逗号后缺少表达式".to_owned(),
                        );
                        self.recover_delimited(TokenKind::RightBracket);
                        break;
                    },
                };
                last_end = element.span().end();
                proof {
                    lemma_expressions_push(self.spec_bytes(), elements@, element);
                }
                elements.push(element);
                proof {
                    if listed {
                        let i = elements@.len() - 1;
                        assert(self.cur() == old(self).list_separator(c0, i));
                        if i < kk - 1 {
                            assert(old(self).list_separator(c0, i).spec_kind() is Comma);
                            assert(ts[self.cursor + 1] == old(self).list_item(c0, i + 1));
                            assert(is_simple_operand_kind(old(self).list_item(c0, i + 1).spec_kind()));
                        }
                    }
                }
                self.skip_soft_newlines();
                if !self.at(TokenKind::Comma) {
                    break;
                }
                self.bump();
                self.skip_soft_newlines();
                if self.at(TokenKind::RightBracket) {
                    break;
                }
            }
        }
        let close = self.expect_delimiter(TokenKind::RightBracket, open.span());
        self.soft_newline_depth = self.soft_newline_depth.saturating_sub(1);
        let end = match close {
            Some(token) => token.span().end(),
            None => last_end,
        };
        let span = self.source_span(open.span().start(), end);
        proof {
            lemma_fit_node1(
                self.spec_bytes(),
                span,
                expressions_nodes(elements@, elements@.len() as int),
            );
        }
        Some(Expression::ArrayLiteral { elements, span })
    }

    /// Parses a brace literal: a dictionary table when it is empty or its
    /// first logical entry is followed by `=` or `:`, a set otherwise.
    fn parse_brace_literal(&mut self) -> (r: Option<Expression>)
        requires
            old(self).wf(),
            old(self).cur_kind() == TokenKind::LeftBrace,
        ensures
            final(self).steps_from(old(self)),
            final(self).cursor > old(self).cursor,
            r matches Some(e) ==> final(self).covers(old(self).pos(), e.spec_span()),
            r matches Some(e) ==> final(self).nodes_fit(expression_nodes(e)),
        decreases old(self).remaining(), 27int,
    {
        if self.brace_uses_dictionary_entries() {
            self.parse_dict_table_literal()
        } else {
            self.parse_set_literal()
        }
    }

    /// Returns whether the brace at the current token opens a dictionary
    /// table: newlines aside, it is directly closed, or its first token is
    /// followed by `=` or `:`.
    fn brace_uses_dictionary_entries(&self) -> (r: bool)
        requires
            self.wf(),
        ensures
            r == brace_has_entries(self.tokens@, self.cursor as int),
    {
        let ghost ts = self.tokens@;
        let ghost c = self.cursor as int;
        let ghost i1 = next_non_newline(ts, c + 1);
        let mut i = self.cursor + 1;
        let mut seen_first = false;
        while i < self.tokens.len()
            invariant
                self.cursor + 1 <= i <= self.tokens@.len(),
                ts == self.tokens@,
                c == self.cursor,
                i1 == next_non_newline(ts, c + 1),
                !seen_first ==> next_non_newline(ts, i as int) == i1,
                seen_first ==> i1 < i && i1 < ts.len() && ts[i1].spec_kind() != TokenKind::RightBrace
                    && next_non_newline(ts, i as int) == next_non_newline(ts, i1 + 1),
            decreases self.tokens@.len() - i,
        {
            let kind = self.tokens[i].kind();
            if kind != TokenKind::Newline {
                if !seen_first {
                    if kind == TokenKind::RightBrace {
                        return true;
                    }
                    seen_first = true;
                } else {
                    return kind == TokenKind::Equal || kind == TokenKind::Colon;
                }
            }
            i = i + 1;
        }
        false
    }

    /// Parses a set literal; elements keep their source order.
    fn parse_set_literal(&mut self) -> (r: Option<Expression>)
        requires
            old(self).wf(),
            old(self).cur_kind() == TokenKind::LeftBrace,
        ensures
            final(self).steps_from(old(self)),
            final(self).cursor > old(self).cursor,
            r matches Some(e) ==> final(self).covers(old(self).pos(), e.spec_span()),
            r matches Some(e) ==> final(self).nodes_fit(expression_nodes(e)),
        decreases old(self).remaining(), 26int,
    {
        let open = self.bump();
        self.soft_newline_depth = self.soft_newline_depth.saturating_add(1);
        self.skip_soft_newlines();
        let mut elements: Vec<Expression> = Vec::new();
        let mut last_end = open.span().end();
        if !self.at(TokenKind::RightBrace) {
            loop
                invariant
                    self.steps_from(old(self)),
                    self.cursor > old(self).cursor,
                    span_fits(self.spec_bytes(), open.spec_span()),
                    open.spec_span().spec_start() == old(self).pos(),
                    open.spec_span().spec_end() <= last_end <= self.pos(),
                    is_boundary(self.spec_bytes(), last_end as int),
                    self.nodes_fit(expressions_nodes(elements@, elements@.len() as int)),
                decreases self.remaining(),
            {
                let element = match self.parse_expression_bp(0) {
                    Some(element) => element,
                    None => {
                        let span = self.current().span();
                        self.push_error(
                            MISSING_EXPRESSION_CODE,
                            "x03.parse.missing_set_element",
                            span,
                            "集合逗号后缺少表达式".to_owned(),
                        );
                        self.recover_delimited(TokenKind::RightBrace);
                        break;
                    },
                };
                last_end = element.span().end();
                proof {
                    lemma_expressions_push(self.spec_bytes(), elements@, element);
                }
                elements.push(element);
                self.skip_soft_newlines();
                if self.at(TokenKind::Equal) {
                    let span = self.current().span();
                    self.push_error(
                        INVALID_CONTAINER_ENTRY_CODE,
                        "x03.parse.mixed_brace_entries",
                        span,
                        "花括号不能混合集合元素和字典键值条目".to_owned(),
                    );
                    self.recover_delimited(TokenKind::RightBrace);
                    break;
                }
                if self.at(TokenKind::Colon) {
                    let span = self.current().span();
                    self.push_error(
                        INVALID_CONTAINER_ENTRY_CODE,
                        "x03.parse.invalid_set_separator",
                        span,
                        "集合元素之间必须使用逗号分隔".to_owned(),
                    );
                    self.recover_delimited(TokenKind::RightBrace);
                    break;
                }
                if self.at(TokenKind::Comma) {
                    self.bump();
                    self.skip_soft_newlines();
                    if self.at(TokenKind::RightBrace) {
                        break;
                    }
                    continue;
                }
                if !self.at(TokenKind::RightBrace) {
                    let span = self.current().span();
                    self.push_error(
                        INVALID_CONTAINER_ENTRY_CODE,
                        "x03.parse.missing_set_comma",
                        span,
                        "集合元素之间必须使用逗号分隔".to_owned(),
                    );
                    self.recover_delimited(TokenKind::RightBrace);
                }
                break;
            }
        }
        let close = self.expect_delimiter(TokenKind::RightBrace, open.span());
        self.soft_newline_depth = self.soft_newline_depth.saturating_sub(1);
        let end = match close {
            Some(token) => token.span().end(),
            None => last_end,
        };
        let span = self.source_span(open.span().start(), end);
        proof {
            lemma_fit_node1(
                self.spec_bytes(),
                span,
                expressions_nodes(elements@, elements@.len() as int),
            );
        }
        Some(Expression::SetLiteral { elements, span })
    }

    /// Parses an unordered dictionary table literal.
    fn parse_dict_table_literal(&mut self) -> (r: Option<Expression>)
        requires
            old(self).wf(),
            old(self).cur_kind() == TokenKind::LeftBrace,
        ensures
            final(self).steps_from(old(self)),
            final(self).cursor > old(self).cursor,
            r matches Some(e) ==> final(self).covers(old(self).pos(), e.spec_span()),
            r matches Some(e) ==> final(self).nodes_fit(expression_nodes(e)),
        decreases old(self).remaining(), 26int,
    {
        let open = self.bump();
        let (entries, last_end) = self.parse_dict_entries(TokenKind::RightBrace, open.span());
        let close = self.expect_delimiter(TokenKind::RightBrace, open.span());
        let end = match close {
            Some(token) => token.span().end(),
            None => last_end,
        };
        let span = self.source_span(open.span().start(), end);
        proof {
            lemma_fit_node1(self.spec_bytes(), span, entries_nodes(entries@, entries@.len() as int));
        }
        Some(Expression::DictTableLiteral { entries, span })
    }

    /// Parses an order-keeping dictionary column literal.
    fn parse_dict_column_literal(&mut self) -> (r: Option<Expression>)
        requires
            old(self).wf(),
            old(self).cur_kind() == TokenKind::Less,
        ensures
            final(self).steps_from(old(self)),
            final(self).cursor > old(self).cursor,
            r matches Some(e) ==> final(self).covers(old(self).pos(), e.spec_span()),
            r matches Some(e) ==> final(self).nodes_fit(expression_nodes(e)),
        decreases old(self).remaining(), 26int,
    {
        let open = self.bump();
        self.soft_newline_depth = self.soft_newline_depth.saturating_add(1);
        self.angle_depth = self.angle_depth.saturating_add(1);
        self.skip_soft_newlines();
        let (entries, last_end) = self.parse_dict_entries(TokenKind::Greater, open.span());
        self.skip_soft_newlines();
        let close = self.expect_delimiter(TokenKind::Greater, open.span());
        self.angle_depth = self.angle_depth.saturating_sub(1);
        self.soft_newline_depth = self.soft_newline_depth.saturating_sub(1);
        let end = match close {
            Some(token) => token.span().end(),
            None => last_end,
        };
        let span = self.source_span(open.span().start(), end);
        proof {
            lemma_fit_node1(self.spec_bytes(), span, entries_nodes(entries@, entries@.len() as int));
        }
        Some(Expression::DictColumnLiteral { entries, span })
    }

    /// Parses the `key = value` entries shared by both dictionary literals;
    /// also returns the end of the last entry, or of `open` when there is none.
    fn parse_dict_entries(&mut self, close: TokenKind, open: SourceSpan) -> (r: (
        Vec<DictEntry>,
        usize,
    ))
        requires
            old(self).wf(),
            span_fits(old(self).spec_bytes(), open),
            open.spec_end() <= old(self).pos(),
        ensures
            final(self).steps_from(old(self)),
            open.spec_end() <= r.1 <= final(self).pos(),
            is_boundary(final(self).spec_bytes(), r.1 as int),
            final(self).nodes_fit(entries_nodes(r.0@, r.0@.len() as int)),
        decreases old(self).remaining(), 10int,
    {
        self.soft_newline_depth = self.soft_newline_depth.saturating_add(1);
        self.skip_soft_newlines();
        let mut entries: Vec<DictEntry> = Vec::new();
        let mut last_end = open.end();
        if !self.at(close) {
            loop
                invariant
                    self.steps_from(old(self)),
                    open.spec_end() <= last_end <= self.pos(),
                    is_boundary(self.spec_bytes(), last_end as int),
                    self.nodes_fit(entries_nodes(entries@, entries@.len() as int)),
                decreases self.remaining(),
            {
                let key_token = self.current();
                let key = match key_token.kind() {
                    TokenKind::Identifier | TokenKind::BacktickIdentifier => {
                        self.bump();
                        DictKey::Name(
                            Name {
                                span: key_token.span(),
                                backticked: key_token.kind() == TokenKind::BacktickIdentifier,
                            },
                        )
                    },
                    TokenKind::String => {
                        self.bump();
                        DictKey::String(key_token.span())
                    },
                    _ => {
                        self.push_error(
                            INVALID_CONTAINER_CODE,
                            "x03.parse.invalid_dict_key",
                            key_token.span(),
                            "字典键必须是名称或字符串".to_owned(),
                        );
                        self.recover_delimited(close);
                        break;
                    },
                };
                if !self.at(TokenKind::Equal) {
                    let span = self.current().span();
                    self.push_error(
                        INVALID_CONTAINER_ENTRY_CODE,
                        "x03.parse.missing_dict_equal",
                        span,
                        "字典键后必须使用 = 连接值".to_owned(),
                    );
                    self.recover_delimited(close);
                    break;
                }
                self.bump();
                let value = match self.parse_expression_bp(0) {
                    Some(value) => value,
                    None => {
                        let span = self.current().span();
                        self.push_error(
                            INVALID_CONTAINER_ENTRY_CODE,
                            "x03.parse.missing_dict_value",
                            span,
                            "字典键值对缺少值表达式".to_owned(),
                        );
                        self.recover_delimited(close);
                        break;
                    },
                };
                let span = self.source_span(key.span().start(), value.span().end());
                last_end = span.end();
                let entry = DictEntry { key, value, span };
                proof {
                    lemma_entries_push(self.spec_bytes(), entries@, entry);
                }
                entries.push(entry);
                self.skip_soft_newlines();
                if !self.at(TokenKind::Comma) {
                    break;
                }
                self.bump();
                self.skip_soft_newlines();
                if self.at(close) {
                    break;
                }
            }
        }
        self.soft_newline_depth = self.soft_newline_depth.saturating_sub(1);
        (entries, last_end)
    }

    /// Parses `new Type(args...)`.
    fn parse_new_expression(&mut self) -> (r: Option<Expression>)
        requires
            old(self).wf(),
            old(self).cur_kind() == TokenKind::Keyword(KeywordKind::New),
        ensures
            final(self).steps_from(old(self)),
            final(self).cursor > old(self).cursor,
            r matches Some(e) ==> final(self).covers(old(self).pos(), e.spec_span()),
            r matches Some(e) ==> final(self).nodes_fit(expression_nodes(e)),
        decreases old(self).remaining(), 26int,
    {
        let keyword = self.bump();
        let callee = match self.parse_new_callee(keyword.span()) {
            Some(callee) => callee,
            None => {
                return None;
            },
        };
        if self.at(TokenKind::LeftParen) {
            let (arguments, end) = self.parse_call_arguments(callee.span());
            let span = self.source_span(keyword.span().start(), end);
            proof {
                lemma_fit_node2(
                    self.spec_bytes(),
                    span,
                    expression_nodes(callee),
                    arguments_nodes(arguments@, arguments@.len() as int),
                );
            }
            Some(Expression::NewCall { callee: Box::new(callee), arguments, span })
        } else {
            self.push_error(
                MISSING_DELIMITER_CODE,
                "x01.parse.new_call_parentheses",
                callee.span(),
                "new 构造调用必须带括号参数列表".to_owned(),
            );
            let span = self.source_span(keyword.span().start(), callee.span().end());
            let arguments: Vec<CallArgument> = Vec::new();
            proof {
                lemma_fit_node2(
                    self.spec_bytes(),
                    span,
                    expression_nodes(callee),
                    arguments_nodes(arguments@, arguments@.len() as int),
                );
            }
            Some(Expression::NewCall { callee: Box::new(callee), arguments, span })
        }
    }

    /// Parses the target of `new`: a name or a group, then `.member` parts.
    fn parse_new_callee(&mut self, keyword_span: SourceSpan) -> (r: Option<Expression>)
        requires
            old(self).wf(),
            span_fits(old(self).spec_bytes(), keyword_span),
        ensures
            final(self).steps_from(old(self)),
            r matches Some(e) ==> final(self).covers(old(self).pos(), e.spec_span()),
            r matches Some(e) ==> final(self).nodes_fit(expression_nodes(e)),
            is_expression_name_kind(old(self).cur_kind()) ==> (r matches Some(e) && e.spec_span().spec_start()
                == old(self).pos()),
            !is_expression_name_kind(old(self).cur_kind()) && old(self).cur_kind() != TokenKind::LeftParen
                ==> r is None && final(self).diagnostics@.len() == old(self).diagnostics@.len() + 1
                && final(self).diagnostics@.last().code == MISSING_EXPRESSION_CODE
                && final(self).diagnostics@.last().span == Some(keyword_span),
        decreases old(self).remaining(), 27int,
    {
        let ghost named = is_expression_name_kind(self.cur_kind());
        let mut callee = if is_expression_name_token(self.current().kind()) {
            let name = self.parse_name();
            proof {
                lemma_fit_one(self.spec_bytes(), name.span);
            }
            Expression::Name(name)
        } else if self.at(TokenKind::LeftParen) {
            match self.parse_parenthesized_expression() {
                Some(group) => group,
                None => {
                    return None;
                },
            }
        } else {
            self.push_error(
                MISSING_EXPRESSION_CODE,
                "x01.parse.missing_new_callee",
                keyword_span,
                "new 后缺少构造目标".to_owned(),
            );
            return None;
        };
        while self.at(TokenKind::Dot)
            invariant
                self.steps_from(old(self)),
                self.covers(old(self).pos(), callee.spec_span()),
                self.nodes_fit(expression_nodes(callee)),
                named ==> callee.spec_span().spec_start() == old(self).pos(),
                named == is_expression_name_kind(old(self).cur_kind()),
            decreases self.remaining(),
        {
            let dot = self.bump();
            if !is_expression_name_token(self.current().kind()) {
                self.push_error(
                    INVALID_EXPRESSION_CODE,
                    "x01.parse.missing_member_name",
                    dot.span(),
                    "点号后缺少成员名称".to_owned(),
                );
                break;
            }
            let member = self.parse_name();
            let span = self.source_span(callee.span().start(), member.span.end());
            proof {
                lemma_fit_node1(self.spec_bytes(), span, expression_nodes(callee));
            }
            callee = Expression::Member { object: Box::new(callee), member, span };
        }
        Some(callee)
    }

    /// Parses the postfix suffixes of an operand: calls, members, casts,
    /// steps and selectors.
    fn parse_postfix_expression(&mut self, expression: Expression) -> (r: Option<Expression>)
        requires
            old(self).wf(),
            span_fits(old(self).spec_bytes(), expression.spec_span()),
            expression.spec_span().spec_end() <= old(self).pos(),
            old(self).nodes_fit(expression_nodes(expression)),
        ensures
            final(self).steps_from(old(self)),
            r matches Some(e) ==> span_fits(final(self).spec_bytes(), e.spec_span())
                && e.spec_span().spec_start() == expression.spec_span().spec_start()
                && e.spec_span().spec_end() <= final(self).pos(),
            r matches Some(e) ==> final(self).nodes_fit(expression_nodes(e)),
            r is Some,
            !continues_postfix_kind(old(self).cur_kind()) ==> r == Some(expression) && final(self).cursor
                == old(self).cursor && final(self).diagnostics@ == old(self).diagnostics@
                && final(self).soft_newline_depth == old(self).soft_newline_depth && final(self).angle_depth == old(self).angle_depth,
            r matches Some(e) ==> wraps(e, expression),
            (r matches Some(e) ==> e != expression ==> layer_opened_by(old(self).cur_kind(), innermost_layer(e, expression))),
            (r matches Some(e) ==> e != expression ==> layer_details(
                old(self).cur_kind(),
                innermost_layer(e, expression),
                old(self).tokens@[old(self).cursor + 1],
            )),
            (r matches Some(e) ==> e != expression ==> old(self).list_layer(
                old(self).cursor as int,
                innermost_layer(e, expression),
            )),
            continues_postfix_kind(old(self).cur_kind()) && r == Some(expression) ==> final(self).diagnostics@.len()
                > old(self).diagnostics@.len(),
            old(self).cur_kind() is LeftParen || old(self).cur_kind() is LeftBracket ==> r != Some(expression),
        decreases old(self).remaining(), 27int,
    {
        let ghost start = expression.spec_span().spec_start();
        let ghost original = expression;
        let mut expression = expression;
        loop
            invariant_except_break
                expression == original ==> self.cursor == old(self).cursor && self.diagnostics@ == old(self).diagnostics@
                    && self.soft_newline_depth == old(self).soft_newline_depth && self.angle_depth == old(self).angle_depth,
            invariant
                self.steps_from(old(self)),
                wraps(expression, original),
                span_fits(self.spec_bytes(), expression.spec_span()),
                expression.spec_span().spec_start() == start,
                expression.spec_span().spec_end() <= self.pos(),
                self.nodes_fit(expression_nodes(expression)),
                expression != original ==> layer_opened_by(old(self).cur_kind(), innermost_layer(expression, original)),
                expression != original ==> layer_details(
                    old(self).cur_kind(),
                    innermost_layer(expression, original),
                    old(self).tokens@[old(self).cursor + 1],
                ),
                expression != original ==> old(self).list_layer(
                    old(self).cursor as int,
                    innermost_layer(expression, original),
                ),
                postfix_height(expression) >= postfix_height(original),
                (expression == original) == (postfix_height(expression) == postfix_height(original)),
                expression != original ==> continues_postfix_kind(old(self).cur_kind()),
                expression == original ==> self.diagnostics@.len() >= old(self).diagnostics@.len(),
            ensures
                self.steps_from(old(self)),
                wraps(expression, original),
                span_fits(self.spec_bytes(), expression.spec_span()),
                expression.spec_span().spec_start() == start,
                expression.spec_span().spec_end() <= self.pos(),
                self.nodes_fit(expression_nodes(expression)),
                expression != original ==> layer_opened_by(old(self).cur_kind(), innermost_layer(expression, original)),
                expression != original ==> layer_details(
                    old(self).cur_kind(),
                    innermost_layer(expression, original),
                    old(self).tokens@[old(self).cursor + 1],
                ),
                expression != original ==> old(self).list_layer(
                    old(self).cursor as int,
                    innermost_layer(expression, original),
                ),
                expression == original && continues_postfix_kind(old(self).cur_kind()) ==> self.diagnostics@.len()
                    > old(self).diagnostics@.len(),
                old(self).cur_kind() is LeftParen || old(self).cur_kind() is LeftBracket ==> expression != original,
                !continues_postfix_kind(old(self).cur_kind()) ==> expression == original && self.cursor
                    == old(self).cursor && self.diagnostics@ == old(self).diagnostics@
                    && self.soft_newline_depth == old(self).soft_newline_depth && self.angle_depth == old(self).angle_depth,
            decreases self.remaining(),
        {
            let kind = self.current().kind();
            match kind {
                TokenKind::LeftParen => {
                    let ghost pre = *self;
                    let ghost before = expression;
                    expression = self.parse_call_suffix(expression);
                    proof {
                        if before == original {
                            pre.lemma_list_layer_tokens(old(self), old(self).cursor as int, expression);
                        }
                    }
                },
                TokenKind::Dot => {
                    let dot = self.bump();
                    if !is_expression_name_token(self.current().kind()) {
                        self.push_error(
                            INVALID_EXPRESSION_CODE,
                            "x01.parse.missing_member_name",
                            dot.span(),
                            "点号后缺少成员名称".to_owned(),
                        );
                        break;
                    }
                    let member = self.parse_name();
                    let span = self.source_span(expression.span().start(), member.span.end());
                    proof {
                        lemma_fit_node1(self.spec_bytes(), span, expression_nodes(expression));
                    }
                    expression = Expression::Member { object: Box::new(expression), member, span };
                },
                TokenKind::Keyword(KeywordKind::As) => {
                    self.bump();
                    let target_token = self.current();
                    let target = match target_token.kind() {
                        TokenKind::Keyword(keyword) => ScalarType::from_keyword(keyword),
                        _ => None,
                    };
                    match target {
                        Some(target) => {
                            self.bump();
                            let span = self.source_span(
                                expression.span().start(),
                                target_token.span().end(),
                            );
                            proof {
                                lemma_fit_node1(self.spec_bytes(), span, expression_nodes(expression));
                            }
                            expression = Expression::Cast {
                                expression: Box::new(expression),
                                target,
                                span,
                            };
                        },
                        None => {
                            self.push_error(
                                INVALID_CAST_TARGET_CODE,
                                "x01.parse.invalid_cast_target",
                                target_token.span(),
                                "as 后只能使用受支持的标量类型".to_owned(),
                            );
                            if !is_statement_boundary(target_token.kind()) {
                                self.bump();
                            }
                            break;
                        },
                    }
                },
                TokenKind::LeftBrace => {
                    let brace = self.bump();
                    self.soft_newline_depth = self.soft_newline_depth.saturating_add(1);
                    self.skip_soft_newlines();
                    let step = self.parse_expression_bp(0);
                    self.skip_soft_newlines();
                    let close = self.expect_delimiter(TokenKind::RightBrace, brace.span());
                    self.soft_newline_depth = self.soft_newline_depth.saturating_sub(1);
                    let step = match step {
                        Some(step) => step,
                        None => {
                            self.push_error(
                                INVALID_SELECTOR_CODE,
                                "x01.parse.missing_step",
                                brace.span(),
                                "步长花括号中缺少表达式".to_owned(),
                            );
                            break;
                        },
                    };
                    if !self.at(TokenKind::LeftBracket) {
                        let span = match close {
                            Some(token) => token.span(),
                            None => brace.span(),
                        };
                        self.push_error(
                            INVALID_SELECTOR_CODE,
                            "x01.parse.step_without_selector",
                            span,
                            "步长后必须紧跟方括号选择器".to_owned(),
                        );
                        break;
                    }
                    expression = self.parse_selector_suffix(expression, Some(step));
                },
                TokenKind::LeftBracket => {
                    let ghost pre = *self;
                    let ghost before = expression;
                    expression = self.parse_selector_suffix(expression, None);
                    proof {
                        if before == original {
                            pre.lemma_list_layer_tokens(old(self), old(self).cursor as int, expression);
                        }
                    }
                },
                _ => {
                    break;
                },
            }
        }
        Some(expression)
    }

    /// Parses the argument list of a call up to its closing parenthesis; also
    /// returns where the call ends.
    fn parse_call_arguments(&mut self, callee: SourceSpan) -> (r: (Vec<CallArgument>, usize))
        requires
            old(self).wf(),
            old(self).cur_kind() == TokenKind::LeftParen,
            span_fits(old(self).spec_bytes(), callee),
            callee.spec_end() <= old(self).pos(),
        ensures
            final(self).steps_from(old(self)),
            final(self).cursor > old(self).cursor,
            callee.spec_end() <= r.1 <= final(self).pos(),
            is_boundary(final(self).spec_bytes(), r.1 as int),
            final(self).nodes_fit(arguments_nodes(r.0@, r.0@.len() as int)),
            old(self).cursor + 1 < old(self).tokens@.len() && old(self).tokens@[old(self).cursor + 1].spec_kind()
                is RightParen ==> r.0@.len() == 0 && final(self).diagnostics@ == old(self).diagnostics@,
            forall|k: int|
                #[trigger] old(self).operand_list_at(old(self).cursor as int, k, TokenKind::RightParen) ==> r.0@.len()
                    == k && final(self).diagnostics@ == old(self).diagnostics@ && forall|j: int|
                    0 <= j < k ==> positional_operand(
                        #[trigger] r.0@[j],
                        old(self).list_item(old(self).cursor as int, j),
                    ),
        decreases old(self).remaining(), 25int,
    {
        let ghost ts = self.tokens@;
        let ghost c0 = self.cursor as int;
        let ghost kk = choose|k: int| old(self).operand_list_at(c0, k, TokenKind::RightParen);
        let ghost listed = old(self).operand_list_at(c0, kk, TokenKind::RightParen);
        proof {
            if listed {
                assert forall|k: int| #[trigger] old(self).operand_list_at(c0, k, TokenKind::RightParen) implies k
                    == kk by {
                    if k < kk {
                        assert(old(self).list_separator(c0, k - 1).spec_kind() is Comma);
                    } else if kk < k {
                        assert(old(self).list_separator(c0, kk - 1).spec_kind() is Comma);
                    }
                }
                assert(old(self).list_item(c0, 0) == ts[c0 + 1]);
                assert(is_simple_operand_kind(old(self).list_item(c0, 0).spec_kind()));
            }
        }
        let open = self.bump();
        self.soft_newline_depth = self.soft_newline_depth.saturating_add(1);
        self.skip_soft_newlines();
        let mut arguments: Vec<CallArgument> = Vec::new();
        let mut last_end = open.span().end();
        if !self.at(TokenKind::RightParen) {
            loop
                invariant_except_break
                    listed ==> arguments@.len() < kk,
                invariant
                    self.steps_from(old(self)),
                    self.cursor > old(self).cursor,
                    span_fits(self.spec_bytes(), open.spec_span()),
                    open.spec_span().spec_start() == old(self).pos(),
                    open.spec_span().spec_end() <= last_end <= self.pos(),
                    is_boundary(self.spec_bytes(), last_end as int),
                    self.nodes_fit(arguments_nodes(arguments@, arguments@.len() as int)),
                    ts == old(self).tokens@,
                    c0 == old(self).cursor,
                    listed == old(self).operand_list_at(c0, kk, TokenKind::RightParen),
                    listed ==> arguments@.len() <= kk && self.diagnostics@ == old(self).diagnostics@ && (
                    arguments@.len() < kk ==> self.cursor == c0 + 1 + 2 * arguments@.len() && self.cur()
                        == old(self).list_item(c0, arguments@.len() as int)) && (arguments@.len() == kk
                        ==> self.cursor == c0 + 2 * kk),
                    listed ==> forall|j: int|
                        0 <= j < arguments@.len() ==> positional_operand(
                            #[trigger] arguments@[j],
                            old(self).list_item(c0, j),
                        ),
                ensures
                    self.steps_from(old(self)),
                    self.cursor > old(self).cursor,
                    span_fits(self.spec_bytes(), open.spec_span()),
                    open.spec_span().spec_start() == old(self).pos(),
                    open.spec_span().spec_end() <= last_end <= self.pos(),
                    is_boundary(self.spec_bytes(), last_end as int),
                    self.nodes_fit(arguments_nodes(arguments@, arguments@.len() as int)),
                    ts == old(self).tokens@,
                    c0 == old(self).cursor,
                    listed == old(self).operand_list_at(c0, kk, TokenKind::RightParen),
                    listed ==> arguments@.len() <= kk && self.diagnostics@ == old(self).diagnostics@ && (
                    arguments@.len() < kk ==> self.cursor == c0 + 1 + 2 * arguments@.len() && self.cur()
                        == old(self).list_item(c0, arguments@.len() as int)) && (arguments@.len() == kk
                        ==> self.cursor == c0 + 2 * kk),
                    listed ==> forall|j: int|
                        0 <= j < arguments@.len() ==> positional_operand(
                            #[trigger] arguments@[j],
                            old(self).list_item(c0, j),
                        ),
                    listed ==> arguments@.len() == kk,
                decreases self.remaining(),
            {
                proof {
                    if listed {
                        let i = arguments@.len() as int;
                        assert(is_simple_operand_kind(old(self).list_item(c0, i).spec_kind()));
                        assert(ts[self.cursor + 1] == old(self).list_separator(c0, i));
                        if i < kk - 1 {
                            assert(old(self).list_separator(c0, i).spec_kind() is Comma);
                        }
                        assert(self.lone_operand_at(self.cursor as int));
                    }
                }
                let argument = match self.parse_call_argument() {
                    Some(argument) => argument,
                    None => {
                        let span = self.current().span();
                        self.push_error(
                            MISSING_EXPRESSION_CODE,
                            "x01.parse.missing_call_argument",
                            span,
                            "调用参数缺少表达式".to_owned(),
                        );
                        self.recover_call_arguments();
                        break;
                    },
                };
                last_end = argument.span().end();
                proof {
                    lemma_arguments_push(self.spec_bytes(), arguments@, argument);
                }
                arguments.push(argument);
                proof {
                    if listed {
                        let i = arguments@.len() - 1;
                        assert(self.cur() == old(self).list_separator(c0, i));
                        if i < kk - 1 {
                            assert(old(self).list_separator(c0, i).spec_kind() is Comma);
                            assert(ts[self.cursor + 1] == old(self).list_item(c0, i + 1));
                            assert(is_simple_operand_kind(old(self).list_item(c0, i + 1).spec_kind()));
                        }
                    }
                }
                self.skip_soft_newlines();
                if self.at(TokenKind::Comma) {
                    self.bump();
                    self.skip_soft_newlines();
                    if self.at(TokenKind::RightParen) {
                        break;
                    }
                    continue;
                }
                break;
            }
        }
        self.skip_soft_newlines();
        let close = self.expect_delimiter(TokenKind::RightParen, open.span());
        self.soft_newline_depth = self.soft_newline_depth.saturating_sub(1);
        let end = match close {
            Some(token) => token.span().end(),
            None => last_end,
        };
        (arguments, end)
    }

    /// Parses a call suffix on `callee`.
    fn parse_call_suffix(&mut self, callee: Expression) -> (r: Expression)
        requires
            old(self).wf(),
            old(self).cur_kind() == TokenKind::LeftParen,
            span_fits(old(self).spec_bytes(), callee.spec_span()),
            callee.spec_span().spec_end() <= old(self).pos(),
            old(self).nodes_fit(expression_nodes(callee)),
        ensures
            final(self).steps_from(old(self)),
            final(self).cursor > old(self).cursor,
            final(self).nodes_fit(expression_nodes(r)),
            r is Call,
            (r matches Expression::Call { callee: c, .. } && *c == callee),
            span_fits(final(self).spec_bytes(), r.spec_span()),
            r.spec_span().spec_start() == callee.spec_span().spec_start(),
            r.spec_span().spec_end() <= final(self).pos(),
            old(self).list_layer(old(self).cursor as int, r),
            (forall|k: int| #[trigger] old(self).operand_list_at(old(self).cursor as int, k, TokenKind::RightParen)
                ==> final(self).diagnostics@ == old(self).diagnostics@),
        decreases old(self).remaining(), 26int,
    {
        let callee_span = callee.span();
        let (arguments, end) = self.parse_call_arguments(callee_span);
        let span = self.source_span(callee_span.start(), end);
        proof {
            lemma_fit_node2(
                self.spec_bytes(),
                span,
                expression_nodes(callee),
                arguments_nodes(arguments@, arguments@.len() as int),
            );
        }
        Expression::Call { callee: Box::new(callee), arguments, span }
    }

    /// Parses a positional, keyword, `*` or `**` call argument.
    fn parse_call_argument(&mut self) -> (r: Option<CallArgument>)
        requires
            old(self).wf(),
        ensures
            final(self).steps_from(old(self)),
            r matches Some(a) ==> final(self).covers(old(self).pos(), a.span),
            r matches Some(a) ==> final(self).nodes_fit(expression_nodes(a.value)),
            old(self).cur_kind() == TokenKind::Power || (old(self).cur_kind() == TokenKind::Star
                && old(self).next_kind() == Some(TokenKind::Star)) ==> (r matches Some(a) ==> a.kind
                == CallArgumentKind::DoubleStar && a.name is None),
            old(self).cur_kind() == TokenKind::Star && old(self).next_kind() != Some(TokenKind::Star)
                ==> (r matches Some(a) ==> a.kind == CallArgumentKind::Star && a.name is None),
            is_declaration_name_kind(old(self).cur_kind()) && old(self).next_kind() == Some(TokenKind::Equal)
                ==> (r matches Some(a) ==> a.kind == CallArgumentKind::Keyword && a.name == Some(Name {
                span: old(self).cur().spec_span(),
                backticked: old(self).cur_kind() == TokenKind::BacktickIdentifier,
            })),
            ({
                let plain = !(old(self).cur_kind() == TokenKind::Power || old(self).cur_kind() == TokenKind::Star
                    || (is_declaration_name_kind(old(self).cur_kind()) && old(self).next_kind() == Some(TokenKind::Equal)));
                &&& plain ==> (r matches Some(a) ==> a.kind == CallArgumentKind::Positional && a.name is None)
                &&& plain && is_simple_operand_kind(old(self).tokens@[old(self).expression_start()].spec_kind())
                    ==> r is Some
            }),
            old(self).lone_operand_at(old(self).cursor as int) && old(self).next_kind() != Some(TokenKind::Equal)
                ==> (r matches Some(a) && positional_operand(a, old(self).cur())) && final(self).cursor
                == old(self).cursor + 1 && final(self).diagnostics@ == old(self).diagnostics@,
        decreases old(self).remaining(), 31int,
    {
        let start = self.current().span();
        if self.at(TokenKind::Star) || self.at(TokenKind::Power) {
            let prefix = self.bump();
            let kind = if prefix.kind() == TokenKind::Power || self.at(TokenKind::Star) {
                if prefix.kind() != TokenKind::Power {
                    self.bump();
                }
                CallArgumentKind::DoubleStar
            } else {
                CallArgumentKind::Star
            };
            let value = match self.parse_expression_bp(0) {
                Some(value) => value,
                None => {
                    return None;
                },
            };
            let span = self.source_span(start.start(), value.span().end());
            return Some(CallArgument { name: None, value, kind, span });
        }
        if is_declaration_name_token(self.current().kind()) && matches!(
            self.lookahead_kind(1),
            Some(TokenKind::Equal)
        ) {
            let name = self.parse_name();
            self.bump();
            let value = match self.parse_expression_bp(0) {
                Some(value) => value,
                None => {
                    return None;
                },
            };
            let span = self.source_span(start.start(), value.span().end());
            return Some(
                CallArgument { name: Some(name), value, kind: CallArgumentKind::Keyword, span },
            );
        }
        let value = match self.parse_expression_bp(0) {
            Some(value) => value,
            None => {
                return None;
            },
        };
        Some(CallArgument::positional(value))
    }

    /// Consumes erroneous call arguments up to the closing parenthesis.
    fn recover_call_arguments(&mut self)
        requires
            old(self).wf(),
        ensures
            final(self).steps_from(old(self)),
            final(self).diagnostics@ == old(self).diagnostics@,
            final(self).soft_newline_depth == old(self).soft_newline_depth,
            final(self).angle_depth == old(self).angle_depth,
            final(self).block_context_depth == old(self).block_context_depth,
            final(self).cur_kind() == TokenKind::RightParen || final(self).cur_kind() == TokenKind::Eof,
            forall|k: int|
                old(self).cursor <= k < final(self).cursor ==> (#[trigger] old(self).tokens@[k]).spec_kind()
                    != TokenKind::RightParen && old(self).tokens@[k].spec_kind() != TokenKind::Eof,
    {
        self.recover_delimited(TokenKind::RightParen);
    }
}

impl<'source> Parser<'source> {
    /// Parses a bracketed selector, with an optional step, on `source`.
    fn parse_selector_suffix(&mut self, source: Expression, step: Option<Expression>) -> (r:
        Expression)
        requires
            old(self).wf(),
            old(self).cur_kind() == TokenKind::LeftBracket,
            span_fits(old(self).spec_bytes(), source.spec_span()),
            source.spec_span().spec_end() <= old(self).pos(),
            old(self).nodes_fit(expression_nodes(source)),
            step matches Some(e) ==> old(self).nodes_fit(expression_nodes(e)),
        ensures
            final(self).steps_from(old(self)),
            final(self).cursor > old(self).cursor,
            final(self).nodes_fit(expression_nodes(r)),
            r is Selector,
            (r matches Expression::Selector { source: s, step: st, .. } && *s == source && (st matches Some(b)
                ==> step == Some(*b)) && (st is None ==> step is None)),
            span_fits(final(self).spec_bytes(), r.spec_span()),
            r.spec_span().spec_start() == source.spec_span().spec_start(),
            r.spec_span().spec_end() <= final(self).pos(),
            ({
                let ts = old(self).tokens@;
                let c = old(self).cursor as int;
                c + 2 < ts.len() && is_simple_segment_kind(ts[c + 1].spec_kind()) && ts[c + 2].spec_kind() is RightBracket
                    ==> (r matches Expression::Selector { selector, .. } && selector.items@.len() == 1
                    && exact_item_of(selector.items@[0], simple_segment(ts[c + 1]))) && final(self).diagnostics@
                    == old(self).diagnostics@
            }),
            forall|k: int|
                #[trigger] old(self).segment_list_at(old(self).cursor as int, k) ==> (r matches Expression::Selector {
                    selector,
                    ..
                } && selector.items@.len() == k && forall|j: int|
                    0 <= j < k ==> exact_item_of(
                        #[trigger] selector.items@[j],
                        simple_segment(old(self).list_item(old(self).cursor as int, j)),
                    )) && final(self).diagnostics@ == old(self).diagnostics@,
            old(self).list_layer(old(self).cursor as int, r),
        decreases old(self).remaining(), 26int,
    {
        let ghost ts = self.tokens@;
        let ghost c0 = self.cursor as int;
        let ghost single = c0 + 2 < ts.len() && is_simple_segment_kind(ts[c0 + 1].spec_kind())
            && ts[c0 + 2].spec_kind() is RightBracket;
        let ghost kk = choose|k: int| old(self).segment_list_at(c0, k);
        let ghost listed = old(self).segment_list_at(c0, kk);
        proof {
            if listed {
                assert forall|k: int| #[trigger] old(self).segment_list_at(c0, k) implies k == kk by {
                    if k < kk {
                        assert(old(self).list_separator(c0, k - 1).spec_kind() is Comma);
                    } else if kk < k {
                        assert(old(self).list_separator(c0, kk - 1).spec_kind() is Comma);
                    }
                }
                assert(old(self).list_item(c0, 0) == ts[c0 + 1]);
            }
        }
        let open = self.bump();
        self.soft_newline_depth = self.soft_newline_depth.saturating_add(1);
        self.skip_soft_newlines();
        let mut items: Vec<SelectorItem> = Vec::new();
        let mut last_end = open.span().end();
        let mut stopped_at_statement_boundary = false;
        if self.at(TokenKind::RightBracket) {
            self.push_error(
                INVALID_SELECTOR_CODE,
                "x01.parse.empty_selector",
                open.span(),
                "方括号选择器不能为空".to_owned(),
            );
        } else {
            loop
                invariant_except_break
                    single ==> items@.len() == 0 && self.cursor == c0 + 1,
                    listed ==> items@.len() < kk && self.cursor == c0 + 1 + 2 * items@.len() && self.cur()
                        == old(self).list_item(c0, items@.len() as int),
                invariant
                    listed == old(self).segment_list_at(c0, kk),
                    listed ==> items@.len() <= kk && self.diagnostics@ == old(self).diagnostics@
                        && !stopped_at_statement_boundary,
                    listed ==> forall|j: int|
                        0 <= j < items@.len() ==> exact_item_of(
                            #[trigger] items@[j],
                            simple_segment(old(self).list_item(c0, j)),
                        ),
                    self.steps_from(old(self)),
                    self.cursor > old(self).cursor,
                    span_fits(self.spec_bytes(), open.spec_span()),
                    open.spec_span().spec_start() == old(self).pos(),
                    open.spec_span().spec_end() <= last_end <= self.pos(),
                    is_boundary(self.spec_bytes(), last_end as int),
                    self.nodes_fit(items_nodes(items@, items@.len() as int)),
                    single == (c0 + 2 < ts.len() && is_simple_segment_kind(ts[c0 + 1].spec_kind())
                        && ts[c0 + 2].spec_kind() is RightBracket),
                    ts == old(self).tokens@,
                    c0 == old(self).cursor,
                    single ==> self.diagnostics@ == old(self).diagnostics@ && !stopped_at_statement_boundary,
                ensures
                    self.steps_from(old(self)),
                    self.cursor > old(self).cursor,
                    span_fits(self.spec_bytes(), open.spec_span()),
                    open.spec_span().spec_start() == old(self).pos(),
                    open.spec_span().spec_end() <= last_end <= self.pos(),
                    is_boundary(self.spec_bytes(), last_end as int),
                    self.nodes_fit(items_nodes(items@, items@.len() as int)),
                    single ==> items@.len() == 1 && exact_item_of(items@[0], simple_segment(ts[c0 + 1]))
                        && self.cursor == c0 + 2
                        && self.diagnostics@ == old(self).diagnostics@ && !stopped_at_statement_boundary,
                    listed == old(self).segment_list_at(c0, kk),
                    listed ==> items@.len() == kk && self.cursor == c0 + 2 * kk && self.diagnostics@
                        == old(self).diagnostics@ && !stopped_at_statement_boundary && forall|j: int|
                        0 <= j < items@.len() ==> exact_item_of(
                            #[trigger] items@[j],
                            simple_segment(old(self).list_item(c0, j)),
                        ),
                decreases self.remaining(),
            {
                proof {
                    if listed {
                        let i = items@.len() as int;
                        assert(ts[self.cursor + 1] == old(self).list_separator(c0, i));
                        if i < kk - 1 {
                            assert(old(self).list_separator(c0, i).spec_kind() is Comma);
                        }
                        assert(is_simple_segment_kind(old(self).list_item(c0, i).spec_kind()));
                    }
                }
                let item = self.parse_selector_item();
                match item {
                    Some(item) => {
                        last_end = item.span().end();
                        proof {
                            lemma_items_push(self.spec_bytes(), items@, item);
                        }
                        items.push(item);
                    },
                    None => {
                        self.recover_selector_item();
                    },
                }
                proof {
                    if listed {
                        let i = items@.len() - 1;
                        assert(self.cur() == old(self).list_separator(c0, i));
                        if i < kk - 1 {
                            assert(old(self).list_separator(c0, i).spec_kind() is Comma);
                            assert(ts[self.cursor + 1] == old(self).list_item(c0, i + 1));
                            assert(is_simple_segment_kind(old(self).list_item(c0, i + 1).spec_kind()));
                        }
                    }
                }
                if self.at(TokenKind::Newline) {
                    let soft = matches!(
                        self.lookahead_non_newline_kind(),
                        Some(TokenKind::Comma) | Some(TokenKind::RightBracket)
                    );
                    if !soft {
                        stopped_at_statement_boundary = true;
                        break;
                    }
                }
                self.skip_soft_newlines();
                if self.at(TokenKind::Comma) {
                    let comma = self.bump();
                    self.skip_soft_newlines();
                    if self.at(TokenKind::RightBracket) {
                        self.push_error(
                            INVALID_SELECTOR_CODE,
                            "x01.parse.trailing_selector_comma",
                            comma.span(),
                            "选择器不能以逗号结尾".to_owned(),
                        );
                        break;
                    }
                    if self.at(TokenKind::Eof) {
                        break;
                    }
                    continue;
                }
                break;
            }
        }
        if !stopped_at_statement_boundary {
            self.skip_soft_newlines();
        }
        let close = self.expect_delimiter(TokenKind::RightBracket, open.span());
        self.soft_newline_depth = self.soft_newline_depth.saturating_sub(1);
        let end = match close {
            Some(token) => token.span().end(),
            None => last_end,
        };
        let selector = Selector::new(items, self.source_span(open.span().start(), end));
        let source_start = source.span().start();
        let span = self.source_span(source_start, end);
        let ghost step_nodes = if step is Some {
            expression_nodes(step->0)
        } else {
            Seq::<SourceSpan>::empty()
        };
        let ghost item_spans = items_nodes(selector.items@, selector.items@.len() as int);
        let step = match step {
            Some(step) => Some(Box::new(step)),
            None => None,
        };
        proof {
            lemma_fit_node2(self.spec_bytes(), span, expression_nodes(source), step_nodes);
            lemma_fit_concat(
                self.spec_bytes(),
                seq![span] + expression_nodes(source) + step_nodes,
                item_spans,
            );
        }
        Expression::Selector { source: Box::new(source), step, selector, span }
    }

    /// Consumes an erroneous selector item up to a separator, the closing
    /// bracket, a line end or `Eof`.
    fn recover_selector_item(&mut self)
        requires
            old(self).wf(),
        ensures
            final(self).steps_from(old(self)),
            final(self).diagnostics@ == old(self).diagnostics@,
            final(self).soft_newline_depth == old(self).soft_newline_depth,
            final(self).angle_depth == old(self).angle_depth,
            final(self).block_context_depth == old(self).block_context_depth,
            is_selector_item_boundary_kind(final(self).cur_kind()),
            forall|k: int|
                old(self).cursor <= k < final(self).cursor ==> !is_selector_item_boundary_kind(
                    (#[trigger] old(self).tokens@[k]).spec_kind(),
                ),
    {
        while !selector_item_boundary(self.current().kind())
            invariant
                self.steps_from(old(self)),
                self.diagnostics@ == old(self).diagnostics@,
                self.soft_newline_depth == old(self).soft_newline_depth,
                self.angle_depth == old(self).angle_depth,
                self.block_context_depth == old(self).block_context_depth,
                forall|k: int|
                    old(self).cursor <= k < self.cursor ==> !is_selector_item_boundary_kind(
                        (#[trigger] old(self).tokens@[k]).spec_kind(),
                    ),
            decreases self.remaining(),
        {
            self.bump();
        }
    }

    /// Parses one selector item: exact, range, open range, all or random.
    fn parse_selector_item(&mut self) -> (r: Option<SelectorItem>)
        requires
            old(self).wf(),
        ensures
            final(self).steps_from(old(self)),
            r matches Some(item) ==> final(self).covers(old(self).pos(), item.spec_span()),
            r matches Some(item) ==> final(self).nodes_fit(item_nodes(item)),
            old(self).cur_kind() == TokenKind::Equal ==> r == Some(SelectorItem::All { span: old(self).cur().spec_span() })
                && final(self).diagnostics@ == old(self).diagnostics@,
            ends_path(old(self).cur_kind()) ==> r is None && final(self).cursor == old(self).cursor
                && final(self).diagnostics@ == old(self).diagnostics@,
            r is None && !ends_path(old(self).cur_kind()) ==> final(self).diagnostics@.len()
                > old(self).diagnostics@.len(),
            old(self).cur_kind() == TokenKind::Question ==> (r matches Some(item) ==> item matches SelectorItem::Random {
                mode: RandomMode::WithoutReplacement, .. }),
            old(self).cur_kind() == TokenKind::BangQuestion ==> (r matches Some(item) ==> item matches SelectorItem::Random {
                mode: RandomMode::WithReplacement, .. }),
            old(self).cur_kind() == TokenKind::Less || old(self).cur_kind() == TokenKind::LessEqual || old(self).cur_kind() == TokenKind::Greater || old(self).cur_kind() == TokenKind::GreaterEqual ==> (
                r matches Some(item) ==> item is OpenRange),
            ({
                let ts = old(self).tokens@;
                let c = old(self).cursor as int;
                is_simple_segment_kind(ts[c].spec_kind()) && c + 1 < ts.len() && !(ts[c + 1].spec_kind() is Slash)
                    && !(ts[c + 1].spec_kind() is Tilde) ==> (r matches Some(SelectorItem::Exact { path, .. })
                    && path.segments@ == seq![simple_segment(ts[c])]) && final(self).cursor == c + 1
                    && final(self).diagnostics@ == old(self).diagnostics@
            }),
            ({
                let ts = old(self).tokens@;
                let c = old(self).cursor as int;
                let k = ts[c].spec_kind();
                (k is Less || k is LessEqual || k is Greater || k is GreaterEqual) && c + 2 < ts.len()
                    && is_simple_segment_kind(ts[c + 1].spec_kind()) && !(ts[c + 2].spec_kind() is Slash)
                    ==> (r matches Some(item) && open_range_of(item, k, simple_segment(ts[c + 1])))
            }),
            ({
                let ts = old(self).tokens@;
                let c = old(self).cursor as int;
                c + 3 < ts.len() && is_simple_segment_kind(ts[c].spec_kind()) && ts[c + 1].spec_kind() is Tilde
                    && is_simple_segment_kind(ts[c + 2].spec_kind()) && !(ts[c + 3].spec_kind() is Slash)
                    ==> (r matches Some(SelectorItem::Range { start, end, .. }) && start.segments@ == seq![
                    simple_segment(ts[c])] && end.segments@ == seq![simple_segment(ts[c + 2])])
                    && final(self).cursor == c + 3 && final(self).diagnostics@ == old(self).diagnostics@
            }),
            forall|k: int|
                #[trigger] old(self).segment_path_at(old(self).cursor as int, k) && !(old(self).tokens@[old(self).cursor
                    + 2 * k - 1].spec_kind() is Tilde) ==> (r matches Some(SelectorItem::Exact { path, .. })
                    && old(self).path_segments_of(old(self).cursor as int, k, path.segments@)) && final(self).cursor
                    == old(self).cursor + 2 * k - 1 && final(self).diagnostics@ == old(self).diagnostics@,
            forall|k1: int, k2: int|
                #[trigger] old(self).segment_path_at(old(self).cursor as int, k1) && old(self).tokens@[old(self).cursor
                    + 2 * k1 - 1].spec_kind() is Tilde && #[trigger] old(self).segment_path_at(
                    old(self).cursor + 2 * k1,
                    k2,
                ) ==> (r matches Some(SelectorItem::Range { start, end, .. }) && old(self).path_segments_of(
                    old(self).cursor as int,
                    k1,
                    start.segments@,
                ) && old(self).path_segments_of(old(self).cursor + 2 * k1, k2, end.segments@)) && final(self).cursor
                    == old(self).cursor + 2 * k1 + 2 * k2 - 1 && final(self).diagnostics@ == old(self).diagnostics@,
        decreases old(self).remaining(), 10int,
    {
        let ghost c0 = old(self).cursor as int;
        let ghost k1 = choose|k: int| old(self).segment_path_at(c0, k);
        let ghost p1 = old(self).segment_path_at(c0, k1);
        let ghost c1 = c0 + 2 * k1;
        let ghost k2 = choose|k: int| old(self).segment_path_at(c1, k);
        let ghost p2 = p1 && old(self).tokens@[c0 + 2 * k1 - 1].spec_kind() is Tilde && old(self).segment_path_at(
            c0 + 2 * k1,
            k2,
        );
        proof {
            assert forall|k: int| #[trigger] old(self).segment_path_at(c0, k) implies k == k1 by {
                assert(old(self).segment_path_at(c0, k1));
                if k < k1 {
                    assert(old(self).tokens@[c0 + 2 * (k - 1) + 1].spec_kind() is Slash);
                } else if k1 < k {
                    assert(old(self).tokens@[c0 + 2 * (k1 - 1) + 1].spec_kind() is Slash);
                }
            }
            if p1 {
                assert(old(self).path_item(c0, 0) == old(self).cur());
                assert(is_simple_segment_kind(old(self).cur_kind()));
            }
            if p1 && old(self).tokens@[c0 + 2 * k1 - 1].spec_kind() is Tilde {
                assert forall|k: int| #[trigger] old(self).segment_path_at(c1, k) implies k == k2 by {
                    assert(old(self).segment_path_at(c1, k2));
                    if k < k2 {
                        assert(old(self).tokens@[c1 + 2 * (k - 1) + 1].spec_kind() is Slash);
                    } else if k2 < k {
                        assert(old(self).tokens@[c1 + 2 * (k2 - 1) + 1].spec_kind() is Slash);
                    }
                }
            }
        }
        let first = self.current();
        match first.kind() {
            TokenKind::Equal => {
                self.bump();
                Some(SelectorItem::All { span: first.span() })
            },
            TokenKind::Question | TokenKind::BangQuestion => {
                let mode = if first.kind() == TokenKind::Question {
                    RandomMode::WithoutReplacement
                } else {
                    RandomMode::WithReplacement
                };
                self.bump();
                self.skip_soft_newlines();
                if selector_item_boundary(self.current().kind()) {
                    self.push_error(
                        INVALID_SELECTOR_CODE,
                        "x01.parse.missing_random_count",
                        first.span(),
                        "随机选择前缀后缺少数量表达式".to_owned(),
                    );
                    return None;
                }
                let count_diagnostics = self.diagnostics.len();
                let count = match self.parse_expression_bp(0) {
                    Some(count) => count,
                    None => {
                        if self.diagnostics.len() == count_diagnostics {
                            self.push_error(
                                INVALID_SELECTOR_CODE,
                                "x01.parse.invalid_random_count",
                                first.span(),
                                "随机选择数量不是有效表达式".to_owned(),
                            );
                        }
                        return None;
                    },
                };
                let span = self.source_span(first.span().start(), count.span().end());
                Some(SelectorItem::Random { mode, count: Box::new(count), span })
            },
            TokenKind::Less | TokenKind::LessEqual | TokenKind::Greater
            | TokenKind::GreaterEqual => {
                self.bump();
                let endpoint_diagnostics = self.diagnostics.len();
                let endpoint = match self.parse_index_path() {
                    Some(endpoint) => endpoint,
                    None => {
                        if self.diagnostics.len() == endpoint_diagnostics {
                            self.push_error(
                                INVALID_SELECTOR_CODE,
                                "x01.parse.missing_range_endpoint",
                                first.span(),
                                "单边范围缺少路径端点".to_owned(),
                            );
                        }
                        return None;
                    },
                };
                let span = self.source_span(first.span().start(), endpoint.span().end());
                let item = match first.kind() {
                    TokenKind::Less => SelectorItem::OpenRange {
                        start: None,
                        end: Some(endpoint),
                        include_start: false,
                        include_end: false,
                        span,
                    },
                    TokenKind::LessEqual => SelectorItem::OpenRange {
                        start: None,
                        end: Some(endpoint),
                        include_start: false,
                        include_end: true,
                        span,
                    },
                    TokenKind::Greater => SelectorItem::OpenRange {
                        start: Some(endpoint),
                        end: None,
                        include_start: false,
                        include_end: false,
                        span,
                    },
                    _ => SelectorItem::OpenRange {
                        start: Some(endpoint),
                        end: None,
                        include_start: true,
                        include_end: false,
                        span,
                    },
                };
                Some(item)
            },
            _ => {
                let start = match self.parse_index_path() {
                    Some(start) => start,
                    None => {
                        return None;
                    },
                };
                if self.at(TokenKind::Tilde) {
                    self.bump();
                    let end_diagnostics = self.diagnostics.len();
                    proof {
                        if p2 {
                            old(self).lemma_path_tokens(self, c0 + 2 * k1, k2, Seq::empty());
                        }
                    }
                    let ghost before_end = *self;
                    let end = match self.parse_index_path() {
                        Some(end) => end,
                        None => {
                            if self.diagnostics.len() == end_diagnostics {
                                self.push_error(
                                    INVALID_SELECTOR_CODE,
                                    "x01.parse.missing_range_endpoint",
                                    first.span(),
                                    "闭区间缺少右侧路径端点".to_owned(),
                                );
                            }
                            return None;
                        },
                    };
                    proof {
                        if p2 {
                            before_end.lemma_path_tokens(old(self), c0 + 2 * k1, k2, end.segments@);
                        }
                    }
                    let span = self.source_span(first.span().start(), end.span().end());
                    Some(SelectorItem::Range { start, end, span })
                } else {
                    let span = self.source_span(first.span().start(), start.span().end());
                    Some(SelectorItem::Exact { path: start, span })
                }
            },
        }
    }

    /// Parses a path of numbers or names joined by `/`.
    fn parse_index_path(&mut self) -> (r: Option<IndexPath>)
        requires
            old(self).wf(),
        ensures
            final(self).steps_from(old(self)),
            r matches Some(path) ==> final(self).covers(old(self).pos(), path.span),
            r matches Some(path) ==> path.segments@.len() >= 1 && path.span.spec_start() == old(self).pos()
                && final(self).diagnostics@ == old(self).diagnostics@,
            ends_path(old(self).cur_kind()) ==> r is None && final(self).cursor == old(self).cursor
                && final(self).diagnostics@ == old(self).diagnostics@,
            r is None && !ends_path(old(self).cur_kind()) ==> final(self).diagnostics@.len()
                == old(self).diagnostics@.len() + 1 && final(self).diagnostics@.last().code
                == INVALID_SELECTOR_CODE,
            is_simple_segment_kind(old(self).cur_kind()) && !(old(self).next_kind() == Some(TokenKind::Slash))
                ==> (r matches Some(path) && path.segments@ == seq![simple_segment(old(self).cur())])
                && final(self).cursor == old(self).cursor + 1,
            forall|k: int|
                #[trigger] old(self).segment_path_at(old(self).cursor as int, k) ==> (r matches Some(path)
                    && old(self).path_segments_of(old(self).cursor as int, k, path.segments@)) && final(self).cursor
                    == old(self).cursor + 2 * k - 1 && final(self).diagnostics@ == old(self).diagnostics@,
    {
        let ghost c0 = old(self).cursor as int;
        let ghost kk = choose|k: int| old(self).segment_path_at(c0, k);
        let ghost pathed = old(self).segment_path_at(c0, kk);
        proof {
            assert forall|k: int| #[trigger] old(self).segment_path_at(c0, k) implies k == kk by {
                assert(old(self).segment_path_at(c0, kk));
                if k < kk {
                    assert(old(self).tokens@[c0 + 2 * (k - 1) + 1].spec_kind() is Slash);
                } else if kk < k {
                    assert(old(self).tokens@[c0 + 2 * (kk - 1) + 1].spec_kind() is Slash);
                }
            }
            if pathed {
                assert(old(self).path_item(c0, 0) == old(self).cur());
            }
        }
        let first = self.current();
        let mut segments: Vec<PathSegment> = Vec::new();
        loop
            invariant
                self.steps_from(old(self)),
                is_simple_segment_kind(old(self).cur_kind()) && !(old(self).next_kind() == Some(TokenKind::Slash))
                    ==> segments@.len() == 0,
                self.diagnostics@ == old(self).diagnostics@,
                segments@.len() == 0 ==> self.cursor == old(self).cursor,
                segments@.len() > 0 ==> !ends_path(self.cur_kind()) && !ends_path(old(self).cur_kind()),
                first == old(self).cur(),
                span_fits(self.spec_bytes(), first.spec_span()),
                first.spec_span().spec_start() == old(self).pos(),
                c0 == old(self).cursor,
                pathed == old(self).segment_path_at(c0, kk),
                forall|k: int| #[trigger] old(self).segment_path_at(c0, k) ==> k == kk,
                pathed ==> segments@.len() < kk && self.cursor == c0 + 2 * segments@.len() && self.cur()
                    == old(self).path_item(c0, segments@.len() as int) && old(self).path_segments_of(
                    c0,
                    segments@.len() as int,
                    segments@,
                ),
            decreases self.remaining(),
        {
            proof {
                if pathed {
                    assert(is_simple_segment_kind(old(self).path_item(c0, segments@.len() as int).spec_kind()));
                }
            }
            let segment = match self.parse_path_segment() {
                Some(segment) => segment,
                None => {
                    return None;
                },
            };
            let end = segment.span().end();
            segments.push(segment);
            proof {
                if is_simple_segment_kind(old(self).cur_kind()) && !(old(self).next_kind() == Some(TokenKind::Slash)) {
                    assert(segments@ =~= seq![simple_segment(old(self).cur())]);
                }
            }
            proof {
                if pathed {
                    let n = segments@.len() - 1;
                    assert(segments@[n] == simple_segment(old(self).path_item(c0, n)));
                    assert(old(self).path_segments_of(c0, n + 1, segments@));
                    assert(self.cursor == c0 + 2 * n + 1);
                    if n < kk - 1 {
                        assert(old(self).tokens@[c0 + 2 * n + 1].spec_kind() is Slash);
                        assert(old(self).path_item(c0, n + 1) == old(self).tokens@[c0 + 2 * n + 2]);
                        assert(is_simple_segment_kind(old(self).path_item(c0, n + 1).spec_kind()));
                    }
                }
            }
            if self.at(TokenKind::Slash) {
                self.bump();
                if selector_item_boundary(self.current().kind()) {
                    let span = self.current().span();
                    self.push_error(
                        INVALID_SELECTOR_CODE,
                        "x01.parse.missing_path_segment",
                        span,
                        "路径分隔符后缺少路径段".to_owned(),
                    );
                    return None;
                }
                continue;
            }
            return Some(IndexPath::new(segments, self.source_span(first.span().start(), end)));
        }
    }

    /// Parses one path segment: a decimal integer, optionally negative, or a
    /// name.
    fn parse_path_segment(&mut self) -> (r: Option<PathSegment>)
        requires
            old(self).wf(),
        ensures
            final(self).steps_from(old(self)),
            r matches Some(segment) ==> final(self).covers(old(self).pos(), segment.spec_span())
                && final(self).cursor > old(self).cursor,
            old(self).cur_kind() == TokenKind::Integer ==> r == Some(
                PathSegment::Integer { span: old(self).cur().spec_span(), negative: false },
            ),
            old(self).cur_kind() == TokenKind::Identifier || old(self).cur_kind() == TokenKind::BacktickIdentifier
                ==> r == Some(PathSegment::Name(Name {
                span: old(self).cur().spec_span(),
                backticked: old(self).cur_kind() == TokenKind::BacktickIdentifier,
            })),
            ends_path(old(self).cur_kind()) ==> r is None && final(self).cursor == old(self).cursor
                && final(self).diagnostics@ == old(self).diagnostics@,
            (old(self).cur_kind() == TokenKind::Minus ==> (r is Some <==> old(self).next_kind() == Some(
                TokenKind::Integer,
            )) && (r matches Some(segment) ==> segment matches PathSegment::Integer { negative, .. } && negative)),
            !(old(self).cur_kind() is Integer || old(self).cur_kind() is Minus || old(self).cur_kind() is Identifier
                || old(self).cur_kind() is BacktickIdentifier || ends_path(old(self).cur_kind()))
                ==> (is_expression_name_kind(old(self).cur_kind()) ==> r == Some(PathSegment::Name(Name {
                span: old(self).cur().spec_span(),
                backticked: false,
            }))) && (!is_expression_name_kind(old(self).cur_kind()) ==> r is None),
            r is None && !ends_path(old(self).cur_kind()) ==> final(self).diagnostics@.len() == old(self).diagnostics@.len() + 1
                && final(self).diagnostics@.last().code == INVALID_SELECTOR_CODE,
            r is Some ==> final(self).diagnostics@ == old(self).diagnostics@,
            is_simple_segment_kind(old(self).cur_kind()) ==> final(self).cursor == old(self).cursor + 1,
    {
        let token = self.current();
        match token.kind() {
            TokenKind::Integer => {
                self.bump();
                Some(PathSegment::Integer { span: token.span(), negative: false })
            },
            TokenKind::Minus => {
                self.bump();
                let number = self.current();
                if number.kind() != TokenKind::Integer {
                    self.push_error(
                        INVALID_SELECTOR_CODE,
                        "x01.parse.invalid_path_segment",
                        token.span(),
                        "负索引后必须是十进制整数".to_owned(),
                    );
                    return None;
                }
                self.bump();
                Some(
                    PathSegment::Integer {
                        span: self.source_span(token.span().start(), number.span().end()),
                        negative: true,
                    },
                )
            },
            TokenKind::Identifier | TokenKind::BacktickIdentifier => {
                self.bump();
                Some(
                    PathSegment::Name(
                        Name {
                            span: token.span(),
                            backticked: token.kind() == TokenKind::BacktickIdentifier,
                        },
                    ),
                )
            },
            TokenKind::Comma | TokenKind::RightBracket | TokenKind::Newline | TokenKind::Eof => {
                None
            },
            _ => {
                if is_expression_name_token(token.kind()) {
                    self.bump();
                    Some(PathSegment::Name(Name { span: token.span(), backticked: false }))
                } else {
                    self.push_error(
                        INVALID_SELECTOR_CODE,
                        "x01.parse.invalid_path_segment",
                        token.span(),
                        "路径段必须是整数、普通名称或反引号名称".to_owned(),
                    );
                    None
                }
            },
        }
    }
}

// ---------------------------------------------------------------------------
// Statements
// ---------------------------------------------------------------------------

/// The bytes `main`.
pub open spec fn main_word() -> Seq<u8> {
    seq![109u8, 97u8, 105u8, 110u8]
}

/// Whether the bytes `t` spell a keyword.
pub open spec fn spells_keyword(t: Seq<u8>) -> bool {
    exists|k: KeywordKind| t == encode_utf8((#[trigger] k.spelling())@)
}

/// The bytes `set`.
pub open spec fn set_word() -> Seq<u8> {
    seq![115u8, 101u8, 116u8]
}

/// Returns whether `bytes` hold exactly the bytes of `word`.
fn bytes_spell(bytes: &[u8], word: &[u8]) -> (r: bool)
    ensures
        r == (bytes@ == word@),
{
    if bytes.len() != word.len() {
        return false;
    }
    let mut i: usize = 0;
    while i < bytes.len()
        invariant
            bytes@.len() == word@.len(),
            i <= bytes@.len(),
            forall|j: int| 0 <= j < i ==> bytes@[j] == word@[j],
        decreases bytes@.len() - i,
    {
        if bytes[i] != word[i] {
            return false;
        }
        i += 1;
    }
    assert(bytes@ =~= word@);
    true
}

impl<'source> Parser<'source> {
    /// The text of token `i`.
    spec fn token_text(&self, i: int) -> Seq<u8> {
        self.source.spec_bytes().subrange(
            self.tokens@[i].spec_span().spec_start() as int,
            self.tokens@[i].spec_span().spec_end() as int,
        )
    }

    /// The token at `i` is a plain identifier that is not a reserved word.
    spec fn table_name_at(&self, i: int) -> bool {
        &&& 0 <= i < self.tokens@.len()
        &&& self.tokens@[i].spec_kind() == TokenKind::Identifier
        &&& !spells_keyword(self.token_text(i))
    }

    /// There is no token at `i`, or it ends a statement.
    spec fn boundary_or_end(&self, i: int) -> bool {
        i >= self.tokens@.len() || is_statement_boundary_kind(self.tokens@[i].spec_kind())
    }

    /// The token at `i` has `kind`.
    spec fn kind_is(&self, i: int, kind: TokenKind) -> bool {
        0 <= i < self.tokens@.len() && self.tokens@[i].spec_kind() == kind
    }

    /// A `[Name]` or `[[Name]]` table header ending the statement starts at the
    /// current token.
    spec fn spec_starts_table_header(&self) -> bool {
        let c = self.cursor as int;
        &&& self.cur_kind() == TokenKind::LeftBracket
        &&& if self.kind_is(c + 1, TokenKind::LeftBracket) && self.table_name_at(c + 2)
            && self.kind_is(c + 3, TokenKind::RightBracket) && self.kind_is(c + 4, TokenKind::RightBracket) {
            self.boundary_or_end(c + 5)
        } else {
            self.table_name_at(c + 1) && self.kind_is(c + 2, TokenKind::RightBracket)
                && self.boundary_or_end(c + 3)
        }
    }

    /// A `[main]` entry header ending the statement starts at the current token.
    spec fn spec_starts_main_header(&self) -> bool {
        let c = self.cursor as int;
        &&& self.cur_kind() == TokenKind::LeftBracket
        &&& c + 2 < self.tokens@.len()
        &&& self.tokens@[c + 1].spec_kind() == TokenKind::Identifier
        &&& self.tokens@[c + 2].spec_kind() == TokenKind::RightBracket
        &&& self.boundary_or_end(c + 3)
        &&& self.token_text(c + 1) == main_word()
    }

    /// A `set<` type annotation starts at the current token: the name `set`
    /// followed by `<`, either touching it or followed by a type term.
    spec fn spec_starts_set_type(&self) -> bool {
        let c = self.cursor as int;
        let ts = self.tokens@;
        &&& self.cur_kind() == TokenKind::Identifier
        &&& self.token_text(c) == set_word()
        &&& c + 1 < ts.len()
        &&& ts[c + 1].spec_kind() == TokenKind::Less
        &&& (self.cur().spec_span().spec_end() == ts[c + 1].spec_span().spec_start() || (c + 2
            < ts.len() && (is_scalar_type_kind(ts[c + 2].spec_kind()) || ts[c
            + 2].spec_kind() is NoneLiteral)))
    }

    /// A declaration starts at the current token: `const`, a scalar type not
    /// used as a call, or a set type annotation.
    spec fn spec_starts_declaration(&self) -> bool {
        let c = self.cursor as int;
        ||| self.cur_kind() == TokenKind::Keyword(KeywordKind::Const)
        ||| (is_scalar_type_kind(self.cur_kind()) && !(c + 1 < self.tokens@.len()
            && self.tokens@[c + 1].spec_kind() == TokenKind::LeftParen))
        ||| self.spec_starts_set_type()
    }

    /// Returns whether the current token spells `word`.
    fn current_spells(&self, word: &[u8]) -> (r: bool)
        requires
            self.wf(),
        ensures
            r == (self.token_text(self.cursor as int) == word@),
    {
        let token = self.current();
        let text = token.text(self.source);
        bytes_spell(text.as_bytes(), word)
    }

    /// Returns whether a `set<...>` type annotation starts here. Without a
    /// space the annotation is explicit; with one, only a type term after `<`
    /// makes it a declaration, so that `set < value` stays a comparison.
    fn starts_set_type(&self) -> (r: bool)
        requires
            self.wf(),
        ensures
            r == self.spec_starts_set_type(),
    {
        if self.current().kind() != TokenKind::Identifier || !self.current_spells(
            &[115u8, 101u8, 116u8],
        ) || !matches!(self.lookahead_kind(1), Some(TokenKind::Less)) {
            proof {
                assert(set_word() =~= seq![115u8, 101u8, 116u8]);
            }
            return false;
        }
        proof {
            assert(set_word() =~= seq![115u8, 101u8, 116u8]);
        }
        let adjacent = self.current().span().end() == self.tokens[self.cursor + 1].span().start();
        adjacent || match self.lookahead_kind(2) {
            Some(kind) => is_set_type_term_token(kind),
            None => false,
        }
    }

    /// Returns whether a declaration starts here.
    fn starts_declaration(&self) -> (r: bool)
        requires
            self.wf(),
        ensures
            r == self.spec_starts_declaration(),
    {
        if self.at(TokenKind::Keyword(KeywordKind::Const)) {
            return true;
        }
        (is_scalar_type_token(self.current().kind()) && !matches!(
            self.lookahead_kind(1),
            Some(TokenKind::LeftParen)
        )) || self.starts_set_type()
    }

    /// Returns whether the current token starts a `[main]` entry header.
    fn starts_main_header(&self) -> (r: bool)
        requires
            self.wf(),
        ensures
            r ==> self.cur_kind() == TokenKind::LeftBracket && self.cursor + 2 < self.tokens@.len()
                && self.tokens@[self.cursor + 1].spec_kind() == TokenKind::Identifier
                && self.tokens@[self.cursor + 2].spec_kind() == TokenKind::RightBracket,
            r == self.spec_starts_main_header(),
    {
        if !self.at(TokenKind::LeftBracket) {
            return false;
        }
        if self.tokens.len() - self.cursor <= 2 {
            return false;
        }
        let name = self.tokens[self.cursor + 1];
        let close = self.tokens[self.cursor + 2];
        let after = match self.lookahead_kind(3) {
            Some(kind) => kind,
            None => TokenKind::Eof,
        };
        if name.kind() != TokenKind::Identifier || close.kind() != TokenKind::RightBracket
            || !is_statement_boundary(after) {
            return false;
        }
        proof {
            self.lemma_token(self.cursor + 1);
        }
        let text = name.text(self.source);
        proof {
            assert(main_word() =~= seq![109u8, 97u8, 105u8, 110u8]);
        }
        bytes_spell(text.as_bytes(), &[109u8, 97u8, 105u8, 110u8])
    }

    /// Returns whether the token at `index` is a plain identifier that is not
    /// a reserved word.
    fn is_table_name_at(&self, index: usize) -> (r: bool)
        requires
            self.wf(),
        ensures
            r == self.table_name_at(index as int),
    {
        if index >= self.tokens.len() {
            return false;
        }
        let token = self.tokens[index];
        if token.kind() != TokenKind::Identifier {
            return false;
        }
        proof {
            self.lemma_token(index as int);
        }
        let text = token.text(self.source);
        let found = KeywordKind::from_word(text);
        proof {
            if found is None {
                assert forall|k: KeywordKind| self.token_text(index as int) != encode_utf8(
                    (#[trigger] k.spelling())@,
                ) by {
                    encode_utf8_decode_utf8(text@);
                    encode_utf8_decode_utf8(k.spelling()@);
                }
            } else {
                let k = found->Some_0;
                assert(self.token_text(index as int) == encode_utf8(k.spelling()@));
            }
        }
        found.is_none()
    }

    /// Returns whether the token at `index` has `kind`.
    fn kind_at(&self, index: usize, kind: TokenKind) -> (r: bool)
        requires
            self.wf(),
        ensures
            r == (index < self.tokens@.len() && self.tokens@[index as int].spec_kind() == kind),
    {
        index < self.tokens.len() && self.tokens[index].kind() == kind
    }

    /// Returns whether there is no token at `index` or it ends a statement.
    fn boundary_or_end_at(&self, index: usize) -> (r: bool)
        requires
            self.wf(),
        ensures
            r == self.boundary_or_end(index as int),
    {
        index >= self.tokens.len() || is_statement_boundary(self.tokens[index].kind())
    }

    /// Returns whether a top-level `[Name]` or `[[Name]]` table header starts
    /// here: the name is a plain, non-reserved identifier and the header is
    /// followed by the end of the statement, so that array literals and
    /// comparisons are not taken for headers.
    fn starts_table_header(&self) -> (r: bool)
        requires
            self.wf(),
        ensures
            r ==> self.cur_kind() == TokenKind::LeftBracket,
            r == self.spec_starts_table_header(),
    {
        if !self.at(TokenKind::LeftBracket) {
            return false;
        }
        let c = self.cursor;
        if self.kind_at(c.saturating_add(1), TokenKind::LeftBracket) && self.is_table_name_at(
            c.saturating_add(2),
        ) && self.kind_at(c.saturating_add(3), TokenKind::RightBracket) && self.kind_at(
            c.saturating_add(4),
            TokenKind::RightBracket,
        ) {
            return self.boundary_or_end_at(c.saturating_add(5));
        }
        self.is_table_name_at(c.saturating_add(1)) && self.kind_at(
            c.saturating_add(2),
            TokenKind::RightBracket,
        ) && self.boundary_or_end_at(c.saturating_add(3))
    }

    /// Parses one statement; the current token does not end a statement.
    fn parse_statement(&mut self, leading_docs: Vec<SourceSpan>) -> (r: Option<Statement>)
        requires
            old(self).wf(),
            !is_statement_boundary_kind(old(self).cur_kind()),
        ensures
            final(self).steps_from(old(self)),
            final(self).cursor > old(self).cursor,
            r matches Some(st) ==> final(self).covers(old(self).pos(), st.spec_span()),
            r matches Some(st) ==> final(self).nodes_fit(statement_nodes(st)),
            r is None && old(self).cur_kind() != TokenKind::Keyword(KeywordKind::Raise) ==> final(self).failure_reported(old(self)),
            (r matches Some(st) ==> statement_fits_start(st, old(self).cur_kind())),
            ({
                let ts = old(self).tokens@;
                let c = old(self).cursor as int;
                old(self).soft_newline_depth == 0 && ts[c].spec_kind() is Identifier && c + 3 < ts.len()
                    && ts[c + 1].spec_kind() is Equal && is_simple_operand_kind(ts[c + 2].spec_kind())
                    && is_statement_boundary_kind(ts[c + 3].spec_kind()) ==> (r matches Some(
                    Statement::Assignment { target, value, span, .. },
                ) && target.span == ts[c].spec_span() && !target.backticked && value == simple_operand(ts[c + 2])
                    && span.spec_start() == ts[c].spec_span().spec_start() && span.spec_end()
                    == ts[c + 2].spec_span().spec_end() && final(self).diagnostics@ == old(self).diagnostics@)
                    && final(self).cursor == (if ts[c + 3].spec_kind() is Newline { c + 4 } else { c + 3 })
                    && final(self).soft_newline_depth == 0 && final(self).angle_depth == old(self).angle_depth
            }),
            ({
                let ts = old(self).tokens@;
                let c = old(self).cursor as int;
                ts[c].spec_kind() is Identifier && c + 5 < ts.len() && ts[c + 1].spec_kind() is Equal
                    && old(self).binary_at(c + 2, 0) && is_statement_boundary_kind(ts[c + 5].spec_kind())
                    ==> (r matches Some(Statement::Assignment { target, value, .. }) && target == name_of(ts[c])
                    && binary_of(
                    value,
                    old(self).infix_at(c + 3)->Some_0.0,
                    simple_operand(ts[c + 2]),
                    simple_operand(ts[c + 4]),
                )) && final(self).diagnostics@ == old(self).diagnostics@ && final(self).cursor == (if ts[c
                    + 5].spec_kind() is Newline {
                    c + 6
                } else {
                    c + 5
                }) && final(self).soft_newline_depth == 0 && final(self).angle_depth == 0
            }),
            ({
                let ts = old(self).tokens@;
                let c = old(self).cursor as int;
                ts[c].spec_kind() is Identifier && c + 7 < ts.len() && ts[c + 1].spec_kind() is Equal
                    && old(self).chain_at(c + 2, 0) && is_statement_boundary_kind(ts[c + 7].spec_kind())
                    ==> (r matches Some(Statement::Assignment { target, value, .. }) && target == name_of(ts[c])
                    && old(self).chain_tree(c + 2, value)) && final(self).diagnostics@ == old(self).diagnostics@
            }),
            forall|k: int|
                old(self).tokens@[old(self).cursor as int].spec_kind() is Identifier && old(self).tokens@[old(self).cursor
                    + 1].spec_kind() is Equal && old(self).soft_newline_depth == 0 && old(self).angle_depth == 0
                    && #[trigger] old(self).array_expression_at(old(self).cursor + 2, k) && is_statement_boundary_kind(
                    old(self).tokens@[old(self).cursor + 2 * k + 3].spec_kind(),
                ) ==> (r matches Some(Statement::Assignment { target, value, .. }) && target == name_of(
                    old(self).tokens@[old(self).cursor as int],
                ) && old(self).array_of_list(old(self).cursor + 2, k, value)) && final(self).diagnostics@
                    == old(self).diagnostics@ && final(self).cursor == (if old(self).tokens@[old(self).cursor + 2 * k
                    + 3].spec_kind() is Newline {
                    old(self).cursor + 2 * k + 4
                } else {
                    old(self).cursor + 2 * k + 3
                }) && final(self).soft_newline_depth == 0 && final(self).angle_depth == 0,
            ({
                let ts = old(self).tokens@;
                let c = old(self).cursor as int;
                scalar_of_kind(ts[c].spec_kind()) is Some && c + 4 < ts.len() && old(self).soft_newline_depth == 0
                    && is_declaration_name_kind(ts[c + 1].spec_kind()) && ts[c + 2].spec_kind() is Equal
                    && is_simple_operand_kind(ts[c + 3].spec_kind()) && is_statement_boundary_kind(ts[c + 4].spec_kind())
                    ==> (r matches Some(st) && scalar_declaration(
                    st,
                    scalar_of_kind(ts[c].spec_kind())->Some_0,
                    ts[c + 1],
                    Some(simple_operand(ts[c + 3])),
                )) && final(self).diagnostics@ == old(self).diagnostics@ && final(self).cursor == (if ts[c
                    + 4].spec_kind() is Newline {
                    c + 5
                } else {
                    c + 4
                }) && final(self).soft_newline_depth == 0 && final(self).angle_depth == old(self).angle_depth
            }),
            old(self).cur_kind() == TokenKind::Keyword(KeywordKind::If) && old(self).soft_newline_depth == 0
                && old(self).angle_depth == 0 && if_shape(old(self).tokens@, old(self).cursor as int) ==> (r matches Some(
                st,
            ) && if_tree(st, old(self).tokens@, old(self).cursor as int)) && (if_settled(
                old(self).tokens@,
                old(self).cursor as int,
            ) ==> final(self).diagnostics@ == old(self).diagnostics@) && (old(self).tokens@[lines_end(
                old(self).tokens@,
                old(self).cursor + 4,
            ) + 1].spec_kind() != TokenKind::Keyword(KeywordKind::Else) ==> final(self).cursor == lines_end(
                old(self).tokens@,
                old(self).cursor + 4,
            ) + 1 && final(self).soft_newline_depth == 0 && final(self).angle_depth == 0),
            forall|k: int, m: int|
                old(self).cur_kind() == TokenKind::Keyword(KeywordKind::Def) && old(self).soft_newline_depth == 0
                    && old(self).angle_depth == 0 && is_declaration_name_kind(
                    old(self).tokens@[old(self).cursor + 1].spec_kind(),
                ) && old(self).tokens@[old(self).cursor + 2].spec_kind() is LeftParen && #[trigger] old(self).entry_list_at(
                    old(self).cursor + 2,
                    k,
                    m,
                ) && line_block(old(self).tokens@, old(self).cursor + 2 * k + 3) ==> (r matches Some(
                    Statement::Function { name, parameters, return_type, body, .. },
                ) && name == name_of(old(self).tokens@[old(self).cursor + 1]) && return_type is None
                    && parameters@.len() == (if m < k {
                    k - 1
                } else {
                    k
                }) && (forall|q: int|
                    0 <= q < parameters@.len() ==> entry_parameter(
                        #[trigger] parameters@[q],
                        old(self).list_item(old(self).cursor + 2, entry_index(q, m)),
                        q >= m,
                    )) && block_statements(body@, old(self).tokens@, old(self).cursor + 2 * k + 3))
                    && final(self).diagnostics@ == old(self).diagnostics@,
        decreases old(self).remaining(), 40int,
    {
        let ghost c0 = self.cursor as int;
        let ghost v0 = c0 + 2;
        let ghost ak = choose|k: int| old(self).array_expression_at(v0, k);
        let ghost arr = old(self).tokens@[c0].spec_kind() is Identifier && old(self).tokens@[c0 + 1].spec_kind() is Equal
            && old(self).soft_newline_depth == 0 && old(self).angle_depth == 0 && old(self).array_expression_at(c0 + 2, ak)
            && is_statement_boundary_kind(old(self).tokens@[c0 + 2 * ak + 3].spec_kind());
        proof {
            assert forall|k: int| #[trigger] old(self).array_expression_at(v0, k) implies k == ak by {
                assert(old(self).array_expression_at(v0, ak));
                old(self).lemma_operand_list_unique(v0, k, ak, TokenKind::RightBracket);
            }
        }
        let kind = self.current().kind();
        match kind {
            TokenKind::Keyword(KeywordKind::Import) | TokenKind::Keyword(KeywordKind::From) => {
                return self.parse_import_statement(leading_docs);
            },
            TokenKind::Keyword(KeywordKind::Def) => {
                return self.parse_function_statement(leading_docs);
            },
            TokenKind::Keyword(KeywordKind::If) => {
                return self.parse_if_statement(leading_docs);
            },
            TokenKind::Keyword(KeywordKind::For) => {
                return self.parse_for_statement(leading_docs);
            },
            TokenKind::Keyword(KeywordKind::While) => {
                return self.parse_while_statement(leading_docs);
            },
            TokenKind::Keyword(KeywordKind::Return) => {
                return self.parse_return_statement(leading_docs);
            },
            TokenKind::Keyword(KeywordKind::Break) => {
                return self.parse_loop_control_statement(leading_docs, true);
            },
            TokenKind::Keyword(KeywordKind::Continue) => {
                return self.parse_loop_control_statement(leading_docs, false);
            },
            TokenKind::Keyword(KeywordKind::Try) => {
                return self.parse_try_statement(leading_docs);
            },
            TokenKind::Keyword(KeywordKind::Raise) => {
                return self.parse_raise_statement(leading_docs);
            },
            TokenKind::LeftBracket => {
                if self.starts_table_header() {
                    if self.block_context_depth != 0 {
                        let span = self.current().span();
                        self.push_error(
                            INVALID_TABLE_HEADER_CODE,
                            "x05.parse.nested_table",
                            span,
                            "表声明只能出现在文件顶层".to_owned(),
                        );
                        self.synchronize_to_boundary();
                        return None;
                    }
                    return self.parse_table_statement(leading_docs);
                }
            },
            _ => {},
        }
        if self.starts_declaration() {
            return self.parse_declaration_statement(leading_docs);
        }
        let first = self.current();
        let expression_diagnostics = self.diagnostics.len();
        let expression = match self.parse_expression() {
            Some(expression) => expression,
            None => {
                if first.kind() != TokenKind::Invalid && self.diagnostics.len()
                    == expression_diagnostics {
                    self.push_error(
                        INVALID_EXPRESSION_CODE,
                        "x01.parse.invalid_expression",
                        first.span(),
                        "该 Token 不能开始 P1 表达式".to_owned(),
                    );
                }
                self.synchronize_to_boundary();
                return None;
            },
        };
        match assignment_operator(self.current().kind()) {
            Some(operator) => {
                let operator_token = self.bump();
                if is_statement_boundary(self.current().kind()) {
                    self.push_error(
                        MISSING_ASSIGNMENT_VALUE_CODE,
                        "x01.parse.missing_assignment_value",
                        operator_token.span(),
                        "赋值运算符右侧缺少表达式".to_owned(),
                    );
                    self.synchronize_to_boundary();
                    return None;
                }
                let value_diagnostics = self.diagnostics.len();
                let ghost s2 = *self;
                proof {
                    if arr {
                        old(self).lemma_array_expression_tokens(self, c0 + 2, ak);
                        assert(self.array_expression_at(self.cursor as int, ak));
                    }
                }
                let value = match self.parse_expression() {
                    Some(value) => value,
                    None => {
                        let current = self.current();
                        if current.kind() != TokenKind::Invalid && self.diagnostics.len()
                            == value_diagnostics {
                            self.push_error(
                                INVALID_ASSIGNMENT_CODE,
                                "x01.parse.invalid_assignment",
                                current.span(),
                                "赋值运算符右侧不是有效表达式".to_owned(),
                            );
                        }
                        self.synchronize_to_boundary();
                        return None;
                    },
                };
                if !is_statement_boundary(self.current().kind()) {
                    let span = self.current().span();
                    self.push_error(
                        INVALID_ASSIGNMENT_CODE,
                        "x01.parse.invalid_assignment",
                        span,
                        "赋值表达式后存在未预期内容".to_owned(),
                    );
                    self.synchronize_to_boundary();
                    return None;
                }
                if !is_assignable_syntax(&expression) {
                    self.push_error(
                        INVALID_ASSIGNMENT_TARGET_CODE,
                        "x01.parse.invalid_assignment_target",
                        expression.span(),
                        "赋值左侧必须是名称、成员或选择器表达式".to_owned(),
                    );
                    self.synchronize_to_boundary();
                    return None;
                }
                proof {
                    if arr {
                        s2.lemma_array_of_list_tokens(old(self), c0 + 2, ak, value);
                    }
                }
                let span = self.source_span(expression.span().start(), value.span().end());
                self.consume_newline();
                proof {
                    lemma_fit_node1(self.spec_bytes(), span, expression_nodes(value));
                    lemma_fit_node2(
                        self.spec_bytes(),
                        span,
                        expression_nodes(expression),
                        expression_nodes(value),
                    );
                }
                match expression {
                    Expression::Name(target) if operator == AssignmentOperator::Assign => {
                        Some(Statement::Assignment { target, value, leading_docs, span })
                    },
                    other => Some(
                        Statement::ExtendedAssignment {
                            target: other,
                            operator,
                            value,
                            leading_docs,
                            span,
                        },
                    ),
                }
            },
            None => {
                if !is_statement_boundary(self.current().kind()) {
                    self.report_unexpected_tail();
                    self.synchronize_to_boundary();
                    return None;
                }
                let span = expression.span();
                self.consume_newline();
                proof {
                    lemma_fit_node1(self.spec_bytes(), span, expression_nodes(expression));
                }
                Some(Statement::Expression { span, expression, leading_docs })
            },
        }
    }

    /// Parses a `[Name]` or `[[Name]]` table declaration and its body.
    fn parse_table_statement(&mut self, leading_docs: Vec<SourceSpan>) -> (r: Option<Statement>)
        requires
            old(self).wf(),
            old(self).cur_kind() == TokenKind::LeftBracket,
        ensures
            final(self).steps_from(old(self)),
            final(self).cursor > old(self).cursor,
            r matches Some(st) ==> final(self).covers(old(self).pos(), st.spec_span()),
            r matches Some(st) ==> final(self).nodes_fit(statement_nodes(st)),
            r is None ==> final(self).failure_reported(old(self)),
            r matches Some(st) ==> st is Table,
        decreases old(self).remaining(), 39int,
    {
        let start = self.current().span().start();
        let first = self.bump();
        let kind = if self.at(TokenKind::LeftBracket) {
            self.bump();
            TableKind::Instance
        } else {
            TableKind::Singleton
        };
        let name_token = self.current();
        let reserved = if name_token.kind() == TokenKind::Identifier {
            KeywordKind::from_word(name_token.text(self.source)).is_some()
        } else {
            true
        };
        if reserved {
            self.push_error(
                INVALID_TABLE_HEADER_CODE,
                "x05.parse.invalid_table_name",
                name_token.span(),
                "表名必须是非保留的 ASCII 标识符".to_owned(),
            );
            self.synchronize_to_boundary();
            return None;
        }
        let name = self.parse_name();
        let close = match self.expect_delimiter(TokenKind::RightBracket, first.span()) {
            Some(close) => close,
            None => {
                self.synchronize_to_boundary();
                return None;
            },
        };
        let final_close = if kind == TableKind::Instance {
            match self.expect_delimiter(TokenKind::RightBracket, close.span()) {
                Some(token) => token,
                None => {
                    return None;
                },
            }
        } else {
            close
        };
        if !is_statement_boundary(self.current().kind()) {
            let span = self.current().span();
            self.push_error(
                INVALID_TABLE_HEADER_CODE,
                "x05.parse.table_header_tail",
                span,
                "表头后只能出现换行".to_owned(),
            );
            self.synchronize_to_boundary();
            return None;
        }
        let header_span = self.source_span(start, final_close.span().end());
        let (body, body_end) = self.parse_table_body(header_span);
        let end = if body_end > header_span.end() {
            body_end
        } else {
            header_span.end()
        };
        let span = self.source_span(start, end);
        proof {
            lemma_fit_node1(self.spec_bytes(), span, statements_nodes(body@, body@.len() as int));
        }
        Some(Statement::Table { name, kind, body, leading_docs, span })
    }

    /// Parses a table body: field assignments or declarations and methods.
    fn parse_table_body(&mut self, header_span: SourceSpan) -> (r: (Vec<Statement>, usize))
        requires
            old(self).wf(),
            span_fits(old(self).spec_bytes(), header_span),
            header_span.spec_end() <= old(self).pos(),
        ensures
            final(self).steps_from(old(self)),
            header_span.spec_end() <= r.1 <= final(self).pos(),
            is_boundary(final(self).spec_bytes(), r.1 as int),
            final(self).nodes_fit(statements_nodes(r.0@, r.0@.len() as int)),
            r.0@.len() == 0 || (exists|i: int| 0 <= i < r.0@.len() && !is_table_member(#[trigger] r.0@[i]))
                ==> final(self).diagnostics@.len() > old(self).diagnostics@.len(),
            ({
                let ts = old(self).tokens@;
                let c = old(self).cursor as int;
                let ls = line_starts(ts, c + 2);
                let end = lines_end(ts, c + 2);
                old(self).soft_newline_depth == 0 && old(self).angle_depth == 0 && c + 1 < ts.len()
                    && ts[c].spec_kind() is Newline && ts[c + 1].spec_kind() is Indent && ls.len() >= 1 && end
                    < ts.len() && ts[end].spec_kind() is Dedent ==> r.0@.len() == ls.len() && (forall|j: int|
                    0 <= j < ls.len() ==> line_statement(#[trigger] r.0@[j], ts, ls[j])) && final(self).diagnostics@
                    == old(self).diagnostics@ && r.1 == (if ts[end].spec_span().spec_end() > r.0@.last().spec_span().spec_end() {
                    ts[end].spec_span().spec_end()
                } else {
                    r.0@.last().spec_span().spec_end()
                })
            }),
        decreases old(self).remaining(), 10int,
    {
        let ghost ts = self.tokens@;
        let ghost c0 = self.cursor as int;
        let ghost start = c0 + 2;
        let ghost ls = line_starts(ts, start);
        let ghost end = lines_end(ts, start);
        let ghost run = self.soft_newline_depth == 0 && self.angle_depth == 0 && c0 + 1 < ts.len()
            && ts[c0].spec_kind() is Newline && ts[c0 + 1].spec_kind() is Indent && ls.len() >= 1 && end < ts.len()
            && ts[end].spec_kind() is Dedent;
        if self.at(TokenKind::Newline) {
            self.bump();
        } else if !self.at(TokenKind::Eof) {
            self.push_error(
                MISSING_TABLE_BODY_CODE,
                "x05.parse.table_body_newline",
                header_span,
                "表头后必须换行并跟随缩进体".to_owned(),
            );
            return (Vec::new(), header_span.end());
        }
        let mut body_leading_docs: Vec<SourceSpan> = Vec::new();
        loop
            invariant
                self.steps_from(old(self)),
                ts == old(self).tokens@,
                run ==> self.cursor == c0 + 1 && body_leading_docs@.len() == 0 && self.diagnostics@
                    == old(self).diagnostics@ && self.soft_newline_depth == 0 && self.angle_depth == 0
                    && ts[c0 + 1].spec_kind() is Indent,
            decreases self.remaining(),
        {
            if self.at(TokenKind::Newline) {
                self.bump();
            } else if self.at(TokenKind::DocComment) {
                let token = self.bump();
                body_leading_docs.push(token.span());
            } else {
                break;
            }
        }
        if !self.at(TokenKind::Indent) {
            self.push_error(
                MISSING_TABLE_BODY_CODE,
                "x05.parse.missing_table_indent",
                header_span,
                "表声明必须包含缩进体".to_owned(),
            );
            return (Vec::new(), header_span.end());
        }
        self.bump();
        self.block_context_depth = self.block_context_depth.saturating_add(1);
        let mut body: Vec<Statement> = Vec::new();
        let mut pending_docs = body_leading_docs;
        let mut last_end = header_span.end();
        while !self.at(TokenKind::Dedent) && !self.at(TokenKind::Eof)
            invariant
                self.steps_from(old(self)),
                self.cursor > old(self).cursor,
                header_span.spec_end() <= last_end <= self.pos(),
                is_boundary(self.spec_bytes(), last_end as int),
                self.nodes_fit(statements_nodes(body@, body@.len() as int)),
                (exists|i: int| 0 <= i < body@.len() && !is_table_member(#[trigger] body@[i]))
                    ==> self.diagnostics@.len() > old(self).diagnostics@.len(),
                ts == old(self).tokens@,
                c0 == old(self).cursor,
                start == c0 + 2,
                ls == line_starts(ts, start),
                end == lines_end(ts, start),
                run == (old(self).soft_newline_depth == 0 && old(self).angle_depth == 0 && c0 + 1 < ts.len()
                    && ts[c0].spec_kind() is Newline && ts[c0 + 1].spec_kind() is Indent && ls.len() >= 1 && end
                    < ts.len() && ts[end].spec_kind() is Dedent),
                run ==> body@.len() <= ls.len() && self.diagnostics@ == old(self).diagnostics@ && pending_docs@.len()
                    == 0 && self.soft_newline_depth == 0 && self.angle_depth == 0 && line_starts(ts, self.cursor as int)
                    == ls.subrange(body@.len() as int, ls.len() as int) && lines_end(ts, self.cursor as int) == end,
                run ==> forall|j: int| 0 <= j < body@.len() ==> line_statement(#[trigger] body@[j], ts, ls[j]),
                run && body@.len() > 0 ==> last_end == body@[body@.len() - 1].spec_span().spec_end(),
            decreases self.remaining(),
        {
            proof {
                if run {
                    let i = self.cursor as int;
                    if line_length(ts, i) == 0 {
                        assert(self.cur_kind() is Dedent);
                    }
                    if line_length(ts, i) > 0 {
                        let n = body@.len() as int;
                        let rest = line_starts(ts, i + line_length(ts, i));
                        assert(line_starts(ts, i) == seq![i] + rest);
                        assert(line_starts(ts, i)[0] == i);
                        assert(ls.subrange(n, ls.len() as int).len() >= 1);
                        assert(ls.subrange(n, ls.len() as int)[0] == ls[n]);
                        assert(ls[n] == i);
                        assert forall|x: int| 0 <= x < rest.len() implies rest[x] == ls.subrange(n + 1, ls.len() as int)[x] by {
                            assert(rest[x] == line_starts(ts, i)[x + 1]);
                            assert(line_starts(ts, i)[x + 1] == ls.subrange(n, ls.len() as int)[x + 1]);
                        }
                        assert(rest =~= ls.subrange(n + 1, ls.len() as int));
                    }
                }
            }
            let kind = self.current().kind();
            match kind {
                TokenKind::Newline => {
                    let token = self.bump();
                    last_end = token.span().end();
                },
                TokenKind::DocComment => {
                    let token = self.bump();
                    pending_docs.push(token.span());
                },
                TokenKind::Indent => {
                    let token = self.bump();
                    self.push_error(
                        INVALID_TABLE_MEMBER_CODE,
                        "x05.parse.unexpected_table_indent",
                        token.span(),
                        "表成员不能出现额外缩进".to_owned(),
                    );
                },
                _ => {
                    let docs = pending_docs;
                    pending_docs = Vec::new();
                    let before = self.diagnostics.len();
                    let ghost pre = *self;
                    let ghost i0 = self.cursor as int;
                    let ghost ak = array_line_items(ts, i0);
                    let ghost array_case = run && !assignment_line(ts, i0) && !binary_line(ts, i0)
                        && !declaration_line(ts, i0) && line_length(ts, i0) > 0;
                    proof {
                        if array_case {
                            self.lemma_array_line(i0, ak);
                        }
                    }
                    match self.parse_statement(docs) {
                        Some(statement) => {
                            proof {
                                if array_case {
                                    let value = statement->Assignment_value;
                                    pre.lemma_array_value(i0 + 2, ak, value);
                                }
                            }
                            if !is_table_member_statement(&statement) {
                                self.push_error(
                                    INVALID_TABLE_MEMBER_CODE,
                                    "x05.parse.invalid_table_member",
                                    statement.span(),
                                    "表体只能包含字段赋值、字段声明或 def 方法".to_owned(),
                                );
                            }
                            last_end = statement.span().end();
                            proof {
                                lemma_statements_push(self.spec_bytes(), body@, statement);
                            }
                            body.push(statement);
                        },
                        None => {
                            if self.diagnostics.len() == before {
                                let span = self.current().span();
                                self.push_error(
                                    INVALID_TABLE_MEMBER_CODE,
                                    "x05.parse.invalid_table_member",
                                    span,
                                    "无法解析表成员".to_owned(),
                                );
                                self.synchronize_to_boundary();
                            }
                        },
                    }
                },
            }
        }
        proof {
            if run && body@.len() < ls.len() {
                let i = self.cursor as int;
                assert(ls.subrange(body@.len() as int, ls.len() as int).len() >= 1);
                assert(line_starts(ts, i).len() >= 1);
                assert(line_length(ts, i) > 0);
            }
        }
        if self.at(TokenKind::Dedent) {
            let token = self.bump();
            if token.span().end() > last_end {
                last_end = token.span().end();
            }
        }
        self.block_context_depth = self.block_context_depth.saturating_sub(1);
        if body.len() == 0 {
            self.push_error(
                MISSING_TABLE_BODY_CODE,
                "x05.parse.empty_table_body",
                header_span,
                "表体不能为空".to_owned(),
            );
        }
        (body, last_end)
    }

    /// Parses a standalone `[main]` entry header and its newline.
    fn parse_main_header(&mut self) -> (r: Option<SourceSpan>)
        requires
            old(self).wf(),
            old(self).cur_kind() == TokenKind::LeftBracket,
            old(self).cursor + 2 < old(self).tokens@.len(),
            old(self).tokens@[old(self).cursor + 1].spec_kind() == TokenKind::Identifier,
            old(self).tokens@[old(self).cursor + 2].spec_kind() == TokenKind::RightBracket,
        ensures
            final(self).steps_from(old(self)),
            final(self).cursor > old(self).cursor,
            r matches Some(span) ==> final(self).covers(old(self).pos(), span),
            r is None ==> final(self).diagnostics@.len() > old(self).diagnostics@.len(),
    {
        let open = self.bump();
        let _ = self.bump();
        let close = self.bump();
        let span = self.source_span(open.span().start(), close.span().end());
        if !self.at(TokenKind::Newline) && !self.at(TokenKind::Eof) {
            let current = self.current().span();
            self.push_error(
                INVALID_ENTRY_CODE,
                "x04.parse.main_tail",
                current,
                "[main] 表头后只能出现换行".to_owned(),
            );
            self.synchronize_to_boundary();
            return None;
        }
        self.consume_newline();
        Some(span)
    }

    /// Parses a `def` function definition and its body.
    fn parse_function_statement(&mut self, leading_docs: Vec<SourceSpan>) -> (r: Option<
        Statement,
    >)
        requires
            old(self).wf(),
            old(self).cur_kind() == TokenKind::Keyword(KeywordKind::Def),
        ensures
            final(self).steps_from(old(self)),
            final(self).cursor > old(self).cursor,
            r matches Some(st) ==> final(self).covers(old(self).pos(), st.spec_span()),
            r matches Some(st) ==> final(self).nodes_fit(statement_nodes(st)),
            r is None ==> final(self).failure_reported(old(self)),
            r matches Some(st) ==> st is Function,
            forall|k: int, m: int|
                old(self).soft_newline_depth == 0 && old(self).angle_depth == 0 && is_declaration_name_kind(
                    old(self).tokens@[old(self).cursor + 1].spec_kind(),
                ) && old(self).tokens@[old(self).cursor + 2].spec_kind() is LeftParen && #[trigger] old(self).entry_list_at(
                    old(self).cursor + 2,
                    k,
                    m,
                ) && line_block(old(self).tokens@, old(self).cursor + 2 * k + 3) ==> (r matches Some(
                    Statement::Function { name, parameters, return_type, body, .. },
                ) && name == name_of(old(self).tokens@[old(self).cursor + 1]) && return_type is None
                    && parameters@.len() == (if m < k {
                    k - 1
                } else {
                    k
                }) && (forall|q: int|
                    0 <= q < parameters@.len() ==> entry_parameter(
                        #[trigger] parameters@[q],
                        old(self).list_item(old(self).cursor + 2, entry_index(q, m)),
                        q >= m,
                    )) && block_statements(body@, old(self).tokens@, old(self).cursor + 2 * k + 3))
                    && final(self).diagnostics@ == old(self).diagnostics@,
        decreases old(self).remaining(), 39int,
    {
        let ghost c0 = old(self).cursor as int;
        let ghost v0 = c0 + 2;
        let ghost (fk, fm) = choose|k: int, m: int| old(self).entry_list_at(v0, k, m);
        let ghost shaped = old(self).soft_newline_depth == 0 && old(self).angle_depth == 0 && is_declaration_name_kind(
            old(self).tokens@[c0 + 1].spec_kind(),
        ) && old(self).tokens@[c0 + 2].spec_kind() is LeftParen && old(self).entry_list_at(v0, fk, fm) && line_block(
            old(self).tokens@,
            c0 + 2 * fk + 3,
        );
        proof {
            assert forall|k: int, m: int| #[trigger] old(self).entry_list_at(v0, k, m) implies k == fk && m == fm by {
                assert(old(self).entry_list_at(v0, fk, fm));
                if k < fk {
                    assert(old(self).list_separator(v0, k - 1).spec_kind() is Comma);
                } else if fk < k {
                    assert(old(self).list_separator(v0, fk - 1).spec_kind() is Comma);
                }
                if m < fm {
                    assert(is_declaration_name_kind(old(self).list_item(v0, m).spec_kind()));
                } else if fm < m {
                    assert(is_declaration_name_kind(old(self).list_item(v0, fm).spec_kind()));
                }
            }
        }
        let keyword = self.bump();
        if !is_declaration_name_token(self.current().kind()) {
            let span = self.current().span();
            self.push_error(
                INVALID_FUNCTION_CODE,
                "x04.parse.missing_function_name",
                span,
                "def 后必须是函数名称".to_owned(),
            );
            self.synchronize_to_boundary();
            return None;
        }
        let name = self.parse_name();
        if !self.at(TokenKind::LeftParen) {
            let span = self.current().span();
            self.push_error(
                INVALID_FUNCTION_CODE,
                "x04.parse.function_parentheses",
                span,
                "函数名称后必须是参数列表".to_owned(),
            );
            self.synchronize_to_boundary();
            return None;
        }
        let ghost pre = *self;
        proof {
            if shaped {
                old(self).lemma_entry_list_tokens(self, v0, fk, fm);
            }
        }
        let parameters = self.parse_function_parameters();
        proof {
            if shaped {
                assert(self.cursor == v0 + 2 * fk);
                assert forall|q: int| 0 <= q < parameters@.len() implies entry_parameter(
                    #[trigger] parameters@[q],
                    old(self).list_item(v0, entry_index(q, fm)),
                    q >= fm,
                ) by {
                    assert(pre.list_item(v0, entry_index(q, fm)) == old(self).list_item(v0, entry_index(q, fm)));
                }
            }
        }
        let close = self.expect_delimiter(TokenKind::RightParen, name.span);
        let mut return_type: Option<FunctionTypeAnnotation> = None;
        if self.at(TokenKind::Minus) && matches!(self.lookahead_kind(1), Some(TokenKind::Greater)) {
            self.bump();
            self.bump();
            return_type = self.parse_function_type_annotation();
            if return_type.is_none() {
                let span = self.current().span();
                self.push_error(
                    INVALID_FUNCTION_TYPE_CODE,
                    "x04.parse.invalid_return_type",
                    span,
                    "函数返回类型必须是标量或 none".to_owned(),
                );
            }
        }
        if !is_statement_boundary(self.current().kind()) {
            let span = self.current().span();
            self.push_error(
                INVALID_FUNCTION_CODE,
                "x04.parse.function_header_tail",
                span,
                "函数头后存在未预期内容".to_owned(),
            );
            self.synchronize_to_boundary();
            return None;
        }
        let header_end = if return_type.is_some() {
            proof {
                self.lemma_starts(old(self).cursor as int, self.cursor - 1);
                self.lemma_token(self.cursor - 1);
            }
            self.previous_span_end()
        } else {
            match close {
                Some(token) => token.span().end(),
                None => name.span.end(),
            }
        };
        let header = self.source_span(keyword.span().start(), header_end);
        let (body, body_end) = self.parse_indented_block(header);
        let end = if body_end > header_end {
            body_end
        } else {
            header_end
        };
        let span = self.source_span(keyword.span().start(), end);
        proof {
            lemma_fit_node2(
                self.spec_bytes(),
                span,
                parameters_nodes(parameters@, parameters@.len() as int),
                statements_nodes(body@, body@.len() as int),
            );
        }
        Some(Statement::Function { name, parameters, return_type, body, leading_docs, span })
    }

    /// The `j`-th entry of a comma-separated list whose `(` is at `c`.
    spec fn list_item(&self, c: int, j: int) -> Token {
        self.tokens@[c + 1 + 2 * j]
    }

    /// The separator after the `j`-th entry of a list whose `(` is at `c`.
    spec fn list_separator(&self, c: int, j: int) -> Token {
        self.tokens@[c + 2 + 2 * j]
    }

    /// The `(` at `c` opens `k` entries separated by commas and closed by
    /// `)`: the entry at `m` is a bare `*` when `m < k`, every other entry a
    /// plain name, no two of them spelled alike.
    spec fn entry_list_at(&self, c: int, k: int, m: int) -> bool {
        &&& k >= 1
        &&& 0 <= m <= k
        &&& 0 <= c
        &&& c + 2 * k < self.tokens@.len()
        &&& m < k ==> self.list_item(c, m).spec_kind() is Star
        &&& forall|j: int|
            0 <= j < k && j != m ==> is_declaration_name_kind((#[trigger] self.list_item(c, j)).spec_kind())
        &&& forall|j: int| 0 <= j < k - 1 ==> (#[trigger] self.list_separator(c, j)).spec_kind() is Comma
        &&& self.tokens@[c + 2 * k].spec_kind() is RightParen
        &&& forall|i: int, j: int|
            0 <= i < j < k && i != m && j != m ==> !self.spec_same_name(
                #[trigger] name_of(self.list_item(c, i)),
                #[trigger] name_of(self.list_item(c, j)),
            )
    }

    /// The `[` at `c` opens `k` lone integers or names separated by commas
    /// and closed by `]`.
    spec fn segment_list_at(&self, c: int, k: int) -> bool {
        &&& k >= 1
        &&& 0 <= c
        &&& c + 2 * k < self.tokens@.len()
        &&& forall|j: int| 0 <= j < k ==> is_simple_segment_kind((#[trigger] self.list_item(c, j)).spec_kind())
        &&& forall|j: int| 0 <= j < k - 1 ==> (#[trigger] self.list_separator(c, j)).spec_kind() is Comma
        &&& self.tokens@[c + 2 * k].spec_kind() is RightBracket
    }

    /// The opening bracket at `c` holds `k` lone literals or names separated
    /// by commas and closed by `close`.
    spec fn operand_list_at(&self, c: int, k: int, close: TokenKind) -> bool {
        &&& k >= 1
        &&& 0 <= c
        &&& c + 2 * k < self.tokens@.len()
        &&& forall|j: int| 0 <= j < k ==> is_simple_operand_kind((#[trigger] self.list_item(c, j)).spec_kind())
        &&& forall|j: int| 0 <= j < k - 1 ==> (#[trigger] self.list_separator(c, j)).spec_kind() is Comma
        &&& self.tokens@[c + 2 * k].spec_kind() == close
    }

    /// What the layer a postfix suffix opening at `c` builds holds when the
    /// suffix is a list of lone items: the arguments of a call, the items of
    /// a selector.
    spec fn list_layer(&self, c: int, layer: Expression) -> bool {
        &&& self.tokens@[c].spec_kind() is LeftParen ==> forall|k: int|
            #[trigger] self.operand_list_at(c, k, TokenKind::RightParen) ==> (layer matches Expression::Call {
                arguments,
                ..
            } && arguments@.len() == k && forall|j: int|
                0 <= j < k ==> positional_operand(#[trigger] arguments@[j], self.list_item(c, j)))
        &&& self.tokens@[c].spec_kind() is LeftBracket ==> forall|k: int|
            #[trigger] self.segment_list_at(c, k) ==> (layer matches Expression::Selector { selector, .. }
                && selector.items@.len() == k && forall|j: int|
                0 <= j < k ==> exact_item_of(#[trigger] selector.items@[j], simple_segment(self.list_item(c, j))))
    }

    /// An array line read through the parser: its value is an array
    /// expression, and one item count fits it.
    proof fn lemma_array_line(&self, i: int, k: int)
        requires
            array_line(self.tokens@, i, k),
        ensures
            self.array_expression_at(i + 2, k),
            forall|k2: int| #[trigger] array_line(self.tokens@, i, k2) ==> k2 == k,
    {
        let ts = self.tokens@;
        assert forall|j: int| 0 <= j < k implies is_simple_operand_kind(
            (#[trigger] self.list_item(i + 2, j)).spec_kind(),
        ) by {
            assert(self.list_item(i + 2, j) == bracket_item(ts, i + 2, j));
        }
        assert forall|j: int| 0 <= j < k - 1 implies (#[trigger] self.list_separator(i + 2, j)).spec_kind() is Comma by {
            assert(self.list_separator(i + 2, j) == bracket_separator(ts, i + 2, j));
        }
        assert forall|k2: int| #[trigger] array_line(ts, i, k2) implies k2 == k by {
            if k2 < k {
                assert(bracket_separator(ts, i + 2, k2 - 1).spec_kind() is Comma);
            } else if k < k2 {
                assert(bracket_separator(ts, i + 2, k - 1).spec_kind() is Comma);
            }
        }
    }

    /// The array a parser builds for the list at `c` is the array value of
    /// its tokens.
    proof fn lemma_array_value(&self, c: int, k: int, e: Expression)
        requires
            self.array_of_list(c, k, e),
        ensures
            array_value(e, self.tokens@, c, k),
    {
        assert forall|j: int| 0 <= j < k implies self.list_item(c, j) == bracket_item(self.tokens@, c, j) by {}
    }

    /// A bracketed list of lone items has one length.
    proof fn lemma_operand_list_unique(&self, c: int, k1: int, k2: int, close: TokenKind)
        requires
            self.operand_list_at(c, k1, close),
            self.operand_list_at(c, k2, close),
            close != TokenKind::Comma,
        ensures
            k1 == k2,
    {
        if k1 < k2 {
            assert(self.list_separator(c, k1 - 1).spec_kind() is Comma);
        } else if k2 < k1 {
            assert(self.list_separator(c, k2 - 1).spec_kind() is Comma);
        }
    }

    /// `operand_list_at` reads only the tokens.
    proof fn lemma_operand_list_tokens(&self, other: &Self, c: int, k: int, close: TokenKind)
        requires
            self.tokens@ == other.tokens@,
            self.operand_list_at(c, k, close),
        ensures
            other.operand_list_at(c, k, close),
    {
        assert forall|j: int| 0 <= j < k implies is_simple_operand_kind(
            (#[trigger] other.list_item(c, j)).spec_kind(),
        ) by {
            assert(self.list_item(c, j) == other.list_item(c, j));
        }
        assert forall|j: int| 0 <= j < k - 1 implies (#[trigger] other.list_separator(c, j)).spec_kind() is Comma by {
            assert(self.list_separator(c, j) == other.list_separator(c, j));
        }
    }

    /// At `c` stands `[`, `k` lone literals or names separated by commas and
    /// `]`, and the token after it ends the expression.
    spec fn array_expression_at(&self, c: int, k: int) -> bool {
        &&& self.tokens@[c].spec_kind() is LeftBracket
        &&& self.operand_list_at(c, k, TokenKind::RightBracket)
        &&& self.ends_operand_at(c + 2 * k + 1)
    }

    /// `e` is the array literal of the `k` lone items in the brackets at `c`.
    spec fn array_of_list(&self, c: int, k: int, e: Expression) -> bool {
        &&& e matches Expression::ArrayLiteral { elements, .. }
        &&& elements@.len() == k
        &&& forall|j: int| 0 <= j < k ==> #[trigger] elements@[j] == simple_operand(self.list_item(c, j))
    }

    /// `array_expression_at` reads only the tokens.
    proof fn lemma_array_expression_tokens(&self, other: &Self, c: int, k: int)
        requires
            self.tokens@ == other.tokens@,
            self.array_expression_at(c, k),
        ensures
            other.array_expression_at(c, k),
    {
        self.lemma_operand_list_tokens(other, c, k, TokenKind::RightBracket);
    }

    /// `array_of_list` reads only the tokens.
    proof fn lemma_array_of_list_tokens(&self, other: &Self, c: int, k: int, e: Expression)
        requires
            self.tokens@ == other.tokens@,
            self.array_of_list(c, k, e),
        ensures
            other.array_of_list(c, k, e),
    {
        assert forall|j: int| 0 <= j < k implies self.list_item(c, j) == other.list_item(c, j) by {}
    }

    /// The `j`-th segment of a path starting at `c`.
    spec fn path_item(&self, c: int, j: int) -> Token {
        self.tokens@[c + 2 * j]
    }

    /// At `c` stands a path of `k` lone integers or names joined by `/`,
    /// and the token after it is no `/`.
    spec fn segment_path_at(&self, c: int, k: int) -> bool {
        &&& k >= 1
        &&& 0 <= c
        &&& c + 2 * k - 1 < self.tokens@.len()
        &&& forall|j: int| 0 <= j < k ==> is_simple_segment_kind((#[trigger] self.path_item(c, j)).spec_kind())
        &&& forall|j: int| 0 <= j < k - 1 ==> (#[trigger] self.tokens@[c + 2 * j + 1]).spec_kind() is Slash
        &&& !(self.tokens@[c + 2 * k - 1].spec_kind() is Slash)
    }

    /// `segs` are the segments of the path of `k` items at `c`.
    spec fn path_segments_of(&self, c: int, k: int, segs: Seq<PathSegment>) -> bool {
        &&& segs.len() == k
        &&& forall|j: int| 0 <= j < k ==> #[trigger] segs[j] == simple_segment(self.path_item(c, j))
    }

    /// `segment_path_at` and `path_segments_of` read only the tokens.
    proof fn lemma_path_tokens(&self, other: &Self, c: int, k: int, segs: Seq<PathSegment>)
        requires
            self.tokens@ == other.tokens@,
        ensures
            self.segment_path_at(c, k) ==> other.segment_path_at(c, k),
            self.path_segments_of(c, k, segs) ==> other.path_segments_of(c, k, segs),
    {
        assert forall|j: int| 0 <= j < k implies self.path_item(c, j) == other.path_item(c, j) by {}
        if self.segment_path_at(c, k) {
            assert forall|j: int| 0 <= j < k implies is_simple_segment_kind(
                (#[trigger] other.path_item(c, j)).spec_kind(),
            ) by {
                assert(self.path_item(c, j) == other.path_item(c, j));
            }
        }
    }

    /// `entry_list_at` reads only the tokens and the source.
    proof fn lemma_entry_list_tokens(&self, other: &Self, c: int, k: int, m: int)
        requires
            self.tokens@ == other.tokens@,
            self.source == other.source,
            self.entry_list_at(c, k, m),
        ensures
            other.entry_list_at(c, k, m),
    {
        assert forall|j: int| 0 <= j < k && j != m implies is_declaration_name_kind(
            (#[trigger] other.list_item(c, j)).spec_kind(),
        ) by {
            assert(self.list_item(c, j) == other.list_item(c, j));
        }
        assert forall|j: int| 0 <= j < k - 1 implies (#[trigger] other.list_separator(c, j)).spec_kind() is Comma by {
            assert(self.list_separator(c, j) == other.list_separator(c, j));
        }
        if m < k {
            assert(self.list_item(c, m) == other.list_item(c, m));
        }
        assert forall|i: int, j: int|
            0 <= i < j < k && i != m && j != m implies !other.spec_same_name(
                #[trigger] name_of(other.list_item(c, i)),
                #[trigger] name_of(other.list_item(c, j)),
            ) by {
            assert(self.list_item(c, i) == other.list_item(c, i));
            assert(self.list_item(c, j) == other.list_item(c, j));
            assert(!self.spec_same_name(name_of(self.list_item(c, i)), name_of(self.list_item(c, j))));
        }
    }

    /// `list_layer` reads only the tokens.
    proof fn lemma_list_layer_tokens(&self, other: &Self, c: int, layer: Expression)
        requires
            self.tokens@ == other.tokens@,
            self.list_layer(c, layer),
        ensures
            other.list_layer(c, layer),
    {
        assert forall|k: int| #[trigger] other.operand_list_at(c, k, TokenKind::RightParen) implies self.operand_list_at(
            c,
            k,
            TokenKind::RightParen,
        ) by {
            assert forall|j: int| 0 <= j < k implies is_simple_operand_kind(
                (#[trigger] self.list_item(c, j)).spec_kind(),
            ) by {
                assert(self.list_item(c, j) == other.list_item(c, j));
            }
            assert forall|j: int| 0 <= j < k - 1 implies (#[trigger] self.list_separator(c, j)).spec_kind() is Comma by {
                assert(self.list_separator(c, j) == other.list_separator(c, j));
            }
        }
        assert forall|k: int| #[trigger] other.segment_list_at(c, k) implies self.segment_list_at(c, k) by {
            assert forall|j: int| 0 <= j < k implies is_simple_segment_kind(
                (#[trigger] self.list_item(c, j)).spec_kind(),
            ) by {
                assert(self.list_item(c, j) == other.list_item(c, j));
            }
            assert forall|j: int| 0 <= j < k - 1 implies (#[trigger] self.list_separator(c, j)).spec_kind() is Comma by {
                assert(self.list_separator(c, j) == other.list_separator(c, j));
            }
        }
    }

    /// Where a parse of the entry list at `c` stands after its first `i`
    /// entries, `i` being the parameters made so far plus the `*` when it
    /// was passed: each name became a parameter and was recorded once.
    spec fn entry_invariant(
        &self,
        old: &Self,
        c: int,
        k: int,
        m: int,
        ps: Seq<FunctionParameter>,
        seen: Seq<Name>,
        keyword_only: bool,
        seen_default: bool,
        seen_varargs: bool,
        seen_varkw: bool,
    ) -> bool {
        let i = ps.len() + if keyword_only {
            1int
        } else {
            0int
        };
        &&& keyword_only == (m < i) && !seen_default && !seen_varargs && !seen_varkw
        &&& i <= k
        &&& self.cursor == if i < k {
            c + 1 + 2 * i
        } else {
            c + 2 * k
        }
        &&& i < k ==> self.cur() == old.list_item(c, i)
        &&& seen.len() == ps.len()
        &&& forall|q: int|
            0 <= q < ps.len() ==> entry_parameter(#[trigger] ps[q], old.list_item(c, entry_index(q, m)), q >= m)
        &&& forall|q: int| 0 <= q < seen.len() ==> #[trigger] seen[q] == name_of(old.list_item(c, entry_index(q, m)))
        &&& self.diagnostics@ == old.diagnostics@
    }

    /// Parses a function parameter list; the current token is its `(`.
    #[verifier::rlimit(60)]
    fn parse_function_parameters(&mut self) -> (r: Vec<FunctionParameter>)
        requires
            old(self).wf(),
            old(self).cur_kind() == TokenKind::LeftParen,
        ensures
            final(self).steps_from(old(self)),
            final(self).cursor > old(self).cursor,
            final(self).nodes_fit(parameters_nodes(r@, r@.len() as int)),
            forall|i: int|
                0 <= i < r@.len() ==> exists|k: int|
                    old(self).cursor < k < final(self).cursor && (#[trigger] old(self).tokens@[k]).spec_span()
                        == (#[trigger] r@[i]).name.span && is_declaration_name_kind(old(self).tokens@[k].spec_kind()),
            old(self).cursor + 1 < old(self).tokens@.len() && old(self).tokens@[old(self).cursor + 1].spec_kind()
                is RightParen ==> r@.len() == 0 && final(self).diagnostics@ == old(self).diagnostics@,
            ({
                let ts = old(self).tokens@;
                let c = old(self).cursor as int;
                c + 2 < ts.len() && is_declaration_name_kind(ts[c + 1].spec_kind()) && ts[c + 2].spec_kind() is RightParen
                    ==> r@.len() == 1 && r@[0].name.span == ts[c + 1].spec_span() && r@[0].kind
                    == FunctionParameterKind::PositionalOrKeyword && r@[0].default is None && r@[0].annotation is None
                    && final(self).diagnostics@ == old(self).diagnostics@
            }),
            ({
                let ts = old(self).tokens@;
                let c = old(self).cursor as int;
                let typed = scalar_of_kind(ts[c + 1].spec_kind()) is Some;
                let n = if typed {
                    c + 2
                } else {
                    c + 1
                };
                c + 1 < ts.len() && n + 1 < ts.len() && is_declaration_name_kind(ts[n].spec_kind()) && (
                ts[n + 1].spec_kind() is RightParen || (n + 3 < ts.len() && ts[n + 1].spec_kind() is Equal
                    && is_simple_operand_kind(ts[n + 2].spec_kind()) && ts[n + 3].spec_kind() is RightParen))
                    ==> r@.len() == 1 && r@[0].name == name_of(ts[n])
                    && r@[0].kind == FunctionParameterKind::PositionalOrKeyword && r@[0].annotation == (if typed {
                    Some(FunctionTypeAnnotation::Scalar(scalar_of_kind(ts[c + 1].spec_kind())->Some_0))
                } else {
                    None
                }) && r@[0].default == (if ts[n + 1].spec_kind() is Equal {
                    Some(simple_operand(ts[n + 2]))
                } else {
                    None
                }) && final(self).diagnostics@ == old(self).diagnostics@
            }),
            forall|k: int, m: int|
                #[trigger] old(self).entry_list_at(old(self).cursor as int, k, m) ==> final(self).cursor
                    == old(self).cursor + 2 * k && final(self).angle_depth == old(self).angle_depth && (
                old(self).soft_newline_depth < usize::MAX ==> final(self).soft_newline_depth
                    == old(self).soft_newline_depth),
            old(self).cursor + 1 < old(self).tokens@.len() && old(self).tokens@[old(self).cursor + 1].spec_kind()
                is RightParen ==> final(self).cursor == old(self).cursor + 1 && final(self).angle_depth
                == old(self).angle_depth && (old(self).soft_newline_depth < usize::MAX
                ==> final(self).soft_newline_depth == old(self).soft_newline_depth),
            forall|k: int, m: int|
                #[trigger] old(self).entry_list_at(old(self).cursor as int, k, m) ==> r@.len() == (if m < k {
                    k - 1
                } else {
                    k
                }) && final(self).diagnostics@ == old(self).diagnostics@ && forall|q: int|
                    0 <= q < r@.len() ==> entry_parameter(
                        #[trigger] r@[q],
                        old(self).list_item(old(self).cursor as int, entry_index(q, m)),
                        q >= m,
                    ),
        decreases old(self).remaining(), 10int,
    {
        let ghost ts = self.tokens@;
        let ghost c0 = self.cursor as int;
        let ghost single = c0 + 2 < ts.len() && is_declaration_name_kind(ts[c0 + 1].spec_kind())
            && ts[c0 + 2].spec_kind() is RightParen;
        let ghost empty = c0 + 1 < ts.len() && ts[c0 + 1].spec_kind() is RightParen;
        let ghost typed = scalar_of_kind(ts[c0 + 1].spec_kind()) is Some;
        let ghost n = if typed {
            c0 + 2
        } else {
            c0 + 1
        };
        let ghost with_default = n + 3 < ts.len() && ts[n + 1].spec_kind() is Equal && is_simple_operand_kind(
            ts[n + 2].spec_kind(),
        ) && ts[n + 3].spec_kind() is RightParen;
        let ghost close = if with_default {
            n + 3
        } else {
            n + 1
        };
        let ghost one = c0 + 1 < ts.len() && n + 1 < ts.len() && is_declaration_name_kind(ts[n].spec_kind()) && (
        ts[n + 1].spec_kind() is RightParen || with_default);
        let ghost expected = FunctionParameter {
            name: name_of(ts[n]),
            kind: FunctionParameterKind::PositionalOrKeyword,
            annotation: if typed {
                Some(FunctionTypeAnnotation::Scalar(scalar_of_kind(ts[c0 + 1].spec_kind())->Some_0))
            } else {
                None
            },
            default: if with_default {
                Some(simple_operand(ts[n + 2]))
            } else {
                None
            },
            span: arbitrary(),
        };
        let ghost (kk, mm) = choose|k: int, m: int| old(self).entry_list_at(c0, k, m);
        let ghost listed = old(self).entry_list_at(c0, kk, mm);
        proof {
            if listed {
                assert forall|k: int, m: int| #[trigger] old(self).entry_list_at(c0, k, m) implies k == kk && m == mm by {
                    if k < kk {
                        assert(old(self).list_separator(c0, k - 1).spec_kind() is Comma);
                    } else if kk < k {
                        assert(old(self).list_separator(c0, kk - 1).spec_kind() is Comma);
                    }
                    if m < mm {
                        assert(is_declaration_name_kind(old(self).list_item(c0, m).spec_kind()));
                    } else if mm < m {
                        assert(is_declaration_name_kind(old(self).list_item(c0, mm).spec_kind()));
                    }
                }
                assert(old(self).list_item(c0, 0) == ts[c0 + 1]);
            }
        }
        self.bump();
        self.soft_newline_depth = self.soft_newline_depth.saturating_add(1);
        let ghost soft1 = self.soft_newline_depth;
        self.skip_soft_newlines();
        let mut parameters: Vec<FunctionParameter> = Vec::new();
        let mut keyword_only = false;
        let mut seen_positional_marker = false;
        let mut seen_default = false;
        let mut seen_varargs = false;
        let mut seen_varkw = false;
        let mut seen_names: Vec<Name> = Vec::new();
        while !self.at(TokenKind::RightParen) && !self.at(TokenKind::Eof)
            invariant
                self.steps_from(old(self)),
                self.cursor > old(self).cursor,
                forall|i: int|
                    0 <= i < seen_names@.len() ==> span_fits(
                        self.spec_bytes(),
                        (#[trigger] seen_names@[i]).span,
                    ),
                self.nodes_fit(parameters_nodes(parameters@, parameters@.len() as int)),
                ts == old(self).tokens@,
                c0 == old(self).cursor,
                forall|i: int|
                    0 <= i < parameters@.len() ==> exists|k: int|
                        c0 < k < self.cursor && (#[trigger] ts[k]).spec_span() == (#[trigger] parameters@[i]).name.span
                            && is_declaration_name_kind(ts[k].spec_kind()),
                empty == (c0 + 1 < ts.len() && ts[c0 + 1].spec_kind() is RightParen),
                single == (c0 + 2 < ts.len() && is_declaration_name_kind(ts[c0 + 1].spec_kind())
                    && ts[c0 + 2].spec_kind() is RightParen),
                empty ==> self.cursor == c0 + 1 && parameters@.len() == 0 && self.diagnostics@ == old(self).diagnostics@,
                one == (c0 + 1 < ts.len() && n + 1 < ts.len() && is_declaration_name_kind(ts[n].spec_kind()) && (
                ts[n + 1].spec_kind() is RightParen || with_default)),
                typed == (scalar_of_kind(ts[c0 + 1].spec_kind()) is Some),
                n == (if typed {
                    c0 + 2
                } else {
                    c0 + 1
                }),
                with_default == (n + 3 < ts.len() && ts[n + 1].spec_kind() is Equal && is_simple_operand_kind(
                    ts[n + 2].spec_kind(),
                ) && ts[n + 3].spec_kind() is RightParen),
                close == (if with_default {
                    n + 3
                } else {
                    n + 1
                }),
                one ==> !keyword_only && (!seen_default || with_default),
                expected.name == name_of(ts[n]),
                expected.kind == FunctionParameterKind::PositionalOrKeyword,
                expected.annotation == (if typed {
                    Some(FunctionTypeAnnotation::Scalar(scalar_of_kind(ts[c0 + 1].spec_kind())->Some_0))
                } else {
                    None
                }),
                expected.default == (if with_default {
                    Some(simple_operand(ts[n + 2]))
                } else {
                    None
                }),
                one ==> !seen_varargs && !seen_varkw && seen_names@.len() == parameters@.len() && self.diagnostics@
                    == old(self).diagnostics@ && ((self.cursor == c0 + 1 && parameters@.len() == 0) || (self.cursor
                    == close && parameters@.len() == 1 && parameters@[0].name == expected.name && parameters@[0].kind
                    == expected.kind && parameters@[0].annotation == expected.annotation && parameters@[0].default
                    == expected.default)),
                listed == old(self).entry_list_at(c0, kk, mm),
                soft1 == (if old(self).soft_newline_depth < usize::MAX {
                    old(self).soft_newline_depth + 1
                } else {
                    old(self).soft_newline_depth as int
                }),
                (listed || empty) ==> self.angle_depth == old(self).angle_depth && self.soft_newline_depth == soft1,
                listed ==> self.entry_invariant(old(self), c0, kk, mm, parameters@, seen_names@, keyword_only,
                    seen_default, seen_varargs, seen_varkw),
                single ==> !keyword_only && !seen_default && !seen_varkw && seen_names@.len() == parameters@.len()
                    && self.diagnostics@ == old(self).diagnostics@ && ((self.cursor == c0 + 1 && parameters@.len() == 0)
                    || (self.cursor == c0 + 2 && parameters@.len() == 1 && parameters@[0].name.span == ts[c0 + 1].spec_span()
                    && parameters@[0].kind == FunctionParameterKind::PositionalOrKeyword && parameters@[0].default is None
                    && parameters@[0].annotation is None)),
            ensures
                self.steps_from(old(self)),
                self.cursor > old(self).cursor,
                forall|i: int|
                    0 <= i < seen_names@.len() ==> span_fits(
                        self.spec_bytes(),
                        (#[trigger] seen_names@[i]).span,
                    ),
                self.nodes_fit(parameters_nodes(parameters@, parameters@.len() as int)),
                ts == old(self).tokens@,
                c0 == old(self).cursor,
                forall|i: int|
                    0 <= i < parameters@.len() ==> exists|k: int|
                        c0 < k < self.cursor && (#[trigger] ts[k]).spec_span() == (#[trigger] parameters@[i]).name.span
                            && is_declaration_name_kind(ts[k].spec_kind()),
                empty == (c0 + 1 < ts.len() && ts[c0 + 1].spec_kind() is RightParen),
                single == (c0 + 2 < ts.len() && is_declaration_name_kind(ts[c0 + 1].spec_kind())
                    && ts[c0 + 2].spec_kind() is RightParen),
                empty ==> self.cursor == c0 + 1 && parameters@.len() == 0 && self.diagnostics@ == old(self).diagnostics@,
                one == (c0 + 1 < ts.len() && n + 1 < ts.len() && is_declaration_name_kind(ts[n].spec_kind()) && (
                ts[n + 1].spec_kind() is RightParen || with_default)),
                typed == (scalar_of_kind(ts[c0 + 1].spec_kind()) is Some),
                n == (if typed {
                    c0 + 2
                } else {
                    c0 + 1
                }),
                with_default == (n + 3 < ts.len() && ts[n + 1].spec_kind() is Equal && is_simple_operand_kind(
                    ts[n + 2].spec_kind(),
                ) && ts[n + 3].spec_kind() is RightParen),
                close == (if with_default {
                    n + 3
                } else {
                    n + 1
                }),
                one ==> !keyword_only && (!seen_default || with_default),
                expected.name == name_of(ts[n]),
                expected.kind == FunctionParameterKind::PositionalOrKeyword,
                expected.annotation == (if typed {
                    Some(FunctionTypeAnnotation::Scalar(scalar_of_kind(ts[c0 + 1].spec_kind())->Some_0))
                } else {
                    None
                }),
                expected.default == (if with_default {
                    Some(simple_operand(ts[n + 2]))
                } else {
                    None
                }),
                one ==> !seen_varargs && !seen_varkw && seen_names@.len() == parameters@.len() && self.diagnostics@
                    == old(self).diagnostics@ && ((self.cursor == c0 + 1 && parameters@.len() == 0) || (self.cursor
                    == close && parameters@.len() == 1 && parameters@[0].name == expected.name && parameters@[0].kind
                    == expected.kind && parameters@[0].annotation == expected.annotation && parameters@[0].default
                    == expected.default)),
                listed == old(self).entry_list_at(c0, kk, mm),
                soft1 == (if old(self).soft_newline_depth < usize::MAX {
                    old(self).soft_newline_depth + 1
                } else {
                    old(self).soft_newline_depth as int
                }),
                (listed || empty) ==> self.angle_depth == old(self).angle_depth && self.soft_newline_depth == soft1,
                listed ==> self.entry_invariant(old(self), c0, kk, mm, parameters@, seen_names@, keyword_only,
                    seen_default, seen_varargs, seen_varkw),
                single ==> !keyword_only && !seen_default && !seen_varkw && seen_names@.len() == parameters@.len()
                    && self.diagnostics@ == old(self).diagnostics@ && ((self.cursor == c0 + 1 && parameters@.len() == 0)
                    || (self.cursor == c0 + 2 && parameters@.len() == 1 && parameters@[0].name.span == ts[c0 + 1].spec_span()
                    && parameters@[0].kind == FunctionParameterKind::PositionalOrKeyword && parameters@[0].default is None
                    && parameters@[0].annotation is None)),
                single ==> self.cursor == c0 + 2 && parameters@.len() == 1,
                one ==> self.cursor == close && parameters@.len() == 1,
                listed ==> parameters@.len() == (if mm < kk {
                    kk - 1
                } else {
                    kk
                }),
                listed ==> self.cursor == c0 + 2 * kk,
            decreases self.remaining(),
        {
            self.skip_soft_newlines();
            if self.at(TokenKind::Comma) {
                self.bump();
                continue;
            }
            if self.at(TokenKind::Slash) {
                let separated = matches!(self.previous_non_newline_kind(), Some(TokenKind::Comma));
                let marker = self.bump();
                if !separated {
                    self.parameter_error(marker.span(), "位置参数 `/` 标记前必须有逗号");
                } else if seen_positional_marker || keyword_only || parameters.len() == 0 {
                    self.parameter_error(marker.span(), "位置参数 `/` 标记位置无效");
                } else {
                    seen_positional_marker = true;
                    let ghost before = parameters@;
                    parameters = mark_positional_only(parameters);
                    proof {
                        lemma_parameters_same(before, parameters@, before.len() as int);
                    }
                }
                self.consume_parameter_comma();
                continue;
            }
            if self.at(TokenKind::Star) || self.at(TokenKind::Power) {
                let star = self.bump();
                if star.kind() == TokenKind::Power || self.at(TokenKind::Star) {
                    if star.kind() != TokenKind::Power {
                        self.bump();
                    }
                    if seen_varkw {
                        self.parameter_error(star.span(), "函数只能声明一个 **kwargs 参数");
                        self.recover_parameter_list();
                        break;
                    }
                    let annotation = self.parse_optional_parameter_annotation();
                    let name = match self.parse_parameter_name() {
                        Some(name) => name,
                        None => {
                            self.recover_parameter_list();
                            break;
                        },
                    };
                    let span = self.source_span(star.span().start(), name.span.end());
                    self.record_parameter_name(&mut seen_names, name);
                    let parameter = FunctionParameter {
                        name,
                        kind: FunctionParameterKind::VarKeywords,
                        annotation,
                        default: None,
                        span,
                    };
                    proof {
                        lemma_fit_node1(self.spec_bytes(), span, Seq::<SourceSpan>::empty());
                        assert(parameter_nodes(parameter) =~= seq![span] + Seq::<SourceSpan>::empty());
                        lemma_parameters_push(self.spec_bytes(), parameters@, parameter);
                    }
                    parameters.push(parameter);
                    seen_varkw = true;
                    self.consume_parameter_comma();
                    continue;
                }
                if seen_varargs || seen_varkw {
                    self.parameter_error(star.span(), "可变参数必须位于参数列表末端区域");
                    self.recover_parameter_list();
                    break;
                }
                if self.at(TokenKind::Comma) || self.at(TokenKind::RightParen) {
                    keyword_only = true;
                    proof {
                        if listed {
                            assert(self.cur() == old(self).list_separator(c0, mm));
                            if mm < kk - 1 {
                                assert(old(self).list_separator(c0, mm).spec_kind() is Comma);
                                assert(ts[self.cursor + 1] == old(self).list_item(c0, mm + 1));
                                assert(is_declaration_name_kind(old(self).list_item(c0, mm + 1).spec_kind()));
                            }
                        }
                    }
                    self.consume_parameter_comma();
                    continue;
                }
                let annotation = self.parse_optional_parameter_annotation();
                let name = match self.parse_parameter_name() {
                    Some(name) => name,
                    None => {
                        self.recover_parameter_list();
                        break;
                    },
                };
                let span = self.source_span(star.span().start(), name.span.end());
                self.record_parameter_name(&mut seen_names, name);
                let parameter = FunctionParameter {
                    name,
                    kind: FunctionParameterKind::VarArgs,
                    annotation,
                    default: None,
                    span,
                };
                proof {
                    lemma_fit_node1(self.spec_bytes(), span, Seq::<SourceSpan>::empty());
                    assert(parameter_nodes(parameter) =~= seq![span] + Seq::<SourceSpan>::empty());
                    lemma_parameters_push(self.spec_bytes(), parameters@, parameter);
                }
                parameters.push(parameter);
                seen_varargs = true;
                keyword_only = true;
                self.consume_parameter_comma();
                continue;
            }
            if seen_varkw {
                let span = self.current().span();
                self.parameter_error(span, "**kwargs 后不能继续声明参数");
                self.recover_parameter_list();
                break;
            }
            let start = self.current().span();
            proof {
                if one && self.cursor == c0 + 1 {
                    assert(self.cur() == ts[c0 + 1]);
                    if typed {
                        assert(self.next_kind() == Some(ts[c0 + 2].spec_kind()));
                    }
                }
            }
            let annotation = self.parse_optional_parameter_annotation();
            proof {
                if one && parameters@.len() == 0 {
                    assert(annotation == expected.annotation);
                    assert(self.cursor == n);
                }
            }
            let name = match self.parse_parameter_name() {
                Some(name) => name,
                None => {
                    self.recover_parameter_list();
                    break;
                },
            };
            proof {
                if one && parameters@.len() == 0 {
                    assert(name == expected.name);
                    assert(self.cur() == ts[n + 1]);
                }
            }
            let default = if self.at(TokenKind::Equal) {
                self.bump();
                proof {
                    if one && parameters@.len() == 0 {
                        assert(self.lone_operand_at(self.cursor as int));
                    }
                }
                let value = self.parse_expression();
                if value.is_none() {
                    self.parameter_error(name.span, "默认参数缺少表达式");
                }
                value
            } else {
                None
            };
            if default.is_some() {
                seen_default = true;
            } else if seen_default && !keyword_only {
                self.parameter_error(name.span, "无默认值参数不能位于默认参数之后");
            }
            let kind = if keyword_only {
                FunctionParameterKind::KeywordOnly
            } else {
                FunctionParameterKind::PositionalOrKeyword
            };
            let end = match &default {
                Some(value) => value.span().end(),
                None => name.span.end(),
            };
            proof {
                if listed {
                    let q = parameters@.len() as int;
                    let it = entry_index(q, mm);
                    assert(name == name_of(old(self).list_item(c0, it)));
                    assert forall|j: int| 0 <= j < seen_names@.len() implies !self.spec_same_name(
                        #[trigger] seen_names@[j],
                        name,
                    ) by {
                        assert(!old(self).spec_same_name(
                            name_of(old(self).list_item(c0, entry_index(j, mm))),
                            name_of(old(self).list_item(c0, it)),
                        ));
                    }
                }
            }
            self.record_parameter_name(&mut seen_names, name);
            let span = self.source_span(start.start(), end);
            let ghost default_nodes = if default is Some {
                expression_nodes(default->0)
            } else {
                Seq::<SourceSpan>::empty()
            };
            let parameter = FunctionParameter { name, kind, annotation, default, span };
            proof {
                lemma_fit_node1(self.spec_bytes(), span, default_nodes);
                assert(parameter_nodes(parameter) =~= seq![span] + default_nodes);
                lemma_parameters_push(self.spec_bytes(), parameters@, parameter);
            }
            parameters.push(parameter);
            proof {
                if one && parameters@.len() == 1 {
                    assert(parameters@[0].name == expected.name);
                    assert(parameters@[0].annotation == expected.annotation);
                    assert(parameters@[0].default == expected.default);
                    assert(parameters@[0].kind == expected.kind);
                    assert(self.cursor == close);
                    assert(self.cur_kind() is RightParen);
                }
                if listed {
                    let i = entry_index(parameters@.len() - 1, mm);
                    assert(self.cur() == old(self).list_separator(c0, i));
                    if i < kk - 1 {
                        assert(old(self).list_separator(c0, i).spec_kind() is Comma);
                        assert(ts[self.cursor + 1] == old(self).list_item(c0, i + 1));
                        if i + 1 != mm {
                            assert(is_declaration_name_kind(old(self).list_item(c0, i + 1).spec_kind()));
                        }
                    }
                }
            }
            self.consume_parameter_comma();
        }
        self.soft_newline_depth = self.soft_newline_depth.saturating_sub(1);
        parameters
    }

    /// Parses an optional scalar or `none` type written before a parameter
    /// name or after `->`.
    fn parse_optional_parameter_annotation(&mut self) -> (r: Option<FunctionTypeAnnotation>)
        requires
            old(self).wf(),
        ensures
            final(self).steps_from(old(self)),
            final(self).diagnostics@ == old(self).diagnostics@,
            final(self).soft_newline_depth == old(self).soft_newline_depth,
            final(self).angle_depth == old(self).angle_depth,
            final(self).block_context_depth == old(self).block_context_depth,
            r is Some ==> final(self).cursor == old(self).cursor + 1,
            r is None ==> final(self).cursor == old(self).cursor,
            old(self).cur_kind() == TokenKind::NoneLiteral ==> r == Some(FunctionTypeAnnotation::NoneType),
            scalar_of_kind(old(self).cur_kind()) matches Some(t) ==> r == (if old(self).next_kind() == Some(
                TokenKind::LeftParen,
            ) {
                None
            } else {
                Some(FunctionTypeAnnotation::Scalar(t))
            }),
            scalar_of_kind(old(self).cur_kind()) is None && old(self).cur_kind() != TokenKind::NoneLiteral
                ==> r is None,
    {
        let kind = self.current().kind();
        if kind == TokenKind::NoneLiteral {
            self.bump();
            return Some(FunctionTypeAnnotation::NoneType);
        }
        if !is_scalar_type_token(kind) || matches!(self.lookahead_kind(1), Some(TokenKind::LeftParen)) {
            return None;
        }
        let scalar = match kind {
            TokenKind::Keyword(keyword) => ScalarType::from_keyword(keyword),
            _ => None,
        };
        match scalar {
            Some(scalar) => {
                self.bump();
                Some(FunctionTypeAnnotation::Scalar(scalar))
            },
            None => None,
        }
    }

    /// Parses the return type annotation of a function.
    fn parse_function_type_annotation(&mut self) -> (r: Option<FunctionTypeAnnotation>)
        requires
            old(self).wf(),
        ensures
            final(self).steps_from(old(self)),
            final(self).diagnostics@ == old(self).diagnostics@,
            final(self).soft_newline_depth == old(self).soft_newline_depth,
            final(self).angle_depth == old(self).angle_depth,
            final(self).block_context_depth == old(self).block_context_depth,
            r is Some ==> final(self).cursor == old(self).cursor + 1,
            r is None ==> final(self).cursor == old(self).cursor,
            old(self).cur_kind() == TokenKind::NoneLiteral ==> r == Some(FunctionTypeAnnotation::NoneType),
            scalar_of_kind(old(self).cur_kind()) matches Some(t) ==> r == (if old(self).next_kind() == Some(
                TokenKind::LeftParen,
            ) {
                None
            } else {
                Some(FunctionTypeAnnotation::Scalar(t))
            }),
            scalar_of_kind(old(self).cur_kind()) is None && old(self).cur_kind() != TokenKind::NoneLiteral
                ==> r is None,
    {
        self.parse_optional_parameter_annotation()
    }

    /// Parses a parameter or loop target name.
    fn parse_parameter_name(&mut self) -> (r: Option<Name>)
        requires
            old(self).wf(),
        ensures
            final(self).steps_from(old(self)),
            final(self).soft_newline_depth == old(self).soft_newline_depth,
            final(self).angle_depth == old(self).angle_depth,
            final(self).block_context_depth == old(self).block_context_depth,
            r matches Some(name) ==> final(self).covers(old(self).pos(), name.span)
                && final(self).cursor == old(self).cursor + 1,
            r is None ==> final(self).cursor == old(self).cursor,
            r is Some <==> is_declaration_name_kind(old(self).cur_kind()),
            r matches Some(name) ==> name.span == old(self).cur().spec_span() && name.backticked == (
                old(self).cur_kind() == TokenKind::BacktickIdentifier) && final(self).diagnostics@ == old(self).diagnostics@,
            r is None ==> final(self).diagnostics@.len() == old(self).diagnostics@.len() + 1
                && final(self).diagnostics@.last().code == INVALID_PARAMETER_CODE
                && final(self).diagnostics@.last().span == Some(old(self).cur().spec_span()),
    {
        if is_declaration_name_token(self.current().kind()) {
            Some(self.parse_name())
        } else {
            let span = self.current().span();
            self.parameter_error(span, "参数必须是普通或反引号名称");
            None
        }
    }

    /// Consumes the comma after a parameter and the soft newlines after it.
    fn consume_parameter_comma(&mut self)
        requires
            old(self).wf(),
        ensures
            final(self).steps_from(old(self)),
            final(self).soft_newline_depth == old(self).soft_newline_depth,
            final(self).angle_depth == old(self).angle_depth,
            final(self).block_context_depth == old(self).block_context_depth,
            old(self).cur_kind() == TokenKind::Comma ==> final(self).cursor > old(self).cursor
                && final(self).diagnostics@ == old(self).diagnostics@,
            old(self).cur_kind() == TokenKind::Comma && old(self).next_kind() != Some(TokenKind::Newline)
                ==> final(self).cursor == old(self).cursor + 1,
            old(self).cur_kind() == TokenKind::RightParen ==> final(self).cursor == old(self).cursor
                && final(self).diagnostics@ == old(self).diagnostics@,
            old(self).cur_kind() != TokenKind::Comma && old(self).cur_kind() != TokenKind::RightParen
                ==> final(self).diagnostics@.len() == old(self).diagnostics@.len() + 1
                && final(self).diagnostics@.last().code == INVALID_PARAMETER_CODE
                && final(self).diagnostics@.last().span == Some(old(self).cur().spec_span()),
    {
        if self.at(TokenKind::Comma) {
            self.bump();
            self.skip_soft_newlines();
        } else if !self.at(TokenKind::RightParen) {
            let span = self.current().span();
            self.parameter_error(span, "参数之间必须使用逗号分隔");
            self.recover_parameter_list();
        }
    }

    /// Consumes erroneous parameter input up to the next comma or the closing
    /// parenthesis.
    fn recover_parameter_list(&mut self)
        requires
            old(self).wf(),
        ensures
            final(self).steps_from(old(self)),
            final(self).diagnostics@ == old(self).diagnostics@,
            final(self).soft_newline_depth == old(self).soft_newline_depth,
            final(self).angle_depth == old(self).angle_depth,
            final(self).block_context_depth == old(self).block_context_depth,
            ({
                let ts = old(self).tokens@;
                let stop = |k: TokenKind| k == TokenKind::Comma || k == TokenKind::RightParen || k == TokenKind::Eof;
                ||| (final(self).cur_kind() == TokenKind::RightParen || final(self).cur_kind() == TokenKind::Eof)
                    && forall|k: int| old(self).cursor <= k < final(self).cursor ==> !stop((#[trigger] ts[k]).spec_kind())
                ||| old(self).cursor < final(self).cursor && ts[final(self).cursor - 1].spec_kind() == TokenKind::Comma
                    && forall|k: int| old(self).cursor <= k < final(self).cursor - 1 ==> !stop((#[trigger] ts[k]).spec_kind())
            }),
    {
        loop
            invariant
                self.steps_from(old(self)),
                self.diagnostics@ == old(self).diagnostics@,
                self.soft_newline_depth == old(self).soft_newline_depth,
                self.angle_depth == old(self).angle_depth,
                self.block_context_depth == old(self).block_context_depth,
                forall|k: int|
                    old(self).cursor <= k < self.cursor ==> !((#[trigger] old(self).tokens@[k]).spec_kind() == TokenKind::Comma
                        || old(self).tokens@[k].spec_kind() == TokenKind::RightParen || old(self).tokens@[k].spec_kind() == TokenKind::Eof),
            ensures
                self.steps_from(old(self)),
                self.diagnostics@ == old(self).diagnostics@,
                self.soft_newline_depth == old(self).soft_newline_depth,
                self.angle_depth == old(self).angle_depth,
                self.block_context_depth == old(self).block_context_depth,
                forall|k: int|
                    old(self).cursor <= k < self.cursor ==> !((#[trigger] old(self).tokens@[k]).spec_kind() == TokenKind::Comma
                        || old(self).tokens@[k].spec_kind() == TokenKind::RightParen || old(self).tokens@[k].spec_kind() == TokenKind::Eof),
                self.cur_kind() == TokenKind::Comma || self.cur_kind() == TokenKind::RightParen || self.cur_kind() == TokenKind::Eof,
            decreases self.remaining(),
        {
            let kind = self.current().kind();
            if kind == TokenKind::Comma || kind == TokenKind::RightParen || kind == TokenKind::Eof {
                break;
            }
            self.bump();
        }
        if self.at(TokenKind::Comma) {
            self.bump();
        }
    }

    /// Appends a parameter list error.
    fn parameter_error(&mut self, span: SourceSpan, message: &str)
        requires
            old(self).wf(),
            span_fits(old(self).spec_bytes(), span),
        ensures
            final(self).steps_from(old(self)),
            final(self).cursor == old(self).cursor,
            final(self).soft_newline_depth == old(self).soft_newline_depth,
            final(self).angle_depth == old(self).angle_depth,
            final(self).block_context_depth == old(self).block_context_depth,
            final(self).diagnostics@.len() == old(self).diagnostics@.len() + 1,
            final(self).diagnostics@.last().code == INVALID_PARAMETER_CODE,
            final(self).diagnostics@.last().span == Some(span),
    {
        self.push_error(
            INVALID_PARAMETER_CODE,
            "x04.parse.invalid_parameter",
            span,
            message.to_owned(),
        );
    }

    /// Returns whether two names are spelled alike in the same namespace:
    /// plain names and backtick names never clash with each other.
    /// Two names are spelled the same way, backticks included.
    spec fn spec_same_name(&self, a: Name, b: Name) -> bool {
        a.backticked == b.backticked && self.spec_bytes().subrange(
            a.span.spec_start() as int,
            a.span.spec_end() as int,
        ) == self.spec_bytes().subrange(b.span.spec_start() as int, b.span.spec_end() as int)
    }

    fn same_name(&self, a: Name, b: Name) -> (r: bool)
        requires
            span_fits(self.spec_bytes(), a.span),
            span_fits(self.spec_bytes(), b.span),
        ensures
            r == (a.backticked == b.backticked && self.spec_bytes().subrange(
                a.span.spec_start() as int,
                a.span.spec_end() as int,
            ) == self.spec_bytes().subrange(b.span.spec_start() as int, b.span.spec_end() as int)),
    {
        if a.backticked != b.backticked {
            return false;
        }
        let x = a.text(self.source);
        let y = b.text(self.source);
        bytes_spell(x.as_bytes(), y.as_bytes())
    }

    /// Records a parameter name; a name seen before in the same namespace is
    /// reported.
    fn record_parameter_name(&mut self, seen: &mut Vec<Name>, name: Name)
        requires
            old(self).wf(),
            span_fits(old(self).spec_bytes(), name.span),
            forall|i: int|
                0 <= i < old(seen)@.len() ==> span_fits(
                    old(self).spec_bytes(),
                    (#[trigger] old(seen)@[i]).span,
                ),
        ensures
            final(self).steps_from(old(self)),
            final(self).cursor == old(self).cursor,
            final(self).soft_newline_depth == old(self).soft_newline_depth,
            final(self).angle_depth == old(self).angle_depth,
            final(self).block_context_depth == old(self).block_context_depth,
            forall|i: int|
                0 <= i < final(seen)@.len() ==> span_fits(
                    final(self).spec_bytes(),
                    (#[trigger] final(seen)@[i]).span,
                ),
            (exists|i: int| 0 <= i < old(seen)@.len() && old(self).spec_same_name(#[trigger] old(seen)@[i], name))
                ==> final(seen)@ == old(seen)@ && final(self).diagnostics@.len() == old(self).diagnostics@.len() + 1
                && final(self).diagnostics@.last().code == INVALID_PARAMETER_CODE
                && final(self).diagnostics@.last().span == Some(name.span),
            !(exists|i: int| 0 <= i < old(seen)@.len() && old(self).spec_same_name(#[trigger] old(seen)@[i], name))
                ==> final(seen)@ == old(seen)@.push(name) && final(self).diagnostics@ == old(self).diagnostics@,
    {
        let mut i: usize = 0;
        while i < seen.len()
            invariant
                i <= seen@.len(),
                *self == *old(self),
                *seen == *old(seen),
                forall|k: int| 0 <= k < i ==> !self.spec_same_name(#[trigger] seen@[k], name),
                self.wf(),
                span_fits(self.spec_bytes(), name.span),
                forall|k: int|
                    0 <= k < seen@.len() ==> span_fits(self.spec_bytes(), (#[trigger] seen@[k]).span),
            decreases seen@.len() - i,
        {
            if self.same_name(seen[i], name) {
                self.parameter_error(name.span, "函数参数名称不能重复");
                return;
            }
            i += 1;
        }
        seen.push(name);
    }
}

/// Parameter lists with the same spans and defaults have the same nodes.
proof fn lemma_parameters_same(ps: Seq<FunctionParameter>, qs: Seq<FunctionParameter>, k: int)
    requires
        ps.len() == qs.len(),
        0 <= k <= ps.len(),
        forall|i: int|
            0 <= i < ps.len() ==> (#[trigger] ps[i]).span == qs[i].span && ps[i].default
                == qs[i].default,
    ensures
        parameters_nodes(ps, k) == parameters_nodes(qs, k),
    decreases k,
{
    if k > 0 {
        lemma_parameters_same(ps, qs, k - 1);
        assert(ps[k - 1].span == qs[k - 1].span);
    }
}

/// Marks every positional-or-keyword parameter before a `/` as positional-only.
fn mark_positional_only(parameters: Vec<FunctionParameter>) -> (r: Vec<FunctionParameter>)
    ensures
        r@.len() == parameters@.len(),
        forall|i: int|
            0 <= i < r@.len() ==> (#[trigger] r@[i]).span == parameters@[i].span && r@[i].default
                == parameters@[i].default && r@[i].name == parameters@[i].name && r@[i].kind == (
            if parameters@[i].kind == FunctionParameterKind::PositionalOrKeyword {
                FunctionParameterKind::PositionalOnly
            } else {
                parameters@[i].kind
            }),
{
    let ghost original = parameters@;
    let mut rest = parameters;
    let mut updated: Vec<FunctionParameter> = Vec::new();
    while rest.len() > 0
        invariant
            updated@.len() + rest@.len() == original.len(),
            forall|i: int| 0 <= i < rest@.len() ==> rest@[i] == original[updated@.len() + i],
            forall|i: int|
                0 <= i < updated@.len() ==> (#[trigger] updated@[i]).span == original[i].span
                    && updated@[i].default == original[i].default && updated@[i].name == original[i].name
                    && updated@[i].kind == (if original[i].kind
                    == FunctionParameterKind::PositionalOrKeyword {
                    FunctionParameterKind::PositionalOnly
                } else {
                    original[i].kind
                }),
        decreases rest@.len(),
    {
        let mut parameter = rest.remove(0);
        if parameter.kind == FunctionParameterKind::PositionalOrKeyword {
            parameter.kind = FunctionParameterKind::PositionalOnly;
        }
        updated.push(parameter);
    }
    updated
}

impl<'source> Parser<'source> {
    /// Parses an indented block; also returns the source offset where it ends.
    fn parse_indented_block(&mut self, header_span: SourceSpan) -> (r: (Vec<Statement>, usize))
        requires
            old(self).wf(),
            span_fits(old(self).spec_bytes(), header_span),
            header_span.spec_end() <= old(self).pos(),
        ensures
            final(self).steps_from(old(self)),
            header_span.spec_end() <= r.1 <= final(self).pos(),
            is_boundary(final(self).spec_bytes(), r.1 as int),
            final(self).nodes_fit(statements_nodes(r.0@, r.0@.len() as int)),
            old(self).soft_newline_depth == 0 && old(self).angle_depth == 0 && line_block(
                old(self).tokens@,
                old(self).cursor as int,
            ) ==> block_statements(r.0@, old(self).tokens@, old(self).cursor as int) && final(self).diagnostics@
                == old(self).diagnostics@ && final(self).cursor == lines_end(old(self).tokens@, old(self).cursor + 2) + 1
                && final(self).soft_newline_depth == 0 && final(self).angle_depth == 0,
        decreases old(self).remaining(), 10int,
    {
        let ghost ts = self.tokens@;
        let ghost c0 = self.cursor as int;
        let ghost start = c0 + 2;
        let ghost ls = line_starts(ts, start);
        let ghost end = lines_end(ts, start);
        let ghost run = self.soft_newline_depth == 0 && self.angle_depth == 0 && line_block(ts, c0);
        if self.at(TokenKind::Newline) {
            self.bump();
        } else if !self.at(TokenKind::Eof) {
            self.push_error(
                MISSING_BLOCK_CODE,
                "x04.parse.missing_block_newline",
                header_span,
                "代码块头后必须换行".to_owned(),
            );
            return (Vec::new(), header_span.end());
        }
        while self.at(TokenKind::Newline)
            invariant
                self.steps_from(old(self)),
                ts == old(self).tokens@,
                run == (old(self).soft_newline_depth == 0 && old(self).angle_depth == 0 && line_block(ts, c0)),
                run ==> self.cursor == c0 + 1 && self.diagnostics@ == old(self).diagnostics@
                    && self.soft_newline_depth == 0 && self.angle_depth == 0,
            decreases self.remaining(),
        {
            self.bump();
        }
        if !self.at(TokenKind::Indent) {
            self.push_error(
                MISSING_BLOCK_CODE,
                "x04.parse.missing_indent",
                header_span,
                "代码块必须包含缩进体".to_owned(),
            );
            return (Vec::new(), header_span.end());
        }
        self.bump();
        self.block_context_depth = self.block_context_depth.saturating_add(1);
        let mut statements: Vec<Statement> = Vec::new();
        let mut pending_docs: Vec<SourceSpan> = Vec::new();
        let mut last_end = header_span.end();
        while !self.at(TokenKind::Dedent) && !self.at(TokenKind::Eof) && !self.at(
            TokenKind::Keyword(KeywordKind::Elif),
        ) && !self.at(TokenKind::Keyword(KeywordKind::Else)) && !self.at(
            TokenKind::Keyword(KeywordKind::Catch),
        ) && !self.at(TokenKind::Keyword(KeywordKind::Finally))
            invariant
                self.steps_from(old(self)),
                self.cursor > old(self).cursor,
                header_span.spec_end() <= last_end <= self.pos(),
                is_boundary(self.spec_bytes(), last_end as int),
                self.nodes_fit(statements_nodes(statements@, statements@.len() as int)),
                ts == old(self).tokens@,
                c0 == old(self).cursor,
                start == c0 + 2,
                ls == line_starts(ts, start),
                end == lines_end(ts, start),
                run == (old(self).soft_newline_depth == 0 && old(self).angle_depth == 0 && line_block(ts, c0)),
                run ==> statements@.len() <= ls.len() && self.diagnostics@ == old(self).diagnostics@
                    && pending_docs@.len() == 0 && self.soft_newline_depth == 0 && self.angle_depth == 0
                    && line_starts(ts, self.cursor as int) == ls.subrange(statements@.len() as int, ls.len() as int)
                    && lines_end(ts, self.cursor as int) == end,
                run ==> forall|j: int| 0 <= j < statements@.len() ==> line_statement(#[trigger] statements@[j], ts, ls[j]),
            decreases self.remaining(),
        {
            proof {
                if run {
                    let i = self.cursor as int;
                    if line_length(ts, i) == 0 {
                        assert(self.cur_kind() is Dedent);
                    }
                    if line_length(ts, i) > 0 {
                        let n = statements@.len() as int;
                        let rest = line_starts(ts, i + line_length(ts, i));
                        assert(line_starts(ts, i) == seq![i] + rest);
                        assert(line_starts(ts, i)[0] == i);
                        assert(ls.subrange(n, ls.len() as int).len() >= 1);
                        assert(ls.subrange(n, ls.len() as int)[0] == ls[n]);
                        assert(ls[n] == i);
                        assert forall|x: int| 0 <= x < rest.len() implies rest[x] == ls.subrange(n + 1, ls.len() as int)[x] by {
                            assert(rest[x] == line_starts(ts, i)[x + 1]);
                            assert(line_starts(ts, i)[x + 1] == ls.subrange(n, ls.len() as int)[x + 1]);
                        }
                        assert(rest =~= ls.subrange(n + 1, ls.len() as int));
                    }
                }
            }
            let kind = self.current().kind();
            match kind {
                TokenKind::Newline => {
                    let token = self.bump();
                    last_end = token.span().end();
                },
                TokenKind::DocComment => {
                    let token = self.bump();
                    pending_docs.push(token.span());
                },
                TokenKind::Indent => {
                    let token = self.bump();
                    self.push_error(
                        INVALID_CONTROL_FLOW_CODE,
                        "x04.parse.unexpected_indent",
                        token.span(),
                        "未预期的额外缩进".to_owned(),
                    );
                },
                _ => {
                    let docs = pending_docs;
                    pending_docs = Vec::new();
                    let ghost pre = *self;
                    let ghost i0 = self.cursor as int;
                    let ghost ak = array_line_items(ts, i0);
                    let ghost array_case = run && !assignment_line(ts, i0) && !binary_line(ts, i0)
                        && !declaration_line(ts, i0) && line_length(ts, i0) > 0;
                    proof {
                        if array_case {
                            self.lemma_array_line(i0, ak);
                        }
                    }
                    match self.parse_statement(docs) {
                        Some(statement) => {
                            proof {
                                if array_case {
                                    let value = statement->Assignment_value;
                                    pre.lemma_array_value(i0 + 2, ak, value);
                                }
                            }
                            last_end = statement.span().end();
                            proof {
                                lemma_statements_push(self.spec_bytes(), statements@, statement);
                            }
                            statements.push(statement);
                        },
                        None => {
                            self.synchronize_to_boundary();
                        },
                    }
                },
            }
        }
        proof {
            if run && statements@.len() < ls.len() {
                let i = self.cursor as int;
                assert(ls.subrange(statements@.len() as int, ls.len() as int).len() >= 1);
                assert(line_starts(ts, i).len() >= 1);
                assert(line_length(ts, i) > 0);
            }
            if run {
                let i = self.cursor as int;
                assert(line_starts(ts, i).len() == 0);
                assert(line_length(ts, i) == 0);
                assert(i == end);
            }
        }
        if self.at(TokenKind::Dedent) {
            let token = self.bump();
            if token.span().end() > last_end {
                last_end = token.span().end();
            }
        }
        self.block_context_depth = self.block_context_depth.saturating_sub(1);
        if statements.len() == 0 {
            self.push_error(
                MISSING_BLOCK_CODE,
                "x04.parse.empty_block",
                header_span,
                "代码块不能为空".to_owned(),
            );
        }
        (statements, last_end)
    }

    /// Parses an `if`/`elif`/`else` chain.
    fn parse_if_statement(&mut self, leading_docs: Vec<SourceSpan>) -> (r: Option<Statement>)
        requires
            old(self).wf(),
            old(self).cur_kind() == TokenKind::Keyword(KeywordKind::If),
        ensures
            final(self).steps_from(old(self)),
            final(self).cursor > old(self).cursor,
            r matches Some(st) ==> final(self).covers(old(self).pos(), st.spec_span()),
            r matches Some(st) ==> final(self).nodes_fit(statement_nodes(st)),
            r is None ==> final(self).failure_reported(old(self)),
            r matches Some(st) ==> st is If,
            old(self).soft_newline_depth == 0 && old(self).angle_depth == 0 && if_shape(
                old(self).tokens@,
                old(self).cursor as int,
            ) ==> (r matches Some(st) && if_tree(st, old(self).tokens@, old(self).cursor as int)) && (if_settled(
                old(self).tokens@,
                old(self).cursor as int,
            ) ==> final(self).diagnostics@ == old(self).diagnostics@) && (old(self).tokens@[lines_end(
                old(self).tokens@,
                old(self).cursor + 4,
            ) + 1].spec_kind() != TokenKind::Keyword(KeywordKind::Else) ==> final(self).cursor == lines_end(
                old(self).tokens@,
                old(self).cursor + 4,
            ) + 1 && final(self).soft_newline_depth == 0 && final(self).angle_depth == 0),
        decreases old(self).remaining(), 39int,
    {
        let ghost ts = self.tokens@;
        let ghost c0 = self.cursor as int;
        let ghost e1 = lines_end(ts, c0 + 4);
        let ghost shape = self.soft_newline_depth == 0 && self.angle_depth == 0 && c0 + 1 < ts.len()
            && is_simple_operand_kind(ts[c0 + 1].spec_kind()) && line_block(ts, c0 + 2) && e1 + 1 < ts.len()
            && !(ts[e1 + 1].spec_kind() is Newline) && ts[e1 + 1].spec_kind() != TokenKind::Keyword(KeywordKind::Elif);
        let ghost has_else = ts[e1 + 1].spec_kind() == TokenKind::Keyword(KeywordKind::Else);
        let ghost else_block = has_else && line_block(ts, e1 + 2);
        let start = self.bump();
        proof {
            if shape {
                assert(self.lone_operand_at(self.cursor as int));
            }
        }
        let condition = match self.parse_control_condition("if") {
            Some(condition) => condition,
            None => {
                return None;
            },
        };
        let header = self.source_span(start.span().start(), condition.span().end());
        let (body, first_end) = self.parse_indented_block(header);
        proof {
            if shape {
                assert(self.cursor == e1 + 1);
            }
        }
        let mut end = first_end;
        let mut elif_branches: Vec<ElifBranch> = Vec::new();
        let mut else_body: Option<Vec<Statement>> = None;
        let mut had_alternate = false;
        loop
            invariant_except_break
                shape ==> elif_branches@.len() == 0 && else_body is None && self.cursor == e1 + 1
                    && self.diagnostics@ == old(self).diagnostics@ && self.soft_newline_depth == 0 && self.angle_depth == 0
                    && !had_alternate,
            invariant
                self.steps_from(old(self)),
                self.cursor > old(self).cursor,
                old(self).pos() <= end <= self.pos(),
                is_boundary(self.spec_bytes(), end as int),
                self.nodes_fit(elifs_nodes(elif_branches@, elif_branches@.len() as int)),
                else_body matches Some(b) ==> self.nodes_fit(statements_nodes(b@, b@.len() as int)),
                ts == old(self).tokens@,
                shape == (old(self).soft_newline_depth == 0 && old(self).angle_depth == 0 && c0 + 1 < ts.len()
                    && is_simple_operand_kind(ts[c0 + 1].spec_kind()) && line_block(ts, c0 + 2) && e1 + 1 < ts.len()
                    && !(ts[e1 + 1].spec_kind() is Newline) && ts[e1 + 1].spec_kind() != TokenKind::Keyword(
                    KeywordKind::Elif,
                )),
                has_else == (ts[e1 + 1].spec_kind() == TokenKind::Keyword(KeywordKind::Else)),
                else_block == (has_else && line_block(ts, e1 + 2)),
            ensures
                self.steps_from(old(self)),
                self.cursor > old(self).cursor,
                old(self).pos() <= end <= self.pos(),
                is_boundary(self.spec_bytes(), end as int),
                self.nodes_fit(elifs_nodes(elif_branches@, elif_branches@.len() as int)),
                else_body matches Some(b) ==> self.nodes_fit(statements_nodes(b@, b@.len() as int)),
                ts == old(self).tokens@,
                shape == (old(self).soft_newline_depth == 0 && old(self).angle_depth == 0 && c0 + 1 < ts.len()
                    && is_simple_operand_kind(ts[c0 + 1].spec_kind()) && line_block(ts, c0 + 2) && e1 + 1 < ts.len()
                    && !(ts[e1 + 1].spec_kind() is Newline) && ts[e1 + 1].spec_kind() != TokenKind::Keyword(
                    KeywordKind::Elif,
                )),
                has_else == (ts[e1 + 1].spec_kind() == TokenKind::Keyword(KeywordKind::Else)),
                else_block == (has_else && line_block(ts, e1 + 2)),
                shape ==> elif_branches@.len() == 0 && (if has_else {
                    else_block ==> (else_body matches Some(b) && block_statements(b@, ts, e1 + 2))
                        && self.diagnostics@ == old(self).diagnostics@
                } else {
                    else_body is None && self.diagnostics@ == old(self).diagnostics@ && self.cursor == e1 + 1
                        && self.soft_newline_depth == 0 && self.angle_depth == 0 && !had_alternate
                }),
            decreases self.remaining(),
        {
            let ghost iteration_start = self.cursor;
            while self.at(TokenKind::Newline)
                invariant
                    self.steps_from(old(self)),
                    self.cursor > old(self).cursor,
                    self.cursor >= iteration_start,
                    old(self).pos() <= end <= self.pos(),
                    ts == old(self).tokens@,
                    shape ==> self.cursor == e1 + 1 && self.diagnostics@ == old(self).diagnostics@
                        && self.soft_newline_depth == 0 && self.angle_depth == 0,
                    shape == (old(self).soft_newline_depth == 0 && old(self).angle_depth == 0 && c0 + 1 < ts.len()
                        && is_simple_operand_kind(ts[c0 + 1].spec_kind()) && line_block(ts, c0 + 2) && e1 + 1 < ts.len()
                        && !(ts[e1 + 1].spec_kind() is Newline) && ts[e1 + 1].spec_kind() != TokenKind::Keyword(
                        KeywordKind::Elif,
                    )),
                decreases self.remaining(),
            {
                self.bump();
            }
            if self.at(TokenKind::Keyword(KeywordKind::Elif)) {
                had_alternate = true;
                let elif = self.bump();
                let elif_condition = match self.parse_control_condition("elif") {
                    Some(condition) => condition,
                    None => {
                        break;
                    },
                };
                let header = self.source_span(elif.span().start(), elif_condition.span().end());
                let (elif_body, elif_end) = self.parse_indented_block(header);
                if elif_end > end {
                    end = elif_end;
                }
                let span = self.source_span(elif.span().start(), elif_end);
                let branch = ElifBranch {
                    condition: elif_condition,
                    body: elif_body,
                    span,
                    leading_docs: Vec::new(),
                };
                proof {
                    lemma_fit_node2(
                        self.spec_bytes(),
                        span,
                        expression_nodes(branch.condition),
                        statements_nodes(branch.body@, branch.body@.len() as int),
                    );
                    lemma_elifs_push(self.spec_bytes(), elif_branches@, branch);
                }
                elif_branches.push(branch);
            } else if self.at(TokenKind::Keyword(KeywordKind::Else)) {
                had_alternate = true;
                let otherwise = self.bump();
                let ghost before_else = *self;
                let (otherwise_body, otherwise_end) = self.parse_indented_block(otherwise.span());
                proof {
                    if shape && else_block {
                        assert(before_else.cursor == e1 + 2);
                        assert(block_statements(otherwise_body@, ts, e1 + 2));
                    }
                }
                if otherwise_end > end {
                    end = otherwise_end;
                }
                else_body = Some(otherwise_body);
                break;
            } else {
                break;
            }
        }
        if had_alternate && self.block_context_depth == 0 && self.at(TokenKind::Dedent) {
            let token = self.bump();
            if token.span().end() > end {
                end = token.span().end();
            }
        }
        let span = self.source_span(start.span().start(), end);
        let ghost else_nodes = if else_body is Some {
            statements_nodes(else_body->0@, else_body->0@.len() as int)
        } else {
            Seq::<SourceSpan>::empty()
        };
        proof {
            let b = self.spec_bytes();
            lemma_fit_node2(
                b,
                span,
                expression_nodes(condition),
                statements_nodes(body@, body@.len() as int),
            );
            lemma_fit_concat(
                b,
                seq![span] + expression_nodes(condition) + statements_nodes(body@, body@.len() as int),
                elifs_nodes(elif_branches@, elif_branches@.len() as int),
            );
            lemma_fit_concat(
                b,
                seq![span] + expression_nodes(condition) + statements_nodes(body@, body@.len() as int)
                    + elifs_nodes(elif_branches@, elif_branches@.len() as int),
                else_nodes,
            );
        }
        Some(Statement::If { condition, body, elif_branches, else_body, leading_docs, span })
    }

    /// Parses the condition of a control-flow header and checks that the
    /// header ends there.
    fn parse_control_condition(&mut self, keyword: &str) -> (r: Option<Expression>)
        requires
            old(self).wf(),
        ensures
            final(self).steps_from(old(self)),
            r matches Some(e) ==> final(self).covers(old(self).pos(), e.spec_span()),
            r matches Some(e) ==> final(self).nodes_fit(expression_nodes(e)),
            r is None ==> final(self).diagnostics@.len() > old(self).diagnostics@.len()
                && final(self).diagnostics@.last().code == INVALID_CONTROL_FLOW_CODE,
            r is Some ==> is_statement_boundary_kind(final(self).cur_kind()),
            old(self).lone_operand_at(old(self).cursor as int) && is_statement_boundary_kind(
                old(self).tokens@[old(self).cursor + 1].spec_kind(),
            ) ==> r == Some(simple_operand(old(self).cur())) && final(self).cursor == old(self).cursor + 1
                && final(self).diagnostics@ == old(self).diagnostics@ && final(self).soft_newline_depth
                == old(self).soft_newline_depth && final(self).angle_depth == old(self).angle_depth,
        decreases old(self).remaining(), 39int,
    {
        let condition = match self.parse_expression() {
            Some(condition) => condition,
            None => {
                let span = self.current().span();
                self.push_error(
                    INVALID_CONTROL_FLOW_CODE,
                    "x04.parse.missing_condition",
                    span,
                    joined(keyword, " 后缺少条件表达式", ""),
                );
                self.synchronize_to_boundary();
                return None;
            },
        };
        if !is_statement_boundary(self.current().kind()) {
            let span = self.current().span();
            self.push_error(
                INVALID_CONTROL_FLOW_CODE,
                "x04.parse.control_header_tail",
                span,
                joined(keyword, " 条件后存在未预期内容", ""),
            );
            self.synchronize_to_boundary();
            return None;
        }
        Some(condition)
    }

    /// Parses `for name in iterable` and its body.
    fn parse_for_statement(&mut self, leading_docs: Vec<SourceSpan>) -> (r: Option<Statement>)
        requires
            old(self).wf(),
            old(self).cur_kind() == TokenKind::Keyword(KeywordKind::For),
        ensures
            final(self).steps_from(old(self)),
            final(self).cursor > old(self).cursor,
            r matches Some(st) ==> final(self).covers(old(self).pos(), st.spec_span()),
            r matches Some(st) ==> final(self).nodes_fit(statement_nodes(st)),
            r is None ==> final(self).failure_reported(old(self)),
            r matches Some(st) ==> st is For,
        decreases old(self).remaining(), 39int,
    {
        let start = self.bump();
        let target = match self.parse_parameter_name() {
            Some(target) => target,
            None => {
                self.synchronize_to_boundary();
                return None;
            },
        };
        if !self.at(TokenKind::Keyword(KeywordKind::In)) {
            let span = self.current().span();
            self.push_error(
                INVALID_CONTROL_FLOW_CODE,
                "x04.parse.for_missing_in",
                span,
                "for 循环目标后必须是 in".to_owned(),
            );
            self.synchronize_to_boundary();
            return None;
        }
        self.bump();
        let iterable = match self.parse_expression() {
            Some(iterable) => iterable,
            None => {
                let span = self.current().span();
                self.push_error(
                    INVALID_CONTROL_FLOW_CODE,
                    "x04.parse.for_missing_iterable",
                    span,
                    "for 的 in 后缺少可迭代表达式".to_owned(),
                );
                self.synchronize_to_boundary();
                return None;
            },
        };
        if !is_statement_boundary(self.current().kind()) {
            let span = self.current().span();
            self.push_error(
                INVALID_CONTROL_FLOW_CODE,
                "x04.parse.for_header_tail",
                span,
                "for 头后存在未预期内容".to_owned(),
            );
            self.synchronize_to_boundary();
            return None;
        }
        let header = self.source_span(start.span().start(), iterable.span().end());
        let (body, end) = self.parse_indented_block(header);
        let span = self.source_span(start.span().start(), end);
        Some(Statement::For { target, iterable, body, leading_docs, span })
    }

    /// Parses `while condition` and its body.
    fn parse_while_statement(&mut self, leading_docs: Vec<SourceSpan>) -> (r: Option<Statement>)
        requires
            old(self).wf(),
            old(self).cur_kind() == TokenKind::Keyword(KeywordKind::While),
        ensures
            final(self).steps_from(old(self)),
            final(self).cursor > old(self).cursor,
            r matches Some(st) ==> final(self).covers(old(self).pos(), st.spec_span()),
            r matches Some(st) ==> final(self).nodes_fit(statement_nodes(st)),
            r is None ==> final(self).failure_reported(old(self)),
            r matches Some(st) ==> st is While,
        decreases old(self).remaining(), 39int,
    {
        let start = self.bump();
        let condition = match self.parse_control_condition("while") {
            Some(condition) => condition,
            None => {
                return None;
            },
        };
        let header = self.source_span(start.span().start(), condition.span().end());
        let (body, end) = self.parse_indented_block(header);
        let span = self.source_span(start.span().start(), end);
        Some(Statement::While { condition, body, leading_docs, span })
    }

    /// Parses `return` with an optional value.
    fn parse_return_statement(&mut self, leading_docs: Vec<SourceSpan>) -> (r: Option<Statement>)
        requires
            old(self).wf(),
            old(self).cur_kind() == TokenKind::Keyword(KeywordKind::Return),
        ensures
            final(self).steps_from(old(self)),
            final(self).cursor > old(self).cursor,
            r matches Some(st) ==> final(self).covers(old(self).pos(), st.spec_span()),
            r matches Some(st) ==> final(self).nodes_fit(statement_nodes(st)),
            r is None ==> final(self).failure_reported(old(self)),
            r matches Some(st) ==> st is Return,
        decreases old(self).remaining(), 39int,
    {
        let keyword = self.bump();
        let value = if is_statement_boundary(self.current().kind()) {
            None
        } else {
            let value = self.parse_expression();
            if value.is_none() {
                self.push_error(
                    INVALID_CONTROL_FLOW_CODE,
                    "x04.parse.invalid_return",
                    keyword.span(),
                    "return 后的表达式无效".to_owned(),
                );
            }
            value
        };
        let end = match &value {
            Some(value) => value.span().end(),
            None => keyword.span().end(),
        };
        if !is_statement_boundary(self.current().kind()) {
            let span = self.current().span();
            self.push_error(
                INVALID_CONTROL_FLOW_CODE,
                "x04.parse.return_tail",
                span,
                "return 后存在未预期内容".to_owned(),
            );
            self.synchronize_to_boundary();
            return None;
        }
        self.consume_newline();
        let span = self.source_span(keyword.span().start(), end);
        Some(Statement::Return { value, leading_docs, span })
    }

    /// Parses `break` or `continue`.
    fn parse_loop_control_statement(&mut self, leading_docs: Vec<SourceSpan>, is_break: bool) -> (r:
        Option<Statement>)
        requires
            old(self).wf(),
            old(self).cur_kind() == TokenKind::Keyword(KeywordKind::Break) || old(self).cur_kind()
                == TokenKind::Keyword(KeywordKind::Continue),
        ensures
            final(self).steps_from(old(self)),
            final(self).cursor > old(self).cursor,
            r matches Some(st) ==> final(self).covers(old(self).pos(), st.spec_span()),
            r matches Some(st) ==> final(self).nodes_fit(statement_nodes(st)),
            r is None ==> final(self).failure_reported(old(self)),
            r matches Some(st) ==> (if is_break { st is Break } else { st is Continue }),
    {
        let keyword = self.bump();
        if !is_statement_boundary(self.current().kind()) {
            let span = self.current().span();
            self.push_error(
                INVALID_CONTROL_FLOW_CODE,
                "x04.parse.loop_control_tail",
                span,
                "break/continue 后不能跟表达式".to_owned(),
            );
            self.synchronize_to_boundary();
            return None;
        }
        self.consume_newline();
        if is_break {
            Some(Statement::Break { leading_docs, span: keyword.span() })
        } else {
            Some(Statement::Continue { leading_docs, span: keyword.span() })
        }
    }

    /// Parses `type name [= expression]` or `const [type] name = expression`.
    fn parse_declaration_statement(&mut self, leading_docs: Vec<SourceSpan>) -> (r: Option<
        Statement,
    >)
        requires
            old(self).wf(),
            old(self).spec_starts_declaration(),
        ensures
            final(self).steps_from(old(self)),
            final(self).cursor > old(self).cursor,
            r matches Some(st) ==> final(self).covers(old(self).pos(), st.spec_span()),
            r matches Some(st) ==> final(self).nodes_fit(statement_nodes(st)),
            r is None ==> final(self).failure_reported(old(self)),
            r matches Some(st) ==> (if old(self).cur_kind() == TokenKind::Keyword(KeywordKind::Const) {
                st is ConstDeclaration
            } else {
                st is Declaration
            }),
            ({
                let ts = old(self).tokens@;
                let c = old(self).cursor as int;
                scalar_of_kind(ts[c].spec_kind()) is Some && c + 2 < ts.len() && is_declaration_name_kind(
                    ts[c + 1].spec_kind(),
                ) && is_statement_boundary_kind(ts[c + 2].spec_kind()) ==> (r matches Some(st)
                    && scalar_declaration(st, scalar_of_kind(ts[c].spec_kind())->Some_0, ts[c + 1], None)) && final(self).diagnostics@ == old(self).diagnostics@
            }),
            ({
                let ts = old(self).tokens@;
                let c = old(self).cursor as int;
                scalar_of_kind(ts[c].spec_kind()) is Some && c + 4 < ts.len() && old(self).soft_newline_depth
                    == 0 && is_declaration_name_kind(ts[c + 1].spec_kind()) && ts[c + 2].spec_kind() is Equal
                    && is_simple_operand_kind(ts[c + 3].spec_kind()) && is_statement_boundary_kind(ts[c + 4].spec_kind())
                    ==> (r matches Some(st) && scalar_declaration(
                    st,
                    scalar_of_kind(ts[c].spec_kind())->Some_0,
                    ts[c + 1],
                    Some(simple_operand(ts[c + 3])),
                )) && final(self).diagnostics@ == old(self).diagnostics@ && final(self).cursor == (if ts[c
                    + 4].spec_kind() is Newline {
                    c + 5
                } else {
                    c + 4
                }) && final(self).soft_newline_depth == 0 && final(self).angle_depth == old(self).angle_depth
            }),
            ({
                let ts = old(self).tokens@;
                let c = old(self).cursor as int;
                ts[c].spec_kind() == TokenKind::Keyword(KeywordKind::Const) && c + 4 < ts.len()
                    && old(self).soft_newline_depth == 0 && ts[c + 1].spec_kind() is Identifier
                    && ts[c + 2].spec_kind() is Equal && is_simple_operand_kind(ts[c + 3].spec_kind())
                    && is_statement_boundary_kind(ts[c + 4].spec_kind()) ==> (r matches Some(st) && const_declaration(
                    st,
                    None,
                    ts[c + 1],
                    simple_operand(ts[c + 3]),
                )) && final(self).diagnostics@ == old(self).diagnostics@
            }),
            ({
                let ts = old(self).tokens@;
                let c = old(self).cursor as int;
                ts[c].spec_kind() == TokenKind::Keyword(KeywordKind::Const) && c + 5 < ts.len()
                    && old(self).soft_newline_depth == 0 && scalar_of_kind(ts[c + 1].spec_kind()) is Some
                    && is_declaration_name_kind(ts[c + 2].spec_kind()) && ts[c + 3].spec_kind() is Equal
                    && is_simple_operand_kind(ts[c + 4].spec_kind()) && is_statement_boundary_kind(ts[c + 5].spec_kind())
                    ==> (r matches Some(st) && const_declaration(
                    st,
                    scalar_of_kind(ts[c + 1].spec_kind()),
                    ts[c + 2],
                    simple_operand(ts[c + 4]),
                )) && final(self).diagnostics@ == old(self).diagnostics@
            }),
            ({
                let ts = old(self).tokens@;
                let c = old(self).cursor as int;
                ts[c].spec_kind() == TokenKind::Keyword(KeywordKind::Const) && c + 2 < ts.len() && ts[c + 1].spec_kind()
                    is Identifier && is_statement_boundary_kind(ts[c + 2].spec_kind()) ==> r is None
                    && final(self).diagnostics@.len() == old(self).diagnostics@.len() + 1
                    && final(self).diagnostics@.last().code == MISSING_CONST_VALUE_CODE
                    && final(self).diagnostics@.last().span == Some(ts[c + 2].spec_span())
            }),
            ({
                let ts = old(self).tokens@;
                let c = old(self).cursor as int;
                scalar_of_kind(ts[c].spec_kind()) is Some && c + 3 < ts.len() && is_declaration_name_kind(
                    ts[c + 1].spec_kind(),
                ) && ts[c + 2].spec_kind() is Equal && is_statement_boundary_kind(ts[c + 3].spec_kind()) ==> r is None
                    && final(self).diagnostics@.len() == old(self).diagnostics@.len() + 1
                    && final(self).diagnostics@.last().code == INVALID_DECLARATION_CODE
                    && final(self).diagnostics@.last().span == Some(ts[c + 3].spec_span())
            }),
            ({
                let ts = old(self).tokens@;
                let c = old(self).cursor as int;
                scalar_of_kind(ts[c].spec_kind()) is Some && c + 2 < ts.len() && is_declaration_name_kind(
                    ts[c + 1].spec_kind(),
                ) && !(ts[c + 2].spec_kind() is Equal) && !(ts[c + 2].spec_kind() is LeftBracket)
                    && !is_statement_boundary_kind(ts[c + 2].spec_kind()) ==> r is None
                    && final(self).diagnostics@.len() == old(self).diagnostics@.len() + 1
                    && final(self).diagnostics@.last().code == INVALID_DECLARATION_CODE
                    && final(self).diagnostics@.last().span == Some(ts[c + 2].spec_span())
            }),
            ({
                let ts = old(self).tokens@;
                let c = old(self).cursor as int;
                scalar_of_kind(ts[c].spec_kind()) is Some && c + 5 < ts.len() && is_declaration_name_kind(
                    ts[c + 1].spec_kind(),
                ) && ts[c + 2].spec_kind()
                    is LeftBracket && is_simple_segment_kind(ts[c + 3].spec_kind()) && ts[c + 4].spec_kind()
                    is RightBracket && is_statement_boundary_kind(ts[c + 5].spec_kind()) ==> (r matches Some(
                    Statement::Declaration { target, declared_type, constraint_path, value, .. },
                ) && target == name_of(ts[c + 1]) && declared_type == DeclaredType::Scalar(
                    scalar_of_kind(ts[c].spec_kind())->Some_0,
                ) && (constraint_path matches Some(p) && p.segments@ == seq![simple_segment(ts[c + 3])])
                    && value is None) && final(self).diagnostics@ == old(self).diagnostics@
            }),
            ({
                let ts = old(self).tokens@;
                let c = old(self).cursor as int;
                ts[c].spec_kind() == TokenKind::Keyword(KeywordKind::Const) && c + 4 < ts.len()
                    && ts[c + 1].spec_kind() is Identifier
                    && ts[c + 2].spec_kind() is LeftBracket && is_simple_segment_kind(ts[c + 3].spec_kind())
                    && ts[c + 4].spec_kind() is RightBracket ==> r is None && final(self).diagnostics@.len()
                    == old(self).diagnostics@.len() + 1 && final(self).diagnostics@.last().code
                    == UNSUPPORTED_CONST_PATH_CODE
            }),
        decreases old(self).remaining(), 39int,
    {
        let start = self.current().span().start();
        let is_const = self.at(TokenKind::Keyword(KeywordKind::Const));
        if is_const {
            self.bump();
        }
        let declared_type = self.parse_declared_type();
        let is_set_type = match &declared_type {
            Some(DeclaredType::SetType(_)) => true,
            _ => false,
        };
        if is_const && is_set_type {
            let span = self.current().span();
            self.push_error(
                UNSUPPORTED_CONST_SET_TYPE_CODE,
                "x03.parse.const_set_type_not_supported",
                span,
                "C2-B 尚未开放 const 集合类型声明".to_owned(),
            );
            self.synchronize_to_boundary();
            return None;
        }
        if !is_declaration_name_token(self.current().kind()) {
            let span = self.current().span();
            self.push_error(
                INVALID_DECLARATION_TARGET_CODE,
                "x02.parse.invalid_declaration_target",
                span,
                "类型或 const 后必须是名称".to_owned(),
            );
            self.synchronize_to_boundary();
            return None;
        }
        let target = self.parse_name();
        let constraint_path = if self.at(TokenKind::LeftBracket) {
            self.parse_declaration_path()
        } else {
            None
        };
        let path_span = match &constraint_path {
            Some(path) => path.span(),
            None => target.span,
        };
        if is_set_type && constraint_path.is_some() {
            self.push_error(
                UNSUPPORTED_SET_TYPE_PATH_CODE,
                "x03.parse.set_type_path_not_supported",
                path_span,
                "C2-B 的集合类型注解只能用于变量根声明".to_owned(),
            );
            self.synchronize_to_boundary();
            return None;
        }
        if is_const && constraint_path.is_some() {
            self.push_error(
                UNSUPPORTED_CONST_PATH_CODE,
                "x03.parse.const_path_not_supported",
                path_span,
                "C0 尚未开放 const 的容器路径锁定语义".to_owned(),
            );
            self.synchronize_to_boundary();
            return None;
        }
        if !is_const && is_statement_boundary(self.current().kind()) {
            let span = self.source_span(start, target.span.end());
            self.consume_newline();
            return Some(
                Statement::Declaration {
                    target,
                    declared_type: declared_type.unwrap(),
                    constraint_path,
                    value: None,
                    leading_docs,
                    span,
                },
            );
        }
        let code = if is_const {
            MISSING_CONST_VALUE_CODE
        } else {
            INVALID_DECLARATION_CODE
        };
        let message_id = if is_const {
            "x02.parse.missing_const_value"
        } else {
            "x02.parse.invalid_declaration"
        };
        if !self.at(TokenKind::Equal) {
            let span = self.current().span();
            let message = if is_const {
                "const 声明必须包含初始化表达式"
            } else {
                "类型声明后只能跟初始化赋值或语句结束"
            };
            self.push_error(code, message_id, span, message.to_owned());
            self.synchronize_to_boundary();
            return None;
        }
        self.bump();
        if is_statement_boundary(self.current().kind()) {
            let span = self.current().span();
            self.push_error(code, message_id, span, "声明初始化表达式不能为空".to_owned());
            self.synchronize_to_boundary();
            return None;
        }
        let value_diagnostics = self.diagnostics.len();
        let value = match self.parse_expression() {
            Some(value) => value,
            None => {
                if self.diagnostics.len() == value_diagnostics {
                    let span = self.current().span();
                    self.push_error(
                        INVALID_DECLARATION_CODE,
                        "x02.parse.invalid_declaration_value",
                        span,
                        "声明初始化表达式无效".to_owned(),
                    );
                }
                self.synchronize_to_boundary();
                return None;
            },
        };
        if !is_statement_boundary(self.current().kind()) {
            let span = self.current().span();
            self.push_error(
                INVALID_DECLARATION_CODE,
                "x02.parse.invalid_declaration_tail",
                span,
                "声明表达式后存在未预期内容".to_owned(),
            );
            self.synchronize_to_boundary();
            return None;
        }
        let span = self.source_span(start, value.span().end());
        self.consume_newline();
        if is_const {
            let scalar = match &declared_type {
                Some(declared) => declared.as_scalar(),
                None => None,
            };
            Some(
                Statement::ConstDeclaration {
                    target,
                    declared_type: scalar,
                    value,
                    leading_docs,
                    span,
                },
            )
        } else {
            Some(
                Statement::Declaration {
                    target,
                    declared_type: declared_type.unwrap(),
                    constraint_path,
                    value: Some(value),
                    leading_docs,
                    span,
                },
            )
        }
    }

    /// Parses a scalar type or a `set<T | U>` annotation.
    fn parse_declared_type(&mut self) -> (r: Option<DeclaredType>)
        requires
            old(self).wf(),
        ensures
            final(self).steps_from(old(self)),
            (is_scalar_type_kind(old(self).cur_kind()) || old(self).spec_starts_set_type()) ==> r
                is Some && final(self).cursor > old(self).cursor,
            !(is_scalar_type_kind(old(self).cur_kind()) || old(self).spec_starts_set_type()) ==> r
                is None && final(self).cursor == old(self).cursor && final(self).diagnostics@ == old(self).diagnostics@
                && final(self).soft_newline_depth == old(self).soft_newline_depth && final(self).angle_depth == old(self).angle_depth,
            (scalar_of_kind(old(self).cur_kind()) matches Some(t) ==> r == Some(DeclaredType::Scalar(t))
                && final(self).cursor == old(self).cursor + 1 && final(self).diagnostics@ == old(self).diagnostics@
                && final(self).soft_newline_depth == old(self).soft_newline_depth && final(self).angle_depth == old(self).angle_depth),
    {
        let kind = self.current().kind();
        if is_scalar_type_token(kind) {
            let token = self.bump();
            let scalar = match token.kind() {
                TokenKind::Keyword(keyword) => ScalarType::from_keyword(keyword),
                _ => None,
            };
            return Some(DeclaredType::Scalar(scalar.unwrap()));
        }
        if self.starts_set_type() {
            match self.parse_set_type_annotation() {
                Some(annotation) => Some(DeclaredType::SetType(annotation)),
                None => None,
            }
        } else {
            None
        }
    }

    /// Parses `set<T>` or `set<T | U>`, keeping the span of the annotation.
    fn parse_set_type_annotation(&mut self) -> (r: Option<SetTypeAnnotation>)
        requires
            old(self).wf(),
            old(self).cur_kind() == TokenKind::Identifier,
        ensures
            final(self).steps_from(old(self)),
            final(self).cursor > old(self).cursor,
            old(self).cursor + 1 < old(self).tokens@.len() && old(self).tokens@[old(self).cursor
                + 1].spec_kind() == TokenKind::Less ==> r is Some,
            r matches Some(annotation) ==> final(self).covers(old(self).pos(), annotation.span),
    {
        let open_name = self.bump();
        let open = if self.at(TokenKind::Less) {
            self.bump()
        } else {
            let span = self.current().span();
            self.push_error(
                INVALID_SET_TYPE_ANNOTATION_CODE,
                "x03.parse.invalid_set_type_annotation",
                span,
                "集合类型注解缺少左尖括号".to_owned(),
            );
            return None;
        };
        self.soft_newline_depth = self.soft_newline_depth.saturating_add(1);
        self.skip_type_layout();
        let mut members: Vec<TypeTerm> = Vec::new();
        if self.at(TokenKind::Greater) {
            let span = self.current().span();
            self.push_error(
                INVALID_SET_TYPE_ANNOTATION_CODE,
                "x03.parse.empty_set_type_annotation",
                span,
                "集合类型注解至少需要一个类型项".to_owned(),
            );
        } else {
            loop
                invariant
                    self.steps_from(old(self)),
                    self.cursor > old(self).cursor,
                    open.spec_span().spec_end() <= self.pos(),
                decreases self.remaining(),
            {
                let term = match self.parse_set_type_term() {
                    Some(term) => term,
                    None => {
                        self.recover_set_type_annotation();
                        break;
                    },
                };
                members.push(term);
                self.skip_type_layout();
                if !self.at(TokenKind::Pipe) {
                    break;
                }
                self.bump();
                self.skip_type_layout();
                if self.at(TokenKind::Greater) {
                    let span = self.current().span();
                    self.push_error(
                        INVALID_SET_TYPE_ANNOTATION_CODE,
                        "x03.parse.trailing_set_type_pipe",
                        span,
                        "集合类型并集分隔符后缺少类型项".to_owned(),
                    );
                    break;
                }
            }
        }
        self.skip_type_layout();
        let close = self.expect_delimiter(TokenKind::Greater, open.span());
        self.soft_newline_depth = self.soft_newline_depth.saturating_sub(1);
        let end = match close {
            Some(token) => token.span().end(),
            None => if members.len() == 0 {
                open_name.span().end()
            } else {
                open.span().end()
            },
        };
        let span = self.source_span(open_name.span().start(), end);
        Some(SetTypeAnnotation::new(members, span))
    }

    /// Parses one scalar or `none` term of a set type annotation.
    fn parse_set_type_term(&mut self) -> (r: Option<TypeTerm>)
        requires
            old(self).wf(),
        ensures
            final(self).steps_from(old(self)),
            r is Some ==> final(self).cursor == old(self).cursor + 1,
            r is None ==> final(self).cursor == old(self).cursor,
            scalar_of_kind(old(self).cur_kind()) matches Some(t) ==> r == Some(TypeTerm::Scalar(t)),
            old(self).cur_kind() == TokenKind::NoneLiteral ==> r == Some(TypeTerm::NoneType),
            scalar_of_kind(old(self).cur_kind()) is None && old(self).cur_kind() != TokenKind::NoneLiteral
                ==> r is None && final(self).diagnostics@.len() == old(self).diagnostics@.len() + 1
                && final(self).diagnostics@.last().code == INVALID_SET_TYPE_ANNOTATION_CODE,
            r is Some ==> final(self).diagnostics@ == old(self).diagnostics@,
    {
        let token = self.current();
        if is_scalar_type_token(token.kind()) {
            self.bump();
            let scalar = match token.kind() {
                TokenKind::Keyword(keyword) => ScalarType::from_keyword(keyword),
                _ => None,
            };
            return match scalar {
                Some(scalar) => Some(TypeTerm::Scalar(scalar)),
                None => None,
            };
        }
        if token.kind() == TokenKind::NoneLiteral {
            self.bump();
            return Some(TypeTerm::NoneType);
        }
        self.push_error(
            INVALID_SET_TYPE_ANNOTATION_CODE,
            "x03.parse.invalid_set_type_term",
            token.span(),
            "集合类型并集只能包含标量类型或 none".to_owned(),
        );
        None
    }

    /// Consumes an invalid type term up to the closing angle bracket or the
    /// end of the statement.
    fn recover_set_type_annotation(&mut self)
        requires
            old(self).wf(),
        ensures
            final(self).steps_from(old(self)),
            final(self).diagnostics@ == old(self).diagnostics@,
            final(self).soft_newline_depth == old(self).soft_newline_depth,
            final(self).angle_depth == old(self).angle_depth,
            final(self).block_context_depth == old(self).block_context_depth,
            ends_set_type_recovery(final(self).cur_kind()),
            forall|k: int|
                old(self).cursor <= k < final(self).cursor ==> !ends_set_type_recovery(
                    (#[trigger] old(self).tokens@[k]).spec_kind(),
                ),
    {
        loop
            invariant
                self.steps_from(old(self)),
                self.diagnostics@ == old(self).diagnostics@,
                self.soft_newline_depth == old(self).soft_newline_depth,
                self.angle_depth == old(self).angle_depth,
                self.block_context_depth == old(self).block_context_depth,
                forall|k: int|
                    old(self).cursor <= k < self.cursor ==> !ends_set_type_recovery(
                        (#[trigger] old(self).tokens@[k]).spec_kind(),
                    ),
            ensures
                self.steps_from(old(self)),
                self.diagnostics@ == old(self).diagnostics@,
                self.soft_newline_depth == old(self).soft_newline_depth,
                self.angle_depth == old(self).angle_depth,
                self.block_context_depth == old(self).block_context_depth,
                forall|k: int|
                    old(self).cursor <= k < self.cursor ==> !ends_set_type_recovery(
                        (#[trigger] old(self).tokens@[k]).spec_kind(),
                    ),
                ends_set_type_recovery(self.cur_kind()),
            decreases self.remaining(),
        {
            let kind = self.current().kind();
            match kind {
                TokenKind::Greater | TokenKind::Newline | TokenKind::Indent | TokenKind::Dedent
                | TokenKind::Eof => {
                    break;
                },
                _ => {
                    self.bump();
                },
            }
        }
    }

    /// Skips layout tokens inside a set type annotation; an annotation may
    /// span lines, and its indentation is formatting only.
    fn skip_type_layout(&mut self)
        requires
            old(self).wf(),
        ensures
            final(self).steps_from(old(self)),
            final(self).diagnostics@ == old(self).diagnostics@,
            final(self).soft_newline_depth == old(self).soft_newline_depth,
            final(self).angle_depth == old(self).angle_depth,
            final(self).block_context_depth == old(self).block_context_depth,
            !is_layout_kind(final(self).cur_kind()),
            forall|k: int|
                old(self).cursor <= k < final(self).cursor ==> is_layout_kind(
                    (#[trigger] old(self).tokens@[k]).spec_kind(),
                ),
    {
        loop
            invariant
                self.steps_from(old(self)),
                self.diagnostics@ == old(self).diagnostics@,
                self.soft_newline_depth == old(self).soft_newline_depth,
                self.angle_depth == old(self).angle_depth,
                self.block_context_depth == old(self).block_context_depth,
                forall|k: int|
                    old(self).cursor <= k < self.cursor ==> is_layout_kind(
                        (#[trigger] old(self).tokens@[k]).spec_kind(),
                    ),
            ensures
                self.steps_from(old(self)),
                self.diagnostics@ == old(self).diagnostics@,
                self.soft_newline_depth == old(self).soft_newline_depth,
                self.angle_depth == old(self).angle_depth,
                self.block_context_depth == old(self).block_context_depth,
                forall|k: int|
                    old(self).cursor <= k < self.cursor ==> is_layout_kind(
                        (#[trigger] old(self).tokens@[k]).spec_kind(),
                    ),
                !is_layout_kind(self.cur_kind()),
            decreases self.remaining(),
        {
            let kind = self.current().kind();
            match kind {
                TokenKind::Newline | TokenKind::Indent | TokenKind::Dedent => {
                    self.bump();
                },
                _ => {
                    break;
                },
            }
        }
    }

    /// Parses the exact array path after a declared name.
    fn parse_declaration_path(&mut self) -> (r: Option<IndexPath>)
        requires
            old(self).wf(),
            old(self).cur_kind() == TokenKind::LeftBracket,
        ensures
            final(self).steps_from(old(self)),
            r matches Some(path) ==> span_fits(final(self).spec_bytes(), path.span),
            ({
                let ts = old(self).tokens@;
                let j = next_non_newline(ts, old(self).cursor + 1);
                &&& old(self).cursor + 1 <= j < ts.len()
                &&& ends_path(ts[j].spec_kind()) ==> r is None
                &&& r is None ==> ends_path(ts[j].spec_kind()) || final(self).diagnostics@.len()
                    > old(self).diagnostics@.len()
                &&& r matches Some(path) ==> path.segments@.len() >= 1 && path.span.spec_start()
                    == ts[j].spec_span().spec_start()
            }),
            ({
                let ts = old(self).tokens@;
                let c = old(self).cursor as int;
                c + 2 < ts.len() && is_simple_segment_kind(ts[c + 1].spec_kind()) && ts[c + 2].spec_kind()
                    is RightBracket ==> (r matches Some(path)
                    && path.segments@ == seq![simple_segment(ts[c + 1])]) && final(self).cursor == c + 3
                    && final(self).diagnostics@ == old(self).diagnostics@
            }),
    {
        let open = self.bump();
        self.soft_newline_depth = self.soft_newline_depth.saturating_add(1);
        let ghost start = self.cursor as int;
        self.skip_soft_newlines();
        proof {
            self.lemma_token(self.cursor as int);
            lemma_next_non_newline(self.tokens@, start, self.cursor as int);
        }
        let path = self.parse_index_path();
        self.skip_soft_newlines();
        let _ = self.expect_delimiter(TokenKind::RightBracket, open.span());
        self.soft_newline_depth = self.soft_newline_depth.saturating_sub(1);
        path
    }
}

impl<'source> Parser<'source> {
    /// Parses `try`, one or more `catch binding as ErrorType` handlers and an
    /// optional `finally`.
    fn parse_try_statement(&mut self, leading_docs: Vec<SourceSpan>) -> (r: Option<Statement>)
        requires
            old(self).wf(),
            old(self).cur_kind() == TokenKind::Keyword(KeywordKind::Try),
        ensures
            final(self).steps_from(old(self)),
            final(self).cursor > old(self).cursor,
            r matches Some(st) ==> final(self).covers(old(self).pos(), st.spec_span()),
            r matches Some(st) ==> final(self).nodes_fit(statement_nodes(st)),
            r is None ==> final(self).failure_reported(old(self)),
            r matches Some(st) ==> st is Try,
        decreases old(self).remaining(), 39int,
    {
        let keyword = self.bump();
        let (body, first_end) = self.parse_indented_block(keyword.span());
        let mut end = first_end;
        let mut catches: Vec<CatchClause> = Vec::new();
        let mut finally_body: Option<Vec<Statement>> = None;
        while self.at(TokenKind::Newline)
            invariant
                self.steps_from(old(self)),
                self.cursor > old(self).cursor,
                old(self).pos() <= end <= self.pos(),
            decreases self.remaining(),
        {
            self.bump();
        }
        while self.at(TokenKind::Keyword(KeywordKind::Catch))
            invariant
                self.steps_from(old(self)),
                self.cursor > old(self).cursor,
                old(self).pos() <= end <= self.pos(),
                is_boundary(self.spec_bytes(), end as int),
                self.nodes_fit(statements_nodes(body@, body@.len() as int)),
                self.nodes_fit(catches_nodes(catches@, catches@.len() as int)),
            decreases self.remaining(),
        {
            let catch_keyword = self.bump();
            let binding = match self.parse_parameter_name() {
                Some(binding) => binding,
                None => {
                    self.synchronize_to_boundary();
                    break;
                },
            };
            if !self.at(TokenKind::Keyword(KeywordKind::As)) {
                let span = self.current().span();
                self.push_error(
                    INVALID_ERROR_CONTROL_FLOW_CODE,
                    "x07.parse.catch_missing_as",
                    span,
                    "catch 绑定名后必须使用 as 指定错误类型".to_owned(),
                );
                self.synchronize_to_boundary();
                break;
            }
            self.bump();
            let error_type = match self.parse_parameter_name() {
                Some(error_type) => error_type,
                None => {
                    self.synchronize_to_boundary();
                    break;
                },
            };
            if !is_statement_boundary(self.current().kind()) {
                let span = self.current().span();
                self.push_error(
                    INVALID_ERROR_CONTROL_FLOW_CODE,
                    "x07.parse.catch_header_tail",
                    span,
                    "catch 头后存在未预期内容".to_owned(),
                );
                self.synchronize_to_boundary();
                break;
            }
            let header = self.source_span(catch_keyword.span().start(), error_type.span.end());
            let (catch_body, catch_end) = self.parse_indented_block(header);
            if catch_end > end {
                end = catch_end;
            }
            let span = self.source_span(catch_keyword.span().start(), catch_end);
            let clause = CatchClause {
                binding,
                error_type,
                body: catch_body,
                leading_docs: Vec::new(),
                span,
            };
            proof {
                let b = self.spec_bytes();
                let heads = seq![span, binding.span, error_type.span];
                assert forall|k: int| 0 <= k < heads.len() implies span_fits(b, #[trigger] heads[k]) by {
                    if k == 0 {
                        assert(heads[k] == span);
                    } else if k == 1 {
                        assert(heads[k] == binding.span);
                    } else {
                        assert(heads[k] == error_type.span);
                    }
                }
                lemma_fit_concat(
                    b,
                    heads,
                    statements_nodes(clause.body@, clause.body@.len() as int),
                );
                lemma_catches_push(b, catches@, clause);
            }
            catches.push(clause);
            let ghost iteration_start = self.cursor;
            while self.at(TokenKind::Newline)
                invariant
                    self.steps_from(old(self)),
                    self.cursor > old(self).cursor,
                    self.cursor >= iteration_start,
                    old(self).pos() <= end <= self.pos(),
                decreases self.remaining(),
            {
                self.bump();
            }
        }
        if self.at(TokenKind::Keyword(KeywordKind::Finally)) {
            let finally_keyword = self.bump();
            let (finally_statements, finally_end) = self.parse_indented_block(
                finally_keyword.span(),
            );
            if finally_end > end {
                end = finally_end;
            }
            finally_body = Some(finally_statements);
        }
        let had_handler = catches.len() > 0 || finally_body.is_some();
        if had_handler && self.block_context_depth == 0 && self.at(TokenKind::Dedent) {
            let token = self.bump();
            if token.span().end() > end {
                end = token.span().end();
            }
        }
        if !had_handler {
            self.push_error(
                MISSING_ERROR_HANDLER_CODE,
                "x07.parse.missing_handler",
                keyword.span(),
                "try 后必须至少包含 catch 或 finally".to_owned(),
            );
            return None;
        }
        let span = self.source_span(keyword.span().start(), end);
        let ghost finally_nodes = if finally_body is Some {
            statements_nodes(finally_body->0@, finally_body->0@.len() as int)
        } else {
            Seq::<SourceSpan>::empty()
        };
        proof {
            let b = self.spec_bytes();
            lemma_fit_node2(
                b,
                span,
                statements_nodes(body@, body@.len() as int),
                catches_nodes(catches@, catches@.len() as int),
            );
            lemma_fit_concat(
                b,
                seq![span] + statements_nodes(body@, body@.len() as int) + catches_nodes(
                    catches@,
                    catches@.len() as int,
                ),
                finally_nodes,
            );
        }
        Some(Statement::Try { body, catches, finally_body, leading_docs, span })
    }

    /// Parses `raise error_expression`.
    fn parse_raise_statement(&mut self, leading_docs: Vec<SourceSpan>) -> (r: Option<Statement>)
        requires
            old(self).wf(),
            old(self).cur_kind() == TokenKind::Keyword(KeywordKind::Raise),
        ensures
            final(self).steps_from(old(self)),
            final(self).cursor > old(self).cursor,
            r matches Some(st) ==> final(self).covers(old(self).pos(), st.spec_span()),
            r matches Some(st) ==> final(self).nodes_fit(statement_nodes(st)),
            r matches Some(st) ==> st is Raise,
        decreases old(self).remaining(), 39int,
    {
        let keyword = self.bump();
        if is_statement_boundary(self.current().kind()) {
            self.push_error(
                MISSING_RAISE_VALUE_CODE,
                "x07.parse.missing_raise_value",
                keyword.span(),
                "raise 后必须提供错误表达式".to_owned(),
            );
            self.synchronize_to_boundary();
            return None;
        }
        let value = match self.parse_expression() {
            Some(value) => value,
            None => {
                return None;
            },
        };
        if !is_statement_boundary(self.current().kind()) {
            let span = self.current().span();
            self.push_error(
                INVALID_ERROR_CONTROL_FLOW_CODE,
                "x07.parse.raise_tail",
                span,
                "raise 表达式后存在未预期内容".to_owned(),
            );
            self.synchronize_to_boundary();
            return None;
        }
        let span = self.source_span(keyword.span().start(), value.span_end());
        self.consume_newline();
        Some(Statement::Raise { value, leading_docs, span })
    }
}

// ---------------------------------------------------------------------------
// Imports
// ---------------------------------------------------------------------------

impl<'source> Parser<'source> {
    /// Returns whether the current token ends a statement.
    fn is_statement_boundary_current(&self) -> (r: bool)
        requires
            self.wf(),
        ensures
            r == is_statement_boundary_kind(self.cur_kind()),
    {
        is_statement_boundary(self.current().kind())
    }

    /// Parses an `import` or `from ... import ...` statement.
    fn parse_import_statement(&mut self, leading_docs: Vec<SourceSpan>) -> (r: Option<Statement>)
        requires
            old(self).wf(),
            old(self).cur_kind() == TokenKind::Keyword(KeywordKind::Import) || old(self).cur_kind()
                == TokenKind::Keyword(KeywordKind::From),
        ensures
            final(self).steps_from(old(self)),
            final(self).cursor > old(self).cursor,
            r matches Some(st) ==> final(self).covers(old(self).pos(), st.spec_span()),
            r matches Some(st) ==> final(self).nodes_fit(statement_nodes(st)),
            r is None ==> final(self).failure_reported(old(self)),
            r matches Some(st) ==> st is Import,
    {
        let keyword = self.bump();
        let result = if keyword.kind() == TokenKind::Keyword(KeywordKind::Import) {
            self.parse_module_imports(keyword.span())
        } else {
            self.parse_from_imports(keyword.span())
        };
        let (import, end) = match result {
            Some(pair) => pair,
            None => {
                self.synchronize_to_boundary();
                return None;
            },
        };
        if !self.is_statement_boundary_current() {
            let span = self.current().span();
            self.push_error(
                INVALID_IMPORT_TARGET_CODE,
                "x05.parse.import_tail",
                span,
                "导入语句后存在未预期内容".to_owned(),
            );
            self.synchronize_to_boundary();
            return None;
        }
        self.consume_newline();
        let span = self.source_span(keyword.span().start(), end);
        Some(Statement::Import { import, leading_docs, span })
    }

    /// Parses the list `a.b [as c], d.e` of an `import` statement; also
    /// returns where the list ends.
    fn parse_module_imports(&mut self, keyword_span: SourceSpan) -> (r: Option<(ImportStatement, usize)>)
        requires
            old(self).wf(),
            span_fits(old(self).spec_bytes(), keyword_span),
            keyword_span.spec_end() <= old(self).pos(),
        ensures
            final(self).steps_from(old(self)),
            r matches Some(pair) ==> keyword_span.spec_end() <= pair.1 <= final(self).pos()
                && is_boundary(final(self).spec_bytes(), pair.1 as int),
            r is None ==> final(self).diagnostics@.len() == old(self).diagnostics@.len() + 1,
            r is Some ==> final(self).diagnostics@ == old(self).diagnostics@,
            (r matches Some(pair) ==> pair.0 matches ImportStatement::Modules { imports, .. } && imports@.len() >= 1
                && imports@[0].path.span.spec_start() == old(self).pos()),
    {
        let mut imports: Vec<ModuleImport> = Vec::new();
        let mut end = keyword_span.end();
        loop
            invariant
                self.steps_from(old(self)),
                self.diagnostics@ == old(self).diagnostics@,
                imports@.len() == 0 ==> self.cursor == old(self).cursor,
                imports@.len() >= 1 ==> imports@[0].path.span.spec_start() == old(self).pos(),
                span_fits(self.spec_bytes(), keyword_span),
                keyword_span.spec_end() <= end <= self.pos(),
                is_boundary(self.spec_bytes(), end as int),
            ensures
                self.steps_from(old(self)),
                self.diagnostics@ == old(self).diagnostics@,
                imports@.len() == 0 ==> self.cursor == old(self).cursor,
                imports@.len() >= 1 ==> imports@[0].path.span.spec_start() == old(self).pos(),
                span_fits(self.spec_bytes(), keyword_span),
                keyword_span.spec_end() <= end <= self.pos(),
                is_boundary(self.spec_bytes(), end as int),
                imports@.len() >= 1,
            decreases self.remaining(),
        {
            let item = match self.parse_module_import_item(keyword_span) {
                Some(item) => item,
                None => {
                    return None;
                },
            };
            end = item.span.end();
            imports.push(item);
            if !self.at(TokenKind::Comma) {
                break;
            }
            self.bump();
            if self.is_statement_boundary_current() {
                let span = self.current().span();
                self.push_error(
                    INVALID_IMPORT_TARGET_CODE,
                    "x05.parse.trailing_import_comma",
                    span,
                    "导入列表末尾不能有逗号".to_owned(),
                );
                return None;
            }
        }
        let span = self.source_span(keyword_span.start(), end);
        Some((ImportStatement::Modules { imports, span }, end))
    }

    /// Parses `from a.b import X [as Y], Z` after `from`; also returns where
    /// the statement ends.
    fn parse_from_imports(&mut self, keyword_span: SourceSpan) -> (r: Option<(ImportStatement, usize)>)
        requires
            old(self).wf(),
            span_fits(old(self).spec_bytes(), keyword_span),
            keyword_span.spec_end() <= old(self).pos(),
        ensures
            final(self).steps_from(old(self)),
            r matches Some(pair) ==> keyword_span.spec_end() <= pair.1 <= final(self).pos()
                && is_boundary(final(self).spec_bytes(), pair.1 as int),
            r is None ==> final(self).diagnostics@.len() == old(self).diagnostics@.len() + 1,
            r is Some ==> final(self).diagnostics@ == old(self).diagnostics@,
            (r matches Some(pair) ==> pair.0 matches ImportStatement::From { module, imports, .. } && imports@.len() >= 1
                && module.span.spec_start() == old(self).pos()),
    {
        let module = match self.parse_import_path(keyword_span) {
            Some(module) => module,
            None => {
                return None;
            },
        };
        if !self.at(TokenKind::Keyword(KeywordKind::Import)) {
            let span = self.current().span();
            self.push_error(
                INVALID_IMPORT_TARGET_CODE,
                "x05.parse.missing_from_import",
                span,
                "from 路径后必须是 import".to_owned(),
            );
            return None;
        }
        self.bump();
        let mut imports: Vec<SelectedImport> = Vec::new();
        let mut end = module.span().end();
        loop
            invariant
                self.steps_from(old(self)),
                keyword_span.spec_end() <= end <= self.pos(),
                is_boundary(self.spec_bytes(), end as int),
                span_fits(self.spec_bytes(), module.span),
                self.diagnostics@ == old(self).diagnostics@,
                module.span.spec_start() == old(self).pos(),
            ensures
                self.steps_from(old(self)),
                keyword_span.spec_end() <= end <= self.pos(),
                is_boundary(self.spec_bytes(), end as int),
                span_fits(self.spec_bytes(), module.span),
                self.diagnostics@ == old(self).diagnostics@,
                module.span.spec_start() == old(self).pos(),
                imports@.len() >= 1,
            decreases self.remaining(),
        {
            let item = match self.parse_selected_import_item(module.span()) {
                Some(item) => item,
                None => {
                    return None;
                },
            };
            end = item.span.end();
            imports.push(item);
            if !self.at(TokenKind::Comma) {
                break;
            }
            self.bump();
            if self.is_statement_boundary_current() {
                let span = self.current().span();
                self.push_error(
                    INVALID_IMPORT_TARGET_CODE,
                    "x05.parse.trailing_import_comma",
                    span,
                    "导入列表末尾不能有逗号".to_owned(),
                );
                return None;
            }
        }
        let span = self.source_span(keyword_span.start(), end);
        Some((ImportStatement::From { module, imports, span }, end))
    }

    /// Parses a module path with an optional alias.
    fn parse_module_import_item(&mut self, opener: SourceSpan) -> (r: Option<ModuleImport>)
        requires
            old(self).wf(),
            span_fits(old(self).spec_bytes(), opener),
        ensures
            final(self).steps_from(old(self)),
            r matches Some(item) ==> final(self).covers(old(self).pos(), item.span)
                && final(self).cursor > old(self).cursor,
            r is None ==> final(self).diagnostics@.len() == old(self).diagnostics@.len() + 1,
            r is Some ==> final(self).diagnostics@ == old(self).diagnostics@,
            r matches Some(item) ==> item.path.span.spec_start() == old(self).pos() && item.span.spec_start()
                == old(self).pos(),
            !(old(self).cur_kind() is Identifier) ==> r is None,
    {
        let path = match self.parse_import_path(opener) {
            Some(path) => path,
            None => {
                return None;
            },
        };
        let path_span = path.span();
        let alias = match self.parse_optional_alias(path_span) {
            Some(alias) => alias,
            None => {
                return None;
            },
        };
        let end = match alias {
            Some(name) => name.span.end(),
            None => path_span.end(),
        };
        let span = self.source_span(path_span.start(), end);
        Some(ModuleImport { path, alias, span })
    }

    /// Parses one selected name with an optional alias.
    fn parse_selected_import_item(&mut self, opener: SourceSpan) -> (r: Option<SelectedImport>)
        requires
            old(self).wf(),
            span_fits(old(self).spec_bytes(), opener),
        ensures
            final(self).steps_from(old(self)),
            r matches Some(item) ==> final(self).covers(old(self).pos(), item.span)
                && final(self).cursor > old(self).cursor,
            r is None ==> final(self).diagnostics@.len() == old(self).diagnostics@.len() + 1,
            r is Some ==> final(self).diagnostics@ == old(self).diagnostics@,
            old(self).cur_kind() == TokenKind::Star ==> r is None && final(self).diagnostics@.last().code
                == UNSUPPORTED_IMPORT_FORM_CODE,
            !is_declaration_name_kind(old(self).cur_kind()) && old(self).cur_kind() != TokenKind::Star ==> r is None
                && final(self).diagnostics@.last().code == INVALID_IMPORT_TARGET_CODE,
            r matches Some(item) ==> item.name.span == old(self).cur().spec_span() && item.span.spec_start()
                == old(self).pos(),
    {
        if self.at(TokenKind::Star) {
            let token = self.bump();
            self.push_error(
                UNSUPPORTED_IMPORT_FORM_CODE,
                "x05.parse.wildcard_import",
                token.span(),
                "当前阶段不支持通配导入".to_owned(),
            );
            return None;
        }
        if !is_declaration_name_token(self.current().kind()) {
            let span = self.current().span();
            self.push_error(
                INVALID_IMPORT_TARGET_CODE,
                "x05.parse.missing_import_name",
                span,
                "from 导入后必须是名称".to_owned(),
            );
            return None;
        }
        let name = self.parse_name();
        let alias = match self.parse_optional_alias(name.span) {
            Some(alias) => alias,
            None => {
                return None;
            },
        };
        let end = match alias {
            Some(value) => value.span.end(),
            None => name.span.end(),
        };
        let _ = opener;
        let span = self.source_span(name.span.start(), end);
        Some(SelectedImport { name, alias, span })
    }

    /// Parses an optional `as alias`; an alias identical to its target is
    /// rejected.
    fn parse_optional_alias(&mut self, opener: SourceSpan) -> (r: Option<Option<Name>>)
        requires
            old(self).wf(),
            span_fits(old(self).spec_bytes(), opener),
        ensures
            final(self).steps_from(old(self)),
            r matches Some(Some(alias)) ==> final(self).covers(old(self).pos(), alias.span),
            r is None ==> final(self).diagnostics@.len() == old(self).diagnostics@.len() + 1,
            r is Some ==> final(self).diagnostics@ == old(self).diagnostics@,
            old(self).cur_kind() != TokenKind::Keyword(KeywordKind::As) ==> r == Some(None::<Name>)
                && final(self).cursor == old(self).cursor,
            old(self).cur_kind() == TokenKind::Keyword(KeywordKind::As) ==> (r is Some <==> (old(self).next_kind() matches Some(k)
                && is_declaration_name_kind(k) && old(self).tokens@[old(self).cursor + 1].spec_span() != opener)),
            old(self).cur_kind() == TokenKind::Keyword(KeywordKind::As) ==> (r matches Some(Some(alias))
                && alias.span == old(self).tokens@[old(self).cursor + 1].spec_span()) || r is None,
            r is None ==> final(self).diagnostics@.last().code == INVALID_IMPORT_ALIAS_CODE,
    {
        if !self.at(TokenKind::Keyword(KeywordKind::As)) {
            return Some(None);
        }
        self.bump();
        if !is_declaration_name_token(self.current().kind()) {
            let span = self.current().span();
            self.push_error(
                INVALID_IMPORT_ALIAS_CODE,
                "x05.parse.missing_import_alias",
                span,
                "as 后必须是名称别名".to_owned(),
            );
            return None;
        }
        let alias = self.parse_name();
        if alias.span == opener {
            self.push_error(
                INVALID_IMPORT_ALIAS_CODE,
                "x05.parse.invalid_import_alias",
                alias.span,
                "导入别名不能与导入目标相同".to_owned(),
            );
            return None;
        }
        Some(Some(alias))
    }

    /// Parses an absolute module path of ASCII names separated by dots.
    fn parse_import_path(&mut self, opener: SourceSpan) -> (r: Option<ImportPath>)
        requires
            old(self).wf(),
        ensures
            final(self).steps_from(old(self)),
            r matches Some(path) ==> final(self).covers(old(self).pos(), path.span)
                && final(self).cursor > old(self).cursor,
            r is None ==> final(self).diagnostics@.len() == old(self).diagnostics@.len() + 1,
            r is Some ==> final(self).diagnostics@ == old(self).diagnostics@,
            !(old(self).cur_kind() is Identifier) ==> r is None,
            old(self).cur_kind() == TokenKind::Dot ==> final(self).diagnostics@.last().code == UNSUPPORTED_IMPORT_FORM_CODE,
            r is None && old(self).cur_kind() != TokenKind::Dot ==> final(self).diagnostics@.last().code == INVALID_IMPORT_PATH_CODE,
            r matches Some(path) ==> path.segments@.len() >= 1 && path.segments@[0].span == old(self).cur().spec_span()
                && !(final(self).cur_kind() == TokenKind::Dot) && path.span.spec_start() == old(self).pos(),
    {
        let token = self.current();
        if !is_module_segment_token(token.kind()) {
            let relative = token.kind() == TokenKind::Dot;
            let code = if relative {
                UNSUPPORTED_IMPORT_FORM_CODE
            } else {
                INVALID_IMPORT_PATH_CODE
            };
            let message_id = if relative {
                "x05.parse.relative_import"
            } else {
                "x05.parse.missing_import_path"
            };
            self.push_error(
                code,
                message_id,
                token.span(),
                "导入路径必须从 ASCII 模块名称开始".to_owned(),
            );
            return None;
        }
        let first = self.parse_name();
        let mut end = first.span.end();
        let mut segments: Vec<Name> = vec![first];
        while self.at(TokenKind::Dot)
            invariant
                self.steps_from(old(self)),
                self.cursor > old(self).cursor,
                first.span.spec_start() == old(self).pos(),
                span_fits(self.spec_bytes(), first.span),
                first.span.spec_end() <= end <= self.pos(),
                is_boundary(self.spec_bytes(), end as int),
                self.diagnostics@ == old(self).diagnostics@,
                segments@.len() >= 1,
                segments@[0] == first,
                first.span == old(self).cur().spec_span(),
                old(self).cur_kind() is Identifier,
            decreases self.remaining(),
        {
            let dot = self.bump();
            if !is_module_segment_token(self.current().kind()) {
                self.push_error(
                    INVALID_IMPORT_PATH_CODE,
                    "x05.parse.missing_import_segment",
                    dot.span(),
                    "点号后必须是 ASCII 模块名称".to_owned(),
                );
                return None;
            }
            let segment = self.parse_name();
            end = segment.span.end();
            segments.push(segment);
        }
        let _ = opener;
        Some(ImportPath::new(segments, self.source_span(first.span.start(), end)))
    }
}

// ---------------------------------------------------------------------------
// Entry points
// ---------------------------------------------------------------------------

/// Returns a copy of a list of spans.
fn copy_spans(spans: &Vec<SourceSpan>) -> (r: Vec<SourceSpan>)
    ensures
        r@ == spans@,
{
    let mut copy: Vec<SourceSpan> = Vec::new();
    let mut i: usize = 0;
    while i < spans.len()
        invariant
            i <= spans@.len(),
            copy@ == spans@.subrange(0, i as int),
        decreases spans@.len() - i,
    {
        copy.push(spans[i]);
        i += 1;
        proof {
            assert(copy@ =~= spans@.subrange(0, i as int));
        }
    }
    proof {
        assert(copy@ =~= spans@);
    }
    copy
}

/// Moves every span of `source` to the end of `target`.
fn append_spans(target: &mut Vec<SourceSpan>, source: Vec<SourceSpan>)
    ensures
        final(target)@ == old(target)@ + source@,
{
    let mut i: usize = 0;
    while i < source.len()
        invariant
            i <= source@.len(),
            target@ == old(target)@ + source@.subrange(0, i as int),
        decreases source@.len() - i,
    {
        target.push(source[i]);
        i += 1;
        proof {
            assert(target@ =~= old(target)@ + source@.subrange(0, i as int));
        }
    }
    proof {
        assert(source@.subrange(0, source@.len() as int) =~= source@);
    }
}

/// The statements lie in the source and come in order without overlapping.
pub open spec fn statements_in_order(b: Seq<u8>, ss: Seq<Statement>) -> bool {
    &&& forall|i: int| 0 <= i < ss.len() ==> span_fits(b, (#[trigger] ss[i]).spec_span())
    &&& forall|i: int, j: int|
        #![trigger ss[i], ss[j]]
        0 <= i < j < ss.len() ==> ss[i].spec_span().spec_end() <= ss[j].spec_span().spec_start()
}

/// Appending a statement that starts at or after every end keeps the order.
proof fn lemma_push_in_order(b: Seq<u8>, ss: Seq<Statement>, st: Statement, pos: int)
    requires
        statements_in_order(b, ss),
        forall|i: int| 0 <= i < ss.len() ==> (#[trigger] ss[i]).spec_span().spec_end() <= pos,
        span_fits(b, st.spec_span()),
        pos <= st.spec_span().spec_start(),
    ensures
        statements_in_order(b, ss.push(st)),
        forall|i: int|
            0 <= i < ss.push(st).len() ==> (#[trigger] ss.push(st)[i]).spec_span().spec_end()
                <= st.spec_span().spec_end(),
{
    let t = ss.push(st);
    assert forall|i: int| 0 <= i < t.len() implies span_fits(b, (#[trigger] t[i]).spec_span()) by {
        if i < ss.len() {
            assert(t[i] == ss[i]);
        }
    }
    assert forall|i: int, j: int| 0 <= i < j < t.len() implies #[trigger] t[i].spec_span().spec_end()
        <= #[trigger] t[j].spec_span().spec_start() by {
        if j < ss.len() {
            assert(t[i] == ss[i]);
            assert(t[j] == ss[j]);
        } else {
            assert(t[i] == ss[i]);
        }
    }
    assert forall|i: int| 0 <= i < t.len() implies (#[trigger] t[i]).spec_span().spec_end()
        <= st.spec_span().spec_end() by {
        if i < ss.len() {
            assert(t[i] == ss[i]);
            assert(ss[i].spec_span().spec_end() <= pos);
        }
    }
}

/// What a parse of the source `b` promises: a program covering the whole
/// input whose top-level statements come in order, every node of whose tree,
/// documentation comment and entry header lies in the input, and diagnostics
/// that are errors pointing into it.
pub open spec fn parse_outcome(b: Seq<u8>, r: ParseResult) -> bool {
    &&& r.program is Some
    &&& r.program matches Some(p) && {
        &&& p.span.spec_start() == 0
        &&& p.span.spec_end() == b.len()
        &&& statements_in_order(b, p.statements@)
        &&& all_fit(b, program_nodes(p))
        &&& all_fit(b, p.orphan_doc_comments@)
        &&& (p.entry_mode matches EntryMode::Project { span } ==> span_fits(b, span))
    }
    &&& diagnostics_fit(b, r.diagnostics@)
}

/// A source with a token the lexer could not recognise never parses
/// successfully: the lexer reports every `Invalid` token, and the parse keeps
/// those diagnostics, all of which are errors.
pub proof fn lemma_invalid_token_fails_parse(b: Seq<u8>, tokens: Seq<Token>, before: Seq<Diagnostic>, r: ParseResult)
    requires
        count_kind(tokens, TokenKind::Invalid) <= before.len(),
        count_kind(tokens, TokenKind::Invalid) > 0,
        before.len() <= r.diagnostics@.len(),
        diagnostics_fit(b, r.diagnostics@),
    ensures
        has_error(r.diagnostics@),
{
    assert(diagnostic_of(b, r.diagnostics@[0]));
}

/// The nodes the side index numbers for a parsed program all lie in the
/// parsed source: an index whose spans are the program's preorder node spans
/// inherits the parse's promise that every node fits.
pub proof fn lemma_parsed_index_fits(b: Seq<u8>, r: ParseResult, index: NodeIndex)
    requires
        parse_outcome(b, r),
        r.program matches Some(p) && spans_of(index.nodes@) == program_nodes(p),
    ensures
        all_fit(b, spans_of(index.nodes@)),
{
}

impl<'source> Parser<'source> {
    /// Creates a parser at the start of a source; the lexer runs once, and its
    /// diagnostics are kept at the front of the result.
    ///
    /// The source may fill at most a quarter of the address space: the
    /// indentation width of a line counts four per tab, in a `usize`, and
    /// this bound is what keeps that count from overflowing.
    pub fn new(source: &'source SourceFile) -> (r: Self)
        requires
            source.spec_bytes().len() <= usize::MAX / 4,
        ensures
            r.wf(),
            r.spec_bytes() == source.spec_bytes(),
            r.spec_cursor() == 0,
            r.at_start(),
            token_stream(source.spec_bytes(), r.spec_tokens()),
            diagnostics_fit(source.spec_bytes(), r.spec_diagnostics()),
            count_kind(r.spec_tokens(), TokenKind::Invalid) <= r.spec_diagnostics().len(),
    {
        let lexer = Lexer::new(source);
        let lexical = lexer.tokenize();
        let token_count = lexical.tokens.len();
        proof {
            assert(lexical.tokens@.len() == token_count);
        }
        proof {
            let b = source.spec_bytes();
            let ts = lexical.tokens@;
            assert(Seq::<Token>::empty() + ts =~= ts);
            assert forall|k: int| 0 <= k < ts.len() implies (#[trigger] ts[k]).spec_span().spec_start()
                <= ts[k].spec_span().spec_end() by {
                assert(token_of(b, ts[k]));
            }
            assert forall|i: int, j: int| 0 <= i < j < ts.len() implies ts[i].spec_span().spec_end()
                <= ts[j].spec_span().spec_start() by {
                lemma_consecutive_order(ts, i, j);
            }
            assert forall|i: int| 0 <= i < ts.len() implies span_fits(
                b,
                (#[trigger] ts[i]).spec_span(),
            ) by {
                assert(token_of(b, ts[i]));
            }
            assert(tokens_ordered(ts));
            assert(token_stream(b, ts));
            reveal(stream_ok);
        }
        Parser {
            source,
            tokens: lexical.tokens,
            diagnostics: lexical.diagnostics,
            cursor: 0,
            soft_newline_depth: 0,
            angle_depth: 0,
            block_context_depth: 0,
        }
    }

    /// Parses the whole source and returns the recovered tree with the
    /// diagnostics; the diagnostics collected before, those of the lexer, stay
    /// in front.
    pub fn parse(self) -> (r: ParseResult)
        requires
            self.wf(),
        ensures
            parse_outcome(self.spec_bytes(), r),
            self.spec_diagnostics().len() <= r.diagnostics@.len(),
            forall|i: int|
                0 <= i < self.spec_diagnostics().len() ==> r.diagnostics@[i]
                    == self.spec_diagnostics()[i],
            ({
                let ts = self.spec_tokens();
                self.at_start() && ts.len() > 3 && ts[0].spec_kind() is Identifier && ts[1].spec_kind() is Equal
                    && is_simple_operand_kind(ts[2].spec_kind()) && is_statement_boundary_kind(ts[3].spec_kind())
                    ==> (r.program matches Some(p) && p.statements@.len() >= 1 && assigns_operand(
                    p.statements@[0],
                    ts[0],
                    ts[2],
                ))
            }),
            ({
                let ts = self.spec_tokens();
                quiet_tokens(ts) && empty_script(r) && r.diagnostics@.len() == self.spec_diagnostics().len()
                    ==> forall|k: int|
                    self.spec_cursor() <= k < ts.len() - 1 ==> (#[trigger] ts[k].spec_kind() is Newline)
                    || ts[k].spec_kind() is DocComment
            }),
            ({
                let ts = self.spec_tokens();
                let k = assignment_lines(ts, 0) as int;
                self.at_start() && line_start(0, k) < ts.len() && ts[line_start(0, k)].spec_kind() is Eof
                    ==> (r.program matches Some(p) && p.statements@.len() == k && (forall|j: int|
                    0 <= j < k ==> assigns_operand(
                        #[trigger] p.statements@[j],
                        ts[line_start(0, j)],
                        ts[line_start(0, j) + 2],
                    )) && p.entry_mode is Script) && r.diagnostics@ == self.spec_diagnostics()
            }),
            ({
                let ts = self.spec_tokens();
                let ls = program_line_starts(ts, 0);
                let end = program_lines_end(ts, 0);
                self.at_start() && end < ts.len() && ts[end].spec_kind() is Eof ==> (r.program matches Some(p)
                    && p.statements@.len() == ls.len() && (forall|j: int|
                    0 <= j < ls.len() ==> program_line_statement(#[trigger] p.statements@[j], ts, ls[j]))
                    && p.entry_mode is Script) && r.diagnostics@ == self.spec_diagnostics()
            }),
    {
        let ghost b = self.source.spec_bytes();
        let ghost initial = self.diagnostics@;
        let ghost ts0 = self.tokens@;
        let ghost first_line = self.at_start() && ts0.len() > 3 && ts0[0].spec_kind() is Identifier
            && ts0[1].spec_kind() is Equal && is_simple_operand_kind(ts0[2].spec_kind())
            && is_statement_boundary_kind(ts0[3].spec_kind());
        let ghost quiet_source = quiet_tokens(ts0);
        let ghost k = assignment_lines(ts0, 0) as int;
        let ghost lines = self.at_start() && line_start(0, k) < ts0.len() && ts0[line_start(0, k)].spec_kind() is Eof;
        let ghost ls = program_line_starts(ts0, 0);
        let ghost end = program_lines_end(ts0, 0);
        let ghost program = self.at_start() && end < ts0.len() && ts0[end].spec_kind() is Eof;
        let mut parser = self;
        let mut statements: Vec<Statement> = Vec::new();
        let mut orphan_doc_comments: Vec<SourceSpan> = Vec::new();
        let mut pending_docs: Vec<SourceSpan> = Vec::new();
        let mut entry_mode = EntryMode::Script;
        while !parser.at(TokenKind::Eof)
            invariant
                parser.wf(),
                parser.source.spec_bytes() == b,
                initial.len() <= parser.diagnostics@.len(),
                forall|i: int| 0 <= i < initial.len() ==> parser.diagnostics@[i] == initial[i],
                forall|i: int|
                    0 <= i < statements@.len() ==> (#[trigger] statements@[i]).spec_span().spec_end()
                        <= parser.pos(),
                statements_in_order(b, statements@),
                all_fit(b, statements_nodes(statements@, statements@.len() as int)),
                all_fit(b, orphan_doc_comments@),
                all_fit(b, pending_docs@),
                entry_mode matches EntryMode::Project { span } ==> span_fits(b, span),
                parser.tokens@ == ts0,
                parser.cursor == 0 ==> parser.soft_newline_depth == self.soft_newline_depth && parser.cursor == self.cursor,
                first_line && parser.cursor > 0 ==> statements@.len() >= 1 && assigns_operand(statements@[0], ts0[0], ts0[2]),
                parser.cursor == 0 ==> statements@.len() == 0,
                parser.cursor >= self.cursor,
                quiet_source ==> statements@.len() == 0 && entry_mode is Script && parser.diagnostics@.len()
                    == initial.len() ==> forall|k: int| self.cursor <= k < parser.cursor ==> (#[trigger] ts0[k].spec_kind() is Newline)
                    || ts0[k].spec_kind() is DocComment,
                quiet_source == quiet_tokens(ts0),
                k == assignment_lines(ts0, 0) as int,
                lines == (self.at_start() && line_start(0, k) < ts0.len() && ts0[line_start(0, k)].spec_kind() is Eof),
                ls == program_line_starts(ts0, 0),
                end == program_lines_end(ts0, 0),
                program == (self.at_start() && end < ts0.len() && ts0[end].spec_kind() is Eof),
                program ==> parser.soft_newline_depth == 0 && parser.angle_depth == 0 && parser.diagnostics@ == initial
                    && pending_docs@.len() == 0 && entry_mode is Script && statements@.len() <= ls.len()
                    && program_line_starts(ts0, parser.cursor as int) == ls.subrange(statements@.len() as int, ls.len() as int)
                    && program_lines_end(ts0, parser.cursor as int) == end,
                program ==> forall|j: int| 0 <= j < statements@.len() ==> program_line_statement(#[trigger] statements@[j], ts0, ls[j]),
                lines ==> statements@.len() <= k && parser.cursor == line_start(0, statements@.len() as int)
                    && parser.diagnostics@ == initial && pending_docs@.len() == 0 && parser.soft_newline_depth == 0
                    && entry_mode is Script,
                lines ==> forall|j: int| 0 <= j < statements@.len() ==> assigns_operand(
                    #[trigger] statements@[j],
                    ts0[line_start(0, j)],
                    ts0[line_start(0, j) + 2],
                ),
                first_line == (self.at_start() && ts0.len() > 3 && ts0[0].spec_kind() is Identifier
                    && ts0[1].spec_kind() is Equal && is_simple_operand_kind(ts0[2].spec_kind())
                    && is_statement_boundary_kind(ts0[3].spec_kind())),
            decreases parser.remaining(),
        {
            proof {
                if lines {
                    if statements@.len() == k {
                        assert(parser.cur_kind() is Eof);
                    }
                    lemma_assignment_lines(ts0, 0, statements@.len() as int);
                }
                if program {
                    let i = parser.cursor as int;
                    if program_line_length(ts0, i) == 0 {
                        assert(parser.cur_kind() is Eof);
                    }
                    if program_line_length(ts0, i) > 0 {
                        let n = statements@.len() as int;
                        let rest = program_line_starts(ts0, i + program_line_length(ts0, i));
                        assert(program_line_starts(ts0, i) == seq![i] + rest);
                        assert(program_line_starts(ts0, i)[0] == i);
                        assert(ls.subrange(n, ls.len() as int).len() >= 1);
                        assert(ls.subrange(n, ls.len() as int)[0] == ls[n]);
                        assert(ls[n] == i);
                        assert forall|x: int| 0 <= x < rest.len() implies rest[x] == ls.subrange(n + 1, ls.len() as int)[x] by {
                            assert(rest[x] == program_line_starts(ts0, i)[x + 1]);
                            assert(program_line_starts(ts0, i)[x + 1] == ls.subrange(n, ls.len() as int)[x + 1]);
                        }
                        assert(rest =~= ls.subrange(n + 1, ls.len() as int));
                    }
                }
            }
            let kind = parser.current().kind();
            match kind {
                TokenKind::Newline => {
                    parser.bump();
                },
                TokenKind::DocComment => {
                    let token = parser.bump();
                    pending_docs.push(token.span());
                },
                TokenKind::Indent => {
                    let docs = pending_docs;
                    pending_docs = Vec::new();
                    append_spans(&mut orphan_doc_comments, docs);
                    let token = parser.bump();
                    parser.push_error(
                        UNSUPPORTED_BLOCK_CODE,
                        "x01.parse.unsupported_block",
                        token.span(),
                        "P0 尚不支持缩进代码块".to_owned(),
                    );
                    parser.skip_indented_region(&mut orphan_doc_comments);
                },
                TokenKind::Dedent => {
                    let docs = pending_docs;
                    pending_docs = Vec::new();
                    append_spans(&mut orphan_doc_comments, docs);
                    let token = parser.bump();
                    parser.push_error(
                        UNSUPPORTED_BLOCK_CODE,
                        "x01.parse.unsupported_block",
                        token.span(),
                        "P0 不支持独立的反缩进 Token".to_owned(),
                    );
                },
                _ => {
                    if kind == TokenKind::LeftBracket && parser.starts_main_header() {
                        let docs = pending_docs;
                        pending_docs = Vec::new();
                        append_spans(&mut orphan_doc_comments, docs);
                        match parser.parse_main_header() {
                            Some(header_span) => {
                                if entry_mode.is_project() {
                                    parser.push_error(
                                        INVALID_ENTRY_CODE,
                                        "x04.parse.duplicate_main",
                                        header_span,
                                        "程序只能声明一个 [main] 入口".to_owned(),
                                    );
                                } else {
                                    entry_mode = EntryMode::Project { span: header_span };
                                }
                            },
                            None => {},
                        }
                    } else if kind == TokenKind::LeftBracket && parser.starts_table_header() {
                        let docs = pending_docs;
                        pending_docs = Vec::new();
                        let ghost before = parser.pos();
                        match parser.parse_table_statement(docs) {
                            Some(statement) => {
                                proof {
                                    lemma_push_in_order(b, statements@, statement, before);
                                    lemma_statements_push(b, statements@, statement);
                                }
                                statements.push(statement);
                            },
                            None => {},
                        }
                    } else {
                        let docs = pending_docs;
                        pending_docs = Vec::new();
                        let ghost before = parser.pos();
                        let ghost pre = parser;
                        let ghost i0 = parser.cursor as int;
                        let ghost ak = array_line_items(ts0, i0);
                        let ghost array_case = program && !assignment_line(ts0, i0) && !binary_line(ts0, i0)
                            && !declaration_line(ts0, i0) && line_length(ts0, i0) > 0;
                        proof {
                            if array_case {
                                parser.lemma_array_line(i0, ak);
                            }
                        }
                        match parser.parse_statement(copy_spans(&docs)) {
                            Some(statement) => {
                                proof {
                                    lemma_push_in_order(b, statements@, statement, before);
                                    lemma_statements_push(b, statements@, statement);
                                    if array_case {
                                        let value = statement->Assignment_value;
                                        pre.lemma_array_value(i0 + 2, ak, value);
                                    }
                                }
                                statements.push(statement);
                            },
                            None => {
                                append_spans(&mut orphan_doc_comments, docs);
                            },
                        }
                    }
                },
            }
        }
        append_spans(&mut orphan_doc_comments, pending_docs);
        proof {
            is_char_boundary_start_end_of_seq(b);
            if b.len() > 0 {
                crate::utf8_layout::lemma_char_boundary_is_boundary(b, 0);
            }
        }
        let span = parser.source_span(0, parser.source.len_bytes());
        proof {
            reveal(stream_ok);
        }
        ParseResult {
            program: Some(
                Program { statements, orphan_doc_comments, span, entry_mode },
            ),
            diagnostics: parser.diagnostics,
        }
    }
}

/// Parses a source file: runs the lexer, then the parser.
///
/// The source may fill at most a quarter of the address space: the
/// indentation width of a line counts four per tab, in a `usize`, and
/// this bound is what keeps that count from overflowing.
pub fn parse(source: &SourceFile) -> (r: ParseResult)
    requires
        source.spec_bytes().len() <= usize::MAX / 4,
    ensures
        parse_outcome(source.spec_bytes(), r),
{
    Parser::new(source).parse()
}

} // verus!
