use xiao::ast::{
    AssignmentOperator, BinaryOperator, CallArgument, CallArgumentKind, CatchClause, DeclaredType,
    DictEntry, DictKey, ElifBranch, EntryMode, Expression, FunctionParameter, FunctionParameterKind,
    FunctionTypeAnnotation, LiteralKind, Name, NodeId, NodeIndex, Program, ScalarType,
    SetTypeAnnotation, Statement, TableKind, TypeTerm, UnaryOperator,
};
use xiao::imports::{ImportPath, ImportStatement, ModuleImport, SelectedImport};
use xiao::selectors::{IndexPath, PathSegment, RandomMode, Selector, SelectorItem};
use xiao::source::{SourceFile, SourceSpan};
use xiao::token::{KeywordKind, TokenKind};

fn span(start: usize, end: usize) -> SourceSpan {
    SourceSpan::new(start, end).expect("区间有效")
}

fn name(start: usize, end: usize) -> Name {
    Name { span: span(start, end), backticked: false }
}

fn literal(start: usize, end: usize) -> Expression {
    Expression::Literal { kind: LiteralKind::Integer, span: span(start, end) }
}

#[test]
fn node_index_numbers_nodes_in_source_preorder() {
    // x = (1 + 2)
    let sum = Expression::Binary {
        operator: BinaryOperator::Add,
        left: Box::new(literal(5, 6)),
        right: Box::new(literal(9, 10)),
        span: span(5, 10),
    };
    let group = Expression::Group { expression: Box::new(sum), span: span(4, 11) };
    let statement = Statement::Assignment {
        target: name(0, 1),
        value: group,
        leading_docs: Vec::new(),
        span: span(0, 11),
    };
    let program = Program {
        statements: vec![statement],
        orphan_doc_comments: Vec::new(),
        span: span(0, 11),
        entry_mode: EntryMode::Script,
    };
    let index = NodeIndex::build(&program);
    assert_eq!(index.len(), 5);
    assert!(!index.is_empty());
    let spans: Vec<(usize, usize)> = index.nodes.iter().map(|(_, s)| (s.start(), s.end())).collect();
    assert_eq!(spans, vec![(0, 11), (4, 11), (5, 10), (5, 6), (9, 10)]);
    for (position, (id, _)) in index.nodes.iter().enumerate() {
        assert_eq!(id.get() as usize, position);
    }
}

#[test]
fn node_index_visits_blocks_branches_and_handlers() {
    let condition = literal(3, 4);
    let body = vec![Statement::Break { leading_docs: Vec::new(), span: span(10, 15) }];
    let elif = ElifBranch {
        condition: literal(21, 22),
        body: vec![Statement::Continue { leading_docs: Vec::new(), span: span(28, 36) }],
        leading_docs: Vec::new(),
        span: span(16, 36),
    };
    let if_statement = Statement::If {
        condition,
        body,
        elif_branches: vec![elif],
        else_body: Some(vec![Statement::Return { value: None, leading_docs: Vec::new(), span: span(45, 51) }]),
        leading_docs: Vec::new(),
        span: span(0, 51),
    };
    let catch = CatchClause {
        binding: name(70, 71),
        error_type: name(72, 75),
        body: vec![Statement::Raise { value: literal(85, 86), leading_docs: Vec::new(), span: span(79, 86) }],
        leading_docs: Vec::new(),
        span: span(60, 86),
    };
    let try_statement = Statement::Try {
        body: Vec::new(),
        catches: vec![catch],
        finally_body: None,
        leading_docs: Vec::new(),
        span: span(52, 86),
    };
    let parameter = FunctionParameter {
        name: name(95, 96),
        kind: FunctionParameterKind::PositionalOrKeyword,
        annotation: Some(FunctionTypeAnnotation::Scalar(ScalarType::Int)),
        default: Some(literal(103, 104)),
        span: span(95, 104),
    };
    let function = Statement::Function {
        name: name(91, 92),
        parameters: vec![parameter],
        return_type: Some(FunctionTypeAnnotation::NoneType),
        body: vec![Statement::Expression { expression: literal(120, 121), leading_docs: Vec::new(), span: span(120, 121) }],
        leading_docs: Vec::new(),
        span: span(87, 121),
    };
    let program = Program {
        statements: vec![if_statement, try_statement, function],
        orphan_doc_comments: Vec::new(),
        span: span(0, 121),
        entry_mode: EntryMode::Script,
    };
    let index = NodeIndex::build(&program);
    let spans: Vec<(usize, usize)> = index.nodes.iter().map(|(_, s)| (s.start(), s.end())).collect();
    assert_eq!(
        spans,
        vec![
            (0, 51), (3, 4), (10, 15), (16, 36), (21, 22), (28, 36), (45, 51),
            (52, 86), (60, 86), (70, 71), (72, 75), (79, 86), (85, 86),
            (87, 121), (95, 104), (103, 104), (120, 121), (120, 121),
        ]
    );
}

#[test]
fn node_index_visits_entries_arguments_and_random_counts() {
    let dict = Expression::DictTableLiteral {
        entries: vec![DictEntry { key: DictKey::String(span(1, 4)), value: literal(5, 6), span: span(1, 6) }],
        span: span(0, 7),
    };
    let call = Expression::Call {
        callee: Box::new(Expression::Name(name(8, 9))),
        arguments: vec![CallArgument::positional(dict)],
        span: span(8, 17),
    };
    let selector = Expression::Selector {
        source: Box::new(call),
        step: None,
        selector: Selector::new(
            vec![SelectorItem::Random { mode: RandomMode::WithoutReplacement, count: Box::new(literal(20, 21)), span: span(19, 21) }],
            span(18, 22),
        ),
        span: span(8, 22),
    };
    let program = Program {
        statements: vec![Statement::Expression { expression: selector, leading_docs: Vec::new(), span: span(8, 22) }],
        orphan_doc_comments: Vec::new(),
        span: span(0, 22),
        entry_mode: EntryMode::Project { span: span(0, 6) },
    };
    let index = NodeIndex::build(&program);
    let spans: Vec<(usize, usize)> = index.nodes.iter().map(|(_, s)| (s.start(), s.end())).collect();
    assert_eq!(
        spans,
        vec![(8, 22), (8, 22), (8, 17), (8, 9), (0, 7), (0, 7), (1, 4), (5, 6), (20, 21)]
    );
    assert!(program.entry_mode.is_project());
    assert!(!program.is_empty());
}

#[test]
fn statements_expose_their_parts() {
    let declaration = Statement::Declaration {
        target: name(4, 5),
        declared_type: DeclaredType::Scalar(ScalarType::Int),
        constraint_path: Some(IndexPath::new(vec![PathSegment::Integer { span: span(7, 8), negative: false }], span(7, 8))),
        value: None,
        leading_docs: vec![span(0, 3)],
        span: span(4, 9),
    };
    assert!(declaration.try_expression().is_none());
    assert_eq!(declaration.declared_type(), Some(ScalarType::Int));
    assert_eq!(declaration.declaration_target(), Some(name(4, 5)));
    assert_eq!(declaration.declaration_path().expect("路径").len(), 1);
    assert!(declaration.initializer().is_none());
    assert!(!declaration.is_const_declaration());
    assert_eq!(declaration.leading_docs().len(), 1);
    assert_eq!(declaration.span().end(), 9);

    let constant = Statement::ConstDeclaration {
        target: name(6, 8),
        declared_type: None,
        value: literal(11, 12),
        leading_docs: Vec::new(),
        span: span(0, 12),
    };
    assert!(constant.is_const_declaration());
    assert_eq!(constant.expression().span().start(), 11);
    assert_eq!(constant.initializer().expect("初始化").span_end(), 12);
    assert_eq!(constant.assignment_operator(), None);

    let compound = Statement::ExtendedAssignment {
        target: Expression::Name(name(0, 1)),
        operator: AssignmentOperator::AddAssign,
        value: literal(5, 6),
        leading_docs: Vec::new(),
        span: span(0, 6),
    };
    assert_eq!(compound.assignment_operator(), Some(AssignmentOperator::AddAssign));
    assert_eq!(compound.expression().literal_kind(), Some(LiteralKind::Integer));

    let table = Statement::Table {
        name: name(1, 5),
        kind: TableKind::Instance,
        body: vec![Statement::Break { leading_docs: Vec::new(), span: span(10, 15) }],
        leading_docs: Vec::new(),
        span: span(0, 15),
    };
    assert_eq!(table.table_kind(), Some(TableKind::Instance));
    assert_eq!(table.table_name(), Some(name(1, 5)));
    assert_eq!(table.table_body().expect("表体").len(), 1);
    assert_eq!(TableKind::Instance.opening_bracket_count(), 2);
    assert!(TableKind::Instance.is_instantiable());
    assert_eq!(TableKind::Singleton.as_str(), "[Table]");

    let set_declaration = Statement::Declaration {
        target: name(0, 1),
        declared_type: DeclaredType::SetType(SetTypeAnnotation::new(vec![TypeTerm::Scalar(ScalarType::Int), TypeTerm::NoneType], span(0, 14))),
        constraint_path: None,
        value: Some(literal(20, 21)),
        leading_docs: Vec::new(),
        span: span(0, 21),
    };
    assert_eq!(set_declaration.declared_type(), None);
    assert!(set_declaration.type_annotation().expect("注解").as_set().is_some());
}

#[test]
fn names_read_their_text_with_and_without_backticks() {
    let source = SourceFile::from_text("`新 名` plain");
    let quoted = Name { span: span(0, 9), backticked: true };
    assert_eq!(quoted.text(&source), "`新 名`");
    assert_eq!(quoted.unquoted_text(&source), "新 名");
    let plain = Name { span: span(10, 15), backticked: false };
    assert_eq!(plain.unquoted_text(&source), "plain");
    assert_eq!(Expression::Name(plain).text(&source), "plain");
}

#[test]
fn operators_and_types_keep_their_spellings() {
    assert_eq!(BinaryOperator::NotIn.as_str(), "not in");
    assert_eq!(BinaryOperator::Power.as_str(), "**");
    assert_eq!(UnaryOperator::Not.as_str(), "not");
    assert_eq!(AssignmentOperator::FloorDivideAssign.as_str(), "//=");
    assert_eq!(ScalarType::from_name("sfloat"), Some(ScalarType::Sfloat));
    assert_eq!(ScalarType::from_name("double"), None);
    assert_eq!(ScalarType::from_keyword(KeywordKind::Lint), Some(ScalarType::Lint));
    assert_eq!(ScalarType::from_keyword(KeywordKind::Def), None);
    assert_eq!(TypeTerm::NoneType.as_str(), "none");
    assert_eq!(FunctionTypeAnnotation::Scalar(ScalarType::Str).as_str(), "str");
    assert_eq!(LiteralKind::from_token_kind(TokenKind::NoneLiteral), Some(LiteralKind::NoneLiteral));
    assert_eq!(LiteralKind::from_token_kind(TokenKind::Identifier), None);
    assert!(FunctionParameterKind::VarArgs.accepts_positional());
    assert!(!FunctionParameterKind::VarArgs.accepts_keyword());
    assert!(FunctionParameterKind::KeywordOnly.accepts_keyword());
    let argument = CallArgument { name: Some(name(0, 1)), value: literal(2, 3), kind: CallArgumentKind::Keyword, span: span(0, 3) };
    assert!(argument.is_named_or_expanded());
    assert_eq!(NodeId::new(7).get(), 7);
}

#[test]
fn selectors_and_imports_report_their_spans() {
    let negative = PathSegment::Integer { span: span(0, 2), negative: true };
    assert!(negative.is_negative_integer());
    assert_eq!(PathSegment::Name(name(3, 4)).span().start(), 3);
    let item = SelectorItem::All { span: span(1, 2) };
    assert_eq!(item.span().end(), 2);
    assert_eq!(RandomMode::WithReplacement.as_str(), "!?");
    let path = ImportPath::new(vec![name(7, 10), name(11, 14)], span(7, 14));
    assert!(!path.is_empty());
    let module = ModuleImport { path, alias: Some(name(18, 19)), span: span(7, 19) };
    assert_eq!(module.span().end(), 19);
    let statement = ImportStatement::Modules { imports: vec![module], span: span(0, 19) };
    assert_eq!(statement.span().start(), 0);
    let selected = SelectedImport { name: name(20, 21), alias: None, span: span(20, 21) };
    assert_eq!(selected.span().start(), 20);
}

#[test]
fn spellings_round_trip() {
    let scalars = [
        ScalarType::Int,
        ScalarType::Sint,
        ScalarType::Lint,
        ScalarType::Float,
        ScalarType::Sfloat,
        ScalarType::Lfloat,
        ScalarType::Str,
        ScalarType::Bool,
    ];
    for t in scalars {
        assert_eq!(ScalarType::from_name(t.as_str()), Some(t));
    }
    assert_eq!(ScalarType::from_name("tuple"), None);
    assert_eq!(ScalarType::from_name("Int"), None);
    for k in [KeywordKind::Def, KeywordKind::Elif, KeywordKind::Continue, KeywordKind::Lfloat, KeywordKind::Is] {
        assert_eq!(KeywordKind::from_word(k.as_str()), Some(k));
    }
    assert_eq!(KeywordKind::from_word("custom"), None);
    assert_eq!(KeywordKind::from_word("true"), None);
    assert_eq!(KeywordKind::from_word("none"), None);
    assert_eq!(KeywordKind::from_word("Def"), None);
}
