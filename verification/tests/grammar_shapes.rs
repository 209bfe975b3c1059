//! Concrete inputs for the shapes whose parse the contracts pin down.

use xiao::ast::{
    BinaryOperator, CallArgumentKind, DeclaredType, Expression, FunctionParameterKind, FunctionTypeAnnotation,
    LiteralKind, ScalarType, Statement,
};
use xiao::diagnostics::{INVALID_DECLARATION_CODE, MISSING_CONST_VALUE_CODE, UNSUPPORTED_CONST_PATH_CODE};
use xiao::lexer::Lexer;
use xiao::token::TokenKind;
use xiao::selectors::SelectorItem;
use xiao::parser::Parser;
use xiao::runtime::interchange::{
    table_definition_from_byte_descriptor, table_definition_from_descriptor, DescriptorRefusal,
};
use xiao::runtime::tables::{FieldType, TableMemberKind};
use xiao::source::{SourceError, SourceFile};

fn statements_of(source: &str) -> Vec<Statement> {
    let result = Parser::new(&SourceFile::from_text(source)).parse();
    assert!(result.diagnostics.is_empty(), "unexpected diagnostics: {:?}", result.diagnostics);
    result.program.expect("program").statements
}

fn operator_of(expression: &Expression) -> BinaryOperator {
    match expression {
        Expression::Binary { operator, .. } => *operator,
        other => panic!("expected a binary expression, got {:?}", other),
    }
}

#[test]
fn binary_nodes_carry_their_operator_and_precedence() {
    let statements = statements_of("x = a * b\ny = a + b * c\nz = a - b - c\n");
    assert_eq!(statements.len(), 3);
    let Statement::Assignment { value, .. } = &statements[0] else { panic!("assignment") };
    assert_eq!(operator_of(value), BinaryOperator::Multiply);
    let Statement::Assignment { value, .. } = &statements[1] else { panic!("assignment") };
    let Expression::Binary { operator, right, .. } = value else { panic!("binary") };
    assert_eq!(*operator, BinaryOperator::Add);
    assert_eq!(operator_of(right), BinaryOperator::Multiply);
    let Statement::Assignment { value, .. } = &statements[2] else { panic!("assignment") };
    let Expression::Binary { operator, left, .. } = value else { panic!("binary") };
    assert_eq!(*operator, BinaryOperator::Subtract);
    assert_eq!(operator_of(left), BinaryOperator::Subtract);
}

#[test]
fn declarations_keep_type_name_and_value() {
    let statements = statements_of("int count = 3\nsfloat ratio\nconst limit = 10\n");
    assert_eq!(statements.len(), 3);
    let Statement::Declaration { declared_type, value, constraint_path, .. } = &statements[0] else {
        panic!("declaration")
    };
    assert_eq!(*declared_type, DeclaredType::Scalar(ScalarType::Int));
    assert!(value.is_some());
    assert!(constraint_path.is_none());
    let Statement::Declaration { declared_type, value, .. } = &statements[1] else { panic!("declaration") };
    assert_eq!(*declared_type, DeclaredType::Scalar(ScalarType::Sfloat));
    assert!(value.is_none());
    let Statement::ConstDeclaration { declared_type, .. } = &statements[2] else { panic!("const") };
    assert_eq!(*declared_type, None);
}

#[test]
fn table_body_returns_its_members_in_order() {
    let statements = statements_of("[Point]\n    x = 1\n    y = 2\n");
    assert_eq!(statements.len(), 1);
    let Statement::Table { body, .. } = &statements[0] else { panic!("table") };
    assert_eq!(body.len(), 2);
    assert!(matches!(body[0], Statement::Assignment { .. }));
    assert!(matches!(body[1], Statement::Assignment { .. }));
}

#[test]
fn invalid_lead_byte_is_a_one_byte_error() {
    let error = SourceFile::from_bytes(&vec![0xf0, 0x28, 0x8c, 0xbc]).expect_err("not UTF-8");
    assert_eq!(error, SourceError::InvalidUtf8 { valid_up_to: 0, error_len: Some(1) });
    let error = SourceFile::from_bytes(&vec![0x61, 0x80]).expect_err("not UTF-8");
    assert_eq!(error, SourceError::InvalidUtf8 { valid_up_to: 1, error_len: Some(1) });
}

#[test]
fn table_descriptors_are_checked() {
    let fields = vec![
        ("count".to_owned(), FieldType::Scalar(ScalarType::Int), 1u8),
        ("secret".to_owned(), FieldType::Dynamic, 0u8),
    ];
    let definition = table_definition_from_descriptor("Counter".to_owned(), 1, &fields).expect("valid");
    assert_eq!(definition.members.len(), 2);
    assert!(definition.members[0].public);
    assert!(!definition.members[1].public);
    assert_eq!(definition.members[0].kind, TableMemberKind::Field);
    assert!(table_definition_from_descriptor(String::new(), 1, &fields).is_none());
    assert!(table_definition_from_descriptor("Counter".to_owned(), 2, &fields).is_none());
    let duplicate = vec![
        ("count".to_owned(), FieldType::Dynamic, 1u8),
        ("count".to_owned(), FieldType::Dynamic, 1u8),
    ];
    assert!(table_definition_from_descriptor("Counter".to_owned(), 0, &duplicate).is_none());
    let bad_flag = vec![("count".to_owned(), FieldType::Dynamic, 2u8)];
    assert!(table_definition_from_descriptor("Counter".to_owned(), 0, &bad_flag).is_none());
    let unnamed = vec![(String::new(), FieldType::Dynamic, 1u8)];
    assert!(table_definition_from_descriptor("Counter".to_owned(), 0, &unnamed).is_none());
}

#[test]
fn a_program_of_assignment_lines_gives_one_statement_per_line() {
    let statements = statements_of("a = 1\nb = x * y\nc = z\n");
    assert_eq!(statements.len(), 3);
    let Statement::Assignment { value, .. } = &statements[0] else { panic!("assignment") };
    assert!(matches!(value, Expression::Literal { .. }));
    let Statement::Assignment { value, .. } = &statements[1] else { panic!("assignment") };
    assert_eq!(operator_of(value), BinaryOperator::Multiply);
    let Statement::Assignment { value, .. } = &statements[2] else { panic!("assignment") };
    assert!(matches!(value, Expression::Name(_)));
}

#[test]
fn a_list_of_names_gives_plain_parameters_in_order() {
    let statements = statements_of("def f(a, b, `c`)\n    return a\n");
    let Statement::Function { parameters, .. } = &statements[0] else {
        panic!("expected a function");
    };
    assert_eq!(parameters.len(), 3);
    let source = "def f(a, b, `c`)\n    return a\n";
    let names: Vec<&str> = parameters
        .iter()
        .map(|p| &source[p.name.span.start()..p.name.span.end()])
        .collect();
    assert_eq!(names, vec!["a", "b", "`c`"]);
    for parameter in parameters {
        assert_eq!(parameter.kind, FunctionParameterKind::PositionalOrKeyword);
        assert!(parameter.default.is_none());
        assert!(parameter.annotation.is_none());
    }
}

#[test]
fn a_repeated_parameter_name_is_reported() {
    let result = Parser::new(&SourceFile::from_text("def f(a, a)\n    return a\n")).parse();
    assert_eq!(result.diagnostics.len(), 1);
}

#[test]
fn a_list_of_segments_gives_exact_items_in_order() {
    let statements = statements_of("xs[0, b, 2]\n");
    let Statement::Expression { expression, .. } = &statements[0] else {
        panic!("expected an expression statement");
    };
    let Expression::Selector { selector, .. } = expression else {
        panic!("expected a selector");
    };
    assert_eq!(selector.items.len(), 3);
    for item in &selector.items {
        match item {
            SelectorItem::Exact { path, .. } => assert_eq!(path.segments.len(), 1),
            other => panic!("expected an exact item, got {:?}", other),
        }
    }
}

#[test]
fn a_closed_range_keeps_both_endpoints() {
    let statements = statements_of("xs[1~3]\n");
    let Statement::Expression { expression, .. } = &statements[0] else {
        panic!("expected an expression statement");
    };
    let Expression::Selector { selector, .. } = expression else {
        panic!("expected a selector");
    };
    assert_eq!(selector.items.len(), 1);
    match &selector.items[0] {
        SelectorItem::Range { start, end, .. } => {
            assert_eq!(start.segments.len(), 1);
            assert_eq!(end.segments.len(), 1);
            assert_eq!(start.span.start(), 3);
            assert_eq!(end.span.start(), 5);
        }
        other => panic!("expected a closed range, got {:?}", other),
    }
}

fn value_of(statement: &Statement) -> &Expression {
    match statement {
        Statement::Assignment { value, .. } => value,
        other => panic!("expected an assignment, got {:?}", other),
    }
}

#[test]
fn an_array_of_operands_keeps_its_elements_in_order() {
    let statements = statements_of("xs = [1, b, true]\nys = []\n");
    let Expression::ArrayLiteral { elements, .. } = value_of(&statements[0]) else {
        panic!("expected an array");
    };
    assert_eq!(elements.len(), 3);
    assert!(matches!(elements[0], Expression::Literal { kind: LiteralKind::Integer, .. }));
    assert!(matches!(elements[1], Expression::Name(_)));
    assert!(matches!(elements[2], Expression::Literal { kind: LiteralKind::Boolean, .. }));
    let Expression::ArrayLiteral { elements, .. } = value_of(&statements[1]) else {
        panic!("expected an array");
    };
    assert!(elements.is_empty());
}

#[test]
fn parentheses_give_a_group_or_a_tuple() {
    let statements = statements_of("g = (a)\nt = (1, b)\ne = ()\n");
    let Expression::Group { expression, .. } = value_of(&statements[0]) else {
        panic!("expected a group");
    };
    assert!(matches!(**expression, Expression::Name(_)));
    let Expression::TupleLiteral { elements, .. } = value_of(&statements[1]) else {
        panic!("expected a tuple");
    };
    assert_eq!(elements.len(), 2);
    assert!(matches!(elements[0], Expression::Literal { kind: LiteralKind::Integer, .. }));
    assert!(matches!(elements[1], Expression::Name(_)));
    let Expression::TupleLiteral { elements, .. } = value_of(&statements[2]) else {
        panic!("expected a tuple");
    };
    assert!(elements.is_empty());
}

#[test]
fn a_call_with_operands_passes_them_by_position() {
    let statements = statements_of("f(a, 2, c)\n");
    let Statement::Expression { expression, .. } = &statements[0] else {
        panic!("expected an expression statement");
    };
    let Expression::Call { callee, arguments, .. } = expression else {
        panic!("expected a call");
    };
    assert!(matches!(**callee, Expression::Name(_)));
    assert_eq!(arguments.len(), 3);
    for argument in arguments {
        assert_eq!(argument.kind, CallArgumentKind::Positional);
        assert!(argument.name.is_none());
    }
    assert!(matches!(arguments[1].value, Expression::Literal { kind: LiteralKind::Integer, .. }));
}

#[test]
fn a_program_mixing_operand_binary_and_array_lines() {
    let statements = statements_of("x = 1\ny = a + b\nz = [c, 2]\nint n = 3\n");
    assert_eq!(statements.len(), 4);
    match &statements[3] {
        Statement::Declaration { declared_type, value, .. } => {
            assert_eq!(*declared_type, DeclaredType::Scalar(ScalarType::Int));
            assert!(matches!(value, Some(Expression::Literal { kind: LiteralKind::Integer, .. })));
        }
        other => panic!("expected a declaration, got {:?}", other),
    }
    assert!(matches!(value_of(&statements[0]), Expression::Literal { kind: LiteralKind::Integer, .. }));
    assert_eq!(operator_of(value_of(&statements[1])), BinaryOperator::Add);
    let Expression::ArrayLiteral { elements, .. } = value_of(&statements[2]) else {
        panic!("expected an array");
    };
    assert_eq!(elements.len(), 2);
    assert!(matches!(elements[0], Expression::Name(_)));
}

#[test]
fn table_body_keeps_fields_declarations_and_arrays_in_order() {
    let statements = statements_of("[Config]\n    host = \"localhost\"\n    int port = 8080\n    ids = [1, 2]\n    total = a + b\n");
    assert_eq!(statements.len(), 1);
    let Statement::Table { body, .. } = &statements[0] else { panic!("table") };
    assert_eq!(body.len(), 4);
    assert!(matches!(value_of(&body[0]), Expression::Literal { kind: LiteralKind::String, .. }));
    match &body[1] {
        Statement::Declaration { declared_type, value, .. } => {
            assert_eq!(*declared_type, DeclaredType::Scalar(ScalarType::Int));
            assert!(value.is_some());
        }
        other => panic!("expected a declaration, got {:?}", other),
    }
    let Expression::ArrayLiteral { elements, .. } = value_of(&body[2]) else {
        panic!("expected an array");
    };
    assert_eq!(elements.len(), 2);
    assert_eq!(operator_of(value_of(&body[3])), BinaryOperator::Add);
}

#[test]
fn byte_descriptors_check_encoding_in_order() {
    let good = vec![(b"count".to_vec(), FieldType::Scalar(ScalarType::Int), 1u8)];
    let definition = table_definition_from_byte_descriptor(b"Counter", 1, &good).expect("valid");
    assert_eq!(definition.name, "Counter");
    assert_eq!(definition.members[0].name, "count");
    assert_eq!(
        table_definition_from_byte_descriptor(&[0xff, 0x41], 1, &good).unwrap_err(),
        DescriptorRefusal::InvalidUtf8
    );
    assert_eq!(table_definition_from_byte_descriptor(b"", 1, &good).unwrap_err(), DescriptorRefusal::InvalidArgument);
    let bad_then_broken = vec![
        (b"count".to_vec(), FieldType::Dynamic, 2u8),
        (vec![0xc3, 0x28], FieldType::Dynamic, 1u8),
    ];
    assert_eq!(
        table_definition_from_byte_descriptor(b"Counter", 0, &bad_then_broken).unwrap_err(),
        DescriptorRefusal::InvalidArgument
    );
    let broken_then_bad = vec![
        (vec![0xc3, 0x28], FieldType::Dynamic, 1u8),
        (b"count".to_vec(), FieldType::Dynamic, 2u8),
    ];
    assert_eq!(
        table_definition_from_byte_descriptor(b"Counter", 0, &broken_then_bad).unwrap_err(),
        DescriptorRefusal::InvalidUtf8
    );
}

#[test]
fn parameters_after_a_bare_star_are_keyword_only() {
    let statements = statements_of("def f(a, *, b, c)\n    return a\n");
    let Statement::Function { parameters, .. } = &statements[0] else {
        panic!("expected a function");
    };
    assert_eq!(parameters.len(), 3);
    assert_eq!(parameters[0].kind, FunctionParameterKind::PositionalOrKeyword);
    assert_eq!(parameters[1].kind, FunctionParameterKind::KeywordOnly);
    assert_eq!(parameters[2].kind, FunctionParameterKind::KeywordOnly);
}

#[test]
fn a_typed_parameter_with_a_default_keeps_both() {
    let statements = statements_of("def f(int n = 3)\n    return n\n");
    let Statement::Function { parameters, .. } = &statements[0] else {
        panic!("expected a function");
    };
    assert_eq!(parameters.len(), 1);
    assert_eq!(parameters[0].annotation, Some(FunctionTypeAnnotation::Scalar(ScalarType::Int)));
    assert!(matches!(parameters[0].default, Some(Expression::Literal { kind: LiteralKind::Integer, .. })));
}

#[test]
fn an_if_keeps_its_condition_body_and_else_block() {
    let statements = statements_of("if ready\n    x = 1\n    y = 2\nelse\n    x = 3\nz = 4\n");
    let Statement::If { condition, body, elif_branches, else_body, .. } = &statements[0] else {
        panic!("expected an if");
    };
    assert!(matches!(condition, Expression::Name(_)));
    assert_eq!(body.len(), 2);
    assert!(elif_branches.is_empty());
    assert_eq!(else_body.as_ref().expect("else").len(), 1);
    let plain = statements_of("if ready\n    x = 1\nz = 4\n");
    let Statement::If { else_body, .. } = &plain[0] else {
        panic!("expected an if");
    };
    assert!(else_body.is_none());
}

#[test]
fn indentation_opens_and_closes_levels() {
    let source = SourceFile::from_text("a\n    b\n        c\nd\n");
    let kinds: Vec<TokenKind> = Lexer::new(&source).tokenize().tokens.iter().map(|t| t.kind()).collect();
    let indents = kinds.iter().filter(|k| **k == TokenKind::Indent).count();
    let dedents = kinds.iter().filter(|k| **k == TokenKind::Dedent).count();
    assert_eq!(indents, 2);
    assert_eq!(dedents, 2);
    let bad = Lexer::new(&SourceFile::from_text("a\n   b\n")).tokenize();
    assert!(!bad.diagnostics.is_empty());
}

#[test]
fn declaration_paths_and_refusals() {
    let statements = statements_of("int x[0]\n");
    match &statements[0] {
        Statement::Declaration { constraint_path, value, .. } => {
            assert_eq!(constraint_path.as_ref().expect("path").segments.len(), 1);
            assert!(value.is_none());
        }
        other => panic!("expected a declaration, got {:?}", other),
    }
    let codes = |source: &str| -> Vec<&'static str> {
        Parser::new(&SourceFile::from_text(source)).parse().diagnostics.iter().map(|d| d.code).collect()
    };
    assert_eq!(codes("const x\n"), vec![MISSING_CONST_VALUE_CODE]);
    assert_eq!(codes("int x =\n"), vec![INVALID_DECLARATION_CODE]);
    assert_eq!(codes("int x 5\n"), vec![INVALID_DECLARATION_CODE]);
    assert_eq!(codes("const x[0] = 1\n"), vec![UNSUPPORTED_CONST_PATH_CODE]);
}

#[test]
fn a_program_with_an_if_block_keeps_every_line() {
    let statements = statements_of("x = 1\nif x\n    y = 2\n    int n = 3\nz = [a]\n");
    assert_eq!(statements.len(), 3);
    let Statement::If { condition, body, else_body, .. } = &statements[1] else {
        panic!("expected an if");
    };
    assert!(matches!(condition, Expression::Name(_)));
    assert_eq!(body.len(), 2);
    assert!(matches!(body[1], Statement::Declaration { .. }));
    assert!(else_body.is_none());
    assert!(matches!(value_of(&statements[2]), Expression::ArrayLiteral { .. }));
}

#[test]
fn multi_segment_paths_in_selectors() {
    let statements = statements_of("xs[a/b/0, 1/2~3/c]\n");
    let Statement::Expression { expression, .. } = &statements[0] else {
        panic!("expected an expression statement");
    };
    let Expression::Selector { selector, .. } = expression else {
        panic!("expected a selector");
    };
    assert_eq!(selector.items.len(), 2);
    match &selector.items[0] {
        SelectorItem::Exact { path, .. } => assert_eq!(path.segments.len(), 3),
        other => panic!("expected an exact item, got {:?}", other),
    }
    match &selector.items[1] {
        SelectorItem::Range { start, end, .. } => {
            assert_eq!(start.segments.len(), 2);
            assert_eq!(end.segments.len(), 2);
        }
        other => panic!("expected a range, got {:?}", other),
    }
}

#[test]
fn a_function_keeps_its_name_parameters_and_body() {
    let source = "def area(w, *, h)\n    s = w * h\n    int n = 2\n";
    let statements = statements_of(source);
    let Statement::Function { name, parameters, return_type, body, .. } = &statements[0] else {
        panic!("expected a function");
    };
    assert_eq!(&source[name.span.start()..name.span.end()], "area");
    assert!(return_type.is_none());
    assert_eq!(parameters.len(), 2);
    assert_eq!(parameters[1].kind, FunctionParameterKind::KeywordOnly);
    assert_eq!(body.len(), 2);
    assert_eq!(operator_of(value_of(&body[0])), BinaryOperator::Multiply);
}
