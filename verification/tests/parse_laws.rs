//! Concrete checks of what every parse promises: the program covers the input,
//! top-level statements come in order, every node and diagnostic points into
//! the source, and earlier diagnostics stay in front.

use xiao::ast::{NodeIndex, Statement};
use xiao::diagnostics::{
    INVALID_CHARACTER_CODE, INVALID_ENTRY_CODE, INVALID_IMPORT_PATH_CODE, MISSING_TABLE_BODY_CODE,
    UNSUPPORTED_BLOCK_CODE,
};
use xiao::parser::{parse, Parser};
use xiao::source::SourceFile;

const SAMPLES: [&str; 8] = [
    "value = [1, (2, 3), {name = 4}]\nnext = value{2}[0, 1~2]\n",
    "def f(int a, *args, **kw) -> int\n    if a\n        return a\n    else\n        return 0\n",
    "[Config]\n    host = \"x\"\n[main]\nprint(host)\n",
    "try\n    raise error\ncatch e as Error\n    print(e)\nfinally\n    done = true\n",
    "bad[1~\nnext = 2\n",
    "§\nanswer = 1\n",
    "a = (\nb = [1,\n",
    "",
];

#[test]
fn parsed_program_spans_the_whole_input() {
    for text in SAMPLES {
        let source = SourceFile::from_text(text);
        let result = Parser::new(&source).parse();
        let program = result.program.expect("a program is always returned");
        assert_eq!(program.span.start(), 0);
        assert_eq!(program.span.end(), source.len_bytes());
    }
}

#[test]
fn top_level_statements_come_in_source_order() {
    for text in SAMPLES {
        let source = SourceFile::from_text(text);
        let program = Parser::new(&source).parse().program.expect("program");
        for pair in program.statements.windows(2) {
            assert!(pair[0].span().end() <= pair[1].span().start(), "{text:?}");
        }
        for statement in &program.statements {
            assert!(statement.span().start() <= statement.span().end());
            assert!(statement.span().end() <= source.len_bytes());
        }
    }
}

#[test]
fn every_indexed_node_lies_in_the_source() {
    for text in SAMPLES {
        let source = SourceFile::from_text(text);
        let program = Parser::new(&source).parse().program.expect("program");
        let index = NodeIndex::build(&program);
        for (_, span) in &index.nodes {
            assert!(span.start() <= span.end());
            assert!(span.end() <= source.len_bytes());
            let _ = source.slice(*span);
        }
    }
}

#[test]
fn every_diagnostic_is_an_error_inside_the_source() {
    for text in SAMPLES {
        let source = SourceFile::from_text(text);
        let result = Parser::new(&source).parse();
        for diagnostic in &result.diagnostics {
            assert!(diagnostic.is_error());
            let span = diagnostic.span().expect("diagnostics carry a span");
            assert!(span.end() <= source.len_bytes());
        }
        assert_eq!(result.has_errors(), !result.diagnostics.is_empty());
        assert_eq!(result.is_success(), result.diagnostics.is_empty());
    }
}

#[test]
fn lexer_diagnostics_stay_in_front() {
    let source = SourceFile::from_text("§\nvalue = (\n");
    let result = Parser::new(&source).parse();
    assert!(result.diagnostics.len() >= 2);
    assert_eq!(result.diagnostics[0].code(), INVALID_CHARACTER_CODE);
}

#[test]
fn free_parse_matches_parser() {
    for text in SAMPLES {
        let source = SourceFile::from_text(text);
        assert_eq!(parse(&source), Parser::new(&source).parse());
    }
}

#[test]
fn empty_source_gives_empty_program_without_diagnostics() {
    let source = SourceFile::from_text("");
    let result = parse(&source);
    assert!(result.is_success());
    let program = result.program.expect("program");
    assert!(program.is_empty());
    assert_eq!(program.span.end(), 0);
}

#[test]
fn standalone_dedent_and_indent_are_reported() {
    let result = parse(&SourceFile::from_text("    x = 1\ny = 2\n"));
    assert_eq!(result.diagnostics[0].code(), UNSUPPORTED_BLOCK_CODE);
    assert_eq!(result.program.expect("program").statements.len(), 1);
}

#[test]
fn repeated_main_header_is_reported_once() {
    let result = parse(&SourceFile::from_text("[main]\n[main]\nrun()\n"));
    let codes: Vec<&str> = result.diagnostics.iter().map(|d| d.code()).collect();
    assert_eq!(codes, vec![INVALID_ENTRY_CODE]);
    let program = result.program.expect("program");
    assert!(program.entry_mode.is_project());
    assert_eq!(program.statements.len(), 1);
}

#[test]
fn table_header_without_body_is_reported() {
    let result = parse(&SourceFile::from_text("[Empty]\n"));
    assert!(result.diagnostics.iter().any(|d| d.code() == MISSING_TABLE_BODY_CODE));
}

#[test]
fn import_of_backtick_segment_is_rejected() {
    let result = parse(&SourceFile::from_text("import `m`\n"));
    assert_eq!(result.diagnostics[0].code(), INVALID_IMPORT_PATH_CODE);
}

#[test]
fn raise_statement_keeps_its_value_span() {
    let source = SourceFile::from_text("def f()\n    raise fail(1)\n");
    let program = parse(&source).program.expect("program");
    let Statement::Function { body, .. } = &program.statements[0] else {
        panic!("expected function");
    };
    let Statement::Raise { value, span, .. } = &body[0] else {
        panic!("expected raise");
    };
    assert_eq!(source.slice(*span), "raise fail(1)");
    assert_eq!(source.slice(value.span()), "fail(1)");
}
