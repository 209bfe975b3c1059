//! P0 最小 AST 与解析器的规格快照入口。

use xiao::ast::Statement;
use xiao::diagnostics::{INVALID_ASSIGNMENT_TARGET_CODE, INVALID_CHARACTER_CODE, INVALID_EXPRESSION_CODE, MISSING_ASSIGNMENT_VALUE_CODE, UNSUPPORTED_BLOCK_CODE, UNSUPPORTED_EXPRESSION_CODE};
use xiao::parser::Parser;
use xiao::source::SourceFile;

#[test]
/// 验证缩进代码块在 P0 被拒绝且后续顶层语句仍可解析。
fn rejects_indented_block_and_keeps_following_statement() {
    let source = SourceFile::from_text("a = 1\n    nested = 2\ntop = 3");
    let result = Parser::new(&source).parse();
    let program = result.program.expect("应返回程序根节点");
    assert_eq!(program.statements.len(), 2);
    assert_eq!(result.diagnostics.len(), 1);
    assert_eq!(result.diagnostics[0].code(), UNSUPPORTED_BLOCK_CODE);
}

#[test]
/// 验证独立非法语法的诊断编号和错误恢复边界。
fn reports_each_p0_boundary_error() {
    let source = SourceFile::from_text("~\n1 = 2\na =\nb ~ c\nnext = 4");
    let result = Parser::new(&source).parse();
    let codes = result
        .diagnostics
        .iter()
        .map(|diagnostic| diagnostic.code())
        .collect::<Vec<_>>();
    assert_eq!(
        codes,
        vec![
            INVALID_EXPRESSION_CODE,
            INVALID_ASSIGNMENT_TARGET_CODE,
            MISSING_ASSIGNMENT_VALUE_CODE,
            UNSUPPORTED_EXPRESSION_CODE,
        ]
    );
    let program = result.program.expect("应返回程序根节点");
    assert_eq!(program.statements.len(), 1);
}

#[test]
/// 确认没有真实尾部换行时，最后一条语句仍以 EOF 结束。
fn accepts_statement_terminated_by_eof() {
    let source = SourceFile::from_text("answer = 42");
    let result = Parser::new(&source).parse();
    assert!(result.is_success());
    assert_eq!(result.program.expect("应有程序").statements.len(), 1);
}

#[test]
/// 确认词法错误会被保留，但不会被解析器重复报告。
fn preserves_lexical_diagnostic_and_recovers() {
    let source = SourceFile::from_text("§\nanswer = 1");
    let result = Parser::new(&source).parse();
    assert_eq!(result.diagnostics.len(), 1);
    assert_eq!(result.diagnostics[0].code(), INVALID_CHARACTER_CODE);
    assert_eq!(
        result.program.expect("应返回程序根节点").statements.len(),
        1
    );
}

#[test]
/// 确认空文件、重复空行和普通注释行不会凭空产生语句或诊断。
fn accepts_empty_and_repeated_newlines() {
    let source = SourceFile::from_text("\n\n# comment\n\n");
    let result = Parser::new(&source).parse();
    assert!(result.is_success());
    let program = result.program.expect("应返回程序根节点");
    assert!(program.is_empty());
    assert_eq!(program.span.end(), source.len_bytes());
}

#[test]
/// 确认 CRLF 只作为逻辑边界，AST 区间不包含两个字节的换行符。
fn preserves_crlf_statement_boundaries() {
    let source = SourceFile::from_text("a = 1\r\nb = 2");
    let result = Parser::new(&source).parse();
    assert!(result.is_success());
    let program = result.program.expect("应返回程序根节点");
    assert_eq!(program.statements.len(), 2);
    assert_eq!(program.statements[0].span().start(), 0);
    assert_eq!(program.statements[0].span().end(), 5);
    assert_eq!(program.statements[1].span().start(), 7);
    assert_eq!(program.statements[1].span().end(), 12);
}

#[test]
/// 确认 P1 已开放调用和索引，并继续恢复后续顶层语句。
fn accepts_calls_and_indexes() {
    let source = SourceFile::from_text("call()\nvalue[0]\nvalid = 1");
    let result = Parser::new(&source).parse();
    assert!(result.diagnostics.is_empty());
    assert_eq!(
        result.program.expect("应返回程序根节点").statements.len(),
        3
    );
}

#[test]
/// 确认文档注释也能挂接到独立名称表达式，而不只挂接到赋值。
fn attaches_docs_to_expression_statement() {
    let source = SourceFile::from_text("### name docs ###\nname");
    let result = Parser::new(&source).parse();
    let program = result.program.expect("应返回程序根节点");
    assert_eq!(program.orphan_doc_comments.len(), 0);
    assert_eq!(program.statements.len(), 1);
    assert_eq!(program.statements[0].leading_docs().len(), 1);
}
