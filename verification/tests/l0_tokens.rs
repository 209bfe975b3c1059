//! Token order, spans and recovery of the minimal L0 lexer.

use xiao::diagnostics::INVALID_CHARACTER_CODE;
use xiao::l0_lexer::{Lexer, TokenKind};
use xiao::source::{SourceFile, SourcePosition};

/// The token kinds of a source, for snapshot assertions.
fn l0_kinds(source: &str) -> Vec<TokenKind> {
    Lexer::new(&SourceFile::from_text(source))
        .tokenize()
        .tokens
        .into_iter()
        .map(|token| token.kind())
        .collect()
}

#[test]
fn lib_tokenizes_minimal_assignment() {
    let source = SourceFile::from_text("a = 1");
    let result = Lexer::new(&source).tokenize();
    assert_eq!(
        result.tokens.iter().map(|token| token.kind()).collect::<Vec<_>>(),
        vec![TokenKind::Identifier, TokenKind::Equal, TokenKind::Integer, TokenKind::Eof]
    );
    assert_eq!(result.tokens[0].text(&source), "a");
    assert_eq!(result.tokens[2].text(&source), "1");
    assert_eq!(
        result.tokens[0].start_position(&source).expect("起点应有效"),
        SourcePosition::new(0, 1, 1)
    );
    assert_eq!(
        result.tokens[2].end_position(&source).expect("终点应有效"),
        SourcePosition::new(5, 1, 6)
    );
    assert!(result.diagnostics.is_empty());
}

#[test]
fn lib_emits_one_newline_for_lf_and_crlf() {
    assert_eq!(l0_kinds("a\n"), vec![TokenKind::Identifier, TokenKind::Newline, TokenKind::Eof]);
    assert_eq!(l0_kinds("a\r\n"), vec![TokenKind::Identifier, TokenKind::Newline, TokenKind::Eof]);
}

#[test]
fn lib_does_not_synthesize_newline_at_eof() {
    assert_eq!(l0_kinds("a"), vec![TokenKind::Identifier, TokenKind::Eof]);
    assert_eq!(l0_kinds(""), vec![TokenKind::Eof]);
}

#[test]
fn lib_accepts_ascii_identifier_and_leading_zero_integer() {
    let source = SourceFile::from_text("_name1 001");
    let result = Lexer::new(&source).tokenize();
    assert_eq!(result.tokens[0].kind(), TokenKind::Identifier);
    assert_eq!(result.tokens[0].text(&source), "_name1");
    assert_eq!(result.tokens[1].kind(), TokenKind::Integer);
    assert_eq!(result.tokens[1].text(&source), "001");
}

#[test]
fn lib_reports_invalid_character_and_keeps_scanning() {
    let source = SourceFile::from_text("a = § 1");
    let result = Lexer::new(&source).tokenize();
    assert_eq!(
        result.tokens.iter().map(|token| token.kind()).collect::<Vec<_>>(),
        vec![
            TokenKind::Identifier,
            TokenKind::Equal,
            TokenKind::Invalid,
            TokenKind::Integer,
            TokenKind::Eof
        ]
    );
    assert_eq!(result.diagnostics.len(), 1);
    assert_eq!(result.diagnostics[0].code(), INVALID_CHARACTER_CODE);
    assert_eq!(result.diagnostics[0].span().expect("诊断应包含区间").start(), 4);
}

#[test]
fn lib_expands_horizontal_tabs_as_ignored_whitespace() {
    let result = Lexer::new(&SourceFile::from_text("\t\ta\t=\t1")).tokenize();
    assert_eq!(result.diagnostics.len(), 0);
    assert_eq!(result.tokens.len(), 4);
}

#[test]
fn lib_lone_carriage_return_is_invalid() {
    let result = Lexer::new(&SourceFile::from_text("a\rb")).tokenize();
    assert_eq!(result.diagnostics.len(), 1);
    assert_eq!(result.diagnostics[0].code(), INVALID_CHARACTER_CODE);
}

#[test]
fn l0_eof_repeats_without_moving() {
    let source = SourceFile::from_text("x  ");
    let mut lexer = Lexer::new(&source);
    assert_eq!(lexer.next_token().kind(), TokenKind::Identifier);
    let first = lexer.next_token();
    let second = lexer.next_token();
    assert_eq!(first.kind(), TokenKind::Eof);
    assert_eq!(first, second);
    assert_eq!(lexer.offset(), 3);
    assert_eq!(first.span().start(), 3);
}

#[test]
fn l0_multibyte_invalid_character_is_one_token() {
    let source = SourceFile::from_text("小=");
    let result = Lexer::new(&source).tokenize();
    assert_eq!(result.tokens[0].kind(), TokenKind::Invalid);
    assert_eq!(result.tokens[0].span().end(), 3);
    assert_eq!(result.tokens[1].kind(), TokenKind::Equal);
    assert_eq!(result.diagnostics[0].message(), "无法识别的字符：'小'");
}

#[test]
fn l0_kind_names_are_stable() {
    assert_eq!(TokenKind::Identifier.as_str(), "Identifier");
    assert_eq!(TokenKind::Invalid.as_str(), "Invalid");
    assert!(TokenKind::Eof.is_eof());
    assert!(!TokenKind::Newline.is_eof());
}
