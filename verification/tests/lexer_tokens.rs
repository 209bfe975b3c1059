use xiao::diagnostics::{
    INCONSISTENT_INDENT_CODE, INVALID_BACKTICK_ESCAPE_CODE, INVALID_CHARACTER_CODE,
    INVALID_ESCAPE_CODE, INVALID_NUMBER_CODE, UNMATCHED_DELIMITER_CODE, UNTERMINATED_BACKTICK_CODE,
    UNTERMINATED_DELIMITER_CODE, UNTERMINATED_DOC_COMMENT_CODE, UNTERMINATED_STRING_CODE,
};
use xiao::lexer::Lexer;
use xiao::source::{SourceFile, SourcePosition};
use xiao::token::{KeywordKind, TokenKind};

/// The token kinds of a source.
fn kinds(source: &str) -> Vec<TokenKind> {
    Lexer::new(&SourceFile::from_text(source))
        .tokenize()
        .tokens
        .into_iter()
        .map(|token| token.kind())
        .collect()
}

#[test]
fn lexer_tokenizes_minimal_assignment() {
    let source = SourceFile::from_text("a = 1");
    let result = Lexer::new(&source).tokenize();
    assert_eq!(
        result.tokens.iter().map(|token| token.kind()).collect::<Vec<_>>(),
        vec![TokenKind::Identifier, TokenKind::Equal, TokenKind::Integer, TokenKind::Eof]
    );
    assert_eq!(result.tokens[0].text(&source), "a");
    assert_eq!(result.tokens[2].text(&source), "1");
    assert_eq!(
        result.tokens[0].start_position(&source).expect("起点应有效"),
        SourcePosition::new(0, 1, 1)
    );
    assert_eq!(
        result.tokens[2].end_position(&source).expect("终点应有效"),
        SourcePosition::new(5, 1, 6)
    );
    assert!(result.diagnostics.is_empty());
}

#[test]
fn lexer_emits_one_newline_for_lf_and_crlf() {
    assert_eq!(kinds("a\n"), vec![TokenKind::Identifier, TokenKind::Newline, TokenKind::Eof]);
    assert_eq!(kinds("a\r\n"), vec![TokenKind::Identifier, TokenKind::Newline, TokenKind::Eof]);
}

#[test]
fn lexer_does_not_synthesize_newline_at_eof() {
    assert_eq!(kinds("a"), vec![TokenKind::Identifier, TokenKind::Eof]);
    assert_eq!(kinds(""), vec![TokenKind::Eof]);
}

#[test]
fn lexer_accepts_ascii_identifier_and_leading_zero_integer() {
    let source = SourceFile::from_text("_name1 001");
    let result = Lexer::new(&source).tokenize();
    assert_eq!(result.tokens[0].kind(), TokenKind::Identifier);
    assert_eq!(result.tokens[0].text(&source), "_name1");
    assert_eq!(result.tokens[1].kind(), TokenKind::Integer);
    assert_eq!(result.tokens[1].text(&source), "001");
}

#[test]
fn lexer_reports_invalid_character_and_keeps_scanning() {
    let source = SourceFile::from_text("a = § 1");
    let result = Lexer::new(&source).tokenize();
    assert_eq!(
        result.tokens.iter().map(|token| token.kind()).collect::<Vec<_>>(),
        vec![
            TokenKind::Identifier,
            TokenKind::Equal,
            TokenKind::Invalid,
            TokenKind::Integer,
            TokenKind::Eof
        ]
    );
    assert_eq!(result.diagnostics.len(), 1);
    assert_eq!(result.diagnostics[0].code(), INVALID_CHARACTER_CODE);
    assert_eq!(result.diagnostics[0].span().expect("诊断应包含区间").start(), 4);
}

#[test]
fn lexer_expands_horizontal_tabs_as_ignored_whitespace() {
    let result = Lexer::new(&SourceFile::from_text("a\t=\t1")).tokenize();
    assert_eq!(result.diagnostics.len(), 0);
    assert_eq!(result.tokens.len(), 4);
}

#[test]
fn lexer_lone_carriage_return_is_invalid() {
    let result = Lexer::new(&SourceFile::from_text("a\rb")).tokenize();
    assert_eq!(result.diagnostics.len(), 1);
    assert_eq!(result.diagnostics[0].code(), INVALID_CHARACTER_CODE);
}

#[test]
fn tokenizes_l1_literals() {
    let source = SourceFile::from_text("true false none 12.50 .5 1e3 \"星\" 'x'");
    let result = Lexer::new(&source).tokenize();
    assert_eq!(
        result.tokens.iter().map(|token| token.kind()).collect::<Vec<_>>(),
        vec![
            TokenKind::Boolean,
            TokenKind::Boolean,
            TokenKind::NoneLiteral,
            TokenKind::Float,
            TokenKind::Float,
            TokenKind::Float,
            TokenKind::String,
            TokenKind::String,
            TokenKind::Eof,
        ]
    );
    assert!(result.diagnostics.is_empty());
    assert_eq!(result.tokens[3].text(&source), "12.50");
    assert_eq!(result.tokens[6].text(&source), "\"星\"");
}

#[test]
fn classifies_keywords_without_rewriting_names() {
    let source = SourceFile::from_text("def start str custom");
    let result = Lexer::new(&source).tokenize();
    assert_eq!(result.tokens[0].kind(), TokenKind::Keyword(KeywordKind::Def));
    assert_eq!(result.tokens[2].kind(), TokenKind::Keyword(KeywordKind::Str));
    assert_eq!(result.tokens[3].kind(), TokenKind::Identifier);
    assert_eq!(result.tokens[0].kind().keyword(), Some(KeywordKind::Def));
}

#[test]
fn applies_longest_operator_matching() {
    let source = SourceFile::from_text(
        "== != <= >= += -= *= /= // //= %= ** **= -> !? ! ~ ? < > + - * / % |",
    );
    let result = Lexer::new(&source).tokenize();
    assert_eq!(
        result.tokens.iter().map(|token| token.kind()).collect::<Vec<_>>(),
        vec![
            TokenKind::EqualEqual,
            TokenKind::BangEqual,
            TokenKind::LessEqual,
            TokenKind::GreaterEqual,
            TokenKind::PlusEqual,
            TokenKind::MinusEqual,
            TokenKind::StarEqual,
            TokenKind::SlashEqual,
            TokenKind::FloorDiv,
            TokenKind::FloorDivEqual,
            TokenKind::PercentEqual,
            TokenKind::Power,
            TokenKind::PowerEqual,
            TokenKind::Minus,
            TokenKind::Greater,
            TokenKind::BangQuestion,
            TokenKind::Bang,
            TokenKind::Tilde,
            TokenKind::Question,
            TokenKind::Less,
            TokenKind::Greater,
            TokenKind::Plus,
            TokenKind::Minus,
            TokenKind::Star,
            TokenKind::Slash,
            TokenKind::Percent,
            TokenKind::Pipe,
            TokenKind::Eof,
        ]
    );
    assert!(result.diagnostics.is_empty());
}

#[test]
fn tokenizes_delimiters_and_path_punctuation() {
    let source = SourceFile::from_text("() [] {} , : . @ $ / 3/2");
    let result = Lexer::new(&source).tokenize();
    assert_eq!(
        result.tokens.iter().map(|token| token.kind()).collect::<Vec<_>>(),
        vec![
            TokenKind::LeftParen,
            TokenKind::RightParen,
            TokenKind::LeftBracket,
            TokenKind::RightBracket,
            TokenKind::LeftBrace,
            TokenKind::RightBrace,
            TokenKind::Comma,
            TokenKind::Colon,
            TokenKind::Dot,
            TokenKind::At,
            TokenKind::Dollar,
            TokenKind::Slash,
            TokenKind::Integer,
            TokenKind::Slash,
            TokenKind::Integer,
            TokenKind::Eof,
        ]
    );
}

#[test]
fn diagnoses_unterminated_string() {
    let source = SourceFile::from_text("\"hello\nnext");
    let result = Lexer::new(&source).tokenize();
    assert_eq!(result.tokens[0].kind(), TokenKind::Invalid);
    assert_eq!(result.tokens[1].kind(), TokenKind::Newline);
    assert_eq!(result.diagnostics[0].code(), UNTERMINATED_STRING_CODE);
}

#[test]
fn diagnoses_invalid_string_escape() {
    let source = SourceFile::from_text("\"bad\\q\"");
    let result = Lexer::new(&source).tokenize();
    assert_eq!(result.tokens[0].kind(), TokenKind::Invalid);
    assert_eq!(result.diagnostics[0].code(), INVALID_ESCAPE_CODE);
}

#[test]
fn recovers_from_unicode_escape_target() {
    let source = SourceFile::from_text("\"bad\\星\" ok");
    let result = Lexer::new(&source).tokenize();
    assert_eq!(result.tokens[0].kind(), TokenKind::Invalid);
    assert_eq!(result.tokens[1].kind(), TokenKind::Identifier);
    assert_eq!(result.tokens[1].text(&source), "ok");
    assert_eq!(result.diagnostics[0].code(), INVALID_ESCAPE_CODE);
}

#[test]
fn diagnoses_incomplete_number_exponent() {
    let source = SourceFile::from_text("1e+ next");
    let result = Lexer::new(&source).tokenize();
    assert_eq!(result.tokens[0].kind(), TokenKind::Invalid);
    assert_eq!(result.tokens[0].text(&source), "1e+");
    assert_eq!(result.tokens[1].kind(), TokenKind::Identifier);
    assert_eq!(result.tokens[1].text(&source), "next");
    assert_eq!(result.diagnostics[0].code(), INVALID_NUMBER_CODE);
}

#[test]
fn tokenizes_backtick_identifiers() {
    let source = SourceFile::from_text("`新 变量` `def` `a\\`b` `a\\\\b`");
    let result = Lexer::new(&source).tokenize();
    assert_eq!(
        result.tokens.iter().map(|token| token.kind()).collect::<Vec<_>>(),
        vec![
            TokenKind::BacktickIdentifier,
            TokenKind::BacktickIdentifier,
            TokenKind::BacktickIdentifier,
            TokenKind::BacktickIdentifier,
            TokenKind::Eof,
        ]
    );
    assert_eq!(result.tokens[0].text(&source), "`新 变量`");
    assert_eq!(result.tokens[2].text(&source), "`a\\`b`");
    assert!(result.diagnostics.is_empty());
}

#[test]
fn diagnoses_backtick_errors() {
    let invalid = Lexer::new(&SourceFile::from_text("`bad\\q` ok")).tokenize();
    assert_eq!(invalid.tokens[0].kind(), TokenKind::Invalid);
    assert_eq!(invalid.tokens[1].kind(), TokenKind::Identifier);
    assert_eq!(invalid.diagnostics[0].code(), INVALID_BACKTICK_ESCAPE_CODE);

    let unterminated = Lexer::new(&SourceFile::from_text("`bad\nnext")).tokenize();
    assert_eq!(unterminated.tokens[0].kind(), TokenKind::Invalid);
    assert_eq!(unterminated.tokens[1].kind(), TokenKind::Newline);
    assert_eq!(unterminated.diagnostics[0].code(), UNTERMINATED_BACKTICK_CODE);
}

#[test]
fn handles_line_and_doc_comments() {
    let source = SourceFile::from_text("a # ordinary\n### doc ###\nb\n");
    let result = Lexer::new(&source).tokenize();
    assert_eq!(
        result.tokens.iter().map(|token| token.kind()).collect::<Vec<_>>(),
        vec![
            TokenKind::Identifier,
            TokenKind::Newline,
            TokenKind::DocComment,
            TokenKind::Newline,
            TokenKind::Identifier,
            TokenKind::Newline,
            TokenKind::Eof,
        ]
    );
    assert_eq!(result.tokens[2].text(&source), "### doc ###");
    assert!(result.diagnostics.is_empty());
}

#[test]
fn tokenizes_multiline_doc_comment() {
    let source = SourceFile::from_text("### first\nsecond ###\na");
    let result = Lexer::new(&source).tokenize();
    assert_eq!(result.tokens[0].kind(), TokenKind::DocComment);
    assert_eq!(result.tokens[0].text(&source), "### first\nsecond ###");
    assert_eq!(result.tokens[1].kind(), TokenKind::Newline);
    assert_eq!(result.tokens[2].kind(), TokenKind::Identifier);
    assert!(result.diagnostics.is_empty());
}

#[test]
fn diagnoses_unterminated_doc_comment() {
    let result = Lexer::new(&SourceFile::from_text("### missing")).tokenize();
    assert_eq!(result.tokens[0].kind(), TokenKind::Invalid);
    assert_eq!(result.tokens[1].kind(), TokenKind::Eof);
    assert_eq!(result.diagnostics[0].code(), UNTERMINATED_DOC_COMMENT_CODE);
}

#[test]
fn emits_indent_and_dedent_tokens() {
    let source = SourceFile::from_text("a\n    b\n        c\n    d\ne\n");
    let result = Lexer::new(&source).tokenize();
    assert_eq!(
        result.tokens.iter().map(|token| token.kind()).collect::<Vec<_>>(),
        vec![
            TokenKind::Identifier,
            TokenKind::Newline,
            TokenKind::Indent,
            TokenKind::Identifier,
            TokenKind::Newline,
            TokenKind::Indent,
            TokenKind::Identifier,
            TokenKind::Newline,
            TokenKind::Dedent,
            TokenKind::Identifier,
            TokenKind::Newline,
            TokenKind::Dedent,
            TokenKind::Identifier,
            TokenKind::Newline,
            TokenKind::Eof,
        ]
    );
    assert_eq!(result.tokens[2].text(&source), "    ");
    assert!(result.tokens[8].span().is_empty());
    assert!(result.tokens[11].span().is_empty());
    assert!(result.diagnostics.is_empty());
}

#[test]
fn ignores_non_code_lines_for_indentation() {
    let source = SourceFile::from_text("a\n\n# note\n\tb\n    c");
    let result = Lexer::new(&source).tokenize();
    let kinds = result.tokens.iter().map(|token| token.kind()).collect::<Vec<_>>();
    assert_eq!(
        kinds,
        vec![
            TokenKind::Identifier,
            TokenKind::Newline,
            TokenKind::Newline,
            TokenKind::Newline,
            TokenKind::Indent,
            TokenKind::Identifier,
            TokenKind::Newline,
            TokenKind::Identifier,
            TokenKind::Dedent,
            TokenKind::Eof,
        ]
    );
    assert!(result.diagnostics.is_empty());
}

#[test]
fn does_not_indent_inside_delimiters() {
    let source = SourceFile::from_text("a(\n        b\n    )\nc");
    let result = Lexer::new(&source).tokenize();
    assert_eq!(
        result.tokens.iter().map(|token| token.kind()).collect::<Vec<_>>(),
        vec![
            TokenKind::Identifier,
            TokenKind::LeftParen,
            TokenKind::Newline,
            TokenKind::Identifier,
            TokenKind::Newline,
            TokenKind::RightParen,
            TokenKind::Newline,
            TokenKind::Identifier,
            TokenKind::Eof,
        ]
    );
    assert!(result.diagnostics.is_empty());
}

#[test]
fn recovers_from_inconsistent_indentation() {
    let source = SourceFile::from_text("a\n  b\n    c\nd");
    let result = Lexer::new(&source).tokenize();
    assert!(result.tokens.iter().any(|token| token.kind() == TokenKind::Indent));
    assert_eq!(
        result.diagnostics.iter().map(|diagnostic| diagnostic.code()).collect::<Vec<_>>(),
        vec![INCONSISTENT_INDENT_CODE]
    );
    assert_eq!(result.tokens.last().expect("应有 EOF").kind(), TokenKind::Eof);
}

#[test]
fn does_not_create_implicit_indent_for_invalid_width() {
    let source = SourceFile::from_text("a\n    b\n      c\n    d");
    let result = Lexer::new(&source).tokenize();
    let kinds = result.tokens.iter().map(|token| token.kind()).collect::<Vec<_>>();
    assert_eq!(
        kinds,
        vec![
            TokenKind::Identifier,
            TokenKind::Newline,
            TokenKind::Indent,
            TokenKind::Identifier,
            TokenKind::Newline,
            TokenKind::Identifier,
            TokenKind::Newline,
            TokenKind::Identifier,
            TokenKind::Dedent,
            TokenKind::Eof,
        ]
    );
    assert_eq!(
        result.diagnostics.iter().map(|diagnostic| diagnostic.code()).collect::<Vec<_>>(),
        vec![INCONSISTENT_INDENT_CODE]
    );
}

#[test]
fn diagnoses_delimiter_errors() {
    let unmatched = Lexer::new(&SourceFile::from_text(")")).tokenize();
    assert_eq!(unmatched.diagnostics[0].code(), UNMATCHED_DELIMITER_CODE);

    let unterminated = Lexer::new(&SourceFile::from_text("(a")).tokenize();
    assert_eq!(unterminated.tokens.last().expect("应有 EOF").kind(), TokenKind::Eof);
    assert_eq!(unterminated.diagnostics[0].code(), UNTERMINATED_DELIMITER_CODE);
}

#[test]
fn eof_kind_is_stable() {
    assert!(TokenKind::Eof.is_eof());
}

#[test]
fn next_token_repeats_eof_without_moving() {
    let source = SourceFile::from_text("a\n    b");
    let mut lexer = Lexer::new(&source);
    let mut seen = Vec::new();
    loop {
        let token = lexer.next_token();
        seen.push(token.kind());
        if token.kind().is_eof() {
            break;
        }
    }
    let offset = lexer.offset();
    let diagnostics = lexer.diagnostics().len();
    for _ in 0..3 {
        let again = lexer.next_token();
        assert_eq!(again.kind(), TokenKind::Eof);
        assert_eq!(again.span().start(), 7);
        assert_eq!(again.span().end(), 7);
        assert_eq!(lexer.offset(), offset);
        assert_eq!(lexer.diagnostics().len(), diagnostics);
    }
    assert_eq!(
        seen,
        vec![
            TokenKind::Identifier,
            TokenKind::Newline,
            TokenKind::Indent,
            TokenKind::Identifier,
            TokenKind::Dedent,
            TokenKind::Eof
        ]
    );
}

#[test]
fn tokens_are_ordered_and_match_their_text() {
    let text = "x = `名` + 3.5e2 ### d ###\n    if (y) # c\n        z //= 'q'\n";
    let source = SourceFile::from_text(text);
    let result = Lexer::new(&source).tokenize();
    let mut previous_end = 0;
    for token in &result.tokens {
        assert!(previous_end <= token.span().start());
        previous_end = token.span().end();
        let piece = token.text(&source);
        match token.kind() {
            TokenKind::Indent => assert!(!piece.is_empty() && piece.bytes().all(|b| b == b' ' || b == b'\t')),
            TokenKind::Dedent | TokenKind::Eof => assert!(piece.is_empty()),
            TokenKind::Newline => assert!(piece == "\n" || piece == "\r\n"),
            TokenKind::DocComment => assert!(piece.starts_with("###") && piece.ends_with("###")),
            TokenKind::FloorDivEqual => assert_eq!(piece, "//="),
            TokenKind::Keyword(keyword) => assert_eq!(piece, keyword.as_str()),
            _ => assert!(!piece.is_empty()),
        }
    }
    let indents = result.tokens.iter().filter(|t| t.kind() == TokenKind::Indent).count();
    let dedents = result.tokens.iter().filter(|t| t.kind() == TokenKind::Dedent).count();
    assert_eq!(indents, 2);
    assert_eq!(indents, dedents);
    assert!(result.diagnostics.is_empty());
}

#[test]
fn every_invalid_token_has_a_diagnostic() {
    let source = SourceFile::from_text("§ \"open\n`x\\q` 1e ¤");
    let result = Lexer::new(&source).tokenize();
    let invalid = result.tokens.iter().filter(|t| t.kind() == TokenKind::Invalid).count();
    assert_eq!(invalid, 5);
    assert!(result.diagnostics.len() >= invalid);
    assert_eq!(
        result.diagnostics.iter().map(|d| d.code()).collect::<Vec<_>>(),
        vec![
            INVALID_CHARACTER_CODE,
            UNTERMINATED_STRING_CODE,
            INVALID_BACKTICK_ESCAPE_CODE,
            INVALID_NUMBER_CODE,
            INVALID_CHARACTER_CODE
        ]
    );
    assert!(result.diagnostics.iter().all(|d| d.is_error()));
}

#[test]
fn diagnostic_messages_name_their_subject() {
    let indent = Lexer::new(&SourceFile::from_text("a\n   b")).tokenize();
    assert_eq!(indent.diagnostics[0].message(), "缩进宽度 3 不能对应四个空格的层级");
    assert_eq!(indent.diagnostics[0].message_id(), "x01.lex.inconsistent_indent");
    let unmatched = Lexer::new(&SourceFile::from_text("(]")).tokenize();
    assert_eq!(unmatched.diagnostics[0].message(), "关闭分隔符与当前打开的 ( 不匹配");
    assert_eq!(unmatched.diagnostics[1].message(), "分隔符 ( 没有闭合");
    let escape = Lexer::new(&SourceFile::from_text("\"a\\q\"")).tokenize();
    assert_eq!(escape.diagnostics[0].message(), "不支持的字符串转义：\\q");
    let character = Lexer::new(&SourceFile::from_text("§")).tokenize();
    assert_eq!(character.diagnostics[0].message(), "无法识别的字符：'§'");
    let lone = Lexer::new(&SourceFile::from_text("}")).tokenize();
    assert_eq!(lone.diagnostics[0].message(), "关闭分隔符与当前打开的 无 不匹配");
}

#[test]
fn backtick_escape_before_line_break_stops_at_the_break() {
    let source = SourceFile::from_text("`a\\\nb");
    let result = Lexer::new(&source).tokenize();
    assert_eq!(result.tokens[0].kind(), TokenKind::Invalid);
    assert_eq!(result.tokens[0].text(&source), "`a\\");
    assert_eq!(result.tokens[1].kind(), TokenKind::Newline);
    assert_eq!(result.diagnostics[0].code(), UNTERMINATED_BACKTICK_CODE);
}

#[test]
fn fresh_lexer_starts_at_offset_zero() {
    let source = SourceFile::from_text("abc");
    let lexer = Lexer::new(&source);
    assert_eq!(lexer.offset(), 0);
    assert!(lexer.diagnostics().is_empty());
}

#[test]
fn every_byte_is_in_a_token_or_blank_or_commented() {
    let text = "if a:\n    b = \"x\" # note\n\tc(1, 2.5) ### doc ###\n# whole line\nd\n";
    let source = SourceFile::from_text(text);
    let result = Lexer::new(&source).tokenize();
    let bytes = text.as_bytes();
    for (i, byte) in bytes.iter().enumerate() {
        let covered = result
            .tokens
            .iter()
            .any(|token| token.span().start() <= i && i < token.span().end());
        let in_comment = bytes[..=i]
            .iter()
            .rposition(|b| *b == b'#')
            .map_or(false, |c| !bytes[c..=i].contains(&b'\n'));
        assert!(covered || *byte == b' ' || *byte == b'\t' || in_comment, "byte {i} is unaccounted for");
    }
}
