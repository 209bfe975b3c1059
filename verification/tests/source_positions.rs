use xiao::source::{
    SourceCursor, SourceError, SourceFile, SourcePosition, SourceSpan, INVALID_SPAN_CODE,
    INVALID_UTF8_CODE, NOT_CHAR_BOUNDARY_CODE, OFFSET_OUT_OF_BOUNDS_CODE,
};

#[test]
fn tracks_utf8_bytes_and_scalar_columns() {
    let source = SourceFile::from_text("a\n星崽");
    assert_eq!(source.len_bytes(), 8);
    assert_eq!(source.position_at(2).expect("位置应有效"), SourcePosition::new(2, 2, 1));
    assert_eq!(source.position_at(5).expect("位置应有效"), SourcePosition::new(5, 2, 2));
}

#[test]
fn treats_crlf_as_one_logical_line_break() {
    let source = SourceFile::from_text("a\r\nb");
    assert_eq!(source.line_count(), 2);
    assert_eq!(source.line_start(2), Some(3));
    assert_eq!(source.position_at(2).expect("CRLF 内部位置应有效").column, 2);
    assert_eq!(source.position_at(3).expect("位置应有效").line, 2);
}

#[test]
fn preserves_trailing_empty_line_after_newline() {
    let source = SourceFile::from_text("a\n");
    assert_eq!(source.line_count(), 2);
    assert_eq!(source.position_at(2).expect("EOF 位置应有效").line, 2);
    assert_eq!(source.position_at(2).expect("EOF 位置应有效").column, 1);
}

#[test]
fn rejects_invalid_utf8_and_bad_boundaries() {
    let error = SourceFile::from_bytes(&vec![0xf0, 0x28, 0x8c, 0xbc]).expect_err("应拒绝非法 UTF-8");
    assert!(matches!(error, SourceError::InvalidUtf8 { .. }));
    assert_eq!(error.code(), INVALID_UTF8_CODE);

    let source = SourceFile::from_text("星");
    assert!(matches!(
        source.position_at(1),
        Err(SourceError::NotCharBoundary { offset: 1 })
    ));
}

#[test]
fn validates_spans_and_cursor_progress() {
    let source = SourceFile::from_text("ab");
    let span = source.span(0, 1).expect("区间应有效");
    assert_eq!(span, SourceSpan::new(0, 1).expect("区间应有效"));
    assert_eq!(source.slice(span), "a");
    assert!(source.span(2, 1).is_err());

    let mut cursor = SourceCursor::new(&source);
    assert_eq!(cursor.peek(), Some('a'));
    assert_eq!(cursor.bump(), Some('a'));
    assert_eq!(cursor.offset(), 1);
    assert_eq!(cursor.bump(), Some('b'));
    assert!(cursor.is_eof());
}

#[test]
fn reports_each_source_error_code() {
    let source = SourceFile::from_text("星a");
    let out = source.position_at(9).expect_err("越界");
    assert_eq!(out, SourceError::OffsetOutOfBounds { offset: 9, length: 4 });
    assert_eq!(out.code(), OFFSET_OUT_OF_BOUNDS_CODE);
    assert_eq!(source.span(2, 3), Err(SourceError::NotCharBoundary { offset: 2 }));
    assert_eq!(source.span(0, 2), Err(SourceError::NotCharBoundary { offset: 2 }));
    assert_eq!(source.span(0, 2).unwrap_err().code(), NOT_CHAR_BOUNDARY_CODE);
    let bad = source.span(0, 5).unwrap_err();
    assert_eq!(bad, SourceError::InvalidSpan { start: 0, end: 5 });
    assert_eq!(bad.code(), INVALID_SPAN_CODE);
}

#[test]
fn reports_valid_prefix_of_invalid_utf8() {
    let error = SourceFile::from_bytes(&[b'a', b'b', 0xff, b'c']).expect_err("非法");
    assert_eq!(error, SourceError::InvalidUtf8 { valid_up_to: 2, error_len: Some(1) });
    let truncated = SourceFile::from_bytes(&[b'a', 0xe6, 0x98]).expect_err("截断");
    assert_eq!(truncated, SourceError::InvalidUtf8 { valid_up_to: 1, error_len: None });
    let ok = SourceFile::from_bytes("星崽".as_bytes()).expect("合法");
    assert_eq!(ok.text(), "星崽");
}

#[test]
fn line_index_counts_every_line_feed() {
    let source = SourceFile::from_text("x\n\ny\r\nz");
    assert_eq!(source.line_count(), 4);
    assert_eq!(source.line_start(1), Some(0));
    assert_eq!(source.line_start(3), Some(3));
    assert_eq!(source.line_start(4), Some(6));
    assert_eq!(source.line_start(0), None);
    assert_eq!(source.line_start(5), None);
    assert_eq!(source.position_at(6).unwrap(), SourcePosition::new(6, 4, 1));
    assert_eq!(source.position_at(4).unwrap(), SourcePosition::new(4, 3, 2));
    assert_eq!(source.position_at(7).unwrap(), SourcePosition::new(7, 4, 2));
    let empty = SourceFile::from_text("");
    assert_eq!(empty.line_count(), 1);
    assert!(empty.is_empty());
    assert_eq!(empty.position_at(0).unwrap(), SourcePosition::new(0, 1, 1));
}

#[test]
fn lone_carriage_return_stays_on_its_line() {
    let source = SourceFile::from_text("a\rb");
    assert_eq!(source.line_count(), 1);
    assert_eq!(source.position_at(3).unwrap(), SourcePosition::new(3, 1, 4));
}

#[test]
fn cursor_steps_over_multibyte_scalars() {
    let source = SourceFile::from_text("星😀");
    let mut cursor = SourceCursor::new(&source);
    assert_eq!(cursor.bump(), Some('星'));
    assert_eq!(cursor.offset(), 3);
    assert_eq!(cursor.position().unwrap(), SourcePosition::new(3, 1, 2));
    assert_eq!(cursor.peek(), Some('😀'));
    assert_eq!(cursor.bump(), Some('😀'));
    assert_eq!(cursor.offset(), 7);
    assert_eq!(cursor.bump(), None);
    assert_eq!(cursor.offset(), 7);
    assert_eq!(cursor.span_from(3).unwrap().len(), 4);
    assert!(cursor.span_from(8).is_err());
    assert_eq!(source.slice(cursor.span_from(0).unwrap()), "星😀");
}

#[test]
fn span_accessors_report_range() {
    let span = SourceSpan::new(2, 5).unwrap();
    assert_eq!(span.start(), 2);
    assert_eq!(span.end(), 5);
    assert_eq!(span.len(), 3);
    assert!(!span.is_empty());
    assert!(SourceSpan::new(4, 4).unwrap().is_empty());
    assert!(SourceSpan::new(5, 4).is_none());
}

#[test]
fn source_errors_render_stable_text() {
    assert_eq!(
        SourceError::InvalidUtf8 { valid_up_to: 3, error_len: Some(1) }.message(),
        "invalid UTF-8 at byte 3 (length: Some(1))"
    );
    assert_eq!(
        SourceError::InvalidUtf8 { valid_up_to: 0, error_len: None }.message(),
        "invalid UTF-8 at byte 0 (length: None)"
    );
    assert_eq!(
        SourceError::OffsetOutOfBounds { offset: 12, length: 10 }.message(),
        "byte offset 12 is outside source length 10"
    );
    assert_eq!(
        SourceError::NotCharBoundary { offset: 1 }.message(),
        "byte offset 1 is not a UTF-8 character boundary"
    );
    assert_eq!(SourceError::InvalidSpan { start: 4, end: 2 }.message(), "invalid source span [4, 2)");
}
