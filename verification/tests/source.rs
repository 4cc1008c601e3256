use dyne::source::{SourceFile, Span};

#[test]
fn span_merge() {
    let a = Span::new(0, 3);
    let b = Span::new(2, 5);
    assert_eq!(Span::merge(a, b), Span::new(0, 5));
}

#[test]
fn line_col_single_line() {
    let src = SourceFile::new("abcde");
    assert_eq!(src.line_col(0), (1, 1));
    assert_eq!(src.line_col(3), (1, 4));
}

#[test]
fn line_col_multi_line() {
    let src = SourceFile::new("ab\ncd\nef");
    assert_eq!(src.line_col(0), (1, 1));
    assert_eq!(src.line_col(3), (2, 1));
    assert_eq!(src.line_col(4), (2, 2));
    assert_eq!(src.line_col(6), (3, 1));
}

#[test]
fn line_text_fetch() {
    let src = SourceFile::new("foo\nbar\nbaz");
    assert_eq!(src.line_text(1), Some("foo"));
    assert_eq!(src.line_text(2), Some("bar"));
    assert_eq!(src.line_text(3), Some("baz"));
    assert_eq!(src.line_text(4), None);
}

