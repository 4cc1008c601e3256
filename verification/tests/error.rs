use dyne::error::CompileError;
use dyne::source::{SourceFile, Span};

#[test]
fn render_points_to_line_and_column() {
    let src = SourceFile::new("let x = 1\nlet y = ?\nlet z = 3");
    let err = CompileError::lex(Span::new(18, 19), "unexpected character '?'");
    let rendered = err.render(&src);
    assert!(rendered.contains("line 2, col 9"));
    assert!(rendered.contains("let y = ?"));
    assert!(rendered.contains("unexpected character '?'"));
}

#[test]
fn error_display_short_form() {
    let err = CompileError::parse(Span::new(5, 6), "expected ')'");
    assert_eq!(
        err.display(),
        "parse error at offset 5: expected ')'"
    );
}

