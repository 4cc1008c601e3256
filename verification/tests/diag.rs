use dyne::diag::{Diagnostic, Level, Phase};
use dyne::source::{SourceFile, Span};

#[test]
fn render_primary_span_rustc_style() {
    let src = SourceFile::new("let x = 1\nlet y = ?\nlet z = 3");
    let err = Diagnostic::lex_error(Span::new(18, 19), "unexpected character '?'");
    assert_eq!(
        err.render(&src),
        "error[lex]: unexpected character '?'\n  --> line 2, col 9\n  |\n2 | let y = ?\n  |         ^"
    );
}

#[test]
fn render_two_labels_same_line() {
    let src = SourceFile::new("return a + b");
    let err = Diagnostic::type_error(Span::new(7, 12), "dimension mismatch in '+'")
        .with_label(Span::new(7, 8), "left side has Scalar<kg>")
        .with_label(Span::new(11, 12), "right side has Scalar<m>");
    assert_eq!(
        err.render(&src),
        "error[sema]: dimension mismatch in '+'\n  --> line 1, col 8\n  |\n1 | return a + b\n  |        ^^^^^\n  |        - left side has Scalar<kg>\n  |            - right side has Scalar<m>"
    );
}

#[test]
fn render_label_on_other_line_echoes_that_line() {
    let src = SourceFile::new("let a = 1\nlet a = 2");
    let err = Diagnostic::type_error(Span::new(14, 15), "`a` is already defined in this scope")
        .with_label(Span::new(4, 5), "previously defined here");
    assert_eq!(
        err.render(&src),
        "error[sema]: `a` is already defined in this scope\n  --> line 2, col 5\n  |\n2 | let a = 2\n  |     ^\n1 | let a = 1\n  |     - previously defined here"
    );
}

#[test]
fn render_notes_as_trailing_lines() {
    let src = SourceFile::new("let x = y");
    let err = Diagnostic::type_error(Span::new(8, 9), "type mismatch")
        .with_note("did you mean to_int(x)?");
    assert_eq!(
        err.render(&src),
        "error[sema]: type mismatch\n  --> line 1, col 9\n  |\n1 | let x = y\n  |         ^\n  = note: did you mean to_int(x)?"
    );
}

#[test]
fn render_warning_prefix() {
    let src = SourceFile::new("x = x + 1.5");
    let w = Diagnostic::warning(Span::new(4, 11), "precision risk");
    assert!(w.render(&src).starts_with("warning[sema]: precision risk"));
}

#[test]
fn render_multi_digit_gutter_right_aligns() {
    let src = SourceFile::new("a\nb\nc\nd\ne\nf\ng\nh\nlet a = 1\nlet a = 2");
    let err = Diagnostic::type_error(Span::new(30, 31), "`a` is already defined in this scope")
        .with_label(Span::new(20, 21), "previously defined here");
    assert_eq!(
        err.render(&src),
        "error[sema]: `a` is already defined in this scope\n  --> line 10, col 5\n   |\n10 | let a = 2\n   |     ^\n 9 | let a = 1\n   |     - previously defined here"
    );
}

#[test]
fn render_skips_label_beyond_source_end() {
    let src = SourceFile::new("let a = 1");
    let err = Diagnostic::type_error(Span::new(4, 5), "`a` is already defined in this scope")
        .with_label(Span::new(500, 506), "previously defined here");
    let rendered = err.render(&src);
    assert!(
        !rendered.contains("previously defined here"),
        "rendered: {rendered}"
    );
    assert!(rendered.contains("let a = 1"));
    assert!(rendered.contains('^'));
}

#[test]
fn diag_display_short_form() {
    let err = Diagnostic::parse_error(Span::new(5, 6), "expected ')'");
    assert_eq!(err.display(), "parse error at offset 5: expected ')'");
}

#[test]
fn render_for_parse_error() {
    let src = SourceFile::new("ab cd");
    let err = Diagnostic::parse_error(Span::new(3, 4), "expected '('");
    let rendered = err.render(&src);
    assert!(rendered.starts_with("error[parse]: expected '('"));
    assert!(rendered.contains("ab cd"));
}

#[test]
fn display_for_lex_error() {
    let err = Diagnostic::lex_error(Span::new(0, 1), "bad byte");
    assert_eq!(err.display(), "lex error at offset 0: bad byte");
}

#[test]
fn type_error_uses_sema_phase_and_error_level() {
    let d = Diagnostic::type_error(Span::new(0, 1), "type mismatch");
    assert_eq!(d.phase, Phase::Sema);
    assert_eq!(d.level, Level::Error);
    assert_eq!(d.message, "type mismatch");
    assert!(d.labels.is_empty());
    assert!(d.notes.is_empty());
}

#[test]
fn warning_uses_sema_phase_and_warning_level() {
    let d = Diagnostic::warning(Span::new(0, 1), "precision risk");
    assert_eq!(d.phase, Phase::Sema);
    assert_eq!(d.level, Level::Warning);
}

#[test]
fn with_label_appends_to_labels() {
    let d = Diagnostic::type_error(Span::new(0, 1), "expected Int")
        .with_label(Span::new(5, 10), "found String here");
    assert_eq!(d.labels.len(), 1);
    assert_eq!(d.labels[0].0, Span::new(5, 10));
    assert_eq!(d.labels[0].1, "found String here");
}

#[test]
fn with_note_appends_to_notes() {
    let d = Diagnostic::type_error(Span::new(0, 1), "type mismatch")
        .with_note("did you mean to_int(x)?")
        .with_note("see docs/types.md for conversion rules");
    assert_eq!(d.notes.len(), 2);
    assert_eq!(d.notes[0], "did you mean to_int(x)?");
    assert_eq!(d.notes[1], "see docs/types.md for conversion rules");
}

#[test]
fn lex_error_default_level_is_error() {
    let d = Diagnostic::lex_error(Span::new(0, 1), "bad byte");
    assert_eq!(d.level, Level::Error);
}

#[test]
fn parse_error_default_level_is_error() {
    let d = Diagnostic::parse_error(Span::new(0, 1), "expected ')'");
    assert_eq!(d.level, Level::Error);
}

