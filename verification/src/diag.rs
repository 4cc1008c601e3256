//! Compile-time diagnostic type.

use vstd::prelude::*;
use crate::source::{clamp_width, SourceFile, Span};
use crate::text::{decimal_width, int_digits, nat_digits, push_char, push_repeat, push_str, push_usize, repeat_char, string_of};

verus! {

/// The compiler phase that produced a diagnostic.
#[derive(Clone, Copy, Debug, PartialEq, Eq, Structural)]
pub enum Phase {
    Lex,
    Parse,
    Sema,
}

pub open spec fn phase_label(p: Phase) -> Seq<char> {
    match p {
        Phase::Lex => "lex error"@,
        Phase::Parse => "parse error"@,
        Phase::Sema => "sema error"@,
    }
}

pub open spec fn phase_name(p: Phase) -> Seq<char> {
    match p {
        Phase::Lex => "lex"@,
        Phase::Parse => "parse"@,
        Phase::Sema => "sema"@,
    }
}

impl Phase {
    pub fn label(self) -> (r: &'static str)
        ensures
            r@ == phase_label(self),
    {
        match self {
            Phase::Lex => "lex error",
            Phase::Parse => "parse error",
            Phase::Sema => "sema error",
        }
    }

    pub fn name(self) -> (r: &'static str)
        ensures
            r@ == phase_name(self),
    {
        match self {
            Phase::Lex => "lex",
            Phase::Parse => "parse",
            Phase::Sema => "sema",
        }
    }
}

/// Severity of a diagnostic.
#[derive(Clone, Copy, Debug, PartialEq, Eq, Structural)]
pub enum Level {
    Error,
    Warning,
    Note,
}

pub open spec fn level_name(l: Level) -> Seq<char> {
    match l {
        Level::Error => "error"@,
        Level::Warning => "warning"@,
        Level::Note => "note"@,
    }
}

impl Level {
    pub fn name(self) -> (r: &'static str)
        ensures
            r@ == level_name(self),
    {
        match self {
            Level::Error => "error",
            Level::Warning => "warning",
            Level::Note => "note",
        }
    }
}

/// A diagnostic: severity, phase, primary span and message, plus secondary
/// labelled spans and free-form notes.
#[derive(Debug, PartialEq, Eq)]
pub struct Diagnostic {
    pub level: Level,
    pub phase: Phase,
    pub span: Span,
    pub message: String,
    pub labels: Vec<(Span, String)>,
    pub notes: Vec<String>,
}

/// One underline row of a rendered diagnostic.
struct Row {
    line: usize,
    col: usize,
    width: usize,
    marker: char,
    text: Option<String>,
}

impl Diagnostic {
    pub fn new(level: Level, phase: Phase, span: Span, message: &str) -> (r: Diagnostic)
        ensures
            r.level == level,
            r.phase == phase,
            r.span == span,
            r.message@ == message@,
            r.labels@.len() == 0,
            r.notes@.len() == 0,
    {
        Diagnostic {
            level,
            phase,
            span,
            message: string_of(message),
            labels: Vec::new(),
            notes: Vec::new(),
        }
    }

    /// Builds an error diagnostic from an owned message.
    pub fn error_owned(phase: Phase, span: Span, message: String) -> (r: Diagnostic)
        ensures
            r.level == Level::Error,
            r.phase == phase,
            r.span == span,
            r.message@ == message@,
            r.labels@.len() == 0,
            r.notes@.len() == 0,
    {
        Diagnostic { level: Level::Error, phase, span, message, labels: Vec::new(), notes: Vec::new() }
    }

    pub fn lex_error(span: Span, message: &str) -> (r: Diagnostic)
        ensures
            r.level == Level::Error,
            r.phase == Phase::Lex,
            r.span == span,
            r.message@ == message@,
            r.labels@.len() == 0,
            r.notes@.len() == 0,
    {
        Self::new(Level::Error, Phase::Lex, span, message)
    }

    pub fn parse_error(span: Span, message: &str) -> (r: Diagnostic)
        ensures
            r.level == Level::Error,
            r.phase == Phase::Parse,
            r.span == span,
            r.message@ == message@,
            r.labels@.len() == 0,
            r.notes@.len() == 0,
    {
        Self::new(Level::Error, Phase::Parse, span, message)
    }

    pub fn type_error(span: Span, message: &str) -> (r: Diagnostic)
        ensures
            r.level == Level::Error,
            r.phase == Phase::Sema,
            r.span == span,
            r.message@ == message@,
            r.labels@.len() == 0,
            r.notes@.len() == 0,
    {
        Self::new(Level::Error, Phase::Sema, span, message)
    }

    pub fn warning(span: Span, message: &str) -> (r: Diagnostic)
        ensures
            r.level == Level::Warning,
            r.phase == Phase::Sema,
            r.span == span,
            r.message@ == message@,
            r.labels@.len() == 0,
            r.notes@.len() == 0,
    {
        Self::new(Level::Warning, Phase::Sema, span, message)
    }

    /// Appends a secondary labelled span.
    pub fn with_label(self, span: Span, message: &str) -> (r: Diagnostic)
        ensures
            r.level == self.level,
            r.phase == self.phase,
            r.span == self.span,
            r.message == self.message,
            r.notes == self.notes,
            r.labels@.len() == self.labels@.len() + 1,
            forall|i: int| 0 <= i < self.labels@.len() ==> #[trigger] r.labels@[i] == self.labels@[i],
            r.labels@.last().0 == span,
            r.labels@.last().1@ == message@,
    {
        let mut d = self;
        d.labels.push((span, string_of(message)));
        d
    }

    /// Appends a free-form note.
    pub fn with_note(self, message: &str) -> (r: Diagnostic)
        ensures
            r.level == self.level,
            r.phase == self.phase,
            r.span == self.span,
            r.message == self.message,
            r.labels == self.labels,
            r.notes@.len() == self.notes@.len() + 1,
            forall|i: int| 0 <= i < self.notes@.len() ==> #[trigger] r.notes@[i] == self.notes@[i],
            r.notes@.last()@ == message@,
    {
        let mut d = self;
        d.notes.push(string_of(message));
        d
    }

    /// Short one-line form: `{phase label} at offset {start}: {message}`.
    pub fn display(&self) -> (r: String)
        ensures
            r@ == phase_label(self.phase) + " at offset "@ + nat_digits(self.span.start as nat)
                + ": "@ + self.message@,
    {
        let mut out = string_of(self.phase.label());
        push_str(&mut out, " at offset ");
        push_usize(&mut out, self.span.start);
        push_str(&mut out, ": ");
        push_str(&mut out, self.message.as_str());
        out
    }

    /// Render the diagnostic in rustc style: a `{level}[{phase}]:` header,
    /// an arrow line locating the primary span, a line-number gutter with
    /// the source excerpt and a `^` underline for the primary span, one
    /// `-` underline row per label (label text appended; the label's line
    /// is re-echoed only when it differs from the previously echoed line),
    /// and trailing `= note:` lines. Labels whose span starts at or past
    /// the end of `source` are skipped. Spans crossing a line boundary are
    /// clamped to their first line.
    pub fn render(&self, source: &SourceFile) -> (out: String)
        requires
            self.span.start < usize::MAX,
        ensures
            exists|rows: Seq<RowV>| rows_ok(rows, *self, *source, self.labels@.len() as int) && out@ == layout(
                *self,
                *source,
                rows,
            ),
    {
        let (line, col, width) = source.line_col_width(self.span);
        let src_len = source.text().len();
        let mut rows: Vec<Row> = Vec::new();
        rows.push(Row { line, col, width, marker: '^', text: None });
        let ghost primary: RowV = (line as int, col as int, width as int, '^', None);
        let ghost mut rv: Seq<RowV> = seq![primary];
        let mut i: usize = 0;
        while i < self.labels.len()
            invariant
                i <= self.labels@.len(),
                src_len == source.bytes().len(),
                forall|k: int| 0 <= k < rows@.len() ==> #[trigger] rows@[k].line >= 1 && rows@[k].col >= 1,
                rows@.len() == rv.len(),
                forall|k: int| 0 <= k < rows@.len() ==> #[trigger] row_view(rows@[k]) == rv[k],
                rv.len() >= 1,
                rv[0] == primary,
                rows_ok(rv, *self, *source, i as int),
                forall|j: int| 0 <= j < rv.len() ==> 1 <= #[trigger] rv[j].0 <= source.starts().len(),
            decreases self.labels@.len() - i,
        {
            let span = self.labels[i].0;
            if span.start < src_len {
                let (l, c, w) = source.line_col_width(span);
                let row = Row { line: l, col: c, width: w, marker: '-', text: Some(self.labels[i].1.clone()) };
                let ghost rv0 = rv;
                proof {
                    rv = rv.push(row_view(row));
                    assert(rv.drop_last() =~= rv0);
                }
                rows.push(row);
            }
            i = i + 1;
        }
        let mut gutter: usize = 1;
        let mut k: usize = 0;
        while k < rows.len()
            invariant
                k <= rows@.len(),
                1 <= gutter,
                rows@.len() == rv.len(),
                forall|j: int| 0 <= j < rows@.len() ==> #[trigger] row_view(rows@[j]) == rv[j],
                gutter as int == gutter_of(rv, k as int),
                forall|j: int| 0 <= j < rv.len() ==> 1 <= #[trigger] rv[j].0 <= source.starts().len(),
            decreases rows@.len() - k,
        {
            let w = decimal_width(rows[k].line);
            proof {
                assert(row_view(rows@[k as int]) == rv[k as int]);
            }
            if w > gutter {
                gutter = w;
            }
            k = k + 1;
        }
        let mut out = string_of(self.level.name());
        push_char(&mut out, '[');
        push_str(&mut out, self.phase.name());
        push_str(&mut out, "]: ");
        push_str(&mut out, self.message.as_str());
        push_str(&mut out, "\n  --> line ");
        let ghost header = out@;
        assert(header == render_header(*self));
        push_usize(&mut out, line);
        push_str(&mut out, ", col ");
        push_usize(&mut out, col);
        push_char(&mut out, '\n');
        push_repeat(&mut out, ' ', gutter);
        push_str(&mut out, " |");
        let ghost a = out@;
        let ghost g = gutter as int;
        let mut echoed: usize = 0;
        let mut r: usize = 0;
        while r < rows.len()
            invariant
                r <= rows@.len(),
                forall|k: int| 0 <= k < rows@.len() ==> #[trigger] rows@[k].line >= 1 && rows@[k].col >= 1,
                rows@.len() == rv.len(),
                forall|j: int| 0 <= j < rows@.len() ==> #[trigger] row_view(rows@[j]) == rv[j],
                g == gutter as int,
                echoed as int == (if r == 0 { 0 } else { rv[r - 1].0 }),
                out@ + rows_text(rv, r as int, echoed as int, g, *source) == a + rows_text(rv, 0, 0, g, *source),
                forall|j: int| 0 <= j < rv.len() ==> 1 <= #[trigger] rv[j].0 <= source.starts().len(),
            decreases rows@.len() - r,
        {
            let ghost before = out@;
            let row = &rows[r];
            proof {
                assert(row_view(rows@[r as int]) == rv[r as int]);
            }
            let ghost e0 = echoed as int;
            echoed = push_row(&mut out, row, echoed, gutter, source);
            proof {
                let rw = rv[r as int];
                assert(rows_text(rv, r as int, e0, g, *source) == row_text(rw, e0, g, *source) + rows_text(rv, r + 1, rw.0, g, *source));
                assert(out@ + rows_text(rv, r + 1, rw.0, g, *source) =~= before + rows_text(rv, r as int, e0, g, *source));
            }
            r = r + 1;
        }
        let ghost b = out@;
        let mut n: usize = 0;
        while n < self.notes.len()
            invariant
                n <= self.notes@.len(),
                out@ + notes_text(self.notes@, n as int, g) == b + notes_text(self.notes@, 0, g),
                g == gutter as int,
            decreases self.notes@.len() - n,
        {
            let ghost before = out@;
            push_char(&mut out, '\n');
            push_repeat(&mut out, ' ', gutter);
            push_str(&mut out, " = note: ");
            push_str(&mut out, self.notes[n].as_str());
            proof {
                reveal_strlit("\n");
                let nt = "\n"@ + repeat_char(' ', g as nat) + " = note: "@ + self.notes@[n as int]@;
                assert(out@ =~= before + nt);
                assert(notes_text(self.notes@, n as int, g) == nt + notes_text(self.notes@, n + 1, g));
                assert(out@ + notes_text(self.notes@, n + 1, g) =~= before + notes_text(self.notes@, n as int, g));
            }
            n = n + 1;
        }
        proof {
            reveal_strlit("\n");
            assert(rows_text(rv, rv.len() as int, echoed as int, g, *source) =~= Seq::<char>::empty());
            assert(notes_text(self.notes@, self.notes@.len() as int, g) =~= Seq::<char>::empty());
            assert(out@ =~= layout(*self, *source, rv));
        }
        out
    }
}

/// The source line a row echoes before its underline, when it is not
/// the line last echoed.
pub open spec fn echo_text(row: RowV, echoed: int, gutter: int, src: SourceFile) -> Seq<char> {
    let dw = nat_digits(row.0 as nat).len() as int;
    if row.0 != echoed {
        "\n"@ + (if dw < gutter { repeat_char(' ', (gutter - dw) as nat) } else { Seq::empty() }) + nat_digits(row.0 as nat)
            + " | "@ + src.excerpt(row.0)
    } else {
        Seq::empty()
    }
}

/// A row's underline with its label text.
pub open spec fn underline_text(row: RowV, gutter: int) -> Seq<char> {
    "\n"@ + repeat_char(' ', gutter as nat) + " | "@ + repeat_char(' ', (row.1 - 1) as nat) + repeat_char(row.3, row.2 as nat)
        + match row.4 {
        Some(t) => " "@ + t,
        None => Seq::empty(),
    }
}

/// Appends the text of one underline row (see `row_text`) and returns the
/// line now last echoed.
fn push_row(out: &mut String, row: &Row, echoed: usize, gutter: usize, source: &SourceFile) -> (e: usize)
    requires
        row.line >= 1,
        row.col >= 1,
        row.line <= source.starts().len(),
    ensures
        final(out)@ == old(out)@ + row_text(row_view(*row), echoed as int, gutter as int, *source),
        e == row.line,
{
    let ghost before = out@;
    push_echo(out, row, echoed, gutter, source);
    let ghost mid = out@;
    push_underline(out, row, gutter);
    proof {
        let rw = row_view(*row);
        assert(row_text(rw, echoed as int, gutter as int, *source) == echo_text(rw, echoed as int, gutter as int, *source)
            + underline_text(rw, gutter as int));
        assert(out@ =~= before + row_text(rw, echoed as int, gutter as int, *source));
    }
    row.line
}

fn push_echo(out: &mut String, row: &Row, echoed: usize, gutter: usize, source: &SourceFile)
    requires
        row.line >= 1,
        row.line <= source.starts().len(),
    ensures
        final(out)@ == old(out)@ + echo_text(row_view(*row), echoed as int, gutter as int, *source),
{
    let ghost before = out@;
    if row.line != echoed {
        push_char(out, '\n');
        let ghost a1 = out@;
        let dw = decimal_width(row.line);
        if dw < gutter {
            push_repeat(out, ' ', gutter - dw);
        }
        let ghost a2 = out@;
        push_usize(out, row.line);
        push_str(out, " | ");
        let ghost a3 = out@;
        match source.line_text(row.line) {
            Some(t) => push_str(out, t),
            None => {},
        }
        proof {
            reveal_strlit("\n");
            assert(a1 =~= before + "\n"@);
        }
    }
    proof {
        reveal_strlit("\n");
        assert(out@ =~= before + echo_text(row_view(*row), echoed as int, gutter as int, *source));
    }
}

fn push_underline(out: &mut String, row: &Row, gutter: usize)
    requires
        row.col >= 1,
    ensures
        final(out)@ == old(out)@ + underline_text(row_view(*row), gutter as int),
{
    let ghost before = out@;
    push_char(out, '\n');
    push_repeat(out, ' ', gutter);
    push_str(out, " | ");
    push_repeat(out, ' ', row.col - 1);
    push_repeat(out, row.marker, row.width);
    let ghost mid = out@;
    match &row.text {
        Some(t) => {
            push_char(out, ' ');
            push_str(out, t.as_str());
        },
        None => {},
    }
    proof {
        reveal_strlit("\n");
        reveal_strlit(" ");
        assert(out@ =~= before + underline_text(row_view(*row), gutter as int));
    }
}

/// One underline row: line, column, width, marker and label text.
pub type RowV = (int, int, int, char, Option<Seq<char>>);

/// The mathematical value of a row.
spec fn row_view(r: Row) -> RowV {
    (r.line as int, r.col as int, r.width as int, r.marker, match r.text {
        Some(t) => Some(t@),
        None => None,
    })
}

/// `row` underlines `span` of `src` with `marker`: its line is the last
/// starting at or before the span, its column counts bytes from that
/// line's start (1-based), and its width is the span's part on that line
/// (at least 1).
pub open spec fn row_ok(row: RowV, span: Span, src: SourceFile, marker: char, text: Option<Seq<char>>) -> bool {
    let ls = src.starts();
    &&& 1 <= row.0 <= ls.len()
    &&& ls[row.0 - 1] <= span.start
    &&& (row.0 == ls.len() || span.start < ls[row.0 as int])
    &&& row.1 == span.start - ls[row.0 - 1] + 1
    &&& row.2 == clamp_width(span, src.content_end(row.0 - 1))
    &&& row.3 == marker
    &&& row.4 == text
}

/// `rows` are the rows of `d` over its first `n` labels: the primary
/// span's `^` row, then a `-` row for each label starting inside the text.
pub open spec fn rows_ok(rows: Seq<RowV>, d: Diagnostic, src: SourceFile, n: int) -> bool
    decreases n,
{
    if n <= 0 {
        rows.len() == 1 && row_ok(rows[0], d.span, src, '^', None)
    } else if n > d.labels@.len() {
        false
    } else if d.labels@[n - 1].0.start < src.bytes().len() {
        rows.len() > 1 && row_ok(rows.last(), d.labels@[n - 1].0, src, '-', Some(d.labels@[n - 1].1@))
            && rows_ok(rows.drop_last(), d, src, n - 1)
    } else {
        rows_ok(rows, d, src, n - 1)
    }
}

/// The widest line number among the first `k` rows (at least 1 digit).
pub open spec fn gutter_of(rows: Seq<RowV>, k: int) -> int
    decreases k,
{
    if k <= 0 {
        1
    } else {
        let g = gutter_of(rows, k - 1);
        let w = nat_digits(rows[k - 1].0 as nat).len() as int;
        if w > g { w } else { g }
    }
}

/// The text of one row, after the line last echoed was `echoed`: the
/// row's source line (right-aligned number, ` | `, the line) when it
/// differs, then the underline under it with the label text.
pub open spec fn row_text(row: RowV, echoed: int, gutter: int, src: SourceFile) -> Seq<char> {
    echo_text(row, echoed, gutter, src) + underline_text(row, gutter)
}

/// The rows from index `k` on, after the line last echoed was `echoed`.
pub open spec fn rows_text(rows: Seq<RowV>, k: int, echoed: int, gutter: int, src: SourceFile) -> Seq<char>
    decreases rows.len() - k,
{
    if k < 0 || k >= rows.len() {
        Seq::empty()
    } else {
        row_text(rows[k], echoed, gutter, src) + rows_text(rows, k + 1, rows[k].0, gutter, src)
    }
}

/// The `= note:` lines for the notes from index `k` on.
pub open spec fn notes_text(notes: Seq<String>, k: int, gutter: int) -> Seq<char>
    decreases notes.len() - k,
{
    if k < 0 || k >= notes.len() {
        Seq::empty()
    } else {
        "\n"@ + repeat_char(' ', gutter as nat) + " = note: "@ + notes[k]@ + notes_text(notes, k + 1, gutter)
    }
}

/// The whole rendering of `d` with the rows `rows`.
pub open spec fn layout(d: Diagnostic, src: SourceFile, rows: Seq<RowV>) -> Seq<char> {
    let g = gutter_of(rows, rows.len() as int);
    render_header(d) + nat_digits(rows[0].0 as nat) + ", col "@ + nat_digits(rows[0].1 as nat) + "\n"@ + repeat_char(
        ' ',
        g as nat,
    ) + " |"@ + rows_text(rows, 0, 0, g, src) + notes_text(d.notes@, 0, g)
}

/// The fixed first part of a rendered diagnostic:
/// `{level}[{phase}]: {message}\n  --> line `.
pub open spec fn render_header(d: Diagnostic) -> Seq<char> {
    level_name(d.level) + seq!['['] + phase_name(d.phase) + "]: "@ + d.message@ + "\n  --> line "@
}


/// `new` extends `old` with diagnostics that are all sema-phase errors.
pub open spec fn appends_sema_errors(old: Seq<Diagnostic>, new: Seq<Diagnostic>) -> bool {
    &&& new.len() >= old.len()
    &&& new.subrange(0, old.len() as int) == old
    &&& forall|i: int| old.len() <= i < new.len() ==> (#[trigger] new[i]).phase == Phase::Sema && new[i].level == Level::Error
}

pub proof fn lemma_appends_refl(s: Seq<Diagnostic>)
    ensures
        appends_sema_errors(s, s),
{
    assert(s.subrange(0, s.len() as int) =~= s);
}

pub proof fn lemma_appends_push(a: Seq<Diagnostic>, b: Seq<Diagnostic>, d: Diagnostic)
    requires
        appends_sema_errors(a, b),
        d.phase == Phase::Sema,
        d.level == Level::Error,
    ensures
        appends_sema_errors(a, b.push(d)),
{
    assert(b.push(d).subrange(0, a.len() as int) =~= b.subrange(0, a.len() as int));
}

pub proof fn lemma_appends_trans(a: Seq<Diagnostic>, b: Seq<Diagnostic>, c: Seq<Diagnostic>)
    requires
        appends_sema_errors(a, b),
        appends_sema_errors(b, c),
    ensures
        appends_sema_errors(a, c),
{
    assert(c.subrange(0, a.len() as int) =~= c.subrange(0, b.len() as int).subrange(0, a.len() as int));
    assert forall|i: int| a.len() <= i < c.len() implies (#[trigger] c[i]).phase == Phase::Sema && c[i].level == Level::Error by {
        if i < b.len() {
            assert(c[i] == c.subrange(0, b.len() as int)[i]);
            assert(b[i].phase == Phase::Sema);
        }
    }
}


/// Appends a sema-phase error to a diagnostic list.
pub fn emit(diags: &mut Vec<Diagnostic>, d: Diagnostic)
    requires
        d.phase == Phase::Sema,
        d.level == Level::Error,
    ensures
        final(diags)@ == old(diags)@.push(d),
        appends_sema_errors(old(diags)@, final(diags)@),
{
    let ghost before = diags@;
    diags.push(d);
    proof {
        lemma_appends_refl(before);
        lemma_appends_push(before, before, d);
    }
}

} // verus!
