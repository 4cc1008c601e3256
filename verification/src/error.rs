//! Compile-time error type of the lexing and parsing phases.

use vstd::prelude::*;
use crate::source::{SourceFile, Span};
use crate::text::{nat_digits, push_char, push_repeat, push_str, push_usize, repeat_char, string_of};

verus! {

#[derive(Clone, Copy, Debug, PartialEq, Eq, Structural)]
pub enum ErrorKind {
    Lex,
    Parse,
}

pub open spec fn kind_label(k: ErrorKind) -> Seq<char> {
    match k {
        ErrorKind::Lex => "lex error"@,
        ErrorKind::Parse => "parse error"@,
    }
}

fn kind_str(k: ErrorKind) -> (r: &'static str)
    ensures
        r@ == kind_label(k),
{
    match k {
        ErrorKind::Lex => "lex error",
        ErrorKind::Parse => "parse error",
    }
}

#[derive(Debug, PartialEq, Eq)]
pub struct CompileError {
    pub kind: ErrorKind,
    pub span: Span,
    pub message: String,
}

impl CompileError {
    pub fn new(kind: ErrorKind, span: Span, message: &str) -> (r: CompileError)
        ensures
            r.kind == kind,
            r.span == span,
            r.message@ == message@,
    {
        CompileError { kind, span, message: string_of(message) }
    }

    pub fn lex(span: Span, message: &str) -> (r: CompileError)
        ensures
            r.kind == ErrorKind::Lex,
            r.span == span,
            r.message@ == message@,
    {
        Self::new(ErrorKind::Lex, span, message)
    }

    pub fn parse(span: Span, message: &str) -> (r: CompileError)
        ensures
            r.kind == ErrorKind::Parse,
            r.span == span,
            r.message@ == message@,
    {
        Self::new(ErrorKind::Parse, span, message)
    }

    /// Render the error with line/column and source excerpt:
    /// `{kind} at line {line}, col {col}: {msg}\n{excerpt}\n{caret}` where
    /// the caret line is `col - 1` spaces followed by `^`.
    pub fn render(&self, source: &SourceFile) -> (out: String)
        requires
            self.span.start < usize::MAX,
        ensures
            exists|line: usize, col: usize| {
                &&& 1 <= line <= source.starts().len()
                &&& source.starts()[line - 1] <= self.span.start
                &&& (line == source.starts().len() || self.span.start < source.starts()[line as int])
                &&& col == self.span.start - source.starts()[line - 1] + 1
                &&& out@ == kind_label(self.kind) + " at line "@ + nat_digits(line as nat) + ", col "@
                    + nat_digits(col as nat) + ": "@ + self.message@ + "\n"@ + source.excerpt(line as int)
                    + "\n"@ + repeat_char(' ', (col - 1) as nat) + "^"@
            },
    {
        let (line, col) = source.line_col(self.span.start);
        let mut out = string_of(kind_str(self.kind));
        push_str(&mut out, " at line ");
        push_usize(&mut out, line);
        push_str(&mut out, ", col ");
        push_usize(&mut out, col);
        push_str(&mut out, ": ");
        push_str(&mut out, self.message.as_str());
        push_str(&mut out, "\n");
        match source.line_text(line) {
            Some(t) => push_str(&mut out, t),
            None => {},
        }
        push_str(&mut out, "\n");
        push_repeat(&mut out, ' ', col - 1);
        push_str(&mut out, "^");
        out
    }

    /// Short one-line form: `{kind} at offset {start}: {message}`.
    pub fn display(&self) -> (r: String)
        ensures
            r@ == kind_label(self.kind) + " at offset "@ + nat_digits(self.span.start as nat) + ": "@
                + self.message@,
    {
        let mut out = string_of(kind_str(self.kind));
        push_str(&mut out, " at offset ");
        push_usize(&mut out, self.span.start);
        push_str(&mut out, ": ");
        push_str(&mut out, self.message.as_str());
        out
    }
}

} // verus!
