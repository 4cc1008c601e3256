//! Source file and span utilities.

use vstd::prelude::*;
use vstd::utf8::{decode_utf8, encode_utf8, is_char_boundary};
use vstd::string::StringSliceAdditionalSpecFns;

verus! {

/// A half-open byte range `[start, end)` into a source text.
#[derive(Clone, Copy, Debug, PartialEq, Eq, Structural)]
pub struct Span {
    pub start: usize,
    pub end: usize,
}

impl Span {
    pub fn new(start: usize, end: usize) -> (r: Span)
        ensures
            r.start == start,
            r.end == end,
    {
        Span { start, end }
    }

    /// The smallest span covering both arguments.
    pub open spec fn merge_spec(a: Span, b: Span) -> Span {
        Span {
            start: if a.start <= b.start { a.start } else { b.start },
            end: if a.end >= b.end { a.end } else { b.end },
        }
    }

    /// The smallest span covering both arguments.
    pub fn merge(a: Span, b: Span) -> (r: Span)
        ensures
            r == Span::merge_spec(a, b),
            r.start == if a.start <= b.start { a.start } else { b.start },
            r.end == if a.end >= b.end { a.end } else { b.end },
    {
        Span {
            start: if a.start <= b.start { a.start } else { b.start },
            end: if a.end >= b.end { a.end } else { b.end },
        }
    }
}

} // verus!

verus! {

/// `p` starts a line of `bytes`: it is `0` or directly follows a `\n`.
pub open spec fn is_line_start(bytes: Seq<u8>, p: int) -> bool {
    p == 0 || (1 <= p <= bytes.len() && bytes[p - 1] == 10u8)
}

/// `ls` lists every line start of `bytes` exactly once, in increasing order.
pub open spec fn line_starts_of(bytes: Seq<u8>, ls: Seq<usize>) -> bool {
    &&& ls.len() >= 1
    &&& ls[0] == 0
    &&& forall|i: int, j: int| 0 <= i < j < ls.len() ==> ls[i] < ls[j]
    &&& forall|i: int| 0 <= i < ls.len() ==> is_line_start(bytes, #[trigger] ls[i] as int)
    &&& forall|p: int| #[trigger] is_line_start(bytes, p) ==> exists|i: int| 0 <= i < ls.len() && ls[i] == p
}

/// Removes every trailing occurrence of byte `b`.
pub open spec fn trim_end_byte(s: Seq<u8>, b: u8) -> Seq<u8>
    decreases s.len(),
{
    if s.len() > 0 && s.last() == b {
        trim_end_byte(s.drop_last(), b)
    } else {
        s
    }
}

/// The bytes of line `k` (0-based) without its terminator: everything from
/// its start up to the next line start (or the end of the text), with
/// trailing `\n` and then trailing `\r` removed.
pub open spec fn line_bytes(bytes: Seq<u8>, ls: Seq<usize>, k: int) -> Seq<u8> {
    let start = ls[k] as int;
    let end = if k + 1 < ls.len() { ls[k + 1] as int } else { bytes.len() as int };
    trim_end_byte(trim_end_byte(bytes.subrange(start, end), 10u8), 13u8)
}

/// Cutting `bytes` at `start` and then `len` bytes later lands on
/// character boundaries both times (always true at line boundaries of
/// valid UTF-8; checked at run time).
pub open spec fn splits_cleanly(bytes: Seq<u8>, start: int, len: int) -> bool {
    is_char_boundary(bytes, start)
        && is_char_boundary(bytes.subrange(start, bytes.len() as int), len)
}

/// Underline width of `span` whose first line's content ends at `line_end`.
pub open spec fn clamp_width(span: Span, line_end: int) -> int {
    let end = if span.end <= line_end { span.end as int } else { line_end };
    if end > span.start { end - span.start } else { 1 }
}

/// A source text together with the byte offsets at which its lines start.
#[derive(Debug)]
pub struct SourceFile {
    text: String,
    line_starts: Vec<usize>,
}

impl SourceFile {
    #[verifier::type_invariant]
    spec fn inv(self) -> bool {
        &&& line_starts_of(encode_utf8(self.text@), self.line_starts@)
        &&& encode_utf8(self.text@).len() <= usize::MAX
    }

    /// The text's bytes.
    pub closed spec fn bytes(self) -> Seq<u8> {
        encode_utf8(self.text@)
    }

    /// The text's characters.
    pub closed spec fn chars(self) -> Seq<char> {
        self.text@
    }

    /// Byte offsets of the line starts, in increasing order.
    pub closed spec fn starts(self) -> Seq<usize> {
        self.line_starts@
    }

    /// The characters of 1-based line `line` without its terminator, or
    /// the empty sequence where the line cannot be cut on character
    /// boundaries (never the case for valid UTF-8 line breaks).
    pub open spec fn excerpt(self, line: int) -> Seq<char> {
        let b = line_bytes(self.bytes(), self.starts(), line - 1);
        if splits_cleanly(self.bytes(), self.starts()[line - 1] as int, b.len() as int) {
            decode_utf8(b)
        } else {
            Seq::<char>::empty()
        }
    }

    /// Byte offset at which the content of 0-based line `k` ends: the
    /// position of its `\n`, or the end of the text for the last line.
    pub open spec fn content_end(self, k: int) -> int {
        if k + 1 < self.starts().len() {
            self.starts()[k + 1] - 1
        } else {
            self.bytes().len() as int
        }
    }

    pub fn new(text: &str) -> (r: SourceFile)
        ensures
            r.chars() == text@,
            r.bytes() == text.spec_bytes(),
            r.bytes() == encode_utf8(text@),
            line_starts_of(r.bytes(), r.starts()),
    {
        let owned = text.to_owned();
        let bytes = owned.as_str().as_bytes();
        let ghost bs = bytes@;
        let mut line_starts: Vec<usize> = Vec::new();
        line_starts.push(0);
        let n = bytes.len();
        let mut i: usize = 0;
        assert(line_starts@[0] == 0);
        while i < n
            invariant
                n == bs.len(),
                bytes@ == bs,
                i <= n,
                line_starts@.len() >= 1,
                line_starts@[0] == 0,
                forall|a: int, b: int| 0 <= a < b < line_starts@.len() ==> line_starts@[a] < line_starts@[b],
                forall|a: int| 0 <= a < line_starts@.len() ==> line_starts@[a] <= i,
                forall|a: int| 0 <= a < line_starts@.len() ==> is_line_start(bs, #[trigger] line_starts@[a] as int),
                forall|p: int| #[trigger] is_line_start(bs, p) && p <= i ==> exists|a: int| 0 <= a < line_starts@.len() && line_starts@[a] == p,
            decreases n - i,
        {
            let ghost prev = line_starts@;
            if bytes[i] == 10u8 {
                line_starts.push(i + 1);
                assert(is_line_start(bs, (i + 1) as int));
            }
            i = i + 1;
            assert forall|p: int| #[trigger] is_line_start(bs, p) && p <= i implies exists|a: int| 0 <= a < line_starts@.len() && line_starts@[a] == p by {
                if p == i && p > 0 {
                    assert(bs[p - 1] == 10u8);
                    assert(line_starts@[line_starts@.len() - 1] == p);
                } else {
                    let a = choose|a: int| 0 <= a < prev.len() && prev[a] == p;
                    assert(line_starts@[a] == p);
                }
            }
        }
        proof {
            assert forall|p: int| #[trigger] is_line_start(bs, p) implies exists|a: int| 0 <= a < line_starts@.len() && line_starts@[a] == p by {
                assert(p <= n);
            }
        }
        SourceFile { text: owned, line_starts }
    }

    pub fn text(&self) -> (r: &str)
        ensures
            r@ == self.chars(),
            r.spec_bytes() == self.bytes(),
            self.bytes().len() <= usize::MAX,
    {
        proof { use_type_invariant(self); }
        self.text.as_str()
    }

    /// Returns (line, column) as 1-based indices for the given byte offset:
    /// the line is the last one starting at or before `offset`, and the
    /// column counts bytes from that line's start.
    pub fn line_col(&self, offset: usize) -> (r: (usize, usize))
        requires
            offset < usize::MAX,
        ensures
            1 <= r.0 <= self.starts().len(),
            self.starts()[r.0 - 1] <= offset,
            r.0 == self.starts().len() || offset < self.starts()[r.0 as int],
            r.1 == offset - self.starts()[r.0 - 1] + 1,
    {
        proof { use_type_invariant(self); }
        let ls = &self.line_starts;
        // Binary search for the last line start <= offset.
        let mut lo: usize = 0;
        let mut hi: usize = ls.len();
        while lo + 1 < hi
            invariant
                ls@ == self.starts(),
                line_starts_of(self.bytes(), ls@),
                0 <= lo < hi <= ls@.len(),
                ls@[lo as int] <= offset,
                hi == ls@.len() || offset < ls@[hi as int],
            decreases hi - lo,
        {
            let mid = lo + (hi - lo) / 2;
            if ls[mid] <= offset {
                lo = mid;
            } else {
                hi = mid;
            }
        }
        let line_start = ls[lo];
        (lo + 1, offset - line_start + 1)
    }

    /// Line, column and underline width of `span`: line and column of its
    /// start as in `line_col`, and the number of bytes of the span that lie
    /// on that first line (a span crossing a line break is clamped to the
    /// end of its first line), at least 1.
    pub fn line_col_width(&self, span: Span) -> (r: (usize, usize, usize))
        requires
            span.start < usize::MAX,
        ensures
            1 <= r.0 <= self.starts().len(),
            self.starts()[r.0 - 1] <= span.start,
            r.0 == self.starts().len() || span.start < self.starts()[r.0 as int],
            r.1 == span.start - self.starts()[r.0 - 1] + 1,
            r.2 == clamp_width(span, self.content_end(r.0 - 1)),
    {
        proof { use_type_invariant(self); }
        let (line, col) = self.line_col(span.start);
        let line_end = if line < self.line_starts.len() {
            assert(self.line_starts@[0] < self.line_starts@[line as int]);
            self.line_starts[line] - 1
        } else {
            let t = self.text.as_str();
            assert(t.spec_bytes() == self.bytes());
            t.len()
        };
        assert(line_end == self.content_end(line - 1));
        let end = if span.end <= line_end { span.end } else { line_end };
        let w = if end > span.start { end - span.start } else { 1 };
        (line, col, w)
    }

    /// The full text of the given 1-based line, without its `\n` / `\r\n`
    /// terminator; `None` past the last line.
    pub fn line_text(&self, line: usize) -> (r: Option<&str>)
        requires
            line >= 1,
        ensures
            r is Some <==> line <= self.starts().len(),
            r matches Some(s) ==> s@ == self.excerpt(line as int),
    {
        proof { use_type_invariant(self); }
        if line > self.line_starts.len() {
            return None;
        }
        let k = line - 1;
        let start = self.line_starts[k];
        let bytes = self.text.as_str().as_bytes();
        let end = if line < self.line_starts.len() { self.line_starts[line] } else { bytes.len() };
        proof {
            if line < self.line_starts@.len() {
                assert(is_line_start(self.bytes(), end as int));
            }
        }
        let ghost whole = bytes@.subrange(start as int, end as int);
        let mut e = end;
        while e > start && bytes[e - 1] == 10u8
            invariant
                start <= e <= end <= bytes@.len(),
                trim_end_byte(bytes@.subrange(start as int, e as int), 10u8) == trim_end_byte(whole, 10u8),
            decreases e,
        {
            assert(bytes@.subrange(start as int, (e - 1) as int) =~= bytes@.subrange(start as int, e as int).drop_last());
            e = e - 1;
        }
        assert(trim_end_byte(bytes@.subrange(start as int, e as int), 10u8) == bytes@.subrange(start as int, e as int));
        let ghost mid = bytes@.subrange(start as int, e as int);
        while e > start && bytes[e - 1] == 13u8
            invariant
                start <= e <= end <= bytes@.len(),
                trim_end_byte(bytes@.subrange(start as int, e as int), 13u8) == trim_end_byte(mid, 13u8),
            decreases e,
        {
            assert(bytes@.subrange(start as int, (e - 1) as int) =~= bytes@.subrange(start as int, e as int).drop_last());
            e = e - 1;
        }
        assert(trim_end_byte(bytes@.subrange(start as int, e as int), 13u8) == bytes@.subrange(start as int, e as int));
        let s = self.text.as_str();
        if !s.is_char_boundary(start) {
            proof { reveal_strlit(""); }
            return Some("");
        }
        let (_, tail) = s.split_at(start);
        if !tail.is_char_boundary(e - start) {
            proof { reveal_strlit(""); }
            return Some("");
        }
        let (out, _) = tail.split_at(e - start);
        assert(out.spec_bytes() =~= bytes@.subrange(start as int, e as int));
        proof {
            vstd::utf8::encode_utf8_decode_utf8(out@);
        }
        Some(out)
    }
}

} // verus!
