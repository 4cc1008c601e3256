//! Hand-written lexer state machine.
//!
//! The scanner walks the source character by character; token spans are
//! byte offsets of the UTF-8 encoding.

use vstd::prelude::*;
use vstd::string::StrSliceExecFns;
use crate::diag::{Diagnostic, Level, Phase};
use crate::lexer::lexeme::{
    all_digits, byte_len, char_index, char_width, decodes, digits_value, escape_value, exp_part, fixed_text,
    float_lexeme, frac_part, gap_ok, ident_continue, ident_lexeme, ident_start, in_comment, is_blank, is_digit,
    bad_token_at, int_too_large, lemma_in_comment_mono, open_comment, starts_something, string_breaks,
    lemma_char_index, lexeme_ok, longest, on_boundary, plain_string_char, prev_end, rest_after, skippable, text_of,
};
use crate::lexer::token::{keyword_spec, Token, TokenKind};
use crate::lexer::unique::lemma_fails_excludes;
use crate::source::Span;
use crate::text::{push_char, push_str, string_of};

verus! {

broadcast use vstd::std_specs::vec::group_vec_axioms;

/// Tokens produced so far: none is `Eof`, each covers a non-empty range
/// ending at or before `b`, the ranges are in order and do not overlap,
/// and no `Newline` directly follows another.
pub open spec fn scanned(ts: Seq<Token>, b: nat) -> bool {
    &&& forall|i: int| 0 <= i < ts.len() ==> !((#[trigger] ts[i]).kind is Eof) && ts[i].span.start < ts[i].span.end && ts[i].span.end <= b
    &&& forall|i: int, j: int| 0 <= i < j < ts.len() ==> (#[trigger] ts[i]).span.end <= (#[trigger] ts[j]).span.start
    &&& forall|i: int, j: int| 0 <= i && j == i + 1 && j < ts.len() && (#[trigger] ts[i]).kind is Newline ==> !((#[trigger] ts[j]).kind is Newline)
}

/// A complete token stream over a source of `n` bytes: the scanned tokens
/// followed by one `Eof` token at offset `n`.
pub open spec fn token_stream(ts: Seq<Token>, n: nat) -> bool {
    &&& ts.len() > 0
    &&& scanned(ts.drop_last(), n)
    &&& ts.last().kind is Eof
    &&& ts.last().span.start == n
    &&& ts.last().span.end == n
}

/// Every token's text is a spelling of its kind, and what stands before
/// each token may be skipped.
pub open spec fn tokens_lexed(src: Seq<char>, ts: Seq<Token>) -> bool {
    &&& forall|i: int| 0 <= i < ts.len() ==> lexeme_ok((#[trigger] ts[i]).kind, text_of(src, ts[i].span))
            && longest(ts[i].kind, rest_after(src, ts[i].span))
            && on_boundary(src, ts[i].span.start as nat) && on_boundary(src, ts[i].span.end as nat)
    &&& forall|i: int| 0 <= i < ts.len() ==> #[trigger] gap_ok(src, ts, i)
}

/// `ts` is what the source `src` lexes to: a complete token stream in
/// which the text under each token spells it (an identifier its name, an
/// integer its value, a string literal its contents with escapes
/// decoded, a keyword or operator its fixed spelling, a `Newline` one
/// line break) and is the longest token the source offers there, and
/// nothing but blanks, line comments and (after a `Newline` token)
/// further line breaks stands between the tokens.
pub open spec fn lexes_to(src: Seq<char>, ts: Seq<Token>) -> bool {
    &&& token_stream(ts, byte_len(src))
    &&& forall|i: int| 0 <= i < ts.len() - 1 ==> lexeme_ok((#[trigger] ts[i]).kind, text_of(src, ts[i].span))
            && longest(ts[i].kind, rest_after(src, ts[i].span))
    &&& forall|i: int| 0 <= i < ts.len() ==> on_boundary(src, (#[trigger] ts[i]).span.start as nat)
            && on_boundary(src, ts[i].span.end as nat)
    &&& forall|i: int| 0 <= i < ts.len() ==> #[trigger] gap_ok(src, ts, i)
}

/// The source lexes up to character `p`: the tokens `ts` spell what they
/// cover, and what stands between them and before `p` may be skipped.
pub open spec fn lexes_prefix(src: Seq<char>, ts: Seq<Token>, p: int) -> bool {
    &&& 0 <= p <= src.len()
    &&& scanned(ts, byte_len(src.take(p)))
    &&& tokens_lexed(src, ts)
    &&& char_index(src, prev_end(ts, ts.len() as int)) <= p
    &&& skippable(src, char_index(src, prev_end(ts, ts.len() as int)), p, ts.len() > 0 && ts.last().kind is Newline)
}

/// Lexing `src` fails: it is too long to index by byte offsets, or a
/// prefix of it lexes and what follows cannot begin a token.
pub open spec fn lex_fails(src: Seq<char>) -> bool {
    ||| src.len() > usize::MAX / 8
    ||| exists|ts: Seq<Token>, p: int| #[trigger] lexes_prefix(src, ts, p) && bad_token_at(src, p)
}

/// Appending a token that spells `src[p0..p1]`, after a skippable gap.
proof fn lemma_push_token(src: Seq<char>, ts: Seq<Token>, t: Token, p0: int, p1: int)
    requires
        tokens_lexed(src, ts),
        0 <= p0 < p1 <= src.len(),
        char_index(src, prev_end(ts, ts.len() as int)) <= p0,
        skippable(src, char_index(src, prev_end(ts, ts.len() as int)), p0, ts.len() > 0 && ts.last().kind is Newline),
        t.span.start == byte_len(src.take(p0)),
        t.span.end == byte_len(src.take(p1)),
        lexeme_ok(t.kind, src.subrange(p0, p1)),
        longest(t.kind, src.subrange(p1, src.len() as int)),
    ensures
        tokens_lexed(src, ts.push(t)),
        char_index(src, prev_end(ts.push(t), ts.len() as int + 1)) == p1,
{
    lemma_char_index(src, p0);
    lemma_char_index(src, p1);
    let ts2 = ts.push(t);
    assert(text_of(src, t.span) == src.subrange(p0, p1));
    assert forall|i: int| 0 <= i < ts2.len() implies lexeme_ok((#[trigger] ts2[i]).kind, text_of(src, ts2[i].span))
        && longest(ts2[i].kind, rest_after(src, ts2[i].span)) && on_boundary(src, ts2[i].span.start as nat)
        && on_boundary(src, ts2[i].span.end as nat) && gap_ok(src, ts2, i) by {
        if i < ts.len() {
            assert(ts2[i] == ts[i]);
            assert(prev_end(ts2, i) == prev_end(ts, i));
            assert(gap_ok(src, ts, i));
        } else {
            assert(prev_end(ts2, i) == prev_end(ts, ts.len() as int));
        }
    }
}

fn width(c: char) -> (r: usize)
    ensures
        r == char_width(c),
{
    let u = c as u32;
    if u < 0x80 {
        1
    } else if u < 0x800 {
        2
    } else if u < 0x10000 {
        3
    } else {
        4
    }
}

struct Scanner {
    chars: Vec<char>,
    /// Index of the next character.
    pos: usize,
    /// Byte offset of the next character.
    byte: usize,
    tokens: Vec<Token>,
}

impl Scanner {
    spec fn inv(&self) -> bool {
        &&& self.pos <= self.chars@.len()
        &&& self.byte == byte_len(self.chars@.take(self.pos as int))
        &&& self.chars@.len() <= usize::MAX / 8
        &&& scanned(self.tokens@, self.byte as nat)
    }

    proof fn lemma_byte_step(&self)
        requires
            self.pos < self.chars@.len(),
            self.byte == byte_len(self.chars@.take(self.pos as int)),
        ensures
            byte_len(self.chars@.take(self.pos + 1)) == self.byte + char_width(self.chars@[self.pos as int]),
    {
        assert(self.chars@.take(self.pos + 1).drop_last() =~= self.chars@.take(self.pos as int));
    }

    proof fn lemma_byte_bound(cs: Seq<char>, k: int)
        requires
            0 <= k <= cs.len(),
        ensures
            byte_len(cs.take(k)) <= 4 * k,
        decreases k,
    {
        if k > 0 {
            assert(cs.take(k).drop_last() =~= cs.take(k - 1));
            Self::lemma_byte_bound(cs, k - 1);
        }
    }

    fn peek(&self, offset: usize) -> (r: Option<char>)
        requires
            self.inv(),
            offset <= 2,
        ensures
            self.pos + offset < self.chars@.len() ==> r == Some(self.chars@[self.pos + offset]),
            self.pos + offset >= self.chars@.len() ==> r is None,
    {
        let k = self.pos + offset;
        if k < self.chars.len() {
            Some(self.chars[k])
        } else {
            None
        }
    }

    /// Move past one character.
    fn bump(&mut self)
        requires
            old(self).inv(),
            old(self).pos < old(self).chars@.len(),
        ensures
            final(self).inv(),
            final(self).chars == old(self).chars,
            final(self).tokens == old(self).tokens,
            final(self).pos == old(self).pos + 1,
            final(self).byte == old(self).byte + char_width(old(self).chars@[old(self).pos as int]),
    {
        proof {
            self.lemma_byte_step();
            Self::lemma_byte_bound(self.chars@, self.pos + 1);
        }
        let w = width(self.chars[self.pos]);
        self.byte = self.byte + w;
        self.pos = self.pos + 1;
        proof {
            assert forall|i: int| 0 <= i < self.tokens@.len() implies (#[trigger] self.tokens@[i]).span.end <= self.byte by {}
        }
    }

    /// Record a token covering bytes `[start, self.byte)`.
    fn push(&mut self, kind: TokenKind, start: usize)
        requires
            old(self).inv(),
            !(kind is Eof),
            !(kind is Newline),
            start < old(self).byte,
            forall|i: int| 0 <= i < old(self).tokens@.len() ==> (#[trigger] old(self).tokens@[i]).span.end <= start,
        ensures
            final(self).inv(),
            final(self).chars == old(self).chars,
            final(self).pos == old(self).pos,
            final(self).byte == old(self).byte,
            final(self).tokens@ == old(self).tokens@.push(Token { kind, span: Span { start, end: old(self).byte } }),
    {
        let t = Token { kind, span: Span::new(start, self.byte) };
        self.tokens.push(t);
    }

    /// The tokens so far spell what they cover, and everything consumed
    /// since the last token may be skipped.
    spec fn lexed(&self) -> bool {
        let g = char_index(self.chars@, prev_end(self.tokens@, self.tokens@.len() as int));
        &&& tokens_lexed(self.chars@, self.tokens@)
        &&& 0 <= g <= self.pos
        &&& skippable(self.chars@, g, self.pos as int, self.tokens@.len() > 0 && self.tokens@.last().kind is Newline)
    }

    /// Since `before`, exactly one token was appended; it covers what was
    /// consumed and spells it.
    spec fn pushed_from(&self, before: Scanner) -> bool {
        &&& self.tokens@.len() == before.tokens@.len() + 1
        &&& self.tokens@ == before.tokens@.push(self.tokens@.last())
        &&& self.tokens@.last().span.start == before.byte
        &&& self.tokens@.last().span.end == self.byte
        &&& lexeme_ok(self.tokens@.last().kind, self.chars@.subrange(before.pos as int, self.pos as int))
        &&& longest(self.tokens@.last().kind, self.chars@.subrange(self.pos as int, self.chars@.len() as int))
    }

    /// Highest end offset among recorded tokens is at most `byte`.
    spec fn all_before(&self, b: nat) -> bool {
        forall|i: int| 0 <= i < self.tokens@.len() ==> (#[trigger] self.tokens@[i]).span.end <= b
    }
}

fn lex_err(start: usize, end: usize, msg: &str) -> (d: Diagnostic)
    ensures
        d.phase == Phase::Lex,
        d.level == Level::Error,
        d.span == (Span { start, end }),
        d.message@ == msg@,
{
    Diagnostic::lex_error(Span::new(start, end), msg)
}

/// Split `source` into tokens.
///
/// On success the tokens cover the source in order and end with a single
/// `Eof` token at the end of the input; each token's text spells it, and
/// only blanks, line comments and line breaks folded into a preceding
/// `Newline` token stand between them (see `lexes_to`). An error is a
/// `Lex` diagnostic, and comes only where a prefix of the source lexes
/// and what follows cannot begin a token: an unknown character, a lone
/// `!`, a string literal that breaks off, or an integer literal too large
/// for an `i64` (see `lex_fails`); then, unless the source is too long to
/// index, it lexes to no token stream at all. (No source lexes to two
/// different streams: see `lemma_lexes_to_unique`.)
pub fn tokenize(source: &str) -> (r: Result<Vec<Token>, Diagnostic>)
    ensures
        match r {
            Ok(ts) => lexes_to(source@, ts@),
            Err(d) => d.phase == Phase::Lex && d.level == Level::Error && lex_fails(source@) && (source@.len()
                <= usize::MAX / 8 ==> forall|ts: Seq<Token>| !#[trigger] lexes_to(source@, ts)),
        },
{
    let n = source.unicode_len();
    if n > usize::MAX / 8 {
        return Err(lex_err(0, 0, "source text too large"));
    }
    let mut chars: Vec<char> = Vec::new();
    let mut k: usize = 0;
    while k < n
        invariant
            k <= n,
            n == source@.len(),
            chars@ == source@.take(k as int),
        decreases n - k,
    {
        chars.push(source.get_char(k));
        k = k + 1;
        assert(chars@ =~= source@.take(k as int));
    }
    assert(chars@ =~= source@);
    let mut s = Scanner { chars, pos: 0, byte: 0, tokens: Vec::new() };
    assert(s.chars@.take(0) =~= Seq::<char>::empty());
    let res = run(&mut s);
    match res {
        Err(d) => {
            proof {
                assert(s.chars@ == source@);
                let src = source@;
                if src.len() <= usize::MAX / 8 {
                    let (ts0, p) = choose|ts0: Seq<Token>, p: int| #[trigger] lexes_prefix(src, ts0, p) && bad_token_at(src, p);
                    assert forall|ts: Seq<Token>| !#[trigger] lexes_to(src, ts) by {
                        lemma_fails_excludes(src, ts0, p, ts);
                    }
                }
            }
            Err(d)
        },
        Ok(()) => {
            assert(s.chars@.take(s.pos as int) =~= source@);
            let eof = Token { kind: TokenKind::Eof, span: Span::new(s.byte, s.byte) };
            let ghost before = s.tokens@;
            let mut tokens = s.tokens;
            tokens.push(eof);
            assert(tokens@.drop_last() =~= before);
            proof {
                let src = source@;
                let m = before.len() as int;
                lemma_char_index(src, src.len() as int);
                assert(src.take(src.len() as int) =~= src);
                assert forall|i: int| 0 <= i < tokens@.len() implies #[trigger] gap_ok(src, tokens@, i) by {
                    assert(prev_end(tokens@, i) == prev_end(before, i));
                    if i < m {
                        assert(tokens@[i] == before[i]);
                        assert(gap_ok(src, before, i));
                    }
                }
                assert forall|i: int| 0 <= i < tokens@.len() - 1 implies lexeme_ok((#[trigger] tokens@[i]).kind, text_of(src, tokens@[i].span))
                    && longest(tokens@[i].kind, rest_after(src, tokens@[i].span)) by {
                    assert(tokens@[i] == before[i]);
                }
                assert forall|i: int| 0 <= i < tokens@.len() implies on_boundary(src, (#[trigger] tokens@[i]).span.start as nat)
                    && on_boundary(src, tokens@[i].span.end as nat) by {
                    if i < m {
                        assert(tokens@[i] == before[i]);
                    }
                }
            }
            Ok(tokens)
        },
    }
}

/// After a blank, a comment or a run of line breaks that added no token,
/// the consumed characters may still be skipped.
proof fn lemma_skip_extends(before: Scanner, after: Scanner)
    requires
        before.lexed(),
        after.chars == before.chars,
        after.tokens == before.tokens,
        before.pos <= after.pos <= after.chars@.len(),
        forall|i: int| before.pos <= i < after.pos ==> is_blank(#[trigger] after.chars@[i])
            || (before.tokens@.len() > 0 && before.tokens@.last().kind is Newline && after.chars@[i] == '\n')
            || in_comment(after.chars@, char_index(before.chars@, prev_end(before.tokens@, before.tokens@.len() as int)), after.pos as int, i),
        open_comment(after.chars@, char_index(before.chars@, prev_end(before.tokens@, before.tokens@.len() as int)), after.pos as int)
            ==> after.pos == after.chars@.len() || after.chars@[after.pos as int] == '\n',
    ensures
        after.lexed(),
{
    let src = after.chars@;
    let g = char_index(src, prev_end(before.tokens@, before.tokens@.len() as int));
    let nl = before.tokens@.len() > 0 && before.tokens@.last().kind is Newline;
    assert forall|i: int| g <= i < after.pos implies is_blank(#[trigger] src[i]) || (nl && src[i] == '\n') || in_comment(src, g, after.pos as int, i) by {
        if i < before.pos {
            if in_comment(src, g, before.pos as int, i) {
                lemma_in_comment_mono(src, g, before.pos as int, after.pos as int, i);
            }
        }
    }
}

/// Lexing fails when what stands at the scanner's position cannot begin
/// a token.
proof fn lemma_fails_at(s: Scanner)
    requires
        s.inv(),
        s.lexed(),
        bad_token_at(s.chars@, s.pos as int),
    ensures
        lex_fails(s.chars@),
{
    assert(lexes_prefix(s.chars@, s.tokens@, s.pos as int));
}

/// A character other than `/` opens no comment.
proof fn lemma_open_extend(src: Seq<char>, lo: int, hi: int)
    requires
        0 <= hi < src.len(),
        src[hi] != '/',
        !open_comment(src, lo, hi),
    ensures
        !open_comment(src, lo, hi + 1),
{
    if open_comment(src, lo, hi + 1) {
        let j = choose|j: int|
            #![trigger src[j], src[j + 1]]
            lo <= j && j + 1 < hi + 1 && src[j] == '/' && src[j + 1] == '/'
                && forall|k: int| j <= k < hi + 1 ==> #[trigger] src[k] != '\n';
        assert(src[j] == '/' && src[j + 1] == '/');
        if j + 1 < hi {
            assert(forall|k: int| j <= k < hi ==> #[trigger] src[k] != '\n');
            assert(open_comment(src, lo, hi));
        }
    }
}

/// After a line break at `p`, followed by characters none of which is
/// `/`, no comment is open.
proof fn lemma_closed_by_newline(src: Seq<char>, lo: int, p: int, hi: int)
    requires
        p < hi <= src.len(),
        0 <= p,
        lo <= p ==> src[p] == '\n',
        forall|k: int| p < k < hi ==> #[trigger] src[k] != '/',
    ensures
        !open_comment(src, lo, hi),
{
    if open_comment(src, lo, hi) {
        let j = choose|j: int|
            #![trigger src[j], src[j + 1]]
            lo <= j && j + 1 < hi && src[j] == '/' && src[j + 1] == '/'
                && forall|k: int| j <= k < hi ==> #[trigger] src[k] != '\n';
        assert(src[j] == '/' && src[j + 1] == '/');
        if j <= p {
            assert(src[p] != '\n');
        }
    }
}

/// After a token spelling `chars[before.pos..after.pos]` was appended.
proof fn lemma_token_extends(before: Scanner, after: Scanner)
    requires
        before.lexed(),
        before.inv(),
        after.inv(),
        after.chars == before.chars,
        before.pos < after.pos,
        after.pushed_from(before),
    ensures
        after.lexed(),
{
    lemma_push_token(after.chars@, before.tokens@, after.tokens@.last(), before.pos as int, after.pos as int);
}

/// After a line break that became a `Newline` token, followed by blanks
/// and further line breaks.
proof fn lemma_newline_extends(before: Scanner, after: Scanner)
    requires
        before.lexed(),
        before.inv(),
        after.chars == before.chars,
        before.pos < after.pos <= after.chars@.len(),
        after.chars@[before.pos as int] == '\n',
        byte_len(before.chars@.take(before.pos + 1)) == before.byte + 1,
        after.tokens@ == before.tokens@.push(
            Token { kind: TokenKind::Newline, span: Span { start: before.byte, end: (before.byte + 1) as usize } },
        ),
        forall|k: int| before.pos < k < after.pos ==> is_blank(#[trigger] after.chars@[k]) || after.chars@[k] == '\n',
    ensures
        after.lexed(),
{
    let p0 = before.pos as int;
    Scanner::lemma_byte_bound(before.chars@, p0 + 1);
    lemma_closed_by_newline(after.chars@, p0 + 1, p0, after.pos as int);
    assert(after.chars@.subrange(p0, p0 + 1) =~= seq!['\n']);
    lemma_push_token(after.chars@, before.tokens@, after.tokens@.last(), p0, p0 + 1);
}

fn run(s: &mut Scanner) -> (r: Result<(), Diagnostic>)
    requires
        old(s).inv(),
        old(s).pos == 0,
        old(s).tokens@.len() == 0,
    ensures
        final(s).inv(),
        final(s).chars == old(s).chars,
        r is Ok ==> final(s).pos == final(s).chars@.len() && final(s).lexed(),
        r matches Err(d) ==> d.phase == Phase::Lex && d.level == Level::Error,
        r is Err ==> lex_fails(old(s).chars@),
{
    proof {
        assert(s.chars@.take(0) =~= Seq::<char>::empty());
        lemma_char_index(s.chars@, 0);
    }
    while s.pos < s.chars.len()
        invariant
            s.inv(),
            s.chars == old(s).chars,
            s.lexed(),
        decreases s.chars@.len() - s.pos,
    {
        let c = s.chars[s.pos];
        let start = s.byte;
        let ghost s0 = *s;
        let ghost p0 = s.pos as int;
        proof { assert(s.all_before(start as nat)); }
        if c == ' ' || c == '\t' || c == '\r' {
            s.bump();
            proof {
                let g = char_index(s0.chars@, prev_end(s0.tokens@, s0.tokens@.len() as int));
                lemma_open_extend(s.chars@, g, p0);
                lemma_skip_extends(s0, *s);
            }
        } else if c == '\n' {
            newline(s);
            proof {
                if s0.tokens@.len() > 0 && s0.tokens@.last().kind is Newline {
                    let g = char_index(s0.chars@, prev_end(s0.tokens@, s0.tokens@.len() as int));
                    lemma_closed_by_newline(s.chars@, g, p0, s.pos as int);
                    lemma_skip_extends(s0, *s);
                } else {
                    lemma_newline_extends(s0, *s);
                }
            }
        } else if c == '/' && s.peek(1) == Some('/') {
            s.bump();
            s.bump();
            while s.pos < s.chars.len() && s.chars[s.pos] != '\n'
                invariant
                    s.inv(),
                    s.chars == old(s).chars,
                    s.tokens == s0.tokens,
                    s.pos >= p0 + 2,
                    s.chars@[p0] == '/',
                    s.chars@[p0 + 1] == '/',
                    forall|k: int| p0 <= k < s.pos ==> #[trigger] s.chars@[k] != '\n',
                decreases s.chars@.len() - s.pos,
            {
                s.bump();
            }
            proof {
                let g = char_index(s0.chars@, prev_end(s0.tokens@, s0.tokens@.len() as int));
                assert forall|i: int| p0 <= i < s.pos implies in_comment(s.chars@, g, s.pos as int, i) by {
                    assert(s.chars@[p0] == '/' && s.chars@[p0 + 1] == '/');
                    assert(forall|k: int| p0 <= k <= i ==> #[trigger] s.chars@[k] != '\n');
                }
                lemma_skip_extends(s0, *s);
            }
        } else {
            if is_ident_start(c) {
                ident(s);
            } else if is_digit_char(c) {
                let r = number(s);
                if r.is_err() {
                    proof { lemma_fails_at(s0); }
                    return r;
                }
            } else if c == '"' {
                let r = string_lit(s);
                if r.is_err() {
                    proof { lemma_fails_at(s0); }
                    return r;
                }
            } else {
                let r = punct(s, c);
                if r.is_err() {
                    proof { lemma_fails_at(s0); }
                    return r;
                }
            }
            proof { lemma_token_extends(s0, *s); }
        }
    }
    Ok(())
}

fn is_ident_start(c: char) -> (r: bool)
    ensures
        r == ident_start(c),
{
    ('a' <= c && c <= 'z') || ('A' <= c && c <= 'Z') || c == '_'
}

fn is_digit_char(c: char) -> (r: bool)
    ensures
        r == is_digit(c),
{
    '0' <= c && c <= '9'
}

/// A newline, together with any following blank lines, becomes one
/// `Newline` token unless the previous token already is one.
fn newline(s: &mut Scanner)
    requires
        old(s).inv(),
        old(s).pos < old(s).chars@.len(),
        old(s).chars@[old(s).pos as int] == '\n',
    ensures
        final(s).inv(),
        final(s).chars == old(s).chars,
        final(s).pos > old(s).pos,
        forall|k: int| old(s).pos < k < final(s).pos ==> is_blank(#[trigger] final(s).chars@[k]) || final(s).chars@[k] == '\n',
        old(s).tokens@.len() > 0 && old(s).tokens@.last().kind is Newline ==> final(s).tokens == old(s).tokens,
        !(old(s).tokens@.len() > 0 && old(s).tokens@.last().kind is Newline) ==> final(s).tokens@ == old(s).tokens@.push(
            Token { kind: TokenKind::Newline, span: Span { start: old(s).byte, end: (old(s).byte + 1) as usize } },
        ),
        byte_len(old(s).chars@.take(old(s).pos + 1)) == old(s).byte + 1,
{
    let start = s.byte;
    proof { assert(s.all_before(start as nat)); }
    s.bump();
    let one = s.byte;
    assert(one == start + 1);
    while s.pos < s.chars.len() && (s.chars[s.pos] == ' ' || s.chars[s.pos] == '\t' || s.chars[s.pos] == '\r' || s.chars[s.pos] == '\n')
        invariant
            s.inv(),
            s.chars == old(s).chars,
            s.pos > old(s).pos,
            s.all_before(start as nat),
            start < one <= s.byte,
            one == start + 1,
            byte_len(old(s).chars@.take(old(s).pos + 1)) == one,
            s.tokens == old(s).tokens,
            forall|k: int| old(s).pos < k < s.pos ==> is_blank(#[trigger] s.chars@[k]) || s.chars@[k] == '\n',
        decreases s.chars@.len() - s.pos,
    {
        s.bump();
    }
    let len = s.tokens.len();
    if len > 0 && matches!(s.tokens[len - 1].kind, TokenKind::Newline) {
        return;
    }
    let t = Token { kind: TokenKind::Newline, span: Span::new(start, start + 1) };
    let ghost before = s.tokens@;
    s.tokens.push(t);
    proof {
        assert forall|i: int, j: int| 0 <= i && j == i + 1 && j < s.tokens@.len() && (#[trigger] s.tokens@[i]).kind is Newline implies !((#[trigger] s.tokens@[j]).kind is Newline) by {
            if j == s.tokens@.len() - 1 {
                assert(s.tokens@[i] == before[len - 1]);
            } else {
                assert(s.tokens@[i] == before[i]);
                assert(s.tokens@[j] == before[j]);
            }
        }
    }
}

/// An identifier or keyword: `[A-Za-z_][A-Za-z0-9_]*`.
fn ident(s: &mut Scanner)
    requires
        old(s).inv(),
        old(s).pos < old(s).chars@.len(),
        ident_start(old(s).chars@[old(s).pos as int]),
    ensures
        final(s).inv(),
        final(s).chars == old(s).chars,
        final(s).pos > old(s).pos,
        final(s).pushed_from(*old(s)),
{
    let start = s.byte;
    let ghost p0 = s.pos as int;
    proof { assert(s.all_before(start as nat)); }
    let mut text = String::new();
    push_char(&mut text, s.chars[s.pos]);
    s.bump();
    proof { assert(text@ =~= s.chars@.subrange(p0, s.pos as int)); }
    while s.pos < s.chars.len() && (is_ident_start(s.chars[s.pos]) || is_digit_char(s.chars[s.pos]))
        invariant
            s.inv(),
            s.chars == old(s).chars,
            s.pos > old(s).pos,
            p0 == old(s).pos,
            s.all_before(start as nat),
            start == old(s).byte,
            start < s.byte,
            s.tokens == old(s).tokens,
            text@ == s.chars@.subrange(p0, s.pos as int),
            ident_lexeme(text@),
        decreases s.chars@.len() - s.pos,
    {
        push_char(&mut text, s.chars[s.pos]);
        s.bump();
        proof { assert(text@ =~= s.chars@.subrange(p0, s.pos as int)); }
    }
    let ghost spelled = text@;
    let kind = match TokenKind::keyword(text.as_str()) {
        Some(k) => k,
        None => TokenKind::Ident(text),
    };
    proof {
        assert(!(kind is Eof) && !(kind is Newline));
        assert(lexeme_ok(kind, spelled));
    }
    s.push(kind, start);
}

/// An integer (`[0-9]+`) or floating-point literal (digits with a
/// fractional part `.[0-9]+` and/or an exponent `e[+-]?[0-9]+`).
fn number(s: &mut Scanner) -> (r: Result<(), Diagnostic>)
    requires
        old(s).inv(),
        old(s).pos < old(s).chars@.len(),
        is_digit(old(s).chars@[old(s).pos as int]),
    ensures
        final(s).inv(),
        final(s).chars == old(s).chars,
        final(s).pos > old(s).pos,
        r is Ok ==> final(s).pushed_from(*old(s)),
        r matches Err(d) ==> d.phase == Phase::Lex && d.level == Level::Error,
        r is Err ==> int_too_large(old(s).chars@, old(s).pos as int),
{
    let start = s.byte;
    let ghost p0 = s.pos as int;
    proof { assert(s.all_before(start as nat)); }
    let mut text = String::new();
    let mut value: i64 = 0;
    let mut overflow = false;
    proof { assert(text@ =~= s.chars@.subrange(p0, s.pos as int)); }
    while s.pos < s.chars.len() && is_digit_char(s.chars[s.pos])
        invariant
            s.inv(),
            s.chars == old(s).chars,
            s.pos >= old(s).pos,
            p0 == old(s).pos,
            s.all_before(start as nat),
            s.pos > old(s).pos ==> start < s.byte,
            start == old(s).byte,
            start <= s.byte,
            s.tokens == old(s).tokens,
            value >= 0,
            text@ == s.chars@.subrange(p0, s.pos as int),
            all_digits(text@),
            digits_value(text@) >= 0,
            !overflow ==> value == digits_value(text@),
            overflow ==> digits_value(text@) > i64::MAX,
        decreases s.chars@.len() - s.pos,
    {
        let c = s.chars[s.pos];
        let d = (c as u32 - '0' as u32) as i64;
        let ghost prev = text@;
        if !overflow {
            if value > (i64::MAX - d) / 10 {
                overflow = true;
                proof {
                    assert(value * 10 + d > i64::MAX) by (nonlinear_arith)
                        requires
                            value > (i64::MAX - d) / 10,
                            0 <= d <= 9,
                    ;
                }
            } else {
                proof {
                    assert(value * 10 + d <= i64::MAX) by (nonlinear_arith)
                        requires
                            value <= (i64::MAX - d) / 10,
                            0 <= d <= 9,
                            value >= 0,
                    ;
                }
                value = value * 10 + d;
            }
        }
        push_char(&mut text, c);
        s.bump();
        proof {
            assert(text@ =~= s.chars@.subrange(p0, s.pos as int));
            assert(text@.drop_last() =~= prev);
            assert(digits_value(text@) == digits_value(prev) * 10 + (c as int - '0' as int));
        }
    }
    let ghost a = s.pos as int;
    let ghost int_text = text@;
    let mut is_float = false;
    if s.peek(0) == Some('.') {
        if let Some(c1) = s.peek(1) {
            if is_digit_char(c1) {
                is_float = true;
                push_char(&mut text, '.');
                s.bump();
                while s.pos < s.chars.len() && is_digit_char(s.chars[s.pos])
                    invariant
                        s.inv(),
                        s.chars == old(s).chars,
                        s.pos > old(s).pos,
                        p0 == old(s).pos,
                        s.pos >= a + 1,
                        s.pos == a + 1 ==> a + 1 < s.chars@.len() && is_digit(s.chars@[a + 1]),
                        a > p0,
                        s.all_before(start as nat),
                        start == old(s).byte,
                        start < s.byte,
                        s.tokens == old(s).tokens,
                        text@ == s.chars@.subrange(p0, s.pos as int),
                        s.chars@[a] == '.',
                        forall|k: int| a < k < s.pos ==> is_digit(#[trigger] s.chars@[k]),
                    decreases s.chars@.len() - s.pos,
                {
                    push_char(&mut text, s.chars[s.pos]);
                    s.bump();
                    proof { assert(text@ =~= s.chars@.subrange(p0, s.pos as int)); }
                }
            }
        }
    }
    proof {
        if is_float {
            assert(text@ =~= s.chars@.subrange(p0, s.pos as int));
        }
    }
    let ghost b = s.pos as int;
    if s.peek(0) == Some('e') || s.peek(0) == Some('E') {
        let signed = s.peek(1) == Some('+') || s.peek(1) == Some('-');
        let digit_at = if signed { s.peek(2) } else { s.peek(1) };
        let has_digit = match digit_at {
            Some(d) => is_digit_char(d),
            None => false,
        };
        if has_digit {
            is_float = true;
            push_char(&mut text, s.chars[s.pos]);
            s.bump();
            if signed {
                push_char(&mut text, s.chars[s.pos]);
                s.bump();
            }
            let ghost ds = s.pos as int;
            while s.pos < s.chars.len() && is_digit_char(s.chars[s.pos])
                invariant
                    s.inv(),
                    s.chars == old(s).chars,
                    s.pos > old(s).pos,
                    p0 == old(s).pos,
                    b < ds <= s.pos,
                    ds == b + 1 || ds == b + 2,
                    ds == b + 2 ==> (s.chars@[b + 1] == '+' || s.chars@[b + 1] == '-'),
                    s.chars@[b] == 'e' || s.chars@[b] == 'E',
                    ds < s.chars@.len() && is_digit(s.chars@[ds]) || s.pos > ds,
                    s.all_before(start as nat),
                    start == old(s).byte,
                    start < s.byte,
                    s.tokens == old(s).tokens,
                    text@ == s.chars@.subrange(p0, s.pos as int),
                    forall|k: int| ds <= k < s.pos ==> is_digit(#[trigger] s.chars@[k]),
                decreases s.chars@.len() - s.pos,
            {
                push_char(&mut text, s.chars[s.pos]);
                s.bump();
                proof { assert(text@ =~= s.chars@.subrange(p0, s.pos as int)); }
            }
        }
    }
    if is_float {
        proof {
            let t = text@;
            let ra = a - p0;
            let rb = b - p0;
            assert(t.subrange(0, ra) =~= int_text);
            assert(frac_part(t.subrange(ra, rb))) by {
                if ra < rb {
                    assert(t.subrange(ra, rb).drop_first() =~= s.chars@.subrange(a + 1, b));
                }
            }
            assert(exp_part(t.subrange(rb, t.len() as int))) by {
                let x = t.subrange(rb, t.len() as int);
                if rb < t.len() {
                    if s.chars@[b + 1] == '+' || s.chars@[b + 1] == '-' {
                        assert(x.subrange(2, x.len() as int) =~= s.chars@.subrange(b + 2, s.pos as int));
                    } else {
                        assert(x.drop_first() =~= s.chars@.subrange(b + 1, s.pos as int));
                    }
                }
            }
            assert(float_lexeme(t));
        }
        s.push(TokenKind::Float(text), start);
        Ok(())
    } else if overflow {
        proof {
            assert(text@ =~= s.chars@.subrange(p0, s.pos as int));
            assert(longest(TokenKind::Int(0), s.chars@.subrange(s.pos as int, s.chars@.len() as int)));
        }
        Err(lex_err(start, s.byte, "integer literal out of range"))
    } else {
        proof { assert(text@ =~= s.chars@.subrange(p0, s.pos as int)); }
        s.push(TokenKind::Int(value), start);
        Ok(())
    }
}

/// A double-quoted string literal with the escapes `\n`, `\t`, `\\` and
/// `\"`.
fn string_lit(s: &mut Scanner) -> (r: Result<(), Diagnostic>)
    requires
        old(s).inv(),
        old(s).pos < old(s).chars@.len(),
        old(s).chars@[old(s).pos as int] == '"',
    ensures
        final(s).inv(),
        final(s).chars == old(s).chars,
        final(s).pos > old(s).pos,
        r is Ok ==> final(s).pushed_from(*old(s)),
        r matches Err(d) ==> d.phase == Phase::Lex && d.level == Level::Error,
        r is Err ==> string_breaks(old(s).chars@, old(s).pos as int),
{
    let start = s.byte;
    let ghost p0 = s.pos as int;
    proof { assert(s.all_before(start as nat)); }
    s.bump();
    let mut value = String::new();
    proof { assert(s.chars@.subrange(p0 + 1, s.pos as int) =~= Seq::<char>::empty()); }
    loop
        invariant
            s.inv(),
            s.chars == old(s).chars,
            s.pos > old(s).pos,
            p0 == old(s).pos,
            s.chars@[p0] == '"',
            s.all_before(start as nat),
            start == old(s).byte,
            start < s.byte,
            s.tokens == old(s).tokens,
            decodes(s.chars@.subrange(p0 + 1, s.pos as int), value@),
        decreases s.chars@.len() - s.pos,
    {
        let ghost raw0 = s.chars@.subrange(p0 + 1, s.pos as int);
        let ghost val0 = value@;
        let ghost q = s.pos as int;
        if s.pos >= s.chars.len() {
            proof { assert(decodes(s.chars@.subrange(p0 + 1, q), val0)); }
            return Err(lex_err(start, s.byte, "unterminated string literal"));
        }
        let c = s.chars[s.pos];
        if c == '"' {
            s.bump();
            proof {
                let t = s.chars@.subrange(p0, s.pos as int);
                assert(t.subrange(1, t.len() - 1) =~= raw0);
            }
            s.push(TokenKind::Str(value), start);
            return Ok(());
        } else if c == '\n' {
            proof { assert(decodes(s.chars@.subrange(p0 + 1, q), val0)); }
            return Err(lex_err(start, s.byte, "unterminated string literal"));
        } else if c == '\\' {
            let esc_start = s.byte;
            s.bump();
            if s.pos >= s.chars.len() {
                proof { assert(decodes(s.chars@.subrange(p0 + 1, q), val0)); }
                return Err(lex_err(start, s.byte, "unterminated string literal"));
            }
            let e = s.chars[s.pos];
            s.bump();
            if e == 'n' {
                push_char(&mut value, '\n');
            } else if e == 't' {
                push_char(&mut value, '\t');
            } else if e == '\\' {
                push_char(&mut value, '\\');
            } else if e == '"' {
                push_char(&mut value, '"');
            } else {
                proof { assert(decodes(s.chars@.subrange(p0 + 1, q), val0)); }
                return Err(lex_err(esc_start, s.byte, "unknown escape sequence in string literal"));
            }
            proof {
                let raw1 = s.chars@.subrange(p0 + 1, s.pos as int);
                assert(raw1.subrange(0, raw1.len() - 2) =~= raw0);
                assert(value@.drop_last() =~= val0);
                assert(raw1[raw1.len() - 2] == '\\');
                assert(decodes(raw1, value@));
            }
        } else {
            push_char(&mut value, c);
            s.bump();
            proof {
                let raw1 = s.chars@.subrange(p0 + 1, s.pos as int);
                assert(raw1.drop_last() =~= raw0);
                assert(value@.drop_last() =~= val0);
                assert(decodes(raw1, value@));
            }
        }
    }
}

/// Operators and punctuation, looking ahead one character for the
/// two-character forms `->`, `==`, `!=`, `<=` and `>=`.
fn punct(s: &mut Scanner, c: char) -> (r: Result<(), Diagnostic>)
    requires
        old(s).inv(),
        old(s).pos < old(s).chars@.len(),
        c == old(s).chars@[old(s).pos as int],
        c == '/' ==> !(old(s).pos + 1 < old(s).chars@.len() && old(s).chars@[old(s).pos + 1] == '/'),
        !is_blank(c) && c != '\n' && !ident_start(c) && !is_digit(c) && c != '"',
    ensures
        final(s).inv(),
        final(s).chars == old(s).chars,
        r is Ok ==> final(s).pos > old(s).pos,
        r is Ok ==> final(s).pushed_from(*old(s)),
        r matches Err(d) ==> d.phase == Phase::Lex && d.level == Level::Error,
        r is Err ==> bad_token_at(old(s).chars@, old(s).pos as int),
{
    let start = s.byte;
    let ghost p0 = s.pos as int;
    proof { assert(s.all_before(start as nat)); }
    let next = s.peek(1);
    let (kind, two) = if c == '+' {
        (TokenKind::Plus, false)
    } else if c == '-' {
        if next == Some('>') { (TokenKind::Arrow, true) } else { (TokenKind::Minus, false) }
    } else if c == '*' {
        (TokenKind::Star, false)
    } else if c == '/' {
        (TokenKind::Slash, false)
    } else if c == '^' {
        (TokenKind::Caret, false)
    } else if c == '=' {
        if next == Some('=') { (TokenKind::EqEq, true) } else { (TokenKind::Eq, false) }
    } else if c == '!' {
        if next == Some('=') {
            (TokenKind::Neq, true)
        } else {
            proof { Scanner::lemma_byte_bound(s.chars@, s.pos as int); }
            return Err(lex_err(start, start + 1, "unexpected '!' (did you mean '!='?)"));
        }
    } else if c == '<' {
        if next == Some('=') { (TokenKind::Le, true) } else { (TokenKind::Lt, false) }
    } else if c == '>' {
        if next == Some('=') { (TokenKind::Ge, true) } else { (TokenKind::Gt, false) }
    } else if c == '(' {
        (TokenKind::LParen, false)
    } else if c == ')' {
        (TokenKind::RParen, false)
    } else if c == '[' {
        (TokenKind::LBracket, false)
    } else if c == ']' {
        (TokenKind::RBracket, false)
    } else if c == '{' {
        (TokenKind::LBrace, false)
    } else if c == '}' {
        (TokenKind::RBrace, false)
    } else if c == ':' {
        (TokenKind::Colon, false)
    } else if c == ',' {
        (TokenKind::Comma, false)
    } else if c == '.' {
        (TokenKind::Dot, false)
    } else {
        let w = width(c);
        proof {
            s.lemma_byte_step();
            Scanner::lemma_byte_bound(s.chars@, s.pos + 1);
        }
        let mut m = string_of("unexpected character '");
        push_char(&mut m, c);
        push_str(&mut m, "'");
        return Err(Diagnostic::error_owned(Phase::Lex, Span::new(start, start + w), m));
    };
    s.bump();
    if two {
        s.bump();
    }
    proof {
        if two {
            assert(s.chars@.subrange(p0, s.pos as int) =~= seq![c, next->0]);
        } else {
            assert(s.chars@.subrange(p0, s.pos as int) =~= seq![c]);
        }
        assert(s.chars@.subrange(p0, s.pos as int) =~= fixed_text(kind));
    }
    s.push(kind, start);
    Ok(())
}

} // verus!
