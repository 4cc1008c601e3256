//! What the text under each token is, and what may stand between tokens.
//!
//! Token spans are byte offsets into the UTF-8 encoding; `char_index`
//! turns such an offset back into a character position, so that the
//! characters a token covers can be named.

use vstd::prelude::*;
use crate::lexer::token::{keyword_spec, Token, TokenKind};
use crate::source::Span;

verus! {

/// Number of bytes of the UTF-8 encoding of `c`.
pub open spec fn char_width(c: char) -> nat {
    if (c as u32) < 0x80 {
        1
    } else if (c as u32) < 0x800 {
        2
    } else if (c as u32) < 0x10000 {
        3
    } else {
        4
    }
}

/// Number of bytes of the UTF-8 encoding of `cs`.
pub open spec fn byte_len(cs: Seq<char>) -> nat
    decreases cs.len(),
{
    if cs.len() == 0 {
        0
    } else {
        byte_len(cs.drop_last()) + char_width(cs.last())
    }
}

/// The character position whose UTF-8 offset in `src` is `b`.
pub open spec fn char_index(src: Seq<char>, b: nat) -> int {
    choose|k: int| 0 <= k <= src.len() && byte_len(src.take(k)) == b
}

/// `b` is the offset of a character boundary of `src`: `char_index`
/// finds the prefix it ends.
pub open spec fn on_boundary(src: Seq<char>, b: nat) -> bool {
    let k = char_index(src, b);
    0 <= k <= src.len() && byte_len(src.take(k)) == b
}

/// The characters of `src` under the byte range `span`.
pub open spec fn text_of(src: Seq<char>, span: Span) -> Seq<char> {
    src.subrange(char_index(src, span.start as nat), char_index(src, span.end as nat))
}

/// An identifier's first character.
pub open spec fn ident_start(c: char) -> bool {
    ('a' <= c && c <= 'z') || ('A' <= c && c <= 'Z') || c == '_'
}

/// A character that may continue an identifier.
pub open spec fn ident_continue(c: char) -> bool {
    ident_start(c) || is_digit(c)
}

pub open spec fn is_digit(c: char) -> bool {
    '0' <= c && c <= '9'
}

/// Blanks skipped between tokens; a newline is not one of them.
pub open spec fn is_blank(c: char) -> bool {
    c == ' ' || c == '\t' || c == '\r'
}

pub open spec fn all_digits(s: Seq<char>) -> bool {
    forall|i: int| 0 <= i < s.len() ==> is_digit(#[trigger] s[i])
}

/// The decimal value of a string of digits.
pub open spec fn digits_value(s: Seq<char>) -> int
    decreases s.len(),
{
    if s.len() == 0 {
        0
    } else {
        digits_value(s.drop_last()) * 10 + (s.last() as int - '0' as int)
    }
}

/// `[A-Za-z_][A-Za-z0-9_]*`.
pub open spec fn ident_lexeme(s: Seq<char>) -> bool {
    &&& s.len() > 0
    &&& ident_start(s[0])
    &&& forall|i: int| 0 <= i < s.len() ==> ident_continue(#[trigger] s[i])
}

/// Empty, or `.` followed by at least one digit.
pub open spec fn frac_part(f: Seq<char>) -> bool {
    f.len() == 0 || (f.len() >= 2 && f[0] == '.' && all_digits(f.drop_first()))
}

/// Empty, or `e`/`E`, an optional sign and at least one digit.
pub open spec fn exp_part(x: Seq<char>) -> bool {
    ||| x.len() == 0
    ||| x.len() >= 2 && (x[0] == 'e' || x[0] == 'E') && all_digits(x.drop_first())
    ||| x.len() >= 3 && (x[0] == 'e' || x[0] == 'E') && (x[1] == '+' || x[1] == '-') && all_digits(x.subrange(2, x.len() as int))
}

/// Digits followed by a fraction, an exponent, or both.
pub open spec fn float_lexeme(t: Seq<char>) -> bool {
    exists|a: int, b: int|
        #![trigger t.subrange(0, a), t.subrange(a, b)]
        1 <= a <= b <= t.len() && all_digits(t.subrange(0, a)) && frac_part(t.subrange(a, b))
            && exp_part(t.subrange(b, t.len() as int)) && (a < b || b < t.len())
}

/// The character that the escape `\e` stands for.
pub open spec fn escape_value(e: char) -> Option<char> {
    if e == 'n' {
        Some('\n')
    } else if e == 't' {
        Some('\t')
    } else if e == '\\' {
        Some('\\')
    } else if e == '"' {
        Some('"')
    } else {
        None
    }
}

/// A character that stands for itself inside a string literal.
pub open spec fn plain_string_char(c: char) -> bool {
    c != '\\' && c != '"' && c != '\n'
}

/// `raw`, the text between a string literal's quotes, stands for `val`.
pub open spec fn decodes(raw: Seq<char>, val: Seq<char>) -> bool
    decreases raw.len(),
{
    if raw.len() == 0 {
        val.len() == 0
    } else {
        &&& val.len() > 0
        &&& {
            ||| plain_string_char(raw.last()) && val.last() == raw.last() && decodes(raw.drop_last(), val.drop_last())
            ||| raw.len() >= 2 && raw[raw.len() - 2] == '\\' && escape_value(raw.last()) == Some(val.last())
                    && decodes(raw.subrange(0, raw.len() - 2), val.drop_last())
        }
    }
}

/// The spelling of a keyword, operator or punctuation token.
pub open spec fn fixed_text(k: TokenKind) -> Seq<char> {
    match k {
        TokenKind::Let => "let"@,
        TokenKind::Function => "function"@,
        TokenKind::End => "end"@,
        TokenKind::Return => "return"@,
        TokenKind::If => "if"@,
        TokenKind::Then => "then"@,
        TokenKind::Elseif => "elseif"@,
        TokenKind::Else => "else"@,
        TokenKind::For => "for"@,
        TokenKind::In => "in"@,
        TokenKind::Do => "do"@,
        TokenKind::While => "while"@,
        TokenKind::Match => "match"@,
        TokenKind::Case => "case"@,
        TokenKind::Struct => "struct"@,
        TokenKind::Enum => "enum"@,
        TokenKind::Import => "import"@,
        TokenKind::And => "and"@,
        TokenKind::Or => "or"@,
        TokenKind::Not => "not"@,
        TokenKind::True => "true"@,
        TokenKind::False => "false"@,
        TokenKind::Plus => seq!['+'],
        TokenKind::Minus => seq!['-'],
        TokenKind::Star => seq!['*'],
        TokenKind::Slash => seq!['/'],
        TokenKind::Caret => seq!['^'],
        TokenKind::Eq => seq!['='],
        TokenKind::EqEq => seq!['=', '='],
        TokenKind::Neq => seq!['!', '='],
        TokenKind::Lt => seq!['<'],
        TokenKind::Gt => seq!['>'],
        TokenKind::Le => seq!['<', '='],
        TokenKind::Ge => seq!['>', '='],
        TokenKind::Colon => seq![':'],
        TokenKind::Comma => seq![','],
        TokenKind::Dot => seq!['.'],
        TokenKind::Arrow => seq!['-', '>'],
        TokenKind::LParen => seq!['('],
        TokenKind::RParen => seq![')'],
        TokenKind::LBracket => seq!['['],
        TokenKind::RBracket => seq![']'],
        TokenKind::LBrace => seq!['{'],
        TokenKind::RBrace => seq!['}'],
        TokenKind::Newline => seq!['\n'],
        _ => Seq::empty(),
    }
}

/// `text` is a spelling of a token of kind `k` (with its payload).
pub open spec fn lexeme_ok(k: TokenKind, text: Seq<char>) -> bool {
    match k {
        TokenKind::Int(v) => text.len() > 0 && all_digits(text) && digits_value(text) == v,
        TokenKind::Float(t) => t@ == text && float_lexeme(text),
        TokenKind::Str(v) => text.len() >= 2 && text[0] == '"' && text.last() == '"'
            && decodes(text.subrange(1, text.len() - 1), v@),
        TokenKind::Ident(n) => n@ == text && ident_lexeme(text) && keyword_spec(text) is None,
        TokenKind::Eof => false,
        _ => text == fixed_text(k),
    }
}

/// A keyword token.
pub open spec fn is_keyword_kind(k: TokenKind) -> bool {
    k is Let || k is Function || k is End || k is Return || k is If || k is Then || k is Elseif || k is Else
        || k is For || k is In || k is Do || k is While || k is Match || k is Case || k is Struct || k is Enum
        || k is Import || k is And || k is Or || k is Not || k is True || k is False
}

/// `rest` starts an exponent: `e`/`E`, an optional sign, a digit.
pub open spec fn exp_start(rest: Seq<char>) -> bool {
    ||| rest.len() > 1 && (rest[0] == 'e' || rest[0] == 'E') && is_digit(rest[1])
    ||| rest.len() > 2 && (rest[0] == 'e' || rest[0] == 'E') && (rest[1] == '+' || rest[1] == '-') && is_digit(rest[2])
}

/// A token of kind `k` followed by `rest` is the longest match: the
/// characters after it could not have extended it.
pub open spec fn longest(k: TokenKind, rest: Seq<char>) -> bool {
    match k {
        TokenKind::Int(_) => !(rest.len() > 0 && is_digit(rest[0])) && !(rest.len() > 1 && rest[0] == '.' && is_digit(rest[1]))
            && !exp_start(rest),
        TokenKind::Float(t) => !(rest.len() > 0 && is_digit(rest[0])) && (exp_start(rest) ==> (t@.contains('e') || t@.contains('E'))),
        TokenKind::Ident(_) => !(rest.len() > 0 && ident_continue(rest[0])),
        TokenKind::Minus => !(rest.len() > 0 && rest[0] == '>'),
        TokenKind::Slash => !(rest.len() > 0 && rest[0] == '/'),
        TokenKind::Eq => !(rest.len() > 0 && rest[0] == '='),
        TokenKind::Lt => !(rest.len() > 0 && rest[0] == '='),
        TokenKind::Gt => !(rest.len() > 0 && rest[0] == '='),
        _ => is_keyword_kind(k) ==> !(rest.len() > 0 && ident_continue(rest[0])),
    }
}

/// The characters of `src` after the byte range `span`.
pub open spec fn rest_after(src: Seq<char>, span: Span) -> Seq<char> {
    src.subrange(char_index(src, span.end as nat), src.len() as int)
}

/// `src[i]` lies in a line comment (`//` to the end of the line) whose
/// `//` stands within `src[lo..hi]`.
pub open spec fn in_comment(src: Seq<char>, lo: int, hi: int, i: int) -> bool {
    exists|j: int|
        #![trigger src[j], src[j + 1]]
        lo <= j <= i && j + 1 < hi && j + 1 < src.len() && src[j] == '/' && src[j + 1] == '/'
            && forall|k: int| j <= k <= i ==> #[trigger] src[k] != '\n'
}

/// A line comment started within `src[lo..hi]` is still open at `hi`.
pub open spec fn open_comment(src: Seq<char>, lo: int, hi: int) -> bool {
    exists|j: int|
        #![trigger src[j], src[j + 1]]
        lo <= j && j + 1 < hi && src[j] == '/' && src[j + 1] == '/'
            && forall|k: int| j <= k < hi ==> #[trigger] src[k] != '\n'
}

/// `src[lo..hi]` holds only blanks, line comments and, where `newlines`
/// is set, newline characters; a comment in it runs to the end of its
/// line, so what follows it is a line break or the end of the source.
pub open spec fn skippable(src: Seq<char>, lo: int, hi: int, newlines: bool) -> bool {
    &&& forall|i: int| lo <= i < hi ==> is_blank(#[trigger] src[i]) || (newlines && src[i] == '\n') || in_comment(src, lo, hi, i)
    &&& open_comment(src, lo, hi) ==> hi == src.len() || src[hi] == '\n'
}

/// Byte offset where the text before token `i` starts: the end of the
/// previous token, or the start of the source.
pub open spec fn prev_end(ts: Seq<Token>, i: int) -> nat {
    if i == 0 {
        0
    } else {
        ts[i - 1].span.end as nat
    }
}

/// What stands before token `i` may be skipped; newlines only after a
/// `Newline` token, which stands for a whole run of line breaks.
pub open spec fn gap_ok(src: Seq<char>, ts: Seq<Token>, i: int) -> bool {
    skippable(
        src,
        char_index(src, prev_end(ts, i)),
        char_index(src, ts[i].span.start as nat),
        i > 0 && ts[i - 1].kind is Newline,
    )
}

/// A character that can begin something the lexer accepts: a blank, a
/// line break, a comment, a token.
pub open spec fn starts_something(c: char) -> bool {
    ||| is_blank(c) || c == '\n' || ident_start(c) || is_digit(c) || c == '"'
    ||| c == '+' || c == '-' || c == '*' || c == '/' || c == '^' || c == '=' || c == '!' || c == '<' || c == '>'
    ||| c == '(' || c == ')' || c == '[' || c == ']' || c == '{' || c == '}' || c == ':' || c == ',' || c == '.'
}

/// A string literal opened at `p` breaks off: after a body of plain
/// characters and escapes, the source ends, a line break comes, or a
/// backslash is followed by nothing or by a character that has no escape.
pub open spec fn string_breaks(src: Seq<char>, p: int) -> bool {
    exists|q: int, v: Seq<char>|
        #![trigger decodes(src.subrange(p + 1, q), v)]
        p < q <= src.len() && decodes(src.subrange(p + 1, q), v) && {
            ||| q == src.len()
            ||| src[q] == '\n'
            ||| src[q] == '\\' && (q + 1 == src.len() || escape_value(src[q + 1]) is None)
        }
}

/// The digits starting at `p` form an integer literal (they do not go on
/// into a floating-point literal) whose value does not fit in an `i64`.
pub open spec fn int_too_large(src: Seq<char>, p: int) -> bool {
    exists|q: int|
        #![trigger src.subrange(p, q)]
        p < q <= src.len() && all_digits(src.subrange(p, q))
            && longest(TokenKind::Int(0), src.subrange(q, src.len() as int))
            && digits_value(src.subrange(p, q)) > i64::MAX
}

/// What stands at `p` cannot begin a token.
pub open spec fn bad_token_at(src: Seq<char>, p: int) -> bool {
    &&& 0 <= p < src.len()
    &&& {
        ||| !starts_something(src[p])
        ||| src[p] == '!' && !(p + 1 < src.len() && src[p + 1] == '=')
        ||| src[p] == '"' && string_breaks(src, p)
        ||| is_digit(src[p]) && int_too_large(src, p)
    }
}

/// `byte_len` of prefixes grows strictly with their length.
pub proof fn lemma_byte_len_strict(src: Seq<char>, k1: int, k2: int)
    requires
        0 <= k1 < k2 <= src.len(),
    ensures
        byte_len(src.take(k1)) < byte_len(src.take(k2)),
    decreases k2,
{
    assert(src.take(k2).drop_last() =~= src.take(k2 - 1));
    if k1 < k2 - 1 {
        lemma_byte_len_strict(src, k1, k2 - 1);
    }
}

/// The offset of a prefix maps back to the prefix's length.
pub proof fn lemma_char_index(src: Seq<char>, k: int)
    requires
        0 <= k <= src.len(),
    ensures
        char_index(src, byte_len(src.take(k))) == k,
{
    let b = byte_len(src.take(k));
    assert(0 <= k <= src.len() && byte_len(src.take(k)) == b);
    let c = char_index(src, b);
    assert(0 <= c <= src.len() && byte_len(src.take(c)) == b);
    if c < k {
        lemma_byte_len_strict(src, c, k);
    } else if k < c {
        lemma_byte_len_strict(src, k, c);
    }
}

/// A comment that covers `i` within `src[lo..hi]` covers it within any
/// longer range.
pub proof fn lemma_in_comment_mono(src: Seq<char>, lo: int, hi: int, hi2: int, i: int)
    requires
        hi <= hi2,
        in_comment(src, lo, hi, i),
    ensures
        in_comment(src, lo, hi2, i),
{
    let j = choose|j: int|
        #![trigger src[j], src[j + 1]]
        lo <= j <= i && j + 1 < hi && j + 1 < src.len() && src[j] == '/' && src[j + 1] == '/'
            && forall|k: int| j <= k <= i ==> #[trigger] src[k] != '\n';
    assert(src[j] == '/' && src[j + 1] == '/');
}

} // verus!
