//! A source text lexes in at most one way: the tokens of `lexes_to` are
//! determined by the text; and where lexing fails (`lex_fails`, short of
//! the size limit) it lexes in none.

use vstd::prelude::*;
use crate::lexer::lexeme::{
    all_digits, decodes, digits_value, escape_value, exp_part, exp_start, fixed_text, float_lexeme, frac_part, ident_continue, ident_lexeme,
    ident_start, in_comment, is_blank, is_digit, is_keyword_kind, lexeme_ok, longest, open_comment, plain_string_char,
    skippable, bad_token_at, byte_len, char_index, gap_ok, int_too_large, lemma_byte_len_strict, lemma_char_index,
    on_boundary, prev_end, starts_something, string_breaks,
};
use crate::lexer::scanner::{lexes_prefix, lexes_to};
use crate::lexer::token::{keyword_spec, Token, TokenKind};

verus! {

/// Two token kinds that are equal, string payloads compared by content.
pub open spec fn same_kind(a: TokenKind, b: TokenKind) -> bool {
    match (a, b) {
        (TokenKind::Float(x), TokenKind::Float(y)) => x@ == y@,
        (TokenKind::Str(x), TokenKind::Str(y)) => x@ == y@,
        (TokenKind::Ident(x), TokenKind::Ident(y)) => x@ == y@,
        _ => a == b,
    }
}

/// A keyword's spelling is an identifier that `keyword_spec` maps back to
/// the keyword.
proof fn lemma_keyword_text(k: TokenKind)
    requires
        is_keyword_kind(k),
    ensures
        keyword_spec(fixed_text(k)) == Some(k),
        ident_lexeme(fixed_text(k)),
{
    reveal_strlit("let");
    reveal_strlit("function");
    reveal_strlit("end");
    reveal_strlit("return");
    reveal_strlit("if");
    reveal_strlit("then");
    reveal_strlit("elseif");
    reveal_strlit("else");
    reveal_strlit("for");
    reveal_strlit("in");
    reveal_strlit("do");
    reveal_strlit("while");
    reveal_strlit("match");
    reveal_strlit("case");
    reveal_strlit("struct");
    reveal_strlit("enum");
    reveal_strlit("import");
    reveal_strlit("and");
    reveal_strlit("or");
    reveal_strlit("not");
    reveal_strlit("true");
    reveal_strlit("false");
    assert("let"@.len() == 3 && "let"@[0] == 'l' && "let"@[1] == 'e');
    assert("function"@.len() == 8 && "function"@[0] == 'f' && "function"@[1] == 'u');
    assert("end"@.len() == 3 && "end"@[0] == 'e' && "end"@[1] == 'n');
    assert("return"@.len() == 6 && "return"@[0] == 'r' && "return"@[1] == 'e');
    assert("if"@.len() == 2 && "if"@[0] == 'i' && "if"@[1] == 'f');
    assert("then"@.len() == 4 && "then"@[0] == 't' && "then"@[1] == 'h');
    assert("elseif"@.len() == 6 && "elseif"@[0] == 'e' && "elseif"@[1] == 'l');
    assert("else"@.len() == 4 && "else"@[0] == 'e' && "else"@[1] == 'l');
    assert("for"@.len() == 3 && "for"@[0] == 'f' && "for"@[1] == 'o');
    assert("in"@.len() == 2 && "in"@[0] == 'i' && "in"@[1] == 'n');
    assert("do"@.len() == 2 && "do"@[0] == 'd' && "do"@[1] == 'o');
    assert("while"@.len() == 5 && "while"@[0] == 'w' && "while"@[1] == 'h');
    assert("match"@.len() == 5 && "match"@[0] == 'm' && "match"@[1] == 'a');
    assert("case"@.len() == 4 && "case"@[0] == 'c' && "case"@[1] == 'a');
    assert("struct"@.len() == 6 && "struct"@[0] == 's' && "struct"@[1] == 't');
    assert("enum"@.len() == 4 && "enum"@[0] == 'e' && "enum"@[1] == 'n');
    assert("import"@.len() == 6 && "import"@[0] == 'i' && "import"@[1] == 'm');
    assert("and"@.len() == 3 && "and"@[0] == 'a' && "and"@[1] == 'n');
    assert("or"@.len() == 2 && "or"@[0] == 'o' && "or"@[1] == 'r');
    assert("not"@.len() == 3 && "not"@[0] == 'n' && "not"@[1] == 'o');
    assert("true"@.len() == 4 && "true"@[0] == 't' && "true"@[1] == 'r');
    assert("false"@.len() == 5 && "false"@[0] == 'f' && "false"@[1] == 'a');
    match k {
        TokenKind::Let => {
            assert(keyword_spec("let"@) == Some(TokenKind::Let));
        },
        TokenKind::Function => {
            assert(keyword_spec("function"@) == Some(TokenKind::Function));
        },
        TokenKind::End => {
            assert(keyword_spec("end"@) == Some(TokenKind::End));
        },
        TokenKind::Return => {
            assert(keyword_spec("return"@) == Some(TokenKind::Return));
        },
        TokenKind::If => {
            assert(keyword_spec("if"@) == Some(TokenKind::If));
        },
        TokenKind::Then => {
            assert(keyword_spec("then"@) == Some(TokenKind::Then));
        },
        TokenKind::Elseif => {
            assert(keyword_spec("elseif"@) == Some(TokenKind::Elseif));
        },
        TokenKind::Else => {
            assert(keyword_spec("else"@) == Some(TokenKind::Else));
        },
        TokenKind::For => {
            assert(keyword_spec("for"@) == Some(TokenKind::For));
        },
        TokenKind::In => {
            assert(keyword_spec("in"@) == Some(TokenKind::In));
        },
        TokenKind::Do => {
            assert(keyword_spec("do"@) == Some(TokenKind::Do));
        },
        TokenKind::While => {
            assert(keyword_spec("while"@) == Some(TokenKind::While));
        },
        TokenKind::Match => {
            assert(keyword_spec("match"@) == Some(TokenKind::Match));
        },
        TokenKind::Case => {
            assert(keyword_spec("case"@) == Some(TokenKind::Case));
        },
        TokenKind::Struct => {
            assert(keyword_spec("struct"@) == Some(TokenKind::Struct));
        },
        TokenKind::Enum => {
            assert(keyword_spec("enum"@) == Some(TokenKind::Enum));
        },
        TokenKind::Import => {
            assert(keyword_spec("import"@) == Some(TokenKind::Import));
        },
        TokenKind::And => {
            assert(keyword_spec("and"@) == Some(TokenKind::And));
        },
        TokenKind::Or => {
            assert(keyword_spec("or"@) == Some(TokenKind::Or));
        },
        TokenKind::Not => {
            assert(keyword_spec("not"@) == Some(TokenKind::Not));
        },
        TokenKind::True => {
            assert(keyword_spec("true"@) == Some(TokenKind::True));
        },
        TokenKind::False => {
            assert(keyword_spec("false"@) == Some(TokenKind::False));
        },
        _ => {},
    }
}

/// What the first character of a token's text says about its kind.
proof fn lemma_lexeme_start(k: TokenKind, t: Seq<char>)
    requires
        lexeme_ok(k, t),
    ensures
        t.len() > 0,
        ident_start(t[0]) ==> (k is Ident || is_keyword_kind(k)) && ident_lexeme(t),
        is_digit(t[0]) ==> k is Int || k is Float,
        t[0] == '"' ==> k is Str,
        (k is Ident || is_keyword_kind(k)) ==> ident_start(t[0]) && ident_lexeme(t),
        !(ident_start(t[0]) || is_digit(t[0]) || t[0] == '"') ==> t == fixed_text(k) && !(k is Ident || k is Int
            || k is Float || k is Str || is_keyword_kind(k)),
{
    if is_keyword_kind(k) {
        lemma_keyword_text(k);
    }
    match k {
        TokenKind::Float(_) => {
            let (a, b) = choose|a: int, b: int|
                #![trigger t.subrange(0, a), t.subrange(a, b)]
                1 <= a <= b <= t.len() && all_digits(t.subrange(0, a)) && crate::lexer::lexeme::frac_part(
                    t.subrange(a, b),
                ) && crate::lexer::lexeme::exp_part(t.subrange(b, t.len() as int)) && (a < b || b < t.len());
            assert(t.subrange(0, a)[0] == t[0]);
        },
        _ => {},
    }
}

/// Two identifier-like tokens at the same place end at the same place.
proof fn lemma_ident_end(src: Seq<char>, a: int, e1: int, e2: int)
    requires
        0 <= a < e1 <= src.len(),
        a < e2 <= src.len(),
        ident_lexeme(src.subrange(a, e1)),
        ident_lexeme(src.subrange(a, e2)),
        e1 < src.len() ==> !ident_continue(src[e1]),
        e2 < src.len() ==> !ident_continue(src[e2]),
    ensures
        e1 == e2,
{
    if e1 < e2 {
        assert(src.subrange(a, e2)[e1 - a] == src[e1]);
    } else if e2 < e1 {
        assert(src.subrange(a, e1)[e2 - a] == src[e2]);
    }
}

/// An identifier or keyword token at `a` ends at `e`, the first position
/// that cannot continue an identifier.
proof fn lemma_same_word(src: Seq<char>, a: int, e1: int, k1: TokenKind, e2: int, k2: TokenKind)
    requires
        0 <= a < e1 <= src.len(),
        a < e2 <= src.len(),
        lexeme_ok(k1, src.subrange(a, e1)),
        longest(k1, src.subrange(e1, src.len() as int)),
        lexeme_ok(k2, src.subrange(a, e2)),
        longest(k2, src.subrange(e2, src.len() as int)),
        k1 is Ident || is_keyword_kind(k1),
        k2 is Ident || is_keyword_kind(k2),
    ensures
        e1 == e2,
        same_kind(k1, k2),
{
    lemma_lexeme_start(k1, src.subrange(a, e1));
    lemma_lexeme_start(k2, src.subrange(a, e2));
    if e1 < src.len() {
        assert(src.subrange(e1, src.len() as int)[0] == src[e1]);
    }
    if e2 < src.len() {
        assert(src.subrange(e2, src.len() as int)[0] == src[e2]);
    }
    lemma_ident_end(src, a, e1, e2);
    let t = src.subrange(a, e1);
    if is_keyword_kind(k1) {
        lemma_keyword_text(k1);
    }
    if is_keyword_kind(k2) {
        lemma_keyword_text(k2);
    }
}

/// The operator, punctuation or line-break token spelled by one character.
pub open spec fn punct1(c: char) -> Option<TokenKind> {
    if c == '+' { Some(TokenKind::Plus) }
    else if c == '-' { Some(TokenKind::Minus) }
    else if c == '*' { Some(TokenKind::Star) }
    else if c == '/' { Some(TokenKind::Slash) }
    else if c == '^' { Some(TokenKind::Caret) }
    else if c == '=' { Some(TokenKind::Eq) }
    else if c == '<' { Some(TokenKind::Lt) }
    else if c == '>' { Some(TokenKind::Gt) }
    else if c == ':' { Some(TokenKind::Colon) }
    else if c == ',' { Some(TokenKind::Comma) }
    else if c == '.' { Some(TokenKind::Dot) }
    else if c == '(' { Some(TokenKind::LParen) }
    else if c == ')' { Some(TokenKind::RParen) }
    else if c == '[' { Some(TokenKind::LBracket) }
    else if c == ']' { Some(TokenKind::RBracket) }
    else if c == '{' { Some(TokenKind::LBrace) }
    else if c == '}' { Some(TokenKind::RBrace) }
    else if c == '\n' { Some(TokenKind::Newline) }
    else { None }
}

/// The operator spelled by two characters.
pub open spec fn punct2(c: char, d: char) -> Option<TokenKind> {
    if c == '=' && d == '=' { Some(TokenKind::EqEq) }
    else if c == '!' && d == '=' { Some(TokenKind::Neq) }
    else if c == '<' && d == '=' { Some(TokenKind::Le) }
    else if c == '>' && d == '=' { Some(TokenKind::Ge) }
    else if c == '-' && d == '>' { Some(TokenKind::Arrow) }
    else { None }
}

/// A token spelled by its fixed text is the one `punct1` or `punct2`
/// names for that text.
proof fn lemma_punct_text(k: TokenKind, t: Seq<char>)
    requires
        lexeme_ok(k, t),
        !(k is Ident || k is Int || k is Float || k is Str || is_keyword_kind(k)),
    ensures
        t == fixed_text(k),
        t.len() == 1 || t.len() == 2,
        t.len() == 1 ==> punct1(t[0]) == Some(k),
        t.len() == 2 ==> punct2(t[0], t[1]) == Some(k),
{
}

/// Two operator or punctuation tokens at the same place are the same
/// token: the longer spelling wins.
proof fn lemma_same_punct(src: Seq<char>, a: int, e1: int, k1: TokenKind, e2: int, k2: TokenKind)
    requires
        0 <= a < e1 <= src.len(),
        a < e2 <= src.len(),
        lexeme_ok(k1, src.subrange(a, e1)),
        longest(k1, src.subrange(e1, src.len() as int)),
        lexeme_ok(k2, src.subrange(a, e2)),
        longest(k2, src.subrange(e2, src.len() as int)),
        !(k1 is Ident || k1 is Int || k1 is Float || k1 is Str || is_keyword_kind(k1)),
        !(k2 is Ident || k2 is Int || k2 is Float || k2 is Str || is_keyword_kind(k2)),
    ensures
        e1 == e2,
        k1 == k2,
{
    let t1 = src.subrange(a, e1);
    let t2 = src.subrange(a, e2);
    lemma_punct_text(k1, t1);
    lemma_punct_text(k2, t2);
    assert(t1[0] == src[a] && t2[0] == src[a]);
    if e1 == a + 2 {
        assert(t1[1] == src[a + 1]);
    }
    if e2 == a + 2 {
        assert(t2[1] == src[a + 1]);
    }
    if e1 == a + 1 && e2 == a + 2 {
        assert(src.subrange(e1, src.len() as int)[0] == src[a + 1]);
    }
    if e2 == a + 1 && e1 == a + 2 {
        assert(src.subrange(e2, src.len() as int)[0] == src[a + 1]);
    }
}

/// `src[x..y]` are digits and `y` ends the run.
pub open spec fn digit_run(src: Seq<char>, x: int, y: int) -> bool {
    &&& 0 <= x <= y <= src.len()
    &&& forall|i: int| x <= i < y ==> is_digit(#[trigger] src[i])
    &&& y < src.len() ==> !is_digit(src[y])
}

/// A run of digits ends at one place.
proof fn lemma_run_end(src: Seq<char>, x: int, y1: int, y2: int)
    requires
        digit_run(src, x, y1),
        digit_run(src, x, y2),
    ensures
        y1 == y2,
{
    if y1 < y2 {
        assert(is_digit(src[y1]));
    } else if y2 < y1 {
        assert(is_digit(src[y2]));
    }
}

/// `src[x..y]` are digits exactly when `all_digits` holds of the subrange.
proof fn lemma_all_digits_sub(src: Seq<char>, x: int, y: int)
    requires
        0 <= x <= y <= src.len(),
    ensures
        all_digits(src.subrange(x, y)) <==> forall|i: int| x <= i < y ==> is_digit(#[trigger] src[i]),
{
    if all_digits(src.subrange(x, y)) {
        assert forall|i: int| x <= i < y implies is_digit(#[trigger] src[i]) by {
            assert(src.subrange(x, y)[i - x] == src[i]);
        }
    }
    if forall|i: int| x <= i < y ==> is_digit(#[trigger] src[i]) {
        assert forall|i: int| 0 <= i < y - x implies is_digit(#[trigger] src.subrange(x, y)[i]) by {
            assert(src.subrange(x, y)[i] == src[x + i]);
        }
    }
}

/// The shape of a floating-point literal `src[a..e]`: its integer digits
/// end at `d`; a fraction `.digits` runs from `d` to `b` when `d < b`; an
/// exponent runs from `b` to `e` when `b < e`, and the text holds an `e`
/// or `E` exactly then.
proof fn lemma_float_parts(src: Seq<char>, a: int, e: int) -> (r: (int, int))
    requires
        0 <= a < e <= src.len(),
        float_lexeme(src.subrange(a, e)),
    ensures
        ({
            let (d, b) = r;
            &&& a < d <= b <= e
            &&& d < e
            &&& forall|i: int| a <= i < d ==> is_digit(#[trigger] src[i])
            &&& !is_digit(src[d])
            &&& d < b ==> src[d] == '.' && d + 2 <= b && (forall|i: int| d < i < b ==> is_digit(#[trigger] src[i]))
            &&& d == b ==> src[d] == 'e' || src[d] == 'E'
            &&& b < e ==> (src[b] == 'e' || src[b] == 'E') && {
                ||| b + 2 <= e && forall|i: int| b < i < e ==> is_digit(#[trigger] src[i])
                ||| b + 3 <= e && (src[b + 1] == '+' || src[b + 1] == '-') && forall|i: int| b + 1 < i < e
                    ==> is_digit(#[trigger] src[i])
            }
            &&& (src.subrange(a, e).contains('e') || src.subrange(a, e).contains('E')) <==> b < e
        }),
{
    let t = src.subrange(a, e);
    let (x, y) = choose|x: int, y: int|
        #![trigger t.subrange(0, x), t.subrange(x, y)]
        1 <= x <= y <= t.len() && all_digits(t.subrange(0, x)) && frac_part(t.subrange(x, y)) && exp_part(
            t.subrange(y, t.len() as int),
        ) && (x < y || y < t.len());
    let d = a + x;
    let b = a + y;
    assert forall|i: int| a <= i < d implies is_digit(#[trigger] src[i]) by {
        assert(t.subrange(0, x)[i - a] == src[i]);
    }
    let f = t.subrange(x, y);
    let xp = t.subrange(y, t.len() as int);
    if x < y {
        assert(f[0] == src[d]);
        assert forall|i: int| d < i < b implies is_digit(#[trigger] src[i]) by {
            assert(f.drop_first()[i - d - 1] == src[i]);
        }
    } else {
        assert(xp[0] == src[d]);
    }
    if y < t.len() {
        assert(xp[0] == src[b]);
        if xp.len() >= 2 && (xp[0] == 'e' || xp[0] == 'E') && all_digits(xp.drop_first()) {
            assert forall|i: int| b < i < e implies is_digit(#[trigger] src[i]) by {
                assert(xp.drop_first()[i - b - 1] == src[i]);
            }
        } else {
            assert(xp[1] == src[b + 1]);
            assert forall|i: int| b + 1 < i < e implies is_digit(#[trigger] src[i]) by {
                assert(xp.subrange(2, xp.len() as int)[i - b - 2] == src[i]);
            }
        }
    }
    // Where the text holds an `e` or `E`.
    if b < e {
        assert(t[y] == src[b]);
    }
    if t.contains('e') || t.contains('E') {
        let j = choose|j: int| 0 <= j < t.len() && (t[j] == 'e' || t[j] == 'E');
        assert(t[j] == src[a + j]);
        if b == e {
            if a + j < d {
                assert(is_digit(src[a + j]));
            } else if a + j == d {
                assert(src[d] == '.');
            } else {
                assert(is_digit(src[a + j]));
            }
        }
    }
    (d, b)
}

/// An integer literal `src[a..e]` is the whole run of digits at `a`.
proof fn lemma_int_run(src: Seq<char>, a: int, e: int, k: TokenKind)
    requires
        0 <= a < e <= src.len(),
        k is Int,
        lexeme_ok(k, src.subrange(a, e)),
        longest(k, src.subrange(e, src.len() as int)),
    ensures
        int_run(src, a, e),
{
    lemma_all_digits_sub(src, a, e);
    let rest = src.subrange(e, src.len() as int);
    if e < src.len() {
        assert(rest[0] == src[e]);
        if e + 1 < src.len() {
            assert(rest[1] == src[e + 1]);
        }
    }
}

/// Two numeric literals at the same place end at the same place and are
/// the same literal.
proof fn lemma_same_number(src: Seq<char>, a: int, e1: int, k1: TokenKind, e2: int, k2: TokenKind)
    requires
        0 <= a < e1 <= src.len(),
        a < e2 <= src.len(),
        lexeme_ok(k1, src.subrange(a, e1)),
        longest(k1, src.subrange(e1, src.len() as int)),
        lexeme_ok(k2, src.subrange(a, e2)),
        longest(k2, src.subrange(e2, src.len() as int)),
        k1 is Int || k1 is Float,
        k2 is Int || k2 is Float,
    ensures
        e1 == e2,
        same_kind(k1, k2),
{
    if k1 is Int && k2 is Int {
        lemma_int_run(src, a, e1, k1);
        lemma_int_run(src, a, e2, k2);
        lemma_run_end(src, a, e1, e2);
    } else if k1 is Int && k2 is Float {
        lemma_int_run(src, a, e1, k1);
        lemma_int_against_float(src, a, e1, e2);
    } else if k1 is Float && k2 is Int {
        lemma_int_run(src, a, e2, k2);
        lemma_int_against_float(src, a, e2, e1);
    } else {
        lemma_float_against_float(src, a, e1, k1, e2, k2);
    }
}

/// `src[a..e]` is a whole run of digits that goes on neither into a
/// fraction nor into an exponent.
pub open spec fn int_run(src: Seq<char>, a: int, e: int) -> bool {
    &&& digit_run(src, a, e)
    &&& e < src.len() ==> !(src[e] == '.' && e + 1 < src.len() && is_digit(src[e + 1]))
    &&& e < src.len() ==> !exp_start(src.subrange(e, src.len() as int))
}

/// Where an integer literal's digits stand, no floating-point literal
/// does.
proof fn lemma_int_against_float(src: Seq<char>, a: int, e1: int, e2: int)
    requires
        0 <= a < e1 <= src.len(),
        a < e2 <= src.len(),
        int_run(src, a, e1),
    ensures
        !float_lexeme(src.subrange(a, e2)),
{
    if !float_lexeme(src.subrange(a, e2)) {
        return;
    }
    let (d, b) = lemma_float_parts(src, a, e2);
    assert(digit_run(src, a, d));
    lemma_run_end(src, a, e1, d);
    let rest = src.subrange(d, src.len() as int);
    if d < b {
        assert(is_digit(src[d + 1]));
    } else {
        assert(rest[0] == src[d]);
        assert(rest[1] == src[d + 1]);
        if src[d + 1] == '+' || src[d + 1] == '-' {
            assert(is_digit(src[d + 2]));
            assert(rest[2] == src[d + 2]);
        } else {
            assert(is_digit(src[d + 1]));
        }
    }
}

/// Two floating-point literals at the same place are the same literal.
proof fn lemma_float_against_float(src: Seq<char>, a: int, e1: int, k1: TokenKind, e2: int, k2: TokenKind)
    requires
        0 <= a < e1 <= src.len(),
        a < e2 <= src.len(),
        k1 is Float,
        k2 is Float,
        lexeme_ok(k1, src.subrange(a, e1)),
        longest(k1, src.subrange(e1, src.len() as int)),
        lexeme_ok(k2, src.subrange(a, e2)),
        longest(k2, src.subrange(e2, src.len() as int)),
    ensures
        e1 == e2,
        same_kind(k1, k2),
{
    let (d1, b1) = lemma_float_parts(src, a, e1);
    let (d2, b2) = lemma_float_parts(src, a, e2);
    assert(digit_run(src, a, d1));
    assert(digit_run(src, a, d2));
    lemma_run_end(src, a, d1, d2);
    let d = d1;
    // The fractions agree.
    if d < b1 && d < b2 {
        let r1 = src.subrange(e1, src.len() as int);
        let r2 = src.subrange(e2, src.len() as int);
        if b1 < e1 {
            assert(!is_digit(src[b1]));
        } else if e1 < src.len() {
            assert(r1[0] == src[e1]);
        }
        if b2 < e2 {
            assert(!is_digit(src[b2]));
        } else if e2 < src.len() {
            assert(r2[0] == src[e2]);
        }
        assert(digit_run(src, d + 1, b1));
        assert(digit_run(src, d + 1, b2));
        lemma_run_end(src, d + 1, b1, b2);
    }
    let b = b1;
    assert(b1 == b2);
    // The exponents agree: a literal that stopped before an exponent
    // would not be the longest.
    if b == e1 && b < e2 {
        lemma_exp_follows(src, b, e2);
    }
    if b == e2 && b < e1 {
        lemma_exp_follows(src, b, e1);
    }
    if b < e1 && b < e2 {
        let r1 = src.subrange(e1, src.len() as int);
        let r2 = src.subrange(e2, src.len() as int);
        if e1 < src.len() {
            assert(r1[0] == src[e1]);
        }
        if e2 < src.len() {
            assert(r2[0] == src[e2]);
        }
        if src[b + 1] == '+' || src[b + 1] == '-' {
            assert(digit_run(src, b + 2, e1));
            assert(digit_run(src, b + 2, e2));
            lemma_run_end(src, b + 2, e1, e2);
        } else {
            assert(digit_run(src, b + 1, e1));
            assert(digit_run(src, b + 1, e2));
            lemma_run_end(src, b + 1, e1, e2);
        }
    }
}

/// An exponent part at `b` makes the text after `b` start an exponent.
proof fn lemma_exp_follows(src: Seq<char>, b: int, e: int)
    requires
        0 <= b < e <= src.len(),
        src[b] == 'e' || src[b] == 'E',
        (b + 2 <= e && forall|i: int| b < i < e ==> is_digit(#[trigger] src[i])) || (b + 3 <= e && (src[b + 1] == '+'
            || src[b + 1] == '-') && forall|i: int| b + 1 < i < e ==> is_digit(#[trigger] src[i])),
    ensures
        exp_start(src.subrange(b, src.len() as int)),
{
    let r = src.subrange(b, src.len() as int);
    assert(r[0] == src[b]);
    assert(r[1] == src[b + 1]);
    if b + 2 < src.len() {
        assert(r[2] == src[b + 2]);
    }
    if !(b + 2 <= e && forall|i: int| b < i < e ==> is_digit(#[trigger] src[i])) {
        assert(is_digit(src[b + 2]));
    } else {
        assert(is_digit(src[b + 1]));
    }
}

/// `src[x..q]` splits into characters that stand for themselves inside a
/// string literal and escapes.
pub open spec fn units(src: Seq<char>, x: int, q: int) -> bool
    decreases q - x,
{
    if x < 0 || q < x || q > src.len() {
        false
    } else if q == x {
        true
    } else {
        ||| plain_string_char(src[q - 1]) && units(src, x, q - 1)
        ||| q - 2 >= x && src[q - 2] == '\\' && escape_value(src[q - 1]) is Some && units(src, x, q - 2)
    }
}

/// What decodes splits into units.
proof fn lemma_decodes_units(src: Seq<char>, x: int, q: int, v: Seq<char>)
    requires
        0 <= x <= q <= src.len(),
        decodes(src.subrange(x, q), v),
    ensures
        units(src, x, q),
    decreases q - x,
{
    let raw = src.subrange(x, q);
    if q > x {
        if plain_string_char(raw.last()) && v.last() == raw.last() && decodes(raw.drop_last(), v.drop_last()) {
            assert(raw.drop_last() =~= src.subrange(x, q - 1));
            lemma_decodes_units(src, x, q - 1, v.drop_last());
        } else {
            assert(raw.subrange(0, raw.len() - 2) =~= src.subrange(x, q - 2));
            assert(raw[raw.len() - 2] == src[q - 2]);
            lemma_decodes_units(src, x, q - 2, v.drop_last());
        }
    }
}

/// A non-empty run of units starts with a unit.
proof fn lemma_units_first(src: Seq<char>, y: int, z: int)
    requires
        units(src, y, z),
        y < z,
    ensures
        (plain_string_char(src[y]) && units(src, y + 1, z)) || (src[y] == '\\' && y + 1 < z && escape_value(
            src[y + 1],
        ) is Some && units(src, y + 2, z)),
    decreases z - y,
{
    if plain_string_char(src[z - 1]) && units(src, y, z - 1) {
        if z - 1 > y {
            lemma_units_first(src, y, z - 1);
        }
    } else {
        if z - 2 > y {
            lemma_units_first(src, y, z - 2);
        }
    }
}

/// The units of `src[x..q2]` pass through every place `q1` up to which
/// `src[x..]` splits into units.
proof fn lemma_units_through(src: Seq<char>, x: int, q1: int, q2: int)
    requires
        units(src, x, q1),
        units(src, x, q2),
        q1 <= q2,
    ensures
        units(src, q1, q2),
    decreases q2 - x,
{
    if q1 < q2 {
        if plain_string_char(src[q2 - 1]) && units(src, x, q2 - 1) {
            lemma_units_through(src, x, q1, q2 - 1);
        } else if q2 - 2 >= q1 {
            lemma_units_through(src, x, q1, q2 - 2);
        } else {
            // An escape straddles `q1`: `src[q1 - 1]` is a backslash, so
            // the units up to `q1` end in the escape `\\`.
            let p = q2 - 2;
            assert(q1 == p + 1);
            assert(!plain_string_char(src[p]));
            assert(units(src, x, p - 1));
            lemma_units_through(src, x, p - 1, p);
            assert(!plain_string_char(src[p - 1]));
        }
    }
}

/// What a string literal's body stands for is determined by the body.
proof fn lemma_decodes_unique(src: Seq<char>, x: int, q: int, v1: Seq<char>, v2: Seq<char>)
    requires
        0 <= x <= q <= src.len(),
        decodes(src.subrange(x, q), v1),
        decodes(src.subrange(x, q), v2),
    ensures
        v1 == v2,
    decreases q - x,
{
    let raw = src.subrange(x, q);
    if q == x {
        assert(v1 =~= v2);
    } else {
        let p1 = plain_string_char(raw.last()) && v1.last() == raw.last() && decodes(raw.drop_last(), v1.drop_last());
        let p2 = plain_string_char(raw.last()) && v2.last() == raw.last() && decodes(raw.drop_last(), v2.drop_last());
        assert(raw.drop_last() =~= src.subrange(x, q - 1));
        if q - x >= 2 {
            assert(raw.subrange(0, raw.len() - 2) =~= src.subrange(x, q - 2));
            assert(raw[raw.len() - 2] == src[q - 2]);
        }
        if p1 && p2 {
            lemma_decodes_unique(src, x, q - 1, v1.drop_last(), v2.drop_last());
        } else if !p1 && !p2 {
            lemma_decodes_unique(src, x, q - 2, v1.drop_last(), v2.drop_last());
        } else {
            // One reading ends in a plain character, the other in an
            // escape; both prefixes split into units, which cannot be.
            if p1 {
                lemma_decodes_units(src, x, q - 1, v1.drop_last());
                lemma_decodes_units(src, x, q - 2, v2.drop_last());
            } else {
                lemma_decodes_units(src, x, q - 1, v2.drop_last());
                lemma_decodes_units(src, x, q - 2, v1.drop_last());
            }
            lemma_units_through(src, x, q - 2, q - 1);
        }
        assert(v1 =~= v1.drop_last().push(v1.last()));
        assert(v2 =~= v2.drop_last().push(v2.last()));
    }
}

/// Two string literals at the same place end at the same closing quote
/// and stand for the same text.
proof fn lemma_same_string(src: Seq<char>, a: int, e1: int, k1: TokenKind, e2: int, k2: TokenKind)
    requires
        0 <= a < e1 <= src.len(),
        a < e2 <= src.len(),
        k1 is Str,
        k2 is Str,
        lexeme_ok(k1, src.subrange(a, e1)),
        lexeme_ok(k2, src.subrange(a, e2)),
    ensures
        e1 == e2,
        same_kind(k1, k2),
{
    let t1 = src.subrange(a, e1);
    let t2 = src.subrange(a, e2);
    assert(t1.subrange(1, t1.len() - 1) =~= src.subrange(a + 1, e1 - 1));
    assert(t2.subrange(1, t2.len() - 1) =~= src.subrange(a + 1, e2 - 1));
    assert(t1.last() == src[e1 - 1]);
    assert(t2.last() == src[e2 - 1]);
    let v1 = k1->Str_0@;
    let v2 = k2->Str_0@;
    lemma_decodes_units(src, a + 1, e1 - 1, v1);
    lemma_decodes_units(src, a + 1, e2 - 1, v2);
    if e1 < e2 {
        lemma_units_through(src, a + 1, e1 - 1, e2 - 1);
        lemma_units_first(src, e1 - 1, e2 - 1);
    } else if e2 < e1 {
        lemma_units_through(src, a + 1, e2 - 1, e1 - 1);
        lemma_units_first(src, e2 - 1, e1 - 1);
    } else {
        lemma_decodes_unique(src, a + 1, e1 - 1, v1, v2);
    }
}

/// Two tokens that start at the same place, each spelled by its text and
/// each the longest there, are the same token.
proof fn lemma_same_lexeme(src: Seq<char>, a: int, e1: int, k1: TokenKind, e2: int, k2: TokenKind)
    requires
        0 <= a < e1 <= src.len(),
        a < e2 <= src.len(),
        lexeme_ok(k1, src.subrange(a, e1)),
        longest(k1, src.subrange(e1, src.len() as int)),
        lexeme_ok(k2, src.subrange(a, e2)),
        longest(k2, src.subrange(e2, src.len() as int)),
    ensures
        e1 == e2,
        same_kind(k1, k2),
{
    let t1 = src.subrange(a, e1);
    let t2 = src.subrange(a, e2);
    lemma_lexeme_start(k1, t1);
    lemma_lexeme_start(k2, t2);
    assert(t1[0] == src[a] && t2[0] == src[a]);
    let c = src[a];
    if ident_start(c) {
        lemma_same_word(src, a, e1, k1, e2, k2);
    } else if is_digit(c) {
        lemma_same_number(src, a, e1, k1, e2, k2);
    } else if c == '"' {
        lemma_same_string(src, a, e1, k1, e2, k2);
    } else {
        lemma_same_punct(src, a, e1, k1, e2, k2);
    }
}

/// The first character of a token is no blank; it is a line break only
/// for a `Newline` token, and a `/` only when no second `/` follows.
proof fn lemma_token_head(src: Seq<char>, s1: int, e1: int, k1: TokenKind)
    requires
        0 <= s1 < e1 <= src.len(),
        lexeme_ok(k1, src.subrange(s1, e1)),
        longest(k1, src.subrange(e1, src.len() as int)),
    ensures
        !is_blank(src[s1]),
        src[s1] == '\n' ==> k1 is Newline,
        src[s1] == '/' ==> !(s1 + 1 < src.len() && src[s1 + 1] == '/'),
{
    let t = src.subrange(s1, e1);
    let rest = src.subrange(e1, src.len() as int);
    lemma_lexeme_start(k1, t);
    assert(t[0] == src[s1]);
    let c = src[s1];
    if !(ident_start(c) || is_digit(c) || c == '"') {
        lemma_punct_text(k1, t);
        if t.len() == 2 {
            assert(t[1] == src[s1 + 1]);
        }
        if s1 + 1 < src.len() && e1 == s1 + 1 {
            assert(rest[0] == src[s1 + 1]);
        }
    }
}

/// A token at `s1`, after text skipped from `g`, cannot itself lie in a
/// stretch skipped from `g` to a later `s2`: it is no blank, a line
/// break token is not skipped after another one, and a comment that
/// covered it would have been open where the token starts.
proof fn lemma_token_not_skipped(
    src: Seq<char>,
    g: int,
    s1: int,
    e1: int,
    k1: TokenKind,
    s2: int,
    nl: bool,
)
    requires
        0 <= g <= s1 < e1 <= src.len(),
        s1 < s2 <= src.len(),
        lexeme_ok(k1, src.subrange(s1, e1)),
        longest(k1, src.subrange(e1, src.len() as int)),
        nl ==> !(k1 is Newline),
        skippable(src, g, s1, nl),
    ensures
        !skippable(src, g, s2, nl),
{
    lemma_token_head(src, s1, e1, k1);
    if skippable(src, g, s2, nl) {
        assert(is_blank(src[s1]) || (nl && src[s1] == '\n') || in_comment(src, g, s2, s1));
        lemma_comment_reaches(src, g, s1, s2, nl);
    }
}

/// A comment from the stretch before `s1` that reaches `s1` would have
/// been open at `s1`, so `s1` would be a line break; and a comment that
/// starts at `s1` starts with `//`.
proof fn lemma_comment_reaches(src: Seq<char>, g: int, s1: int, s2: int, nl: bool)
    requires
        0 <= g <= s1 < s2 <= src.len(),
        skippable(src, g, s1, nl),
        in_comment(src, g, s2, s1),
        src[s1] != '\n',
    ensures
        src[s1] == '/' && s1 + 1 < src.len() && src[s1 + 1] == '/',
{
    let j = choose|j: int|
        #![trigger src[j], src[j + 1]]
        g <= j <= s1 && j + 1 < s2 && j + 1 < src.len() && src[j] == '/' && src[j + 1] == '/'
            && forall|k: int| j <= k <= s1 ==> #[trigger] src[k] != '\n';
    assert(src[j] == '/' && src[j + 1] == '/');
    if j + 1 == s1 {
        assert(is_blank(src[j]) || (nl && src[j] == '\n') || in_comment(src, g, s1, j));
        let j2 = choose|j2: int|
            #![trigger src[j2], src[j2 + 1]]
            g <= j2 <= j && j2 + 1 < s1 && j2 + 1 < src.len() && src[j2] == '/' && src[j2 + 1] == '/'
                && forall|k: int| j2 <= k <= j ==> #[trigger] src[k] != '\n';
        assert(src[j2] == '/' && src[j2 + 1] == '/');
        assert(forall|k: int| j2 <= k < s1 ==> #[trigger] src[k] != '\n');
        assert(open_comment(src, g, s1));
    } else if j + 1 < s1 {
        assert(forall|k: int| j <= k < s1 ==> #[trigger] src[k] != '\n');
        assert(open_comment(src, g, s1));
    }
}

/// `ts1` and `ts2` hold the same tokens below index `n`.
pub open spec fn agree(ts1: Seq<Token>, ts2: Seq<Token>, n: int) -> bool {
    forall|i: int| 0 <= i < n ==> (#[trigger] ts1[i]).span == ts2[i].span && same_kind(ts1[i].kind, ts2[i].kind)
}

/// Token `i` of `ts` after a line-break token.
pub open spec fn after_newline(ts: Seq<Token>, i: int) -> bool {
    i > 0 && ts[i - 1].kind is Newline
}

/// Token `i` of `ts`, in character positions: the text skipped before it
/// runs from `g` to its start `s`, and either it is an `Eof` at the end
/// of the source, or it spells `src[s..e]` and is the longest token there.
pub open spec fn token_here(src: Seq<char>, ts: Seq<Token>, i: int, g: int, s: int, e: int) -> bool {
    &&& g == char_index(src, prev_end(ts, i))
    &&& s == char_index(src, ts[i].span.start as nat)
    &&& 0 <= g <= s <= e <= src.len()
    &&& byte_len(src.take(s)) == ts[i].span.start
    &&& byte_len(src.take(e)) == ts[i].span.end
    &&& skippable(src, g, s, after_newline(ts, i))
    &&& ts[i].kind is Eof ==> s == src.len() && ts[i].span.start == byte_len(src) && ts[i].span.end == byte_len(src)
    &&& !(ts[i].kind is Eof) ==> s < e && lexeme_ok(ts[i].kind, src.subrange(s, e))
        && longest(ts[i].kind, src.subrange(e, src.len() as int)) && (after_newline(ts, i) ==> !(ts[i].kind is Newline))
}

/// Character positions of boundaries are ordered as their offsets are.
proof fn lemma_boundary_order(src: Seq<char>, b1: nat, b2: nat)
    requires
        on_boundary(src, b1),
        on_boundary(src, b2),
        b1 <= b2,
    ensures
        char_index(src, b1) <= char_index(src, b2),
        b1 < b2 ==> char_index(src, b1) < char_index(src, b2),
{
    let k1 = char_index(src, b1);
    let k2 = char_index(src, b2);
    if k2 < k1 {
        lemma_byte_len_strict(src, k2, k1);
    }
}

/// Token `i` of a stream `src` lexes to: only the last one is `Eof`.
proof fn lemma_token_at(src: Seq<char>, ts: Seq<Token>, i: int) -> (r: (int, int, int))
    requires
        lexes_to(src, ts),
        0 <= i < ts.len(),
    ensures
        token_here(src, ts, i, r.0, r.1, r.2),
        ts[i].kind is Eof <==> i == ts.len() - 1,
{
    let n = byte_len(src);
    let body = ts.drop_last();
    lemma_char_index(src, src.len() as int);
    assert(src.take(src.len() as int) =~= src);
    lemma_char_index(src, 0);
    assert(src.take(0) =~= Seq::<char>::empty());
    assert(on_boundary(src, ts[i].span.start as nat) && on_boundary(src, ts[i].span.end as nat));
    let pe = prev_end(ts, i);
    if i > 0 {
        assert(on_boundary(src, ts[i - 1].span.end as nat));
        if i < ts.len() - 1 {
            assert(body[i - 1] == ts[i - 1] && body[i] == ts[i]);
        } else {
            assert(body[i - 1] == ts[i - 1]);
        }
        assert(pe <= ts[i].span.start);
        lemma_boundary_order(src, pe, ts[i].span.start as nat);
    } else {
        assert(on_boundary(src, 0));
        lemma_boundary_order(src, 0, ts[i].span.start as nat);
    }
    lemma_boundary_order(src, ts[i].span.start as nat, ts[i].span.end as nat);
    if i < ts.len() - 1 {
        assert(body[i] == ts[i]);
        assert(ts[i].span.end <= n);
        lemma_boundary_order(src, ts[i].span.end as nat, n);
        if i > 0 {
            assert(body[i - 1] == ts[i - 1]);
        }
    }
    assert(gap_ok(src, ts, i));
    (char_index(src, pe), char_index(src, ts[i].span.start as nat), char_index(src, ts[i].span.end as nat))
}

/// Token `i` of a stream that lexes a prefix of `src` up to `p`: it is
/// no `Eof` and ends at or before `p`.
proof fn lemma_prefix_token_at(src: Seq<char>, ts: Seq<Token>, p: int, i: int) -> (r: (int, int, int))
    requires
        lexes_prefix(src, ts, p),
        0 <= i < ts.len(),
    ensures
        token_here(src, ts, i, r.0, r.1, r.2),
        !(ts[i].kind is Eof),
        r.2 <= p,
{
    let n = byte_len(src.take(p));
    lemma_char_index(src, p);
    lemma_char_index(src, 0);
    assert(src.take(0) =~= Seq::<char>::empty());
    assert(on_boundary(src, ts[i].span.start as nat) && on_boundary(src, ts[i].span.end as nat));
    let pe = prev_end(ts, i);
    if i > 0 {
        assert(on_boundary(src, ts[i - 1].span.end as nat));
        assert(pe <= ts[i].span.start);
        lemma_boundary_order(src, pe, ts[i].span.start as nat);
    } else {
        assert(on_boundary(src, 0));
        lemma_boundary_order(src, 0, ts[i].span.start as nat);
    }
    lemma_boundary_order(src, ts[i].span.start as nat, ts[i].span.end as nat);
    assert(ts[i].span.end <= n);
    lemma_boundary_order(src, ts[i].span.end as nat, n);
    assert(gap_ok(src, ts, i));
    (char_index(src, pe), char_index(src, ts[i].span.start as nat), char_index(src, ts[i].span.end as nat))
}

/// Tokens with the same index in two streams over the same source are
/// the same token when the tokens before them are.
proof fn lemma_step(
    src: Seq<char>,
    ts1: Seq<Token>,
    ts2: Seq<Token>,
    i: int,
    g1: int,
    s1: int,
    e1: int,
    g2: int,
    s2: int,
    e2: int,
)
    requires
        0 <= i < ts1.len(),
        i < ts2.len(),
        agree(ts1, ts2, i),
        token_here(src, ts1, i, g1, s1, e1),
        token_here(src, ts2, i, g2, s2, e2),
    ensures
        ts1[i].span == ts2[i].span,
        same_kind(ts1[i].kind, ts2[i].kind),
{
    if i > 0 {
        assert(ts1[i - 1].span == ts2[i - 1].span && same_kind(ts1[i - 1].kind, ts2[i - 1].kind));
    }
    assert(prev_end(ts1, i) == prev_end(ts2, i));
    let nl = after_newline(ts1, i);
    assert(nl == after_newline(ts2, i));
    if s1 < s2 {
        lemma_token_not_skipped(src, g1, s1, e1, ts1[i].kind, s2, nl);
    } else if s2 < s1 {
        lemma_token_not_skipped(src, g1, s2, e2, ts2[i].kind, s1, nl);
    } else if s1 < src.len() {
        lemma_same_lexeme(src, s1, e1, ts1[i].kind, e2, ts2[i].kind);
    }
}

/// Two streams the same source lexes to agree below `n`.
proof fn lemma_agree(src: Seq<char>, ts1: Seq<Token>, ts2: Seq<Token>, n: int)
    requires
        lexes_to(src, ts1),
        lexes_to(src, ts2),
        0 <= n <= ts1.len(),
        n <= ts2.len(),
    ensures
        agree(ts1, ts2, n),
    decreases n,
{
    if n > 0 {
        lemma_agree(src, ts1, ts2, n - 1);
        let (g1, s1, e1) = lemma_token_at(src, ts1, n - 1);
        let (g2, s2, e2) = lemma_token_at(src, ts2, n - 1);
        lemma_step(src, ts1, ts2, n - 1, g1, s1, e1, g2, s2, e2);
    }
}

/// A source text lexes in at most one way: two token streams it lexes to
/// have the same tokens, at the same places, of the same kinds (string
/// payloads compared by content).
pub proof fn lemma_lexes_to_unique(src: Seq<char>, ts1: Seq<Token>, ts2: Seq<Token>)
    requires
        lexes_to(src, ts1),
        lexes_to(src, ts2),
    ensures
        ts1.len() == ts2.len(),
        agree(ts1, ts2, ts1.len() as int),
{
    if ts1.len() < ts2.len() {
        lemma_agree(src, ts1, ts2, ts1.len() as int);
        let i = ts1.len() - 1;
        lemma_token_at(src, ts1, i);
        lemma_token_at(src, ts2, i);
        assert(ts1[i].span == ts2[i].span && same_kind(ts1[i].kind, ts2[i].kind));
    } else if ts2.len() < ts1.len() {
        lemma_agree(src, ts1, ts2, ts2.len() as int);
        let i = ts2.len() - 1;
        lemma_token_at(src, ts1, i);
        lemma_token_at(src, ts2, i);
        assert(ts1[i].span == ts2[i].span && same_kind(ts1[i].kind, ts2[i].kind));
    } else {
        lemma_agree(src, ts1, ts2, ts1.len() as int);
    }
}

/// A string literal at `p` does not break off.
proof fn lemma_string_not_breaks(src: Seq<char>, p: int, e: int, k: TokenKind)
    requires
        0 <= p < e <= src.len(),
        k is Str,
        lexeme_ok(k, src.subrange(p, e)),
    ensures
        !string_breaks(src, p),
{
    let t = src.subrange(p, e);
    assert(t.subrange(1, t.len() - 1) =~= src.subrange(p + 1, e - 1));
    assert(t.last() == src[e - 1]);
    lemma_decodes_units(src, p + 1, e - 1, k->Str_0@);
    if string_breaks(src, p) {
        let (q, v) = choose|q: int, v: Seq<char>|
            #![trigger decodes(src.subrange(p + 1, q), v)]
            p < q <= src.len() && decodes(src.subrange(p + 1, q), v) && {
                ||| q == src.len()
                ||| src[q] == '\n'
                ||| src[q] == '\\' && (q + 1 == src.len() || escape_value(src[q + 1]) is None)
            };
        lemma_decodes_units(src, p + 1, q, v);
        let c = e - 1;
        if q < c {
            lemma_units_through(src, p + 1, q, c);
            lemma_units_first(src, q, c);
        } else if c < q {
            lemma_units_through(src, p + 1, c, q);
            lemma_units_first(src, c, q);
        }
    }
}

/// A numeric literal at `p` is not an integer too large for an `i64`.
proof fn lemma_int_not_too_large(src: Seq<char>, p: int, e: int, k: TokenKind)
    requires
        0 <= p < e <= src.len(),
        k is Int || k is Float,
        lexeme_ok(k, src.subrange(p, e)),
        longest(k, src.subrange(e, src.len() as int)),
    ensures
        !int_too_large(src, p),
{
    if int_too_large(src, p) {
        let q = choose|q: int|
            #![trigger src.subrange(p, q)]
            p < q <= src.len() && all_digits(src.subrange(p, q)) && longest(
                TokenKind::Int(0),
                src.subrange(q, src.len() as int),
            ) && digits_value(src.subrange(p, q)) > i64::MAX;
        lemma_all_digits_sub(src, p, q);
        let rest = src.subrange(q, src.len() as int);
        if q < src.len() {
            assert(rest[0] == src[q]);
            if q + 1 < src.len() {
                assert(rest[1] == src[q + 1]);
            }
        }
        assert(int_run(src, p, q));
        if k is Int {
            lemma_int_run(src, p, e, k);
            lemma_run_end(src, p, e, q);
        } else {
            lemma_int_against_float(src, p, q, e);
        }
    }
}

/// No token starts where lexing fails.
proof fn lemma_no_token_at_bad(src: Seq<char>, p: int, e: int, k: TokenKind)
    requires
        0 <= p < e <= src.len(),
        lexeme_ok(k, src.subrange(p, e)),
        longest(k, src.subrange(e, src.len() as int)),
    ensures
        !bad_token_at(src, p),
{
    let t = src.subrange(p, e);
    lemma_lexeme_start(k, t);
    assert(t[0] == src[p]);
    let c = src[p];
    if ident_start(c) || is_digit(c) || c == '"' {
        if c == '"' {
            lemma_string_not_breaks(src, p, e, k);
        }
        if is_digit(c) {
            lemma_int_not_too_large(src, p, e, k);
        }
    } else {
        lemma_punct_text(k, t);
        if t.len() == 2 {
            assert(t[1] == src[p + 1]);
        }
    }
}

/// A character at which lexing fails is never skipped.
proof fn lemma_bad_not_skipped(src: Seq<char>, g: int, p: int, s2: int, nl: bool)
    requires
        0 <= g <= p < s2 <= src.len(),
        bad_token_at(src, p),
        skippable(src, g, p, nl),
    ensures
        !skippable(src, g, s2, nl),
{
    if skippable(src, g, s2, nl) {
        assert(is_blank(src[p]) || (nl && src[p] == '\n') || in_comment(src, g, s2, p));
        if in_comment(src, g, s2, p) {
            lemma_comment_reaches(src, g, p, s2, nl);
        }
    }
}

/// A stream lexing a prefix of `src` agrees with a stream `src` lexes to.
proof fn lemma_agree_prefix(src: Seq<char>, ts: Seq<Token>, p: int, ts2: Seq<Token>, n: int)
    requires
        lexes_prefix(src, ts, p),
        lexes_to(src, ts2),
        0 <= n <= ts.len(),
        n <= ts2.len(),
    ensures
        agree(ts, ts2, n),
    decreases n,
{
    if n > 0 {
        lemma_agree_prefix(src, ts, p, ts2, n - 1);
        let (g1, s1, e1) = lemma_prefix_token_at(src, ts, p, n - 1);
        let (g2, s2, e2) = lemma_token_at(src, ts2, n - 1);
        lemma_step(src, ts, ts2, n - 1, g1, s1, e1, g2, s2, e2);
    }
}

/// Where lexing fails (a prefix lexes and what follows cannot begin a
/// token), the source lexes to no token stream at all.
pub proof fn lemma_fails_excludes(src: Seq<char>, ts: Seq<Token>, p: int, ts2: Seq<Token>)
    requires
        lexes_prefix(src, ts, p),
        bad_token_at(src, p),
    ensures
        !lexes_to(src, ts2),
{
    if lexes_to(src, ts2) {
        let m = ts.len() as int;
        if ts2.len() <= m {
            lemma_agree_prefix(src, ts, p, ts2, ts2.len() as int);
            let i = ts2.len() - 1;
            lemma_prefix_token_at(src, ts, p, i);
            lemma_token_at(src, ts2, i);
            assert(ts[i].span == ts2[i].span && same_kind(ts[i].kind, ts2[i].kind));
        } else {
            lemma_agree_prefix(src, ts, p, ts2, m);
            if m > 0 {
                assert(ts[m - 1].span == ts2[m - 1].span && same_kind(ts[m - 1].kind, ts2[m - 1].kind));
            }
            assert(prev_end(ts, m) == prev_end(ts2, m));
            let nl = after_newline(ts2, m);
            assert(nl == (ts.len() > 0 && ts.last().kind is Newline));
            let (g, s2, e2) = lemma_token_at(src, ts2, m);
            if s2 < p {
                lemma_token_not_skipped(src, g, s2, e2, ts2[m].kind, p, nl);
            } else if p < s2 {
                lemma_bad_not_skipped(src, g, p, s2, nl);
            } else {
                lemma_no_token_at_bad(src, p, e2, ts2[m].kind);
            }
        }
    }
}

} // verus!
