//! Token types produced by the lexer.

use vstd::prelude::*;
use crate::source::Span;
use crate::text::{push_char, push_i64, push_str, str_eq, string_of};

verus! {

#[derive(Debug, PartialEq)]
pub struct Token {
    pub kind: TokenKind,
    pub span: Span,
}

/// Token kinds. A floating-point literal keeps its source spelling.
#[derive(Debug, PartialEq)]
pub enum TokenKind {
    // Literals
    Int(i64),
    Float(String),
    Str(String),
    Ident(String),

    // Keywords
    Let,
    Function,
    End,
    Return,
    If,
    Then,
    Elseif,
    Else,
    For,
    In,
    Do,
    While,
    Match,
    Case,
    Struct,
    Enum,
    Import,
    And,
    Or,
    Not,
    True,
    False,

    // Operators and punctuation
    Plus,
    Minus,
    Star,
    Slash,
    Caret,
    Eq,
    EqEq,
    Neq,
    Lt,
    Gt,
    Le,
    Ge,
    Colon,
    Comma,
    Dot,
    Arrow,
    LParen,
    RParen,
    LBracket,
    RBracket,
    LBrace,
    RBrace,

    // Structural
    Newline,
    Eof,
}

/// The keyword spelled by `s`, if any.
pub open spec fn keyword_spec(s: Seq<char>) -> Option<TokenKind> {
    if s == "let"@ { Some(TokenKind::Let) }
    else if s == "function"@ { Some(TokenKind::Function) }
    else if s == "end"@ { Some(TokenKind::End) }
    else if s == "return"@ { Some(TokenKind::Return) }
    else if s == "if"@ { Some(TokenKind::If) }
    else if s == "then"@ { Some(TokenKind::Then) }
    else if s == "elseif"@ { Some(TokenKind::Elseif) }
    else if s == "else"@ { Some(TokenKind::Else) }
    else if s == "for"@ { Some(TokenKind::For) }
    else if s == "in"@ { Some(TokenKind::In) }
    else if s == "do"@ { Some(TokenKind::Do) }
    else if s == "while"@ { Some(TokenKind::While) }
    else if s == "match"@ { Some(TokenKind::Match) }
    else if s == "case"@ { Some(TokenKind::Case) }
    else if s == "struct"@ { Some(TokenKind::Struct) }
    else if s == "enum"@ { Some(TokenKind::Enum) }
    else if s == "import"@ { Some(TokenKind::Import) }
    else if s == "and"@ { Some(TokenKind::And) }
    else if s == "or"@ { Some(TokenKind::Or) }
    else if s == "not"@ { Some(TokenKind::Not) }
    else if s == "true"@ { Some(TokenKind::True) }
    else if s == "false"@ { Some(TokenKind::False) }
    else { None }
}

/// Two kinds with the same variant, payloads ignored.
pub open spec fn same_variant(a: TokenKind, b: TokenKind) -> bool {
    match (a, b) {
        (TokenKind::Int(_), TokenKind::Int(_)) => true,
        (TokenKind::Float(_), TokenKind::Float(_)) => true,
        (TokenKind::Str(_), TokenKind::Str(_)) => true,
        (TokenKind::Ident(_), TokenKind::Ident(_)) => true,
        (TokenKind::Int(_), _) | (TokenKind::Float(_), _) | (TokenKind::Str(_), _) | (TokenKind::Ident(_), _) => false,
        (_, TokenKind::Int(_)) | (_, TokenKind::Float(_)) | (_, TokenKind::Str(_)) | (_, TokenKind::Ident(_)) => false,
        _ => a == b,
    }
}

impl TokenKind {
    /// The keyword token spelled by `ident`, if it is one.
    pub fn keyword(ident: &str) -> (r: Option<TokenKind>)
        ensures
            r == keyword_spec(ident@),
    {
        if str_eq(ident, "let") { Some(TokenKind::Let) }
        else if str_eq(ident, "function") { Some(TokenKind::Function) }
        else if str_eq(ident, "end") { Some(TokenKind::End) }
        else if str_eq(ident, "return") { Some(TokenKind::Return) }
        else if str_eq(ident, "if") { Some(TokenKind::If) }
        else if str_eq(ident, "then") { Some(TokenKind::Then) }
        else if str_eq(ident, "elseif") { Some(TokenKind::Elseif) }
        else if str_eq(ident, "else") { Some(TokenKind::Else) }
        else if str_eq(ident, "for") { Some(TokenKind::For) }
        else if str_eq(ident, "in") { Some(TokenKind::In) }
        else if str_eq(ident, "do") { Some(TokenKind::Do) }
        else if str_eq(ident, "while") { Some(TokenKind::While) }
        else if str_eq(ident, "match") { Some(TokenKind::Match) }
        else if str_eq(ident, "case") { Some(TokenKind::Case) }
        else if str_eq(ident, "struct") { Some(TokenKind::Struct) }
        else if str_eq(ident, "enum") { Some(TokenKind::Enum) }
        else if str_eq(ident, "import") { Some(TokenKind::Import) }
        else if str_eq(ident, "and") { Some(TokenKind::And) }
        else if str_eq(ident, "or") { Some(TokenKind::Or) }
        else if str_eq(ident, "not") { Some(TokenKind::Not) }
        else if str_eq(ident, "true") { Some(TokenKind::True) }
        else if str_eq(ident, "false") { Some(TokenKind::False) }
        else { None }
    }

    /// Whether `self` and `other` are the same variant (payloads ignored).
    pub fn same_variant(&self, other: &TokenKind) -> (r: bool)
        ensures
            r == same_variant(*self, *other),
    {
        match (self, other) {
            (TokenKind::Int(_), TokenKind::Int(_)) => true,
            (TokenKind::Float(_), TokenKind::Float(_)) => true,
            (TokenKind::Str(_), TokenKind::Str(_)) => true,
            (TokenKind::Ident(_), TokenKind::Ident(_)) => true,
            (TokenKind::Int(_), _) | (TokenKind::Float(_), _) | (TokenKind::Str(_), _) | (TokenKind::Ident(_), _) => false,
            (_, TokenKind::Int(_)) | (_, TokenKind::Float(_)) | (_, TokenKind::Str(_)) | (_, TokenKind::Ident(_)) => false,
            _ => self.tag() == other.tag(),
        }
    }

    /// Position of a payload-free variant in declaration order.
    fn tag(&self) -> (r: u8)
        requires
            !(*self is Int || *self is Float || *self is Str || *self is Ident),
        ensures
            forall|o: TokenKind| !(o is Int || o is Float || o is Str || o is Ident) ==> (#[trigger] tag_of(o) == r <==> o == *self),
            r == tag_of(*self),
    {
        match self {
            TokenKind::Let => 4,
            TokenKind::Function => 5,
            TokenKind::End => 6,
            TokenKind::Return => 7,
            TokenKind::If => 8,
            TokenKind::Then => 9,
            TokenKind::Elseif => 10,
            TokenKind::Else => 11,
            TokenKind::For => 12,
            TokenKind::In => 13,
            TokenKind::Do => 14,
            TokenKind::While => 15,
            TokenKind::Match => 16,
            TokenKind::Case => 17,
            TokenKind::Struct => 18,
            TokenKind::Enum => 19,
            TokenKind::Import => 20,
            TokenKind::And => 21,
            TokenKind::Or => 22,
            TokenKind::Not => 23,
            TokenKind::True => 24,
            TokenKind::False => 25,
            TokenKind::Plus => 26,
            TokenKind::Minus => 27,
            TokenKind::Star => 28,
            TokenKind::Slash => 29,
            TokenKind::Caret => 30,
            TokenKind::Eq => 31,
            TokenKind::EqEq => 32,
            TokenKind::Neq => 33,
            TokenKind::Lt => 34,
            TokenKind::Gt => 35,
            TokenKind::Le => 36,
            TokenKind::Ge => 37,
            TokenKind::Colon => 38,
            TokenKind::Comma => 39,
            TokenKind::Dot => 40,
            TokenKind::Arrow => 41,
            TokenKind::LParen => 42,
            TokenKind::RParen => 43,
            TokenKind::LBracket => 44,
            TokenKind::RBracket => 45,
            TokenKind::LBrace => 46,
            TokenKind::RBrace => 47,
            TokenKind::Newline => 48,
            TokenKind::Eof => 49,
            _ => 0,
        }
    }
}

/// Declaration-order position of each payload-free variant.
pub open spec fn tag_of(k: TokenKind) -> u8 {
    match k {
        TokenKind::Int(_) => 0,
        TokenKind::Float(_) => 1,
        TokenKind::Str(_) => 2,
        TokenKind::Ident(_) => 3,
        TokenKind::Let => 4,
        TokenKind::Function => 5,
        TokenKind::End => 6,
        TokenKind::Return => 7,
        TokenKind::If => 8,
        TokenKind::Then => 9,
        TokenKind::Elseif => 10,
        TokenKind::Else => 11,
        TokenKind::For => 12,
        TokenKind::In => 13,
        TokenKind::Do => 14,
        TokenKind::While => 15,
        TokenKind::Match => 16,
        TokenKind::Case => 17,
        TokenKind::Struct => 18,
        TokenKind::Enum => 19,
        TokenKind::Import => 20,
        TokenKind::And => 21,
        TokenKind::Or => 22,
        TokenKind::Not => 23,
        TokenKind::True => 24,
        TokenKind::False => 25,
        TokenKind::Plus => 26,
        TokenKind::Minus => 27,
        TokenKind::Star => 28,
        TokenKind::Slash => 29,
        TokenKind::Caret => 30,
        TokenKind::Eq => 31,
        TokenKind::EqEq => 32,
        TokenKind::Neq => 33,
        TokenKind::Lt => 34,
        TokenKind::Gt => 35,
        TokenKind::Le => 36,
        TokenKind::Ge => 37,
        TokenKind::Colon => 38,
        TokenKind::Comma => 39,
        TokenKind::Dot => 40,
        TokenKind::Arrow => 41,
        TokenKind::LParen => 42,
        TokenKind::RParen => 43,
        TokenKind::LBracket => 44,
        TokenKind::RBracket => 45,
        TokenKind::LBrace => 46,
        TokenKind::RBrace => 47,
        TokenKind::Newline => 48,
        TokenKind::Eof => 49,
    }
}

/// The name of a payload-free variant, as it is written in messages.
fn variant_name(k: &TokenKind) -> (r: &'static str) {
    match k {
        TokenKind::Int(_) => "Int",
        TokenKind::Float(_) => "Float",
        TokenKind::Str(_) => "Str",
        TokenKind::Ident(_) => "Ident",
        TokenKind::Let => "Let",
        TokenKind::Function => "Function",
        TokenKind::End => "End",
        TokenKind::Return => "Return",
        TokenKind::If => "If",
        TokenKind::Then => "Then",
        TokenKind::Elseif => "Elseif",
        TokenKind::Else => "Else",
        TokenKind::For => "For",
        TokenKind::In => "In",
        TokenKind::Do => "Do",
        TokenKind::While => "While",
        TokenKind::Match => "Match",
        TokenKind::Case => "Case",
        TokenKind::Struct => "Struct",
        TokenKind::Enum => "Enum",
        TokenKind::Import => "Import",
        TokenKind::And => "And",
        TokenKind::Or => "Or",
        TokenKind::Not => "Not",
        TokenKind::True => "True",
        TokenKind::False => "False",
        TokenKind::Plus => "Plus",
        TokenKind::Minus => "Minus",
        TokenKind::Star => "Star",
        TokenKind::Slash => "Slash",
        TokenKind::Caret => "Caret",
        TokenKind::Eq => "Eq",
        TokenKind::EqEq => "EqEq",
        TokenKind::Neq => "Neq",
        TokenKind::Lt => "Lt",
        TokenKind::Gt => "Gt",
        TokenKind::Le => "Le",
        TokenKind::Ge => "Ge",
        TokenKind::Colon => "Colon",
        TokenKind::Comma => "Comma",
        TokenKind::Dot => "Dot",
        TokenKind::Arrow => "Arrow",
        TokenKind::LParen => "LParen",
        TokenKind::RParen => "RParen",
        TokenKind::LBracket => "LBracket",
        TokenKind::RBracket => "RBracket",
        TokenKind::LBrace => "LBrace",
        TokenKind::RBrace => "RBrace",
        TokenKind::Newline => "Newline",
        TokenKind::Eof => "Eof",
    }
}

/// Appends `s` in double quotes, escaping quotes, backslashes and
/// control characters.
fn push_quoted(out: &mut String, s: &str) {
    push_char(out, '"');
    let n = s.unicode_len();
    let mut i: usize = 0;
    while i < n
        invariant
            i <= n,
            n == s@.len(),
        decreases n - i,
    {
        let c = s.get_char(i);
        if c == '"' {
            push_str(out, "\\\"");
        } else if c == '\\' {
            push_str(out, "\\\\");
        } else if c == '\n' {
            push_str(out, "\\n");
        } else if c == '\t' {
            push_str(out, "\\t");
        } else if c == '\r' {
            push_str(out, "\\r");
        } else {
            push_char(out, c);
        }
        i = i + 1;
    }
    push_char(out, '"');
}

impl TokenKind {
    /// The token as it is shown in parse-error messages, e.g. `RParen`,
    /// `Int(3)` or `Ident("x")`.
    pub fn describe(&self) -> (r: String) {
        let mut out = string_of(variant_name(self));
        match self {
            TokenKind::Int(n) => {
                push_char(&mut out, '(');
                push_i64(&mut out, *n);
                push_char(&mut out, ')');
            },
            TokenKind::Float(t) => {
                push_char(&mut out, '(');
                push_str(&mut out, t.as_str());
                push_char(&mut out, ')');
            },
            TokenKind::Str(s) => {
                push_char(&mut out, '(');
                push_quoted(&mut out, s.as_str());
                push_char(&mut out, ')');
            },
            TokenKind::Ident(s) => {
                push_char(&mut out, '(');
                push_quoted(&mut out, s.as_str());
                push_char(&mut out, ')');
            },
            _ => {},
        }
        out
    }
}

} // verus!
