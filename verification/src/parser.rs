//! Syntax analyzer: a recursive-descent parser over the token stream.

pub mod expr;
pub mod stmt;
pub mod types;

use vstd::prelude::*;
use crate::ast::Program;
use crate::ast::node_ids::{fresh_ids, program_ids};
use crate::diag::{Diagnostic, Level, Phase};
use crate::ids::NodeId;
use crate::lexer::token::{same_variant, Token, TokenKind};
use crate::source::Span;
use crate::text::{push_str, string_of};

verus! {

/// A token stream the parser can work on: non-empty and ending in `Eof`.
pub open spec fn parsable(ts: Seq<Token>) -> bool {
    ts.len() > 0 && ts.last().kind is Eof
}

/// A parse error diagnostic.
pub open spec fn parse_err(d: Diagnostic) -> bool {
    d.phase == Phase::Parse && d.level == Level::Error
}

/// `p1` is `p0` after some parsing: same tokens, the cursor and the node
/// counter only moved forward.
pub open spec fn steps(p0: Parser, p1: Parser) -> bool {
    &&& p1.wf()
    &&& p1.tokens@ == p0.tokens@
    &&& p1.pos >= p0.pos
    &&& p1.next_node_id >= p0.next_node_id
}

/// The kind of the token `k` places after the cursor (the last token when
/// past the end).
pub open spec fn ahead(p: Parser, k: int) -> TokenKind {
    if p.pos + k < p.tokens@.len() { p.tokens@[p.pos + k].kind } else { p.tokens@.last().kind }
}

/// The span of the current token.
pub open spec fn cur_span(p: Parser) -> Span {
    p.tokens@[p.pos as int].span
}

/// The ids `ids` were handed out between `p0` and `p1`, each once.
pub open spec fn gave(p0: Parser, p1: Parser, ids: Seq<NodeId>) -> bool {
    fresh_ids(ids, p0.next_node_id as int, p1.next_node_id as int)
}

/// After the cursor, possibly past one newline, comes `end`: an empty
/// block body.
pub open spec fn empty_body(p: Parser, k: int) -> bool {
    ahead(p, k) is End || (ahead(p, k) is Newline && ahead(p, k + 1) is End)
}

/// Nothing but newlines from the cursor up to the final `Eof`.
pub open spec fn blank_rest(p: Parser) -> bool {
    forall|i: int| p.pos <= i < p.tokens@.len() - 1 ==> (#[trigger] p.tokens@[i]).kind is Newline
}

/// A token stream of newlines ending in `Eof`: an empty program.
pub open spec fn blank(ts: Seq<Token>) -> bool {
    parsable(ts) && forall|i: int| 0 <= i < ts.len() - 1 ==> (#[trigger] ts[i]).kind is Newline
}

/// Every node id has been handed out.
pub open spec fn ids_exhausted(p: Parser) -> bool {
    p.next_node_id == u32::MAX
}

pub struct Parser {
    pub tokens: Vec<Token>,
    pub pos: usize,
    pub next_node_id: u32,
}

impl Parser {
    pub open spec fn wf(self) -> bool {
        &&& parsable(self.tokens@)
        &&& self.pos < self.tokens@.len()
    }

    /// The kind of the current token.
    pub open spec fn cur(self) -> TokenKind {
        self.tokens@[self.pos as int].kind
    }

    /// A parser positioned at the first token, numbering nodes from
    /// `offset`. A stream that does not end in `Eof` gets one appended.
    pub fn new_with_offset(tokens: Vec<Token>, offset: u32) -> (p: Parser)
        ensures
            p.wf(),
            p.pos == 0,
            p.next_node_id == offset,
            parsable(tokens@) ==> p.tokens@ == tokens@,
    {
        let mut tokens = tokens;
        let n = tokens.len();
        if n == 0 || !matches!(tokens[n - 1].kind, TokenKind::Eof) {
            let end = if n == 0 { 0 } else { tokens[n - 1].span.end };
            tokens.push(Token { kind: TokenKind::Eof, span: Span::new(end, end) });
        }
        Parser { tokens, pos: 0, next_node_id: offset }
    }

    /// A parser positioned at the first token, numbering nodes from 0.
    pub fn new(tokens: Vec<Token>) -> (p: Parser)
        ensures
            p.wf(),
            p.pos == 0,
            p.next_node_id == 0,
            parsable(tokens@) ==> p.tokens@ == tokens@,
    {
        Self::new_with_offset(tokens, 0)
    }

    /// A fresh node id; fails only once every `u32` has been handed out.
    pub fn fresh_node_id(&mut self) -> (r: Result<NodeId, Diagnostic>)
        requires
            old(self).wf(),
        ensures
            steps(*old(self), *final(self)),
            final(self).pos == old(self).pos,
            match r {
                Ok(id) => id.0 == old(self).next_node_id && final(self).next_node_id == old(self).next_node_id + 1,
                Err(d) => parse_err(d) && old(self).next_node_id == u32::MAX,
            },
    {
        if self.next_node_id == u32::MAX {
            return Err(Diagnostic::parse_error(self.current_span(), "too many syntax nodes"));
        }
        let id = NodeId(self.next_node_id);
        self.next_node_id = self.next_node_id + 1;
        Ok(id)
    }

    pub fn peek(&self) -> (r: &Token)
        requires
            self.wf(),
        ensures
            *r == self.tokens@[self.pos as int],
    {
        &self.tokens[self.pos]
    }

    pub fn peek_kind(&self) -> (r: &TokenKind)
        requires
            self.wf(),
        ensures
            *r == self.cur(),
    {
        &self.tokens[self.pos].kind
    }

    /// The kind `offset` tokens ahead, or `Eof` past the end.
    pub fn peek_ahead(&self, offset: usize) -> (r: &TokenKind)
        requires
            self.wf(),
        ensures
            self.pos + offset < self.tokens@.len() ==> *r == self.tokens@[self.pos + offset].kind,
            self.pos + offset >= self.tokens@.len() ==> *r == self.tokens@.last().kind,
    {
        let last = self.tokens.len() - 1;
        if offset > last - self.pos {
            &self.tokens[last].kind
        } else {
            &self.tokens[self.pos + offset].kind
        }
    }

    /// Move past the current token (never past the final `Eof`) and
    /// return its span.
    pub fn advance(&mut self) -> (r: Span)
        requires
            old(self).wf(),
        ensures
            steps(*old(self), *final(self)),
            final(self).next_node_id == old(self).next_node_id,
            r == old(self).tokens@[old(self).pos as int].span,
            !(old(self).cur() is Eof) ==> final(self).pos == old(self).pos + 1,
    {
        let span = self.tokens[self.pos].span;
        if self.pos < self.tokens.len() - 1 {
            self.pos = self.pos + 1;
        }
        span
    }

    /// Whether the current token is of the same variant as `kind`.
    pub fn at(&self, kind: &TokenKind) -> (r: bool)
        requires
            self.wf(),
        ensures
            r == same_variant(self.cur(), *kind),
    {
        self.tokens[self.pos].kind.same_variant(kind)
    }

    /// Consume the current token if it is of the same variant as `kind`.
    pub fn eat(&mut self, kind: &TokenKind) -> (r: bool)
        requires
            old(self).wf(),
            !(*kind is Eof),
        ensures
            steps(*old(self), *final(self)),
            final(self).next_node_id == old(self).next_node_id,
            r == same_variant(old(self).cur(), *kind),
            r ==> final(self).pos == old(self).pos + 1,
            !r ==> final(self).pos == old(self).pos,
    {
        if self.at(kind) {
            self.advance();
            true
        } else {
            false
        }
    }

    /// Consume a token of the same variant as `kind`, or fail with
    /// "expected {ctx}, found {token}".
    pub fn expect(&mut self, kind: &TokenKind, ctx: &str) -> (r: Result<Span, Diagnostic>)
        requires
            old(self).wf(),
            !(*kind is Eof),
        ensures
            steps(*old(self), *final(self)),
            final(self).next_node_id == old(self).next_node_id,
            match r {
                Ok(sp) => same_variant(old(self).cur(), *kind) && final(self).pos == old(self).pos + 1
                    && sp == old(self).tokens@[old(self).pos as int].span,
                Err(d) => !same_variant(old(self).cur(), *kind) && parse_err(d) && final(self).pos == old(self).pos,
            },
    {
        if self.at(kind) {
            Ok(self.advance())
        } else {
            Err(self.error_found("expected ", ctx))
        }
    }

    /// A parse error at the current token: `{prefix}{what}, found {token}`.
    pub fn error_found(&self, prefix: &str, what: &str) -> (d: Diagnostic)
        requires
            self.wf(),
        ensures
            parse_err(d),
            d.span == self.tokens@[self.pos as int].span,
    {
        let tok = self.peek();
        let mut m = string_of(prefix);
        push_str(&mut m, what);
        push_str(&mut m, ", found ");
        let desc = tok.kind.describe();
        push_str(&mut m, desc.as_str());
        Diagnostic::error_owned(Phase::Parse, tok.span, m)
    }

    /// A parse error at the current token with a fixed message.
    pub fn error_here(&self, msg: &str) -> (d: Diagnostic)
        requires
            self.wf(),
        ensures
            parse_err(d),
            d.span == self.tokens@[self.pos as int].span,
            d.message@ == msg@,
    {
        Diagnostic::parse_error(self.current_span(), msg)
    }

    /// Skip any `Newline` tokens.
    pub fn consume_newlines(&mut self)
        requires
            old(self).wf(),
        ensures
            steps(*old(self), *final(self)),
            final(self).next_node_id == old(self).next_node_id,
            !(final(self).cur() is Newline),
            forall|i: int| old(self).pos <= i < final(self).pos ==> (#[trigger] final(self).tokens@[i]).kind is Newline,
    {
        while matches!(self.tokens[self.pos].kind, TokenKind::Newline)
            invariant
                steps(*old(self), *self),
                self.next_node_id == old(self).next_node_id,
                forall|i: int| old(self).pos <= i < self.pos ==> (#[trigger] self.tokens@[i]).kind is Newline,
            decreases self.tokens@.len() - self.pos,
        {
            self.advance();
        }
    }

    pub fn current_span(&self) -> (r: Span)
        requires
            self.wf(),
        ensures
            r == self.tokens@[self.pos as int].span,
    {
        self.tokens[self.pos].span
    }
}

/// Parse a whole token stream, numbering nodes from 0. Every node of the
/// resulting program carries an id no other node carries. A stream of
/// newlines parses to the empty program, and one plain `let x: T = e`
/// to a program of that one item.
pub fn parse(tokens: Vec<Token>) -> (r: Result<Program, Diagnostic>)
    ensures
        r matches Err(d) ==> parse_err(d),
        blank(tokens@) ==> (r matches Ok(prog) && prog.items@.len() == 0),
        stmt::let_stream(tokens@) ==> (r matches Ok(prog) && prog.items@.len() == 1 && prog.items@[0] is Let),
        r matches Ok(prog) ==> program_ids(prog).no_duplicates(),
{
    match parse_with_node_offset(tokens, 0) {
        Ok((p, _)) => Ok(p),
        Err(d) => Err(d),
    }
}

/// Parse a whole token stream, numbering nodes from `node_offset`; also
/// returns the first node id left unused. The program's ids are distinct
/// and all lie between the two.
pub fn parse_with_node_offset(tokens: Vec<Token>, node_offset: u32) -> (r: Result<(Program, u32), Diagnostic>)
    ensures
        match r {
            Ok((prog, next)) => next >= node_offset && fresh_ids(program_ids(prog), node_offset as int, next as int),
            Err(d) => parse_err(d),
        },
        blank(tokens@) && node_offset < u32::MAX ==> (r matches Ok((prog, next)) && prog.items@.len() == 0
            && next == node_offset + 1),
        stmt::let_stream(tokens@) && node_offset < u32::MAX - 2 ==> (r matches Ok((prog, _)) && prog.items@.len() == 1
            && prog.items@[0] is Let),
{
    let mut parser = Parser::new_with_offset(tokens, node_offset);
    let program = stmt::parse_program(&mut parser)?;
    Ok((program, parser.next_node_id))
}

} // verus!
