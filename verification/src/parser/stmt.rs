//! Statement, block and top-level item parser.

use vstd::prelude::*;
use crate::ast::{
    Block, EnumDef, EnumVariant, ForStmt, FunctionDef, Item, LetStmt, Param, Program, Stmt,
    StmtKind, StructDef, StructField, WhileStmt,
};
use crate::diag::Diagnostic;
use crate::lexer::token::TokenKind;
use crate::parser::expr::{infix_spec, lone_operand, parse_expr, postfix_start, primary_of};
use crate::lexer::token::Token;
use crate::parser::types::{parse_type, parse_type_list, parse_type_param_list};
use crate::ast::node_ids::{
    block_ids, expr_ids, field_decl_ids, fresh_ids, lemma_fresh_widen, field_decls_ids, item_ids, items_ids, lemma_fresh_join, lemma_fresh_snoc,
    param_ids, params_ids, program_ids, stmt_ids, stmts_ids, type_ids, types_ids, variant_ids, variants_ids,
};
use crate::ids::NodeId;
use crate::parser::{ahead, blank_rest, empty_body, gave, ids_exhausted, parse_err, steps, Parser};
use crate::source::Span;

verus! {

broadcast use vstd::std_specs::vec::group_vec_axioms;

/// A whole program: top-level items separated by newlines.
pub fn parse_program(p: &mut Parser) -> (r: Result<Program, Diagnostic>)
    requires
        old(p).wf(),
    ensures
        steps(*old(p), *final(p)),
        r matches Err(d) ==> parse_err(d),
        r is Ok ==> final(p).cur() is Eof,
        r matches Ok(prog) ==> gave(*old(p), *final(p), program_ids(prog)),
        blank_rest(*old(p)) ==> match r {
            Ok(prog) => prog.items@.len() == 0 && final(p).next_node_id == old(p).next_node_id + 1,
            Err(_) => ids_exhausted(*old(p)),
        },
        old(p).pos == 0 && let_stream(old(p).tokens@) ==> match r {
            Ok(prog) => prog.items@.len() == 1 && prog.items@[0] is Let,
            Err(_) => old(p).next_node_id + 2 >= u32::MAX,
        },
{
    let ghost n0 = p.next_node_id as int;
    p.consume_newlines();
    proof {
        if blank_rest(*old(p)) && p.pos < p.tokens@.len() - 1 {
            assert(p.tokens@[p.pos as int].kind is Newline);
        }
        if old(p).pos == 0 && let_stream(old(p).tokens@) && p.pos > 0 {
            assert(p.tokens@[0].kind is Newline);
        }
    }
    let start = p.current_span();
    let mut items: Vec<Item> = Vec::new();
    assert(items_ids(items@) =~= Seq::<NodeId>::empty());
    while !matches!(p.peek_kind(), TokenKind::Eof)
        invariant
            steps(*old(p), *p),
            n0 == old(p).next_node_id,
            gave(*old(p), *p, items_ids(items@)),
            blank_rest(*old(p)) ==> p.cur() is Eof && items@.len() == 0 && p.next_node_id == old(p).next_node_id,
            old(p).pos == 0 && let_stream(old(p).tokens@) ==> (items@.len() == 0 && p.pos == 0
                && p.next_node_id == old(p).next_node_id) || (items@.len() == 1 && items@[0] is Let && p.cur() is Eof
                && p.next_node_id == old(p).next_node_id + 2),
        decreases p.tokens@.len() - p.pos,
    {
        let ghost n1 = p.next_node_id as int;
        let ghost before = items@;
        let item = parse_item(p)?;
        if !matches!(p.peek_kind(), TokenKind::Newline | TokenKind::Eof) {
            return Err(p.error_found("expected newline after statement", ""));
        }
        items.push(item);
        proof {
            assert(items@.drop_last() =~= before);
            lemma_fresh_join(items_ids(before), item_ids(item), n0, n1, n1, p.next_node_id as int);
        }
        let ghost q = p.pos as int;
        p.consume_newlines();
        proof {
            if old(p).pos == 0 && let_stream(old(p).tokens@) {
                assert(q == 6);
                if p.pos < p.tokens@.len() - 1 {
                    assert(p.tokens@[p.pos as int].kind is Newline);
                }
            }
        }
    }
    let ghost n1 = p.next_node_id as int;
    let end = p.current_span();
    let id = p.fresh_node_id()?;
    proof {
        lemma_fresh_snoc(items_ids(items@), id, n0, n1);
    }
    Ok(Program { items, span: Span::merge(start, end), id })
}

fn parse_item(p: &mut Parser) -> (r: Result<Item, Diagnostic>)
    requires
        old(p).wf(),
    ensures
        steps(*old(p), *final(p)),
        r is Ok ==> final(p).pos > old(p).pos,
        r matches Err(d) ==> parse_err(d),
        r matches Ok(item) ==> match old(p).cur() {
            TokenKind::Function => item is Function,
            TokenKind::Let => item is Let,
            TokenKind::Struct => item is Struct,
            TokenKind::Enum => item is Enum,
            _ => false,
        },
        r matches Ok(item) ==> gave(*old(p), *final(p), item_ids(item)),
        plain_let(*old(p)) ==> match r {
            Ok(_) => final(p).pos == old(p).pos + 6 && final(p).next_node_id == old(p).next_node_id + 2,
            Err(_) => old(p).next_node_id + 1 >= u32::MAX,
        },
{
    match p.peek_kind() {
        TokenKind::Function => Ok(Item::Function(parse_function_def(p)?)),
        TokenKind::Let => {
            let (l, _span) = parse_let_parts(p)?;
            Ok(Item::Let(l))
        },
        TokenKind::Struct => Ok(Item::Struct(parse_struct_def(p)?)),
        TokenKind::Enum => Ok(Item::Enum(parse_enum_def(p)?)),
        _ => Err(p.error_found("expected top-level item (function, let, struct, or enum)", "")),
    }
}

fn parse_ident_name(p: &mut Parser, msg: &str) -> (r: Result<(String, Span), Diagnostic>)
    requires
        old(p).wf(),
    ensures
        steps(*old(p), *final(p)),
        r is Ok ==> final(p).pos > old(p).pos,
        r matches Err(d) ==> parse_err(d),
        !(old(p).cur() is Ident) <==> r is Err,
        r matches Ok((n, sp)) ==> old(p).cur() == TokenKind::Ident(n) && final(p).pos == old(p).pos + 1
            && sp == old(p).tokens@[old(p).pos as int].span && final(p).next_node_id == old(p).next_node_id,
{
    let name = match p.peek_kind() {
        TokenKind::Ident(n) => n.clone(),
        _ => {
            return Err(p.error_here(msg));
        },
    };
    let span = p.advance();
    Ok((name, span))
}

fn parse_struct_def(p: &mut Parser) -> (r: Result<StructDef, Diagnostic>)
    requires
        old(p).wf(),
    ensures
        steps(*old(p), *final(p)),
        r is Ok ==> final(p).pos > old(p).pos,
        r matches Err(d) ==> parse_err(d),
        r matches Ok(d) ==> old(p).cur() is Struct && ahead(*old(p), 1) == TokenKind::Ident(d.name),
        r matches Ok(d) ==> gave(*old(p), *final(p), field_decls_ids(d.fields@) + seq![d.id]),
{
    let ghost n0 = p.next_node_id as int;
    let start = p.current_span();
    p.expect(&TokenKind::Struct, "'struct'")?;
    let (name, _) = parse_ident_name(p, "expected struct name")?;
    p.consume_newlines();
    let mut fields: Vec<StructField> = Vec::new();
    assert(field_decls_ids(fields@) =~= Seq::<NodeId>::empty());
    while !matches!(p.peek_kind(), TokenKind::End | TokenKind::Eof)
        invariant
            steps(*old(p), *p),
            p.pos > old(p).pos,
            n0 == old(p).next_node_id,
            gave(*old(p), *p, field_decls_ids(fields@)),
        decreases p.tokens@.len() - p.pos,
    {
        let ghost n1 = p.next_node_id as int;
        let ghost before = fields@;
        let field_start = p.current_span();
        let (fname, _) = parse_ident_name(p, "expected field name")?;
        p.expect(&TokenKind::Colon, "':'")?;
        let ty = parse_type(p)?;
        let ghost n2 = p.next_node_id as int;
        let span = Span::merge(field_start, ty.span);
        let id = p.fresh_node_id()?;
        let f = StructField { name: fname, ty, span, id };
        fields.push(f);
        proof {
            assert(fields@.drop_last() =~= before);
            lemma_fresh_snoc(type_ids(ty), id, n1, n2);
            lemma_fresh_join(field_decls_ids(before), field_decl_ids(f), n0, n1, n1, p.next_node_id as int);
        }
        p.eat(&TokenKind::Comma);
        if !matches!(p.peek_kind(), TokenKind::Newline | TokenKind::End | TokenKind::Eof) {
            return Err(p.error_found("expected newline after struct field", ""));
        }
        p.consume_newlines();
    }
    let ghost n3 = p.next_node_id as int;
    let end = p.current_span();
    p.expect(&TokenKind::End, "'end'")?;
    let id = p.fresh_node_id()?;
    proof {
        lemma_fresh_snoc(field_decls_ids(fields@), id, n0, n3);
    }
    Ok(StructDef { name, fields, span: Span::merge(start, end), id })
}

fn parse_enum_def(p: &mut Parser) -> (r: Result<EnumDef, Diagnostic>)
    requires
        old(p).wf(),
    ensures
        steps(*old(p), *final(p)),
        r is Ok ==> final(p).pos > old(p).pos,
        r matches Err(d) ==> parse_err(d),
        r matches Ok(d) ==> old(p).cur() is Enum && ahead(*old(p), 1) == TokenKind::Ident(d.name),
        r matches Ok(d) ==> gave(*old(p), *final(p), variants_ids(d.variants@) + seq![d.id]),
{
    let start = p.current_span();
    p.expect(&TokenKind::Enum, "'enum'")?;
    let (name, _) = parse_ident_name(p, "expected enum name")?;
    let type_params = parse_type_param_list(p)?;
    let ghost n0 = p.next_node_id as int;
    p.consume_newlines();
    let mut variants: Vec<EnumVariant> = Vec::new();
    assert(variants_ids(variants@) =~= Seq::<NodeId>::empty());
    while !matches!(p.peek_kind(), TokenKind::End | TokenKind::Eof)
        invariant
            steps(*old(p), *p),
            p.pos > old(p).pos,
            old(p).next_node_id <= n0 <= p.next_node_id,
            fresh_ids(variants_ids(variants@), n0, p.next_node_id as int),
        decreases p.tokens@.len() - p.pos,
    {
        let ghost n1 = p.next_node_id as int;
        let ghost before = variants@;
        let v = parse_variant_decl(p)?;
        variants.push(v);
        proof {
            assert(variants@.drop_last() =~= before);
            lemma_fresh_join(variants_ids(before), variant_ids(v), n0, n1, n1, p.next_node_id as int);
        }
        p.eat(&TokenKind::Comma);
        if !matches!(p.peek_kind(), TokenKind::Newline | TokenKind::End | TokenKind::Eof) {
            return Err(p.error_found("expected newline after enum variant", ""));
        }
        p.consume_newlines();
    }
    let ghost n3 = p.next_node_id as int;
    let end = p.current_span();
    p.expect(&TokenKind::End, "'end'")?;
    let id = p.fresh_node_id()?;
    proof {
        lemma_fresh_snoc(variants_ids(variants@), id, n0, n3);
        lemma_fresh_widen(variants_ids(variants@) + seq![id], n0, p.next_node_id as int, old(p).next_node_id as int,
            p.next_node_id as int);
    }
    Ok(EnumDef { name, type_params, variants, span: Span::merge(start, end), id })
}

fn parse_variant_decl(p: &mut Parser) -> (r: Result<EnumVariant, Diagnostic>)
    requires
        old(p).wf(),
    ensures
        steps(*old(p), *final(p)),
        r is Ok ==> final(p).pos > old(p).pos,
        r matches Err(d) ==> parse_err(d),
        r matches Ok(v) ==> old(p).cur() == TokenKind::Ident(v.name)
            && (ahead(*old(p), 1) is LParen <==> v.payload@.len() > 0),
        r matches Ok(v) ==> gave(*old(p), *final(p), variant_ids(v)),
{
    let ghost n0 = p.next_node_id as int;
    let start = p.current_span();
    let (name, name_span) = parse_ident_name(p, "expected variant name")?;
    let mut payload: Vec<crate::ast::Type> = Vec::new();
    assert(types_ids(payload@) =~= Seq::<NodeId>::empty());
    let mut end_span = name_span;
    if p.eat(&TokenKind::LParen) {
        payload = parse_type_list(
            p,
            &TokenKind::RParen,
            Some("empty payload list `()` is not allowed; omit the parentheses for a no-payload variant"),
        )?;
        end_span = p.current_span();
        p.expect(&TokenKind::RParen, "')'")?;
    }
    let ghost n1 = p.next_node_id as int;
    assert(fresh_ids(types_ids(payload@), n0, n1));
    let id = p.fresh_node_id()?;
    proof {
        lemma_fresh_snoc(types_ids(payload@), id, n0, n1);
    }
    Ok(EnumVariant { name, payload, span: Span::merge(start, end_span), id })
}

fn parse_function_def(p: &mut Parser) -> (r: Result<FunctionDef, Diagnostic>)
    requires
        old(p).wf(),
    ensures
        steps(*old(p), *final(p)),
        r is Ok ==> final(p).pos > old(p).pos,
        r matches Err(d) ==> parse_err(d),
        r matches Ok(d) ==> old(p).cur() is Function && ahead(*old(p), 1) == TokenKind::Ident(d.name),
        r matches Ok(d) ==> gave(*old(p), *final(p), params_ids(d.params@) + type_ids(d.return_ty) + block_ids(d.body)
            + seq![d.id]),
{
    let ghost n0 = p.next_node_id as int;
    let start = p.current_span();
    p.expect(&TokenKind::Function, "'function'")?;
    let (name, _) = parse_ident_name(p, "expected function name")?;
    p.expect(&TokenKind::LParen, "'('")?;
    let params = parse_param_list(p)?;
    let ghost n1 = p.next_node_id as int;
    p.expect(&TokenKind::RParen, "')'")?;
    p.expect(&TokenKind::Colon, "':'")?;
    let return_ty = parse_type(p)?;
    let ghost n2 = p.next_node_id as int;
    let body = parse_block_until(p, false)?;
    let ghost n3 = p.next_node_id as int;
    let end = p.current_span();
    p.expect(&TokenKind::End, "'end'")?;
    let id = p.fresh_node_id()?;
    proof {
        lemma_fresh_join(params_ids(params@), type_ids(return_ty), n0, n1, n1, n2);
        lemma_fresh_join(params_ids(params@) + type_ids(return_ty), block_ids(body), n0, n2, n2, n3);
        lemma_fresh_snoc(params_ids(params@) + type_ids(return_ty) + block_ids(body), id, n0, n3);
    }
    Ok(FunctionDef { name, params, return_ty, body, span: Span::merge(start, end), id })
}

fn parse_param_list(p: &mut Parser) -> (r: Result<Vec<Param>, Diagnostic>)
    requires
        old(p).wf(),
    ensures
        steps(*old(p), *final(p)),
        r matches Err(d) ==> parse_err(d),
        r matches Ok(v) ==> gave(*old(p), *final(p), params_ids(v@)),
{
    let ghost n0 = p.next_node_id as int;
    p.consume_newlines();
    let mut items: Vec<Param> = Vec::new();
    assert(params_ids(items@) =~= Seq::<NodeId>::empty());
    if p.at(&TokenKind::RParen) {
        return Ok(items);
    }
    let first = parse_param(p)?;
    items.push(first);
    proof {
        assert(items@.drop_last() =~= Seq::<Param>::empty());
        assert(params_ids(Seq::<Param>::empty()) =~= Seq::<NodeId>::empty());
        assert(params_ids(items@) =~= param_ids(first));
    }
    p.consume_newlines();
    while p.eat(&TokenKind::Comma)
        invariant
            steps(*old(p), *p),
            n0 == old(p).next_node_id,
            gave(*old(p), *p, params_ids(items@)),
        decreases p.tokens@.len() - p.pos,
    {
        p.consume_newlines();
        if p.at(&TokenKind::RParen) {
            break;
        }
        let ghost n1 = p.next_node_id as int;
        let ghost before = items@;
        let q = parse_param(p)?;
        items.push(q);
        proof {
            assert(items@.drop_last() =~= before);
            lemma_fresh_join(params_ids(before), param_ids(q), n0, n1, n1, p.next_node_id as int);
        }
        p.consume_newlines();
    }
    Ok(items)
}

fn parse_param(p: &mut Parser) -> (r: Result<Param, Diagnostic>)
    requires
        old(p).wf(),
    ensures
        steps(*old(p), *final(p)),
        r is Ok ==> final(p).pos > old(p).pos,
        r matches Err(d) ==> parse_err(d),
        r matches Ok(q) ==> old(p).cur() == TokenKind::Ident(q.name),
        r matches Ok(q) ==> gave(*old(p), *final(p), param_ids(q)),
{
    let (name, name_span) = parse_ident_name(p, "expected parameter name")?;
    p.expect(&TokenKind::Colon, "':'")?;
    let ty = parse_type(p)?;
    let ghost n1 = p.next_node_id as int;
    let span = Span::merge(name_span, ty.span);
    let id = p.fresh_node_id()?;
    proof {
        lemma_fresh_snoc(type_ids(ty), id, old(p).next_node_id as int, n1);
    }
    Ok(Param { name, ty, span, id })
}

/// One statement.
pub fn parse_stmt(p: &mut Parser) -> (r: Result<Stmt, Diagnostic>)
    requires
        old(p).wf(),
    ensures
        steps(*old(p), *final(p)),
        r is Ok ==> final(p).pos > old(p).pos,
        r matches Err(d) ==> parse_err(d),
        r matches Ok(s) ==> match old(p).cur() {
            TokenKind::Let => s.kind is Let,
            TokenKind::Return => s.kind is Return,
            TokenKind::While => s.kind is While,
            TokenKind::For => s.kind is For,
            TokenKind::Ident(n) => if ahead(*old(p), 1) is Eq {
                s.kind matches StmtKind::Assign(m, _) && m == n
            } else {
                s.kind is Expr
            },
            _ => s.kind is Expr,
        },
        r matches Ok(s) ==> gave(*old(p), *final(p), stmt_ids(s)),
    decreases old(p).tokens@.len() - old(p).pos, 11nat,
{
    match p.peek_kind() {
        TokenKind::Let => {
            let (l, span) = parse_let_parts(p)?;
            let ghost n1 = p.next_node_id as int;
            let id = p.fresh_node_id()?;
            proof {
                lemma_fresh_snoc(type_ids(l.ty) + expr_ids(l.init), id, old(p).next_node_id as int, n1);
            }
            Ok(Stmt { kind: StmtKind::Let(l), span, id })
        },
        TokenKind::Return => parse_return_stmt(p),
        TokenKind::While => parse_while_stmt(p),
        TokenKind::For => parse_for_stmt(p),
        TokenKind::Ident(_) => {
            if matches!(p.peek_ahead(1), TokenKind::Eq) {
                parse_assign_stmt(p)
            } else {
                parse_expr_stmt(p)
            }
        },
        _ => parse_expr_stmt(p),
    }
}

/// `let name: Type = expr`, returning the binding and the statement span.
fn parse_let_parts(p: &mut Parser) -> (r: Result<(LetStmt, Span), Diagnostic>)
    requires
        old(p).wf(),
    ensures
        steps(*old(p), *final(p)),
        r is Ok ==> final(p).pos > old(p).pos,
        r matches Err(d) ==> parse_err(d),
        !(old(p).cur() is Let) ==> r is Err,
        r matches Ok((l, _)) ==> ahead(*old(p), 1) matches TokenKind::Ident(n) && l.name == n,
        r matches Ok((l, _)) ==> gave(*old(p), *final(p), type_ids(l.ty) + expr_ids(l.init)),
        plain_let(*old(p)) ==> match r {
            Ok(_) => final(p).pos == old(p).pos + 6 && final(p).next_node_id == old(p).next_node_id + 2,
            Err(_) => old(p).next_node_id + 1 >= u32::MAX,
        },
    decreases old(p).tokens@.len() - old(p).pos, 10nat,
{
    let start = p.current_span();
    p.expect(&TokenKind::Let, "'let'")?;
    let name = match p.peek_kind() {
        TokenKind::Ident(n) => n.clone(),
        _ => {
            return Err(p.error_found("expected identifier after 'let'", ""));
        },
    };
    p.advance();
    p.expect(&TokenKind::Colon, "':'")?;
    let ty = parse_type(p)?;
    let ghost n1 = p.next_node_id as int;
    p.expect(&TokenKind::Eq, "'='")?;
    let init = parse_expr(p)?;
    proof {
        lemma_fresh_join(type_ids(ty), expr_ids(init), old(p).next_node_id as int, n1, n1, p.next_node_id as int);
    }
    let span = Span::merge(start, init.span);
    Ok((LetStmt { name, ty, init }, span))
}

fn parse_assign_stmt(p: &mut Parser) -> (r: Result<Stmt, Diagnostic>)
    requires
        old(p).wf(),
        old(p).cur() is Ident,
    ensures
        steps(*old(p), *final(p)),
        r is Ok ==> final(p).pos > old(p).pos,
        r matches Err(d) ==> parse_err(d),
        r matches Ok(s) ==> s.kind matches StmtKind::Assign(m, _) && old(p).cur() == TokenKind::Ident(m),
        r matches Ok(s) ==> gave(*old(p), *final(p), stmt_ids(s)),
    decreases old(p).tokens@.len() - old(p).pos, 10nat,
{
    let name = match p.peek_kind() {
        TokenKind::Ident(n) => n.clone(),
        _ => String::new(),
    };
    let name_span = p.advance();
    p.expect(&TokenKind::Eq, "'='")?;
    let expr = parse_expr(p)?;
    let ghost n1 = p.next_node_id as int;
    let span = Span::merge(name_span, expr.span);
    let id = p.fresh_node_id()?;
    proof {
        lemma_fresh_snoc(expr_ids(expr), id, old(p).next_node_id as int, n1);
    }
    Ok(Stmt { kind: StmtKind::Assign(name, expr), span, id })
}

fn parse_return_stmt(p: &mut Parser) -> (r: Result<Stmt, Diagnostic>)
    requires
        old(p).wf(),
    ensures
        steps(*old(p), *final(p)),
        r is Ok ==> final(p).pos > old(p).pos,
        r matches Err(d) ==> parse_err(d),
        !(old(p).cur() is Return) ==> r is Err,
        r matches Ok(s) ==> s.kind matches StmtKind::Return(v)
            && (v is None <==> (ahead(*old(p), 1) is Newline || ahead(*old(p), 1) is Eof || ahead(*old(p), 1) is End)),
        r matches Ok(s) ==> gave(*old(p), *final(p), stmt_ids(s)),
    decreases old(p).tokens@.len() - old(p).pos, 10nat,
{
    let start = p.current_span();
    p.expect(&TokenKind::Return, "'return'")?;
    if matches!(p.peek_kind(), TokenKind::Newline | TokenKind::Eof | TokenKind::End) {
        let id = p.fresh_node_id()?;
        return Ok(Stmt { kind: StmtKind::Return(None), span: start, id });
    }
    let expr = parse_expr(p)?;
    let ghost n1 = p.next_node_id as int;
    let span = Span::merge(start, expr.span);
    let id = p.fresh_node_id()?;
    proof {
        lemma_fresh_snoc(expr_ids(expr), id, old(p).next_node_id as int, n1);
    }
    Ok(Stmt { kind: StmtKind::Return(Some(expr)), span, id })
}

fn parse_expr_stmt(p: &mut Parser) -> (r: Result<Stmt, Diagnostic>)
    requires
        old(p).wf(),
    ensures
        steps(*old(p), *final(p)),
        r is Ok ==> final(p).pos > old(p).pos,
        r matches Err(d) ==> parse_err(d),
        r matches Ok(s) ==> s.kind is Expr,
        r matches Ok(s) ==> gave(*old(p), *final(p), stmt_ids(s)),
    decreases old(p).tokens@.len() - old(p).pos, 10nat,
{
    let expr = parse_expr(p)?;
    let ghost n1 = p.next_node_id as int;
    let span = expr.span;
    let id = p.fresh_node_id()?;
    proof {
        lemma_fresh_snoc(expr_ids(expr), id, old(p).next_node_id as int, n1);
    }
    Ok(Stmt { kind: StmtKind::Expr(expr), span, id })
}

fn parse_while_stmt(p: &mut Parser) -> (r: Result<Stmt, Diagnostic>)
    requires
        old(p).wf(),
    ensures
        steps(*old(p), *final(p)),
        r is Ok ==> final(p).pos > old(p).pos,
        r matches Err(d) ==> parse_err(d),
        r matches Ok(s) ==> s.kind is While,
        r matches Ok(s) ==> gave(*old(p), *final(p), stmt_ids(s)),
    decreases old(p).tokens@.len() - old(p).pos, 10nat,
{
    let ghost n0 = p.next_node_id as int;
    let start = p.current_span();
    p.expect(&TokenKind::While, "'while'")?;
    let cond = parse_expr(p)?;
    let ghost n1 = p.next_node_id as int;
    p.expect(&TokenKind::Do, "'do'")?;
    let body = parse_block_until(p, false)?;
    let ghost n2 = p.next_node_id as int;
    let end = p.current_span();
    p.expect(&TokenKind::End, "'end'")?;
    let id = p.fresh_node_id()?;
    proof {
        lemma_fresh_join(expr_ids(cond), block_ids(body), n0, n1, n1, n2);
        lemma_fresh_snoc(expr_ids(cond) + block_ids(body), id, n0, n2);
    }
    Ok(Stmt { kind: StmtKind::While(WhileStmt { cond, body }), span: Span::merge(start, end), id })
}

/// `let x: T = e` with a plain type name `T` and a lone operand `e`.
pub open spec fn plain_let(p: Parser) -> bool {
    &&& p.cur() is Let && ahead(p, 1) is Ident && ahead(p, 2) is Colon
    &&& ahead(p, 3) matches TokenKind::Ident(t) && t@ != "Fn"@
    &&& ahead(p, 4) is Eq && lone_operand(p, 5)
}

/// The kind of the `k`-th token (the last one when past the end).
pub open spec fn kind_at(ts: Seq<Token>, k: int) -> TokenKind {
    if k < ts.len() { ts[k].kind } else { ts.last().kind }
}

/// A token stream holding one `let x: T = e` (plain type name, lone
/// operand) followed by nothing but newlines.
pub open spec fn let_stream(ts: Seq<Token>) -> bool {
    &&& ts.len() > 0 && ts.last().kind is Eof
    &&& kind_at(ts, 0) is Let && kind_at(ts, 1) is Ident && kind_at(ts, 2) is Colon
    &&& kind_at(ts, 3) matches TokenKind::Ident(t) && t@ != "Fn"@
    &&& kind_at(ts, 4) is Eq && primary_of(kind_at(ts, 5)) is Some
    &&& !postfix_start(kind_at(ts, 6)) && !(kind_at(ts, 6) is LBrace) && infix_spec(kind_at(ts, 6)) is None
    &&& forall|i: int| 6 <= i < ts.len() - 1 ==> (#[trigger] ts[i]).kind is Newline
}

/// `for i = a, b do end` with lone bounds and an empty body.
pub open spec fn plain_range_for(p: Parser) -> bool {
    &&& p.cur() is For && ahead(p, 1) is Ident && ahead(p, 2) is Eq
    &&& lone_operand(p, 3) && ahead(p, 4) is Comma
    &&& lone_operand(p, 5) && ahead(p, 6) is Do && empty_body(p, 7)
}

/// `for x in e do end` with a lone iterable and an empty body.
pub open spec fn plain_iter_for(p: Parser) -> bool {
    &&& p.cur() is For && ahead(p, 1) is Ident && ahead(p, 2) is In
    &&& lone_operand(p, 3) && ahead(p, 4) is Do && empty_body(p, 5)
}

/// `for k, v in e do end` with a lone iterable and an empty body.
pub open spec fn plain_kv_for(p: Parser) -> bool {
    &&& p.cur() is For && ahead(p, 1) is Ident && ahead(p, 2) is Comma && ahead(p, 3) is Ident
    &&& ahead(p, 4) is In && lone_operand(p, 5) && ahead(p, 6) is Do && empty_body(p, 7)
}

/// `for i = a, b do ... end`, `for x in e do ... end` or
/// `for k, v in e do ... end`.
fn parse_for_stmt(p: &mut Parser) -> (r: Result<Stmt, Diagnostic>)
    requires
        old(p).wf(),
    ensures
        steps(*old(p), *final(p)),
        r is Ok ==> final(p).pos > old(p).pos,
        r matches Err(d) ==> parse_err(d),
        !(old(p).cur() is For) || !(ahead(*old(p), 1) is Ident) ==> r is Err,
        r matches Ok(s) ==> s.kind matches StmtKind::For(f) && ahead(*old(p), 1) matches TokenKind::Ident(n) && match ahead(*old(p), 2) {
            TokenKind::Eq => f matches ForStmt::Range { var, .. } && var == n,
            TokenKind::Comma => f matches ForStmt::IterKV { key, value, .. } && key == n
                && ahead(*old(p), 3) == TokenKind::Ident(value),
            _ => f matches ForStmt::Iter { var, .. } && var == n,
        },
        r matches Ok(s) ==> gave(*old(p), *final(p), stmt_ids(s)),
        plain_range_for(*old(p)) || plain_kv_for(*old(p)) ==> (r is Ok || old(p).next_node_id + 5 > u32::MAX),
        plain_iter_for(*old(p)) ==> (r is Ok || old(p).next_node_id + 4 > u32::MAX),
    decreases old(p).tokens@.len() - old(p).pos, 10nat,
{
    let ghost n0 = p.next_node_id as int;
    let start = p.current_span();
    p.expect(&TokenKind::For, "'for'")?;
    proof {
        if plain_range_for(*old(p)) || plain_kv_for(*old(p)) || plain_iter_for(*old(p)) {
            assert(old(p).pos + 1 < old(p).tokens@.len());
            assert(p.cur() == ahead(*old(p), 1));
        }
    }
    let (first, _) = parse_ident_name(p, "expected identifier after 'for'")?;
    if p.eat(&TokenKind::Eq) {
        let from = parse_expr(p)?;
        let ghost n1 = p.next_node_id as int;
        p.expect(&TokenKind::Comma, "','")?;
        let to = parse_expr(p)?;
        let ghost n2 = p.next_node_id as int;
        p.expect(&TokenKind::Do, "'do'")?;
        let body = parse_block_until(p, false)?;
        let ghost n3 = p.next_node_id as int;
        let end = p.current_span();
        p.expect(&TokenKind::End, "'end'")?;
        let var_id = p.fresh_node_id()?;
        let id = p.fresh_node_id()?;
        proof {
            let x = expr_ids(from) + expr_ids(to) + block_ids(body);
            lemma_fresh_join(expr_ids(from), expr_ids(to), n0, n1, n1, n2);
            lemma_fresh_join(expr_ids(from) + expr_ids(to), block_ids(body), n0, n2, n2, n3);
            lemma_fresh_snoc(x, var_id, n0, n3);
            lemma_fresh_snoc(x + seq![var_id], id, n0, n3 + 1);
            assert(x + seq![var_id] + seq![id] =~= x + seq![var_id, id]);
        }
        return Ok(Stmt {
            kind: StmtKind::For(ForStmt::Range { var: first, var_id, start: from, end: to, body }),
            span: Span::merge(start, end),
            id,
        });
    }
    if p.eat(&TokenKind::Comma) {
        let (second, _) = parse_ident_name(p, "expected identifier after ','")?;
        p.expect(&TokenKind::In, "'in'")?;
        let ghost m0 = p.next_node_id as int;
        let iter = parse_expr(p)?;
        let ghost n1 = p.next_node_id as int;
        p.expect(&TokenKind::Do, "'do'")?;
        let body = parse_block_until(p, false)?;
        let ghost n2 = p.next_node_id as int;
        let end = p.current_span();
        p.expect(&TokenKind::End, "'end'")?;
        let key_id = p.fresh_node_id()?;
        let value_id = p.fresh_node_id()?;
        let id = p.fresh_node_id()?;
        proof {
            let x = expr_ids(iter) + block_ids(body);
            lemma_fresh_join(expr_ids(iter), block_ids(body), m0, n1, n1, n2);
            lemma_fresh_snoc(x, key_id, m0, n2);
            lemma_fresh_snoc(x + seq![key_id], value_id, m0, n2 + 1);
            lemma_fresh_snoc(x + seq![key_id] + seq![value_id], id, m0, n2 + 2);
            assert(x + seq![key_id] + seq![value_id] + seq![id] =~= x + seq![key_id, value_id, id]);
            lemma_fresh_widen(x + seq![key_id, value_id, id], m0, n2 + 3, n0, n2 + 3);
        }
        return Ok(Stmt {
            kind: StmtKind::For(ForStmt::IterKV { key: first, key_id, value: second, value_id, iter, body }),
            span: Span::merge(start, end),
            id,
        });
    }
    p.expect(&TokenKind::In, "'in'")?;
    let ghost m0 = p.next_node_id as int;
    let iter = parse_expr(p)?;
    let ghost n1 = p.next_node_id as int;
    p.expect(&TokenKind::Do, "'do'")?;
    let body = parse_block_until(p, false)?;
    let ghost n2 = p.next_node_id as int;
    let end = p.current_span();
    p.expect(&TokenKind::End, "'end'")?;
    let var_id = p.fresh_node_id()?;
    let id = p.fresh_node_id()?;
    proof {
        let x = expr_ids(iter) + block_ids(body);
        lemma_fresh_join(expr_ids(iter), block_ids(body), m0, n1, n1, n2);
        lemma_fresh_snoc(x, var_id, m0, n2);
        lemma_fresh_snoc(x + seq![var_id], id, m0, n2 + 1);
        assert(x + seq![var_id] + seq![id] =~= x + seq![var_id, id]);
        lemma_fresh_widen(x + seq![var_id, id], m0, n2 + 2, n0, n2 + 2);
    }
    Ok(Stmt {
        kind: StmtKind::For(ForStmt::Iter { var: first, var_id, iter, body }),
        span: Span::merge(start, end),
        id,
    })
}

/// Whether the current token ends a block: `end`, and also `elseif` and
/// `else` when `stop_at_else`.
fn at_terminator(p: &Parser, stop_at_else: bool) -> (r: bool)
    requires
        p.wf(),
    ensures
        r == (p.cur() is End || (stop_at_else && (p.cur() is Elseif || p.cur() is Else))),
{
    match p.peek_kind() {
        TokenKind::End => true,
        TokenKind::Elseif | TokenKind::Else => stop_at_else,
        _ => false,
    }
}

/// Statements up to (not including) a terminator, each followed by a
/// newline or the terminator.
pub fn parse_block_until(p: &mut Parser, stop_at_else: bool) -> (r: Result<Block, Diagnostic>)
    requires
        old(p).wf(),
    ensures
        steps(*old(p), *final(p)),
        r matches Err(d) ==> parse_err(d),
        r matches Ok(b) ==> gave(*old(p), *final(p), block_ids(b)),
        empty_body(*old(p), 0) ==> match r {
            Ok(b) => b.stmts@.len() == 0 && final(p).cur() is End
                && final(p).pos == old(p).pos + (if old(p).cur() is End { 0int } else { 1int })
                && final(p).next_node_id == old(p).next_node_id + 1,
            Err(_) => ids_exhausted(*old(p)),
        },
    decreases old(p).tokens@.len() - old(p).pos, 12nat,
{
    let ghost n0 = p.next_node_id as int;
    let start = p.current_span();
    p.consume_newlines();
    let ghost q = p.pos as int;
    proof {
        if empty_body(*old(p), 0) {
            if old(p).cur() is End {
                if q > old(p).pos {
                    assert(p.tokens@[old(p).pos as int].kind is Newline);
                }
            } else {
                assert(p.tokens@[old(p).pos as int].kind is Newline);
                if q > old(p).pos + 1 {
                    assert(p.tokens@[old(p).pos + 1].kind is Newline);
                }
            }
        }
    }
    let mut stmts: Vec<Stmt> = Vec::new();
    assert(stmts_ids(stmts@) =~= Seq::<NodeId>::empty());
    let mut end_span = start;
    while !at_terminator(p, stop_at_else)
        invariant
            steps(*old(p), *p),
            n0 == old(p).next_node_id,
            gave(*old(p), *p, stmts_ids(stmts@)),
            empty_body(*old(p), 0) ==> p.pos == q && stmts@.len() == 0
                && p.next_node_id == old(p).next_node_id && p.cur() is End
                && q == old(p).pos + (if old(p).cur() is End { 0int } else { 1int }),
        decreases p.tokens@.len() - p.pos,
    {
        let ghost n1 = p.next_node_id as int;
        let ghost before = stmts@;
        if matches!(p.peek_kind(), TokenKind::Eof) {
            return Err(p.error_here("unexpected end of input inside block"));
        }
        let stmt = parse_stmt(p)?;
        end_span = stmt.span;
        stmts.push(stmt);
        proof {
            assert(stmts@.drop_last() =~= before);
            lemma_fresh_join(stmts_ids(before), stmt_ids(stmt), n0, n1, n1, p.next_node_id as int);
        }
        if !matches!(p.peek_kind(), TokenKind::Newline | TokenKind::Eof) && !at_terminator(p, stop_at_else) {
            return Err(p.error_found("expected newline after statement", ""));
        }
        p.consume_newlines();
    }
    let ghost n2 = p.next_node_id as int;
    let id = p.fresh_node_id()?;
    proof {
        lemma_fresh_snoc(stmts_ids(stmts@), id, n0, n2);
    }
    Ok(Block { stmts, span: Span::merge(start, end_span), id })
}

/// The body of a `case` arm: statements up to the next `case` or `end`.
pub fn parse_match_arm_body(p: &mut Parser) -> (r: Result<Block, Diagnostic>)
    requires
        old(p).wf(),
    ensures
        steps(*old(p), *final(p)),
        r matches Err(d) ==> parse_err(d),
        r matches Ok(b) ==> gave(*old(p), *final(p), block_ids(b)),
        old(p).cur() is End ==> match r {
            Ok(b) => b.stmts@.len() == 0 && final(p).pos == old(p).pos && final(p).next_node_id == old(p).next_node_id + 1,
            Err(_) => ids_exhausted(*old(p)),
        },
    decreases old(p).tokens@.len() - old(p).pos, 12nat,
{
    let ghost n0 = p.next_node_id as int;
    let start = p.current_span();
    p.consume_newlines();
    proof {
        if old(p).cur() is End && p.pos > old(p).pos {
            assert(p.tokens@[old(p).pos as int].kind is Newline);
        }
    }
    let mut stmts: Vec<Stmt> = Vec::new();
    assert(stmts_ids(stmts@) =~= Seq::<NodeId>::empty());
    let mut end_span = start;
    while !matches!(p.peek_kind(), TokenKind::End | TokenKind::Case)
        invariant
            steps(*old(p), *p),
            n0 == old(p).next_node_id,
            gave(*old(p), *p, stmts_ids(stmts@)),
        old(p).cur() is End ==> p.pos == old(p).pos && stmts@.len() == 0 && p.next_node_id == old(p).next_node_id,
        decreases p.tokens@.len() - p.pos,
    {
        let ghost n1 = p.next_node_id as int;
        let ghost before = stmts@;
        if matches!(p.peek_kind(), TokenKind::Eof) {
            return Err(p.error_here("unexpected end of input inside match arm body"));
        }
        let stmt = parse_stmt(p)?;
        end_span = stmt.span;
        stmts.push(stmt);
        proof {
            assert(stmts@.drop_last() =~= before);
            lemma_fresh_join(stmts_ids(before), stmt_ids(stmt), n0, n1, n1, p.next_node_id as int);
        }
        if !matches!(p.peek_kind(), TokenKind::Newline | TokenKind::Eof | TokenKind::End | TokenKind::Case) {
            return Err(p.error_found("expected newline after match arm statement", ""));
        }
        p.consume_newlines();
    }
    let ghost n2 = p.next_node_id as int;
    let id = p.fresh_node_id()?;
    proof {
        lemma_fresh_snoc(stmts_ids(stmts@), id, n0, n2);
    }
    Ok(Block { stmts, span: Span::merge(start, end_span), id })
}

} // verus!
