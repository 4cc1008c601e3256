//! Dyne compiler front end: lexer, parser, name resolution and the
//! unit-aware type checker.

pub mod text;
pub mod source;
pub mod diag;
pub mod error;
pub mod ids;
pub mod idmap;
pub mod ast;
pub mod lexer;
pub mod parser;
pub mod sema;

use vstd::prelude::*;
use crate::ast::Program;
use crate::ast::node_ids::program_ids;
use crate::diag::{Diagnostic, Level, Phase};
use crate::lexer::scanner::{lex_fails, lexes_to, tokenize};
use crate::lexer::token::Token;
use crate::parser::parse_with_node_offset;
use crate::sema::builtins::BUILTINS_SOURCE;
use crate::sema::exhaust::all_sema_errors;

pub use crate::sema::{check, TypedProgram};

verus! {

broadcast use vstd::std_specs::vec::group_vec_axioms;

/// An error diagnostic of any phase.
pub open spec fn is_error(d: Diagnostic) -> bool {
    d.level == Level::Error
}

/// Compile a source text: lex, parse, merge with the built-in enums
/// (`Option<T>`, `Result<T, E>`) and run semantic analysis.
///
/// A lexical or syntax error yields exactly that one diagnostic (a
/// lexical one only where the source, or the built-in text, fails to
/// lex, a syntax error only where the built-in text lexes, a semantic one
/// only where both texts lex); semantic errors are all reported together. On success the program's items are
/// exactly the user's (the built-in items are removed), while the tables
/// keep the built-ins' entries; no two nodes of the program share an id.
pub fn compile(source: &str) -> (r: Result<TypedProgram, Vec<Diagnostic>>)
    ensures
        r matches Err(ds) ==> ds@.len() > 0 && forall|i: int| 0 <= i < ds@.len() ==> is_error(#[trigger] ds@[i]),
        r matches Err(ds) ==> (ds@.len() == 1 && (ds@[0].phase == Phase::Lex || ds@[0].phase == Phase::Parse))
            || all_sema_errors(ds@),
        r matches Err(ds) ==> (ds@[0].phase == Phase::Lex ==> lex_fails(source@) || lex_fails(BUILTINS_SOURCE@)),
        r matches Err(ds) ==> (ds@[0].phase != Phase::Lex ==> exists|ts: Seq<Token>| #[trigger] lexes_to(BUILTINS_SOURCE@, ts)),
        r matches Err(ds) ==> (ds@[0].phase == Phase::Sema ==> exists|ts: Seq<Token>| #[trigger] lexes_to(source@, ts)),
        r matches Ok(t) ==> program_ids(t.program).no_duplicates(),
{
    // Built-ins occupy the first node ids; the user's program is numbered
    // after them.
    let builtin_tokens = match tokenize(BUILTINS_SOURCE) {
        Ok(t) => t,
        Err(d) => {
            return Err(one(d));
        },
    };
    let ghost builtin_ts = builtin_tokens@;
    let (builtins, next_id) = match parse_with_node_offset(builtin_tokens, 0) {
        Ok(p) => p,
        Err(d) => {
            return Err(one(d));
        },
    };
    let n_builtin_items = builtins.items.len();
    let user_tokens = match tokenize(source) {
        Ok(t) => t,
        Err(d) => {
            return Err(one(d));
        },
    };
    let ghost user_ts = user_tokens@;
    proof {
        assert(lexes_to(BUILTINS_SOURCE@, builtin_ts));
        assert(lexes_to(source@, user_ts));
    }
    let (user_program, _) = match parse_with_node_offset(user_tokens, next_id) {
        Ok(p) => p,
        Err(d) => {
            return Err(one(d));
        },
    };
    let ghost user_items = user_program.items@;
    let ghost user_id = user_program.id;
    let ghost user_ids = program_ids(user_program);
    let combined = merge_programs(builtins, user_program);
    proof {
        assert(combined.items@.len() >= n_builtin_items);
    }
    match check(combined) {
        Err(ds) => {
            proof {
                assert forall|i: int| 0 <= i < ds@.len() implies is_error(#[trigger] ds@[i]) by {
                    assert(all_sema_errors(ds@));
                }
            }
            Err(ds)
        },
        Ok(mut typed) => {
            if n_builtin_items <= typed.program.items.len() {
                let rest = typed.program.items.split_off(n_builtin_items);
                typed.program.items = rest;
            }
            proof {
                assert(typed.program.items@ =~= user_items);
                assert(program_ids(typed.program) == user_ids);
            }
            Ok(typed)
        },
    }
}

fn one(d: Diagnostic) -> (r: Vec<Diagnostic>)
    ensures
        r@ == seq![d],
{
    let mut v: Vec<Diagnostic> = Vec::new();
    v.push(d);
    v
}

/// The built-in items followed by the user's, under the user program's
/// span and id.
pub fn merge_programs(builtins: Program, user: Program) -> (r: Program)
    ensures
        r.items@ == builtins.items@ + user.items@,
        r.span == user.span,
        r.id == user.id,
{
    let mut items = builtins.items;
    let mut rest = user.items;
    items.append(&mut rest);
    Program { items, span: user.span, id: user.id }
}

} // verus!
