use vstd::prelude::*;

pub mod ast;
pub mod env;
pub mod eval;
pub mod grammar;
pub mod laws;
pub mod parse;
pub mod semantics;
pub mod utils;
pub mod val;

pub use ast::{BindingDef, BindingUsage, Block, Expr, FuncCall, FuncDef, Number, Op, Stmt};
pub use env::Env;
pub use val::Val;

use ast::{stmt_view, SExpr, SStmt};
use grammar::p_stmt;
use semantics::{eval_stmt, same_result, MAX_CALL_DEPTH};

verus! {

/// A statement read from a whole line of source text.
#[derive(Debug)]
pub struct Parse(Stmt);

impl View for Parse {
    type V = SStmt;

    closed spec fn view(&self) -> SStmt {
        stmt_view(self.0)
    }
}

/// Whether `s` as a whole reads as one statement.
pub open spec fn parses_fully(s: Seq<char>) -> bool {
    match p_stmt(s) {
        Some((n, _)) => n == s.len(),
        None => false,
    }
}

/// The statement that `s` reads as.
pub open spec fn parsed_stmt(s: Seq<char>) -> SStmt {
    match p_stmt(s) {
        Some((_, st)) => st,
        None => SStmt::Expr(SExpr::Number(0)),
    }
}

impl Parse {
    /// Runs the statement in `env`.
    pub fn eval(&self, env: &mut Env) -> (r: Result<Val, String>)
        requires
            old(env).wf(),
        ensures
            same_result(r, eval_stmt(self@, old(env)@, MAX_CALL_DEPTH as nat).0),
            final(env)@ == eval_stmt(self@, old(env)@, MAX_CALL_DEPTH as nat).1,
            final(env).wf(),
    {
        self.0.eval(env)
    }
}

/// Reads one statement that must take up the whole of `s`.
pub fn parse(s: &str) -> (r: Result<Parse, String>)
    ensures
        r is Ok <==> parses_fully(s@),
        r is Ok ==> r->Ok_0@ == parsed_stmt(s@),
{
    let (rest, stmt) = Stmt::new(s)?;
    if rest.unicode_len() == 0 {
        Ok(Parse(stmt))
    } else {
        Err(String::from_str("input was not consumed fully by parser"))
    }
}

} // verus!
