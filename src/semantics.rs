use vstd::prelude::*;
use crate::ast::{Op, SExpr, SStmt};
use crate::val::Val;

verus! {

broadcast use {vstd::seq::group_seq_axioms, vstd::seq_lib::group_seq_properties};

/// How many function calls may be nested inside one another. The language has
/// no conditionals, so a function that reaches itself never returns: the bound
/// turns that case into an error.
pub const MAX_CALL_DEPTH: u64 = 256;

/// What a name stands for in a scope.
pub enum Entry {
    Binding(Val),
    Func(Seq<Seq<char>>, SStmt),
}

/// The model of an environment: its chain of scopes, the root first and the
/// innermost last. In a scope a later entry shadows an earlier one of the
/// same name.
pub type Scopes = Seq<Seq<(Seq<char>, Entry)>>;

pub open spec fn scope_lookup(sc: Seq<(Seq<char>, Entry)>, name: Seq<char>) -> Option<Entry>
    decreases sc.len(),
{
    if sc.len() == 0 {
        None
    } else if sc.last().0 == name {
        Some(sc.last().1)
    } else {
        scope_lookup(sc.drop_last(), name)
    }
}

/// Name resolution: the innermost scope that holds the name decides,
/// whatever the kind of its entry.
pub open spec fn lookup(env: Scopes, name: Seq<char>) -> Option<Entry>
    decreases env.len(),
{
    if env.len() == 0 {
        None
    } else {
        match scope_lookup(env.last(), name) {
            Some(e) => Some(e),
            None => lookup(env.drop_last(), name),
        }
    }
}

/// Stores an entry in the innermost scope.
pub open spec fn store(env: Scopes, name: Seq<char>, e: Entry) -> Scopes {
    env.update(env.len() - 1, env.last().push((name, e)))
}

/// The scope in which a function body runs: its parameters bound by position
/// to the argument values; parameters without an argument stay unbound.
pub open spec fn bind_params(params: Seq<Seq<char>>, vals: Seq<Val>) -> Seq<(Seq<char>, Entry)> {
    let n = if params.len() < vals.len() {
        params.len()
    } else {
        vals.len()
    };
    Seq::new(n, |i: int| (params[i], Entry::Binding(vals[i])))
}

/// A call runs in a child of the root scope.
pub open spec fn call_scopes(env: Scopes, params: Seq<Seq<char>>, vals: Seq<Val>) -> Scopes {
    seq![env[0], bind_params(params, vals)]
}

pub open spec fn missing_binding(name: Seq<char>) -> Seq<char> {
    "binding with name '"@ + name + "' does not exist"@
}

pub open spec fn missing_function(name: Seq<char>) -> Seq<char> {
    "function with name '"@ + name + "' does not exist"@
}

pub open spec fn too_deep() -> Seq<char> {
    "call depth limit exceeded"@
}

pub open spec fn no_value_operand() -> Seq<char> {
    "operator applied to an operand without a value"@
}

pub open spec fn apply_op(op: Op, a: i32, b: i32) -> i32 {
    match op {
        Op::Add => a.wrapping_add(b),
        Op::Sub => a.wrapping_sub(b),
    }
}

/// The value of an expression; `fuel` bounds the depth of nested calls.
pub open spec fn eval_expr(e: SExpr, env: Scopes, fuel: nat) -> Result<Val, Seq<char>>
    decreases fuel, e,
{
    match e {
        SExpr::Number(n) => Ok(Val::Number(n)),
        SExpr::Usage(name) => match lookup(env, name) {
            Some(Entry::Binding(v)) => Ok(v),
            Some(Entry::Func(params, body)) => {
                if fuel == 0 {
                    Err(too_deep())
                } else {
                    eval_stmt(body, call_scopes(env, params, Seq::empty()), (fuel - 1) as nat).0
                }
            },
            None => Err(missing_binding(name)),
        },
        SExpr::Operation(lhs, rhs, op) => match eval_expr(*lhs, env, fuel) {
            Err(m) => Err(m),
            Ok(a) => match eval_expr(*rhs, env, fuel) {
                Err(m) => Err(m),
                Ok(b) => match (a, b) {
                    (Val::Number(x), Val::Number(y)) => Ok(Val::Number(apply_op(op, x, y))),
                    _ => Err(no_value_operand()),
                },
            },
        },
        SExpr::Block(stmts) => {
            if stmts.len() == 0 {
                Ok(Val::Unit)
            } else {
                eval_stmts(stmts, seq![Seq::empty()], fuel).0
            }
        },
        SExpr::Call(name, args) => match lookup(env, name) {
            Some(Entry::Func(params, body)) => match eval_args(args, env, fuel) {
                Err(m) => Err(m),
                Ok(vals) => {
                    if fuel == 0 {
                        Err(too_deep())
                    } else {
                        eval_stmt(body, call_scopes(env, params, vals), (fuel - 1) as nat).0
                    }
                },
            },
            _ => Err(missing_function(name)),
        },
    }
}

/// The values of argument expressions, evaluated left to right; the first
/// failure wins.
pub open spec fn eval_args(args: Seq<SExpr>, env: Scopes, fuel: nat) -> Result<Seq<Val>, Seq<char>>
    decreases fuel, args,
{
    if args.len() == 0 {
        Ok(Seq::empty())
    } else {
        match eval_args(args.drop_last(), env, fuel) {
            Err(m) => Err(m),
            Ok(vs) => match eval_expr(args.last(), env, fuel) {
                Err(m) => Err(m),
                Ok(v) => Ok(vs.push(v)),
            },
        }
    }
}

/// Runs statements in order; the result is that of the last one, and the
/// first failure stops the run.
pub open spec fn eval_stmts(stmts: Seq<SStmt>, env: Scopes, fuel: nat) -> (Result<Val, Seq<char>>, Scopes)
    decreases fuel, stmts,
{
    if stmts.len() == 0 {
        (Ok(Val::Unit), env)
    } else {
        let (r, env1) = eval_stmts(stmts.drop_last(), env, fuel);
        match r {
            Err(m) => (Err(m), env1),
            Ok(_) => eval_stmt(stmts.last(), env1, fuel),
        }
    }
}

/// The result of a statement and the environment after it.
pub open spec fn eval_stmt(s: SStmt, env: Scopes, fuel: nat) -> (Result<Val, Seq<char>>, Scopes)
    decreases fuel, s,
{
    match s {
        SStmt::Let(name, e) => match eval_expr(e, env, fuel) {
            Ok(v) => (Ok(Val::Unit), store(env, name, Entry::Binding(v))),
            Err(m) => (Err(m), env),
        },
        SStmt::Func(name, params, body) => (Ok(Val::Unit), store(env, name, Entry::Func(params, *body))),
        SStmt::Expr(e) => (eval_expr(e, env, fuel), env),
    }
}


/// `r` is the executable form of the outcome `s`: the same value, or an
/// error with the same message.
pub open spec fn same_result(r: Result<Val, String>, s: Result<Val, Seq<char>>) -> bool {
    match s {
        Ok(v) => r == Ok::<Val, String>(v),
        Err(m) => r is Err && r->Err_0@ == m,
    }
}

/// Once a prefix of the arguments fails, the whole list fails the same way.
pub proof fn lemma_args_fail(args: Seq<SExpr>, i: int, env: Scopes, fuel: nat)
    requires
        0 <= i <= args.len(),
        eval_args(args.subrange(0, i), env, fuel) is Err,
    ensures
        eval_args(args, env, fuel) == eval_args(args.subrange(0, i), env, fuel),
    decreases args.len() - i,
{
    if i < args.len() {
        assert(args.subrange(0, i + 1).drop_last() =~= args.subrange(0, i));
        lemma_args_fail(args, i + 1, env, fuel);
    } else {
        assert(args.subrange(0, i) =~= args);
    }
}

/// Once a prefix of the statements fails, the whole run fails the same way.
pub proof fn lemma_stmts_fail(stmts: Seq<SStmt>, i: int, env: Scopes, fuel: nat)
    requires
        0 <= i <= stmts.len(),
        eval_stmts(stmts.subrange(0, i), env, fuel).0 is Err,
    ensures
        eval_stmts(stmts, env, fuel) == eval_stmts(stmts.subrange(0, i), env, fuel),
    decreases stmts.len() - i,
{
    if i < stmts.len() {
        assert(stmts.subrange(0, i + 1).drop_last() =~= stmts.subrange(0, i));
        lemma_stmts_fail(stmts, i + 1, env, fuel);
    } else {
        assert(stmts.subrange(0, i) =~= stmts);
    }
}

/// Statements change the length of the scope chain not at all.
pub proof fn lemma_stmt_keeps_depth(s: SStmt, env: Scopes, fuel: nat)
    requires
        env.len() >= 1,
    ensures
        eval_stmt(s, env, fuel).1.len() == env.len(),
{
}

} // verus!
