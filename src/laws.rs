use vstd::prelude::*;
use crate::ast::{Op, SExpr, SStmt};
use crate::semantics::{apply_op, bind_params, call_scopes, scope_lookup, eval_expr, eval_stmt, eval_stmts, lookup, missing_binding, Entry, Scopes};
use crate::val::Val;

verus! {

broadcast use {vstd::seq::group_seq_axioms, vstd::seq_lib::group_seq_properties};

/// `v` brought into the range of `i32` by adding or removing 2^32 once,
/// which is enough for the sum or difference of two `i32` values.
pub open spec fn wrap_i32(v: int) -> int {
    if v > i32::MAX {
        v - 0x1_0000_0000
    } else if v < i32::MIN {
        v + 0x1_0000_0000
    } else {
        v
    }
}

pub open spec fn num(n: i32) -> SExpr {
    SExpr::Number(n)
}

/// `a + b` yields the sum of `a` and `b` and `a - b` their difference, both
/// wrapped around into the range of `i32` on overflow; in any environment.
pub proof fn law_arithmetic_wraps(a: i32, b: i32, env: Scopes, fuel: nat)
    ensures
        eval_expr(SExpr::Operation(Box::new(num(a)), Box::new(num(b)), Op::Add), env, fuel)
            == Ok::<Val, Seq<char>>(Val::Number(wrap_i32(a + b) as i32)),
        eval_expr(SExpr::Operation(Box::new(num(a)), Box::new(num(b)), Op::Sub), env, fuel)
            == Ok::<Val, Seq<char>>(Val::Number(wrap_i32(a - b) as i32)),
        i32::MIN <= wrap_i32(a + b) <= i32::MAX,
        i32::MIN <= wrap_i32(a - b) <= i32::MAX,
        (wrap_i32(a + b) - (a + b)) % 0x1_0000_0000 == 0,
        (wrap_i32(a - b) - (a - b)) % 0x1_0000_0000 == 0,
{
    assert(eval_expr(num(a), env, fuel) == Ok::<Val, Seq<char>>(Val::Number(a)));
    assert(eval_expr(num(b), env, fuel) == Ok::<Val, Seq<char>>(Val::Number(b)));
    assert(apply_op(Op::Add, a, b) == wrap_i32(a + b) as i32);
    assert(apply_op(Op::Sub, a, b) == wrap_i32(a - b) as i32);
}

/// After `let name = n`, `name` evaluates to `n`; the definition itself
/// yields `Unit`.
pub proof fn law_let_then_use(env: Scopes, name: Seq<char>, n: i32, fuel: nat)
    requires
        env.len() >= 1,
    ensures
        eval_stmt(SStmt::Let(name, num(n)), env, fuel).0 == Ok::<Val, Seq<char>>(Val::Unit),
        eval_expr(SExpr::Usage(name), eval_stmt(SStmt::Let(name, num(n)), env, fuel).1, fuel)
            == Ok::<Val, Seq<char>>(Val::Number(n)),
{
    let env1 = eval_stmt(SStmt::Let(name, num(n)), env, fuel).1;
    assert(env1.last() == env.last().push((name, Entry::Binding(Val::Number(n)))));
}

/// A name bound nowhere in the environment fails with the missing-binding
/// error.
pub proof fn law_undefined_name(env: Scopes, name: Seq<char>, fuel: nat)
    requires
        lookup(env, name) is None,
    ensures
        eval_expr(SExpr::Usage(name), env, fuel) == Err::<Val, Seq<char>>(missing_binding(name)),
{
}

/// A function without parameters, used as a bare name, is called: after
/// `fn name => n`, `name` evaluates to `n` (where a call is still allowed).
pub proof fn law_zero_param_call(env: Scopes, name: Seq<char>, n: i32, fuel: nat)
    requires
        env.len() >= 1,
        fuel > 0,
    ensures
        eval_expr(
            SExpr::Usage(name),
            eval_stmt(
                SStmt::Func(name, Seq::empty(), Box::new(SStmt::Expr(num(n)))),
                env,
                fuel,
            ).1,
            fuel,
        ) == Ok::<Val, Seq<char>>(Val::Number(n)),
{
    let body = SStmt::Expr(num(n));
    let env1 = eval_stmt(SStmt::Func(name, Seq::empty(), Box::new(body)), env, fuel).1;
    let e = Entry::Func(Seq::empty(), body);
    assert(env1.last() == env.last().push((name, e)));
    assert(scope_lookup(env1.last(), name) == Some(e));
    assert(lookup(env1, name) == Some(e));
    let cenv = call_scopes(env1, Seq::empty(), Seq::empty());
    assert(eval_stmt(body, cenv, (fuel - 1) as nat).0 == Ok::<Val, Seq<char>>(Val::Number(n)));
}

/// An empty block yields `Unit`; a block whose last statement is a binding
/// yields `Unit`; a block yields its last statement's value, the earlier
/// results being dropped.
pub proof fn law_block_results(env: Scopes, name: Seq<char>, a: i32, b: i32, fuel: nat)
    ensures
        eval_expr(SExpr::Block(Seq::empty()), env, fuel) == Ok::<Val, Seq<char>>(Val::Unit),
        eval_expr(SExpr::Block(seq![SStmt::Let(name, num(a))]), env, fuel) == Ok::<
            Val,
            Seq<char>,
        >(Val::Unit),
        eval_expr(SExpr::Block(seq![SStmt::Expr(num(a)), SStmt::Expr(num(b))]), env, fuel)
            == Ok::<Val, Seq<char>>(Val::Number(b)),
{
    let root = seq![Seq::<(Seq<char>, Entry)>::empty()];
    let one = seq![SStmt::Let(name, num(a))];
    assert(one.drop_last() =~= Seq::<SStmt>::empty());
    assert(one.last() == SStmt::Let(name, num(a)));
    assert(eval_stmts(one.drop_last(), root, fuel) == (Ok::<Val, Seq<char>>(Val::Unit), root));
    assert(eval_expr(num(a), root, fuel) == Ok::<Val, Seq<char>>(Val::Number(a)));
    assert(eval_stmt(one.last(), root, fuel).0 == Ok::<Val, Seq<char>>(Val::Unit));
    assert(eval_stmts(one, root, fuel).0 == Ok::<Val, Seq<char>>(Val::Unit));
    let two = seq![SStmt::Expr(num(a)), SStmt::Expr(num(b))];
    assert(two.drop_last() =~= seq![SStmt::Expr(num(a))]);
    assert(two.drop_last().drop_last() =~= Seq::<SStmt>::empty());
    assert(two.drop_last().last() == SStmt::Expr(num(a)));
    assert(two.last() == SStmt::Expr(num(b)));
    assert(eval_stmts(two.drop_last().drop_last(), root, fuel) == (Ok::<Val, Seq<char>>(Val::Unit), root));
    assert(eval_expr(num(a), root, fuel) == Ok::<Val, Seq<char>>(Val::Number(a)));
    assert(eval_expr(num(b), root, fuel) == Ok::<Val, Seq<char>>(Val::Number(b)));
    let t1 = seq![SStmt::Expr(num(a))];
    assert(two.drop_last() == t1);
    assert(t1.drop_last() =~= Seq::<SStmt>::empty());
    assert(t1.last() == SStmt::Expr(num(a)));
    assert(eval_stmt(SStmt::Expr(num(a)), root, fuel) == (Ok::<Val, Seq<char>>(Val::Number(a)), root));
    assert(eval_stmts(t1.drop_last(), root, fuel) == (Ok::<Val, Seq<char>>(Val::Unit), root));
    assert(eval_stmts(t1, root, fuel) == (Ok::<Val, Seq<char>>(Val::Number(a)), root));
    assert(eval_stmt(SStmt::Expr(num(b)), root, fuel) == (Ok::<Val, Seq<char>>(Val::Number(b)), root));
    assert(eval_stmts(two, root, fuel).0 == Ok::<Val, Seq<char>>(Val::Number(b)));
}

/// A block leaves the environment it stands in unchanged: what it binds is
/// gone once it ends.
pub proof fn law_block_scope(stmts: Seq<SStmt>, env: Scopes, fuel: nat)
    ensures
        eval_stmt(SStmt::Expr(SExpr::Block(stmts)), env, fuel).1 == env,
{
}

/// In particular a name bound only inside a block is still unbound after it.
pub proof fn law_block_binding_hidden(env: Scopes, name: Seq<char>, n: i32, fuel: nat)
    requires
        lookup(env, name) is None,
    ensures
        eval_expr(
            SExpr::Usage(name),
            eval_stmt(SStmt::Expr(SExpr::Block(seq![SStmt::Let(name, num(n))])), env, fuel).1,
            fuel,
        ) == Err::<Val, Seq<char>>(missing_binding(name)),
{
}


proof fn lemma_scope_without_name(sc: Seq<(Seq<char>, Entry)>, name: Seq<char>)
    requires
        forall|i: int| 0 <= i < sc.len() ==> (#[trigger] sc[i]).0 != name,
    ensures
        scope_lookup(sc, name) is None,
    decreases sc.len(),
{
    if sc.len() > 0 {
        assert(sc.last() == sc[sc.len() - 1]);
        assert forall|i: int| 0 <= i < sc.len() - 1 implies (#[trigger] sc.drop_last()[i]).0
            != name by {
            assert(sc.drop_last()[i] == sc[i]);
        }
        lemma_scope_without_name(sc.drop_last(), name);
    }
}

/// A call binds parameters only where an argument was given: in a call with
/// fewer arguments than parameters, a parameter left without one (and bound
/// neither by an earlier parameter nor in the root scope) fails with the
/// missing-binding error when the body uses it, not at the call.
pub proof fn law_missing_argument_unbound(
    env: Scopes,
    params: Seq<Seq<char>>,
    vals: Seq<Val>,
    name: Seq<char>,
    fuel: nat,
)
    requires
        env.len() >= 1,
        vals.len() <= params.len(),
        forall|i: int| 0 <= i < vals.len() ==> params[i] != name,
        scope_lookup(env[0], name) is None,
    ensures
        eval_expr(SExpr::Usage(name), call_scopes(env, params, vals), fuel) == Err::<
            Val,
            Seq<char>,
        >(missing_binding(name)),
{
    let cs = call_scopes(env, params, vals);
    let sc = bind_params(params, vals);
    assert forall|i: int| 0 <= i < sc.len() implies (#[trigger] sc[i]).0 != name by {
        assert(sc[i].0 == params[i]);
    }
    lemma_scope_without_name(sc, name);
    assert(cs.last() == sc);
    assert(cs.drop_last() =~= seq![env[0]]);
    assert(cs.drop_last().drop_last() =~= Seq::<Seq<(Seq<char>, Entry)>>::empty());
    let r = cs.drop_last();
    assert(r.last() == env[0]);
    assert(lookup(r.drop_last(), name) is None);
    assert(lookup(r, name) is None);
}

} // verus!
