use vstd::prelude::*;
use crate::ast::{
    copy_names, copy_stmt, expr_view, lemma_exprs_view, lemma_stmts_view, exprs_view, names_view, stmt_view, stmts_view, BindingDef,
    BindingUsage, Block, Expr, FuncCall, FuncDef, Op, SExpr, SStmt, Stmt,
};
use crate::env::{message, Env};
use crate::semantics::{
    apply_op, bind_params, call_scopes, eval_args, eval_expr, eval_stmt, eval_stmts,
    lemma_args_fail, lemma_stmt_keeps_depth, lookup, lemma_stmts_fail, same_result, store, Entry,
    MAX_CALL_DEPTH,
};
use crate::val::Val;

verus! {

broadcast use vstd::std_specs::vec::group_vec_axioms;

/// The environment of a call: a child of the root scope holding the
/// parameters bound to the argument values.
fn call_env(env: &Env, params: &Vec<String>, vals: &Vec<Val>) -> (r: Env)
    requires
        env.wf(),
    ensures
        r@ == call_scopes(env@, names_view(params@), vals@),
        r.wf(),
{
    let mut r = env.root().create_child();
    let n = if params.len() < vals.len() {
        params.len()
    } else {
        vals.len()
    };
    let ghost root = env@[0];
    let ghost ps = names_view(params@);
    let mut i: usize = 0;
    assert(Seq::new(0, |k: int| (ps[k], Entry::Binding(vals@[k]))) =~= Seq::empty());
    assert(r@ =~= seq![root, Seq::new(0, |k: int| (ps[k], Entry::Binding(vals@[k])))]);
    while i < n
        invariant
            n <= params@.len(),
            n <= vals@.len(),
            i <= n,
            ps == names_view(params@),
            r@ == seq![root, Seq::new(i as nat, |k: int| (ps[k], Entry::Binding(vals@[k])))],
        decreases n - i,
    {
        r.store_binding(params[i].clone(), vals[i]);
        i = i + 1;
        assert(r@[1] =~= Seq::new(i as nat, |k: int| (ps[k], Entry::Binding(vals@[k]))));
        assert(r@ =~= seq![root, Seq::new(i as nat, |k: int| (ps[k], Entry::Binding(vals@[k])))]);
    }
    assert(r@[1] =~= bind_params(ps, vals@));
    assert(r@ =~= call_scopes(env@, ps, vals@));
    r
}

fn operand_error() -> (m: String)
    ensures
        m@ == crate::semantics::no_value_operand(),
{
    String::from_str("operator applied to an operand without a value")
}

fn depth_error() -> (m: String)
    ensures
        m@ == crate::semantics::too_deep(),
{
    String::from_str("call depth limit exceeded")
}

fn eval_expr_in(e: &Expr, env: &Env, fuel: u64) -> (r: Result<Val, String>)
    requires
        env.wf(),
    ensures
        same_result(r, eval_expr(expr_view(*e), env@, fuel as nat)),
    decreases fuel, e,
{
    match e {
        Expr::Number(n) => Ok(Val::Number(n.0)),
        Expr::BindingUsage(u) => {
            match env.get_binding(&u.name) {
                Ok(v) => Ok(v),
                Err(msg) => match env.get_func(&u.name) {
                    Ok((params, body)) => {
                        if fuel == 0 {
                            return Err(depth_error());
                        }
                        let vals: Vec<Val> = Vec::new();
                        let mut cenv = call_env(env, params, &vals);
                        assert(vals@ =~= Seq::<Val>::empty());
                        eval_stmt_in(body, &mut cenv, fuel - 1)
                    },
                    Err(_) => Err(msg),
                },
            }
        },
        Expr::Operation { lhs, rhs, op } => {
            let a = eval_expr_in(lhs, env, fuel)?;
            let b = eval_expr_in(rhs, env, fuel)?;
            match (a, b) {
                (Val::Number(x), Val::Number(y)) => match op {
                    Op::Add => Ok(Val::Number(x.wrapping_add(y))),
                    Op::Sub => Ok(Val::Number(x.wrapping_sub(y))),
                },
                _ => Err(operand_error()),
            }
        },
        Expr::Block(b) => {
            let stmts = &b.stmts;
            proof {
                lemma_stmts_view(stmts@);
            }
            if stmts.len() == 0 {
                return Ok(Val::Unit);
            }
            let ghost sv = stmts_view(stmts@);
            let mut benv = Env::default();
            let ghost start = benv@;
            let mut last = Val::Unit;
            let mut i: usize = 0;
            while i < stmts.len()
                invariant
                    i <= stmts@.len(),
                    sv == stmts_view(stmts@),
                    stmts == &b.stmts,
                    sv.len() == stmts@.len(),
                    start == seq![Seq::<(Seq<char>, Entry)>::empty()],
                    e == Expr::Block(*b),
                    benv.wf(),
                    eval_stmts(stmts_view(stmts@.subrange(0, i as int)), start, fuel as nat) == (
                    Ok::<Val, Seq<char>>(last), benv@),
                decreases stmts@.len() - i,
            {
                let ghost before = benv@;
                proof {
                    let pre = stmts@.subrange(0, i + 1);
                    assert(pre.drop_last() =~= stmts@.subrange(0, i as int));
                    assert(pre.last() == stmts@[i as int]);
                    let pv = stmts_view(pre);
                    assert(pv.drop_last() =~= stmts_view(stmts@.subrange(0, i as int)));
                    assert(pv.last() == stmt_view(stmts@[i as int]));
                    lemma_stmt_keeps_depth(stmt_view(stmts@[i as int]), before, fuel as nat);
                    assert(decreases_to!(b.stmts => b.stmts[i as int]));
                }
                match eval_stmt_in(&stmts[i], &mut benv, fuel) {
                    Ok(v) => {
                        last = v;
                    },
                    Err(m) => {
                        proof {
                            lemma_view_prefix(stmts@, i as int + 1);
                            lemma_stmts_fail(sv, i + 1, start, fuel as nat);
                        }
                        return Err(m);
                    },
                }
                i = i + 1;
            }
            assert(stmts@.subrange(0, i as int) =~= stmts@);
            Ok(last)
        },
        Expr::FuncCall(c) => {
            let (params, body) = env.get_func(&c.callee)?;
            let args = &c.params;
            let ghost av = exprs_view(args@);
            proof {
                lemma_exprs_view(args@);
            }
            let mut vals: Vec<Val> = Vec::new();
            let mut i: usize = 0;
            assert(args@.subrange(0, 0) =~= Seq::<Expr>::empty());
            while i < args.len()
                invariant
                    i <= args@.len(),
                    av == exprs_view(args@),
                    args == &c.params,
                    av.len() == args@.len(),
                    lookup(env@, c.callee@) == Some(
                        Entry::Func(names_view(params@), stmt_view(*body)),
                    ),
                    e == Expr::FuncCall(*c),
                    env.wf(),
                    eval_args(exprs_view(args@.subrange(0, i as int)), env@, fuel as nat) == Ok::<
                        Seq<Val>,
                        Seq<char>,
                    >(vals@),
                decreases args@.len() - i,
            {
                proof {
                    let pre = args@.subrange(0, i + 1);
                    assert(pre.drop_last() =~= args@.subrange(0, i as int));
                    assert(pre.last() == args@[i as int]);
                    let pv = exprs_view(pre);
                    assert(pv.drop_last() =~= exprs_view(args@.subrange(0, i as int)));
                    assert(pv.last() == expr_view(args@[i as int]));
                    assert(decreases_to!(c.params => c.params[i as int]));
                }
                match eval_expr_in(&args[i], env, fuel) {
                    Ok(v) => {
                        vals.push(v);
                    },
                    Err(m) => {
                        proof {
                            lemma_exprs_prefix(args@, i as int + 1);
                            lemma_args_fail(av, i + 1, env@, fuel as nat);
                        }
                        return Err(m);
                    },
                }
                i = i + 1;
            }
            assert(args@.subrange(0, i as int) =~= args@);
            if fuel == 0 {
                return Err(depth_error());
            }
            let mut cenv = call_env(env, params, &vals);
            eval_stmt_in(body, &mut cenv, fuel - 1)
        },
    }
}

proof fn lemma_view_prefix(v: Seq<Stmt>, i: int)
    requires
        0 <= i <= v.len(),
    ensures
        stmts_view(v.subrange(0, i)) == stmts_view(v).subrange(0, i),
{
    lemma_stmts_view(v);
    lemma_stmts_view(v.subrange(0, i));
    assert forall|k: int| 0 <= k < i implies stmts_view(v.subrange(0, i))[k] == stmts_view(v)[k] by {
        assert(v.subrange(0, i)[k] == v[k]);
    }
    assert(stmts_view(v.subrange(0, i)) =~= stmts_view(v).subrange(0, i));
}

proof fn lemma_exprs_prefix(v: Seq<Expr>, i: int)
    requires
        0 <= i <= v.len(),
    ensures
        exprs_view(v.subrange(0, i)) == exprs_view(v).subrange(0, i),
{
    lemma_exprs_view(v);
    lemma_exprs_view(v.subrange(0, i));
    assert forall|k: int| 0 <= k < i implies exprs_view(v.subrange(0, i))[k] == exprs_view(v)[k] by {
        assert(v.subrange(0, i)[k] == v[k]);
    }
    assert(exprs_view(v.subrange(0, i)) =~= exprs_view(v).subrange(0, i));
}

fn eval_stmt_in(s: &Stmt, env: &mut Env, fuel: u64) -> (r: Result<Val, String>)
    requires
        old(env).wf(),
    ensures
        same_result(r, eval_stmt(stmt_view(*s), old(env)@, fuel as nat).0),
        final(env)@ == eval_stmt(stmt_view(*s), old(env)@, fuel as nat).1,
        final(env).wf(),
    decreases fuel, s,
{
    match s {
        Stmt::BindingDef(d) => {
            let v = eval_expr_in(&d.val, env, fuel)?;
            env.store_binding(d.name.clone(), v);
            Ok(Val::Unit)
        },
        Stmt::FuncDef(f) => {
            env.store_func(f.name.clone(), copy_names(&f.params), copy_stmt(&f.body));
            Ok(Val::Unit)
        },
        Stmt::Expr(e) => eval_expr_in(e, env, fuel),
    }
}


impl Stmt {
    /// Runs the statement in `env`: a definition stores its entry in the
    /// innermost scope and yields `Unit`; an expression yields its value.
    pub fn eval(&self, env: &mut Env) -> (r: Result<Val, String>)
        requires
            old(env).wf(),
        ensures
            same_result(r, eval_stmt(stmt_view(*self), old(env)@, MAX_CALL_DEPTH as nat).0),
            final(env)@ == eval_stmt(stmt_view(*self), old(env)@, MAX_CALL_DEPTH as nat).1,
            final(env).wf(),
    {
        eval_stmt_in(self, env, MAX_CALL_DEPTH)
    }
}

impl Expr {
    /// The value of the expression in `env`, which it leaves unchanged.
    pub fn eval(&self, env: &Env) -> (r: Result<Val, String>)
        requires
            env.wf(),
        ensures
            same_result(r, eval_expr(expr_view(*self), env@, MAX_CALL_DEPTH as nat)),
    {
        eval_expr_in(self, env, MAX_CALL_DEPTH)
    }
}

impl Block {
    /// Empty, the block yields `Unit`; otherwise it runs its statements in a
    /// fresh scope without a parent and yields the last one's result.
    pub fn eval(&self, env: &Env) -> (r: Result<Val, String>)
        requires
            env.wf(),
        ensures
            same_result(
                r,
                eval_expr(SExpr::Block(stmts_view(self.stmts@)), env@, MAX_CALL_DEPTH as nat),
            ),
    {
        let e = Expr::Block(Block { stmts: crate::ast::copy_stmts(&self.stmts) });
        eval_expr_in(&e, env, MAX_CALL_DEPTH)
    }
}

impl BindingUsage {
    /// The value bound to the name; where the name resolves to a function,
    /// that function called without arguments.
    pub fn eval(&self, env: &Env) -> (r: Result<Val, String>)
        requires
            env.wf(),
        ensures
            same_result(r, eval_expr(SExpr::Usage(self.name@), env@, MAX_CALL_DEPTH as nat)),
    {
        let e = Expr::BindingUsage(BindingUsage { name: self.name.clone() });
        eval_expr_in(&e, env, MAX_CALL_DEPTH)
    }
}

impl FuncCall {
    /// Calls the function bound to `callee` with the arguments' values.
    pub fn eval(&self, env: &Env) -> (r: Result<Val, String>)
        requires
            env.wf(),
        ensures
            same_result(
                r,
                eval_expr(
                    SExpr::Call(self.callee@, exprs_view(self.params@)),
                    env@,
                    MAX_CALL_DEPTH as nat,
                ),
            ),
    {
        let e = Expr::FuncCall(
            FuncCall { callee: self.callee.clone(), params: crate::ast::copy_exprs(&self.params) },
        );
        eval_expr_in(&e, env, MAX_CALL_DEPTH)
    }
}

impl BindingDef {
    /// Evaluates the expression and binds its value to the name in the
    /// innermost scope; on failure `env` is unchanged.
    pub fn eval(&self, env: &mut Env) -> (r: Result<(), String>)
        requires
            old(env).wf(),
        ensures
            match eval_expr(expr_view(self.val), old(env)@, MAX_CALL_DEPTH as nat) {
                Ok(v) => r is Ok && final(env)@ == store(old(env)@, self.name@, Entry::Binding(v)),
                Err(m) => r is Err && r->Err_0@ == m && final(env)@ == old(env)@,
            },
            final(env).wf(),
    {
        let v = eval_expr_in(&self.val, env, MAX_CALL_DEPTH)?;
        env.store_binding(self.name.clone(), v);
        Ok(())
    }
}

impl FuncDef {
    /// Stores the parameters and body under the name in the innermost scope;
    /// the body is not looked at until a call.
    pub fn eval(&self, env: &mut Env) -> (r: Result<(), String>)
        requires
            old(env).wf(),
        ensures
            r is Ok,
            final(env)@ == store(
                old(env)@,
                self.name@,
                Entry::Func(names_view(self.params@), stmt_view(*self.body)),
            ),
            final(env).wf(),
    {
        env.store_func(self.name.clone(), copy_names(&self.params), copy_stmt(&self.body));
        Ok(())
    }
}

} // verus!
