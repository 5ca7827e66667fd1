use vstd::prelude::*;

verus! {

broadcast use vstd::std_specs::vec::group_vec_axioms;

/// A binary operator.
#[derive(Clone, Copy, Debug, PartialEq, Eq, Structural)]
pub enum Op {
    Add,
    Sub,
}

/// An integer literal.
#[derive(Clone, Copy, Debug, PartialEq, Eq, Structural)]
pub struct Number(pub i32);

/// A reference to a binding (or to a function called without arguments).
#[derive(Clone, Debug, PartialEq)]
pub struct BindingUsage {
    pub name: String,
}

/// A braced sequence of statements, evaluated in a scope of its own.
#[derive(Debug, PartialEq)]
pub struct Block {
    pub stmts: Vec<Stmt>,
}

/// A call of a stored function with argument expressions.
#[derive(Debug, PartialEq)]
pub struct FuncCall {
    pub callee: String,
    pub params: Vec<Expr>,
}

#[derive(Debug, PartialEq)]
pub enum Expr {
    Number(Number),
    BindingUsage(BindingUsage),
    Operation { lhs: Box<Expr>, rhs: Box<Expr>, op: Op },
    Block(Block),
    FuncCall(FuncCall),
}

/// `let <name> = <val>`
#[derive(Debug, PartialEq)]
pub struct BindingDef {
    pub name: String,
    pub val: Expr,
}

/// `fn <name> <params> => <body>`
#[derive(Debug, PartialEq)]
pub struct FuncDef {
    pub name: String,
    pub params: Vec<String>,
    pub body: Box<Stmt>,
}

#[derive(Debug, PartialEq)]
pub enum Stmt {
    BindingDef(BindingDef),
    FuncDef(FuncDef),
    Expr(Expr),
}

/// The mathematical model of an expression: names as character sequences,
/// children as sequences.
pub enum SExpr {
    Number(i32),
    Usage(Seq<char>),
    Operation(Box<SExpr>, Box<SExpr>, Op),
    Block(Seq<SStmt>),
    Call(Seq<char>, Seq<SExpr>),
}

/// The mathematical model of a statement.
pub enum SStmt {
    Let(Seq<char>, SExpr),
    Func(Seq<char>, Seq<Seq<char>>, Box<SStmt>),
    Expr(SExpr),
}

pub open spec fn names_view(v: Seq<String>) -> Seq<Seq<char>> {
    v.map_values(|s: String| s@)
}

pub open spec fn expr_view(e: Expr) -> SExpr
    decreases e,
{
    match e {
        Expr::Number(n) => SExpr::Number(n.0),
        Expr::BindingUsage(u) => SExpr::Usage(u.name@),
        Expr::Operation { lhs, rhs, op } => SExpr::Operation(
            Box::new(expr_view(*lhs)),
            Box::new(expr_view(*rhs)),
            op,
        ),
        Expr::Block(b) => SExpr::Block(stmts_view(b.stmts@)),
        Expr::FuncCall(c) => SExpr::Call(c.callee@, exprs_view(c.params@)),
    }
}

pub open spec fn exprs_view(v: Seq<Expr>) -> Seq<SExpr>
    decreases v,
{
    if v.len() == 0 {
        Seq::empty()
    } else {
        exprs_view(v.drop_last()).push(expr_view(v.last()))
    }
}

pub open spec fn stmt_view(s: Stmt) -> SStmt
    decreases s,
{
    match s {
        Stmt::BindingDef(d) => SStmt::Let(d.name@, expr_view(d.val)),
        Stmt::FuncDef(f) => SStmt::Func(f.name@, names_view(f.params@), Box::new(stmt_view(*f.body))),
        Stmt::Expr(e) => SStmt::Expr(expr_view(e)),
    }
}

pub open spec fn stmts_view(v: Seq<Stmt>) -> Seq<SStmt>
    decreases v,
{
    if v.len() == 0 {
        Seq::empty()
    } else {
        stmts_view(v.drop_last()).push(stmt_view(v.last()))
    }
}


pub proof fn lemma_exprs_view(v: Seq<Expr>)
    ensures
        exprs_view(v).len() == v.len(),
        forall|i: int| 0 <= i < v.len() ==> exprs_view(v)[i] == expr_view(#[trigger] v[i]),
    decreases v.len(),
{
    if v.len() > 0 {
        lemma_exprs_view(v.drop_last());
        assert forall|i: int| 0 <= i < v.len() implies exprs_view(v)[i] == expr_view(
            #[trigger] v[i],
        ) by {
            if i < v.len() - 1 {
                assert(v.drop_last()[i] == v[i]);
            }
        }
    }
}

pub proof fn lemma_stmts_view(v: Seq<Stmt>)
    ensures
        stmts_view(v).len() == v.len(),
        forall|i: int| 0 <= i < v.len() ==> stmts_view(v)[i] == stmt_view(#[trigger] v[i]),
    decreases v.len(),
{
    if v.len() > 0 {
        lemma_stmts_view(v.drop_last());
        assert forall|i: int| 0 <= i < v.len() implies stmts_view(v)[i] == stmt_view(
            #[trigger] v[i],
        ) by {
            if i < v.len() - 1 {
                assert(v.drop_last()[i] == v[i]);
            }
        }
    }
}

pub proof fn lemma_exprs_view_push(v: Seq<Expr>, x: Expr)
    ensures
        exprs_view(v.push(x)) == exprs_view(v).push(expr_view(x)),
{
    assert(v.push(x).drop_last() =~= v);
}

pub proof fn lemma_stmts_view_push(v: Seq<Stmt>, x: Stmt)
    ensures
        stmts_view(v.push(x)) == stmts_view(v).push(stmt_view(x)),
{
    assert(v.push(x).drop_last() =~= v);
}

/// A copy of a list of names.
pub fn copy_names(v: &Vec<String>) -> (r: Vec<String>)
    ensures
        names_view(r@) == names_view(v@),
{
    let mut r: Vec<String> = Vec::new();
    let mut i: usize = 0;
    while i < v.len()
        invariant
            i <= v@.len(),
            r@.len() == i,
            forall|j: int| 0 <= j < i ==> (#[trigger] r@[j])@ == v@[j]@,
        decreases v@.len() - i,
    {
        let c = v[i].clone();
        r.push(c);
        i = i + 1;
    }
    assert(names_view(r@) =~= names_view(v@));
    r
}

/// A copy of an expression tree.
pub fn copy_expr(e: &Expr) -> (r: Expr)
    ensures
        expr_view(r) == expr_view(*e),
    decreases e,
{
    match e {
        Expr::Number(n) => Expr::Number(Number(n.0)),
        Expr::BindingUsage(u) => Expr::BindingUsage(BindingUsage { name: u.name.clone() }),
        Expr::Operation { lhs, rhs, op } => Expr::Operation {
            lhs: Box::new(copy_expr(lhs)),
            rhs: Box::new(copy_expr(rhs)),
            op: *op,
        },
        Expr::Block(b) => Expr::Block(Block { stmts: copy_stmts(&b.stmts) }),
        Expr::FuncCall(c) => Expr::FuncCall(
            FuncCall { callee: c.callee.clone(), params: copy_exprs(&c.params) },
        ),
    }
}

/// A copy of a list of expressions.
pub fn copy_exprs(v: &Vec<Expr>) -> (r: Vec<Expr>)
    ensures
        exprs_view(r@) == exprs_view(v@),
    decreases v,
{
    let mut r: Vec<Expr> = Vec::new();
    let mut i: usize = 0;
    while i < v.len()
        invariant
            i <= v@.len(),
            exprs_view(r@) == exprs_view(v@.subrange(0, i as int)),
        decreases v@.len() - i,
    {
        let x = copy_expr(&v[i]);
        proof {
            assert(r@.push(x).drop_last() =~= r@);
            assert(v@.subrange(0, i + 1).drop_last() =~= v@.subrange(0, i as int));
        }
        r.push(x);
        i = i + 1;
    }
    assert(v@.subrange(0, v@.len() as int) =~= v@);
    r
}

/// A copy of a statement tree.
pub fn copy_stmt(s: &Stmt) -> (r: Stmt)
    ensures
        stmt_view(r) == stmt_view(*s),
    decreases s,
{
    match s {
        Stmt::BindingDef(d) => Stmt::BindingDef(
            BindingDef { name: d.name.clone(), val: copy_expr(&d.val) },
        ),
        Stmt::FuncDef(f) => Stmt::FuncDef(
            FuncDef {
                name: f.name.clone(),
                params: copy_names(&f.params),
                body: Box::new(copy_stmt(&f.body)),
            },
        ),
        Stmt::Expr(e) => Stmt::Expr(copy_expr(e)),
    }
}

/// A copy of a list of statements.
pub fn copy_stmts(v: &Vec<Stmt>) -> (r: Vec<Stmt>)
    ensures
        stmts_view(r@) == stmts_view(v@),
    decreases v,
{
    let mut r: Vec<Stmt> = Vec::new();
    let mut i: usize = 0;
    while i < v.len()
        invariant
            i <= v@.len(),
            stmts_view(r@) == stmts_view(v@.subrange(0, i as int)),
        decreases v@.len() - i,
    {
        let x = copy_stmt(&v[i]);
        proof {
            assert(r@.push(x).drop_last() =~= r@);
            assert(v@.subrange(0, i + 1).drop_last() =~= v@.subrange(0, i as int));
        }
        r.push(x);
        i = i + 1;
    }
    assert(v@.subrange(0, v@.len() as int) =~= v@);
    r
}

} // verus!
