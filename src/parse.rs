use vstd::prelude::*;
use crate::ast::{
    expr_view, exprs_view, names_view, stmt_view, stmts_view, BindingDef, BindingUsage, Block, Expr,
    FuncCall, FuncDef, Number, Op, SExpr, SStmt, Stmt,
};
use crate::grammar::{
    p_args, p_block, p_call, p_expr, p_fn, p_let, p_op, p_operand, p_operation, p_params, p_stmt,
    p_stmts,
};
use crate::utils::{
    extract_ident, extract_number, extract_whitespace, ident_len, lemma_span_len, p_number, skip,
    span, span_len, split_chars, tag, ws_len, CharClass,
};

verus! {

broadcast use {vstd::seq::group_seq_axioms, vstd::seq_lib::group_seq_properties};

/// `r` is what an expression parser owes on input `s` whose grammar outcome
/// is `p`: on success the rest of the input after the consumed characters and
/// the expression read; otherwise an error.
pub open spec fn expr_result(r: Result<(&str, Expr), String>, s: Seq<char>, p: Option<(int, SExpr)>) -> bool {
    match p {
        Some((n, v)) => 0 < n <= s.len() && r is Ok && r->Ok_0.0@ == skip(s, n) && expr_view(
            r->Ok_0.1,
        ) == v,
        None => r is Err,
    }
}

/// The same for statement parsers.
pub open spec fn stmt_result(r: Result<(&str, Stmt), String>, s: Seq<char>, p: Option<(int, SStmt)>) -> bool {
    match p {
        Some((n, v)) => 0 < n <= s.len() && r is Ok && r->Ok_0.0@ == skip(s, n) && stmt_view(
            r->Ok_0.1,
        ) == v,
        None => r is Err,
    }
}

/// The number of characters that a successful parse consumed.
pub open spec fn consumed<T>(p: Option<(int, T)>) -> int {
    match p {
        Some((n, _)) => n,
        None => 0,
    }
}

pub proof fn lemma_skip_skip(s: Seq<char>, a: int, b: int)
    requires
        0 <= a <= s.len(),
        0 <= b <= s.len() - a,
    ensures
        skip(skip(s, a), b) == skip(s, a + b),
{
    assert(skip(skip(s, a), b) =~= skip(s, a + b));
}

pub proof fn lemma_span_bound(s: Seq<char>, class: CharClass)
    ensures
        0 <= span_len(s, class) <= s.len(),
        0 <= ident_len(s) <= s.len(),
{
    lemma_span_len(s, class);
    lemma_span_len(s, CharClass::Alphanumeric);
}

/// Skips the spaces (not other whitespace) at the start of `s`.
fn skip_spaces(s: &str) -> (r: &str)
    ensures
        r@ == skip(s@, span_len(s@, CharClass::Space)),
{
    let n = span(s, CharClass::Space);
    split_chars(s, n).1
}

impl Op {
    /// Reads `+` or `-`.
    pub fn new(s: &str) -> (r: Result<(&str, Op), String>)
        ensures
            match p_op(s@) {
                Some(op) => r is Ok && r->Ok_0.0@ == skip(s@, 1) && r->Ok_0.1 == op,
                None => r is Err,
            },
    {
        let len = s.unicode_len();
        if len > 0 && s.get_char(0) == '+' {
            Ok((s.substring_char(1, len), Op::Add))
        } else if len > 0 && s.get_char(0) == '-' {
            Ok((s.substring_char(1, len), Op::Sub))
        } else {
            Err(String::from_str("expected an operator"))
        }
    }
}

impl Number {
    /// Reads an optional `-` and decimal digits.
    pub fn new(s: &str) -> (r: Result<(&str, Number), String>)
        ensures
            match p_number(s@) {
                Some((n, v)) => 0 < n <= s@.len() && r is Ok && r->Ok_0.0@ == skip(s@, n)
                    && r->Ok_0.1 == Number(v),
                None => r is Err,
            },
    {
        proof {
            lemma_span_bound(skip(s@, crate::utils::sign_len(s@)), CharClass::Digit);
        }
        let (rest, v) = extract_number(s)?;
        Ok((rest, Number(v)))
    }
}

impl BindingUsage {
    /// Reads an identifier as a binding usage.
    pub fn new(s: &str) -> (r: Result<(&str, BindingUsage), String>)
        ensures
            r is Ok <==> ident_len(s@) > 0,
            r is Ok ==> r->Ok_0.0@ == skip(s@, ident_len(s@)) && r->Ok_0.1.name@ == s@.subrange(
                0,
                ident_len(s@),
            ),
    {
        let (rest, name) = extract_ident(s)?;
        Ok((rest, BindingUsage { name: name.to_owned() }))
    }
}


impl FuncCall {
    /// Reads `name arg ...`: an identifier, then one or more argument
    /// expressions separated by spaces.
    pub fn new(s: &str) -> (r: Result<(&str, FuncCall), String>)
        ensures
            match p_call(s@) {
                Some((n, v)) => 0 < n <= s@.len() && r is Ok && r->Ok_0.0@ == skip(s@, n)
                    && SExpr::Call(r->Ok_0.1.callee@, exprs_view(r->Ok_0.1.params@)) == v,
                None => r is Err,
            },
        decreases s@.len(), 0nat,
    {
        proof {
            lemma_span_bound(s@, CharClass::Space);
        }
        let (rest, callee) = extract_ident(s)?;
        let ghost n = ident_len(s@);
        let start = skip_spaces(rest);
        proof {
            lemma_span_bound(rest@, CharClass::Space);
            lemma_skip_skip(s@, n, span_len(rest@, CharClass::Space));
        }
        let ghost k = n + span_len(rest@, CharClass::Space);
        let mut cur = start;
        let mut params: Vec<Expr> = Vec::new();
        let ghost mut off: int = 0;
        assert(exprs_view(params@) =~= Seq::<SExpr>::empty());
        loop
            invariant
                0 < k <= s@.len(),
                start@ == skip(s@, k),
                n == ident_len(s@),
                0 < n,
                rest@ == skip(s@, n),
                k == n + span_len(rest@, CharClass::Space),
                callee@ == s@.subrange(0, n),
                0 <= off <= start@.len(),
                cur@ == skip(start@, off),
                p_args(start@) == (off + p_args(cur@).0, exprs_view(params@) + p_args(cur@).1),
            ensures
                p_args(cur@) == (0int, Seq::<SExpr>::empty()),
            decreases cur@.len(),
        {
            match Expr::new(cur) {
                Ok((after, e)) => {
                    let ghost m = consumed(p_expr(cur@));
                    let next = skip_spaces(after);
                    proof {
                        lemma_span_bound(after@, CharClass::Space);
                        let j = span_len(after@, CharClass::Space);
                        lemma_skip_skip(cur@, m, j);
                        lemma_skip_skip(start@, off, m + j);
                        let (m2, rest2) = p_args(next@);
                        crate::ast::lemma_exprs_view_push(params@, e);
                        assert(exprs_view(params@) + (seq![expr_view(e)] + rest2) =~= exprs_view(
                            params@.push(e),
                        ) + rest2);
                        off = off + m + j;
                    }
                    params.push(e);
                    cur = next;
                },
                Err(_) => {
                    break ;
                },
            }
        }
        proof {
            assert(p_args(cur@) == (0int, Seq::<SExpr>::empty()));
            assert(exprs_view(params@) + Seq::<SExpr>::empty() =~= exprs_view(params@));
            assert(p_args(start@) == (off, exprs_view(params@)));
            crate::ast::lemma_exprs_view(params@);
            lemma_skip_skip(s@, k, off);
            assert(ident_len(s@) == n);
            assert(skip(s@, n) == rest@);
            assert(skip(s@, k) == start@);
        }
        if params.len() == 0 {
            return Err(String::from_str("expected an argument"));
        }
        Ok((cur, FuncCall { callee: callee.to_owned(), params }))
    }
}

impl Block {
    /// Reads `{`, statements separated by whitespace, and `}`.
    pub fn new(s: &str) -> (r: Result<(&str, Block), String>)
        ensures
            match p_block(s@) {
                Some((n, v)) => 0 < n <= s@.len() && r is Ok && r->Ok_0.0@ == skip(s@, n)
                    && SExpr::Block(stmts_view(r->Ok_0.1.stmts@)) == v,
                None => r is Err,
            },
        decreases s@.len(), 0nat,
    {
        let s1 = tag("{", s)?;
        proof {
            reveal_strlit("{");
            lemma_span_bound(s1@, CharClass::Whitespace);
            lemma_skip_skip(s@, 1, ws_len(s1@));
        }
        let (start, _) = extract_whitespace(s1);
        let ghost a = 1 + ws_len(s1@);
        let mut cur = start;
        let mut stmts: Vec<Stmt> = Vec::new();
        let ghost mut off: int = 0;
        assert(stmts_view(stmts@) =~= Seq::<SStmt>::empty());
        loop
            invariant
                0 < a <= s@.len(),
                start@ == skip(s@, a),
                "{"@.is_prefix_of(s@),
                s1@ == skip(s@, 1),
                a == 1 + ws_len(s1@),
                0 <= off <= start@.len(),
                cur@ == skip(start@, off),
                p_stmts(start@) == (off + p_stmts(cur@).0, stmts_view(stmts@) + p_stmts(cur@).1),
            ensures
                p_stmts(cur@) == (0int, Seq::<SStmt>::empty()),
            decreases cur@.len(),
        {
            match Stmt::new(cur) {
                Ok((after, st)) => {
                    let ghost m = consumed(p_stmt(cur@));
                    let (next, _) = extract_whitespace(after);
                    proof {
                        lemma_span_bound(after@, CharClass::Whitespace);
                        let j = ws_len(after@);
                        lemma_skip_skip(cur@, m, j);
                        lemma_skip_skip(start@, off, m + j);
                        let (m2, rest2) = p_stmts(next@);
                        crate::ast::lemma_stmts_view_push(stmts@, st);
                        assert(stmts_view(stmts@) + (seq![stmt_view(st)] + rest2) =~= stmts_view(
                            stmts@.push(st),
                        ) + rest2);
                        off = off + m + j;
                    }
                    stmts.push(st);
                    cur = next;
                },
                Err(_) => {
                    break ;
                },
            }
        }
        proof {
            assert(p_stmts(cur@) == (0int, Seq::<SStmt>::empty()));
            assert(stmts_view(stmts@) + Seq::<SStmt>::empty() =~= stmts_view(stmts@));
            assert(p_stmts(start@) == (off, stmts_view(stmts@)));
            lemma_skip_skip(s@, a, off);
            assert(skip(s@, a + off) == cur@);
            lemma_span_bound(cur@, CharClass::Whitespace);
            lemma_skip_skip(s@, a + off, ws_len(cur@));
        }
        let (s3, _) = extract_whitespace(cur);
        let s4 = tag("}", s3)?;
        proof {
            reveal_strlit("}");
            lemma_skip_skip(s@, a + off + ws_len(cur@), 1);
        }
        Ok((s4, Block { stmts }))
    }
}

impl Expr {
    /// Reads a number, a call, a binding usage or a block.
    fn new_operand(s: &str) -> (r: Result<(&str, Expr), String>)
        ensures
            expr_result(r, s@, p_operand(s@)),
        decreases s@.len(), 1nat,
    {
        if let Ok((rest, n)) = Number::new(s) {
            return Ok((rest, Expr::Number(n)));
        }
        if let Ok((rest, c)) = FuncCall::new(s) {
            return Ok((rest, Expr::FuncCall(c)));
        }
        proof {
            lemma_span_bound(s@, CharClass::Alphanumeric);
        }
        if let Ok((rest, u)) = BindingUsage::new(s) {
            return Ok((rest, Expr::BindingUsage(u)));
        }
        let (rest, b) = Block::new(s)?;
        Ok((rest, Expr::Block(b)))
    }

    /// Reads `operand op operand`.
    fn new_operation(s: &str) -> (r: Result<(&str, Expr), String>)
        ensures
            expr_result(r, s@, p_operation(s@)),
        decreases s@.len(), 2nat,
    {
        let (s1, lhs) = Expr::new_operand(s)?;
        let ghost n = consumed(p_operand(s@));
        proof {
            lemma_span_bound(s1@, CharClass::Whitespace);
            lemma_skip_skip(s@, n, ws_len(s1@));
        }
        let (s2, _) = extract_whitespace(s1);
        let ghost a = n + ws_len(s1@);
        let (s3, op) = Op::new(s2)?;
        proof {
            lemma_skip_skip(s@, a, 1);
            lemma_span_bound(s3@, CharClass::Whitespace);
            lemma_skip_skip(s@, a + 1, ws_len(s3@));
        }
        let (s4, _) = extract_whitespace(s3);
        let ghost b = a + 1 + ws_len(s3@);
        let (s5, rhs) = Expr::new_operand(s4)?;
        proof {
            lemma_skip_skip(s@, b, consumed(p_operand(s4@)));
        }
        Ok((s5, Expr::Operation { lhs: Box::new(lhs), rhs: Box::new(rhs), op }))
    }

    /// Reads an expression: an operation where one stands, else an operand.
    pub fn new(s: &str) -> (r: Result<(&str, Expr), String>)
        ensures
            expr_result(r, s@, p_expr(s@)),
        decreases s@.len(), 3nat,
    {
        match Expr::new_operation(s) {
            Ok(r) => Ok(r),
            Err(_) => Expr::new_operand(s),
        }
    }
}

impl BindingDef {
    /// Reads `let name = expr`.
    pub fn new(s: &str) -> (r: Result<(&str, BindingDef), String>)
        ensures
            match p_let(s@) {
                Some((n, v)) => 0 < n <= s@.len() && r is Ok && r->Ok_0.0@ == skip(s@, n)
                    && SStmt::Let(r->Ok_0.1.name@, expr_view(r->Ok_0.1.val)) == v,
                None => r is Err,
            },
        decreases s@.len(), 0nat,
    {
        let s1 = tag("let", s)?;
        proof {
            reveal_strlit("let");
            lemma_span_bound(s1@, CharClass::Whitespace);
            lemma_skip_skip(s@, 3, ws_len(s1@));
        }
        let (s2, ws) = extract_whitespace(s1);
        if ws.unicode_len() == 0 {
            return Err(String::from_str("expected whitespace"));
        }
        let ghost a = 3 + ws_len(s1@);
        let (s3, name) = extract_ident(s2)?;
        proof {
            lemma_span_bound(s2@, CharClass::Alphanumeric);
            lemma_skip_skip(s@, a, ident_len(s2@));
            lemma_span_bound(s3@, CharClass::Whitespace);
            lemma_skip_skip(s@, a + ident_len(s2@), ws_len(s3@));
            assert(s2@.subrange(0, ident_len(s2@)) =~= s@.subrange(a, a + ident_len(s2@)));
        }
        let (s4, _) = extract_whitespace(s3);
        let ghost b = a + ident_len(s2@) + ws_len(s3@);
        let s5 = tag("=", s4)?;
        proof {
            reveal_strlit("=");
            lemma_skip_skip(s@, b, 1);
            lemma_span_bound(s5@, CharClass::Whitespace);
            lemma_skip_skip(s@, b + 1, ws_len(s5@));
        }
        let (s6, _) = extract_whitespace(s5);
        let ghost c = b + 1 + ws_len(s5@);
        let (s7, val) = Expr::new(s6)?;
        proof {
            lemma_skip_skip(s@, c, consumed(p_expr(s6@)));
        }
        Ok((s7, BindingDef { name: name.to_owned(), val }))
    }
}

impl FuncDef {
    /// Reads `fn name param ... => stmt`.
    pub fn new(s: &str) -> (r: Result<(&str, FuncDef), String>)
        ensures
            match p_fn(s@) {
                Some((n, v)) => 0 < n <= s@.len() && r is Ok && r->Ok_0.0@ == skip(s@, n)
                    && SStmt::Func(
                    r->Ok_0.1.name@,
                    names_view(r->Ok_0.1.params@),
                    Box::new(stmt_view(*r->Ok_0.1.body)),
                ) == v,
                None => r is Err,
            },
        decreases s@.len(), 0nat,
    {
        let s1 = tag("fn", s)?;
        proof {
            reveal_strlit("fn");
            lemma_span_bound(s1@, CharClass::Whitespace);
            lemma_skip_skip(s@, 2, ws_len(s1@));
        }
        let (s2, ws) = extract_whitespace(s1);
        if ws.unicode_len() == 0 {
            return Err(String::from_str("expected whitespace"));
        }
        let ghost a = 2 + ws_len(s1@);
        let (s3, name) = extract_ident(s2)?;
        proof {
            lemma_span_bound(s2@, CharClass::Alphanumeric);
            lemma_skip_skip(s@, a, ident_len(s2@));
            lemma_span_bound(s3@, CharClass::Whitespace);
            lemma_skip_skip(s@, a + ident_len(s2@), ws_len(s3@));
            assert(s2@.subrange(0, ident_len(s2@)) =~= s@.subrange(a, a + ident_len(s2@)));
        }
        let (start, _) = extract_whitespace(s3);
        let ghost b = a + ident_len(s2@) + ws_len(s3@);
        let mut cur = start;
        let mut params: Vec<String> = Vec::new();
        let ghost mut off: int = 0;
        assert(names_view(params@) =~= Seq::<Seq<char>>::empty());
        loop
            invariant
                0 < b <= s@.len(),
                start@ == skip(s@, b),
                "fn"@.is_prefix_of(s@),
                s1@ == skip(s@, 2),
                a == 2 + ws_len(s1@),
                ws_len(s1@) > 0,
                s2@ == skip(s@, a),
                0 < ident_len(s2@),
                name@ == s@.subrange(a, a + ident_len(s2@)),
                b == a + ident_len(s2@) + ws_len(s3@),
                s3@ == skip(s@, a + ident_len(s2@)),
                0 <= off <= start@.len(),
                cur@ == skip(start@, off),
                p_params(start@) == (off + p_params(cur@).0, names_view(params@) + p_params(
                    cur@,
                ).1),
            ensures
                p_params(cur@) == (0int, Seq::<Seq<char>>::empty()),
            decreases cur@.len(),
        {
            proof {
                lemma_span_bound(cur@, CharClass::Alphanumeric);
            }
            match extract_ident(cur) {
                Ok((after, p)) => {
                    let ghost m = ident_len(cur@);
                    let (next, _) = extract_whitespace(after);
                    let param = p.to_owned();
                    proof {
                        lemma_span_bound(after@, CharClass::Whitespace);
                        let j = ws_len(after@);
                        lemma_skip_skip(cur@, m, j);
                        lemma_skip_skip(start@, off, m + j);
                        let (m2, rest2) = p_params(next@);
                        assert(names_view(params@) + (seq![param@] + rest2) =~= names_view(
                            params@.push(param),
                        ) + rest2);
                        off = off + m + j;
                    }
                    params.push(param);
                    cur = next;
                },
                Err(_) => {
                    break ;
                },
            }
        }
        proof {
            assert(p_params(cur@) == (0int, Seq::<Seq<char>>::empty()));
            assert(names_view(params@) + Seq::<Seq<char>>::empty() =~= names_view(params@));
            assert(p_params(start@) == (off, names_view(params@)));
            lemma_skip_skip(s@, b, off);
            assert(skip(s@, b + off) == cur@);
        }
        let s5 = tag("=>", cur)?;
        proof {
            reveal_strlit("=>");
            lemma_skip_skip(s@, b + off, 2);
            lemma_span_bound(s5@, CharClass::Whitespace);
            lemma_skip_skip(s@, b + off + 2, ws_len(s5@));
        }
        let (s6, _) = extract_whitespace(s5);
        let ghost d = b + off + 2 + ws_len(s5@);
        let (s7, body) = Stmt::new(s6)?;
        proof {
            lemma_skip_skip(s@, d, consumed(p_stmt(s6@)));
        }
        Ok((s7, FuncDef { name: name.to_owned(), params, body: Box::new(body) }))
    }
}

impl Stmt {
    /// Reads a statement: a binding definition, else a function definition,
    /// else an expression.
    pub fn new(s: &str) -> (r: Result<(&str, Stmt), String>)
        ensures
            stmt_result(r, s@, p_stmt(s@)),
        decreases s@.len(), 4nat,
    {
        if let Ok((rest, d)) = BindingDef::new(s) {
            return Ok((rest, Stmt::BindingDef(d)));
        }
        if let Ok((rest, f)) = FuncDef::new(s) {
            return Ok((rest, Stmt::FuncDef(f)));
        }
        let (rest, e) = Expr::new(s)?;
        Ok((rest, Stmt::Expr(e)))
    }
}

} // verus!
