use vstd::prelude::*;
use crate::ast::{Op, SExpr, SStmt};
use crate::utils::{ident_len, p_number, skip, span_len, ws_len, CharClass};

verus! {

broadcast use {vstd::seq::group_seq_axioms, vstd::seq_lib::group_seq_properties};

// Each parser below reads a prefix of `s` and gives the number of characters
// it consumed together with what it read, or `None` where it fails.

pub open spec fn p_op(s: Seq<char>) -> Option<Op> {
    if s.len() > 0 && s[0] == '+' {
        Some(Op::Add)
    } else if s.len() > 0 && s[0] == '-' {
        Some(Op::Sub)
    } else {
        None
    }
}

/// Whitespace-separated identifiers, as many as there are.
pub open spec fn p_params(s: Seq<char>) -> (int, Seq<Seq<char>>)
    decreases s.len(),
{
    let n = ident_len(s);
    if n <= 0 {
        (0, Seq::empty())
    } else {
        let k = n + ws_len(skip(s, n));
        if k > s.len() {
            (0, Seq::empty())
        } else {
            let (m, rest) = p_params(skip(s, k));
            (k + m, seq![s.subrange(0, n)] + rest)
        }
    }
}

/// `name arg ...`, one argument at least, arguments separated by spaces.
pub open spec fn p_call(s: Seq<char>) -> Option<(int, SExpr)>
    decreases s.len(), 0nat,
{
    let n = ident_len(s);
    let k = n + span_len(skip(s, n), CharClass::Space);
    if n <= 0 || k > s.len() {
        None
    } else {
        let (m, args) = p_args(skip(s, k));
        if args.len() == 0 {
            None
        } else {
            Some((k + m, SExpr::Call(s.subrange(0, n), args)))
        }
    }
}

/// `{ stmt ... }`
pub open spec fn p_block(s: Seq<char>) -> Option<(int, SExpr)>
    decreases s.len(), 0nat,
{
    let a = 1 + ws_len(skip(s, 1));
    if !("{"@.is_prefix_of(s)) || a > s.len() {
        None
    } else {
        let (m, stmts) = p_stmts(skip(s, a));
        let b = a + m + ws_len(skip(s, a + m));
        if "}"@.is_prefix_of(skip(s, b)) {
            Some((b + 1, SExpr::Block(stmts)))
        } else {
            None
        }
    }
}

/// A number, a call, a binding usage or a block.
pub open spec fn p_operand(s: Seq<char>) -> Option<(int, SExpr)>
    decreases s.len(), 1nat,
{
    match p_number(s) {
        Some((n, v)) => Some((n, SExpr::Number(v))),
        None => match p_call(s) {
            Some(r) => Some(r),
            None => {
                let n = ident_len(s);
                if n > 0 {
                    Some((n, SExpr::Usage(s.subrange(0, n))))
                } else {
                    p_block(s)
                }
            },
        },
    }
}

/// `operand op operand`
pub open spec fn p_operation(s: Seq<char>) -> Option<(int, SExpr)>
    decreases s.len(), 2nat,
{
    match p_operand(s) {
        None => None,
        Some((n, lhs)) => {
            let a = n + ws_len(skip(s, n));
            match p_op(skip(s, a)) {
                None => None,
                Some(op) => {
                    let b = a + 1 + ws_len(skip(s, a + 1));
                    if n <= 0 || b > s.len() {
                        None
                    } else {
                    match p_operand(skip(s, b)) {
                        None => None,
                        Some((m, rhs)) => Some(
                            (b + m, SExpr::Operation(Box::new(lhs), Box::new(rhs), op)),
                        ),
                    }
                    }
                },
            }
        },
    }
}

pub open spec fn p_expr(s: Seq<char>) -> Option<(int, SExpr)>
    decreases s.len(), 3nat,
{
    match p_operation(s) {
        Some(r) => Some(r),
        None => p_operand(s),
    }
}

/// Argument expressions separated by spaces, as many as there are.
pub open spec fn p_args(s: Seq<char>) -> (int, Seq<SExpr>)
    decreases s.len(), 5nat,
{
    match p_expr(s) {
        Some((n, e)) => {
            if n <= 0 || n > s.len() {
                (0, Seq::empty())
            } else {
                let k = n + span_len(skip(s, n), CharClass::Space);
                if k > s.len() {
                    (0, Seq::empty())
                } else {
                    let (m, rest) = p_args(skip(s, k));
                    (k + m, seq![e] + rest)
                }
            }
        },
        None => (0, Seq::empty()),
    }
}

/// `let name = expr`
pub open spec fn p_let(s: Seq<char>) -> Option<(int, SStmt)>
    decreases s.len(), 0nat,
{
    let w = ws_len(skip(s, 3));
    let a = 3 + w;
    let n = ident_len(skip(s, a));
    let b = a + n + ws_len(skip(s, a + n));
    let c = b + 1 + ws_len(skip(s, b + 1));
    if "let"@.is_prefix_of(s) && w > 0 && n > 0 && "="@.is_prefix_of(skip(s, b)) && c <= s.len() {
        match p_expr(skip(s, c)) {
            Some((m, e)) => Some((c + m, SStmt::Let(s.subrange(a, a + n), e))),
            None => None,
        }
    } else {
        None
    }
}

/// `fn name param ... => stmt`
pub open spec fn p_fn(s: Seq<char>) -> Option<(int, SStmt)>
    decreases s.len(), 0nat,
{
    let w = ws_len(skip(s, 2));
    let a = 2 + w;
    let n = ident_len(skip(s, a));
    let b = a + n + ws_len(skip(s, a + n));
    let (m, params) = p_params(skip(s, b));
    let c = b + m;
    let d = c + 2 + ws_len(skip(s, c + 2));
    if "fn"@.is_prefix_of(s) && w > 0 && n > 0 && "=>"@.is_prefix_of(skip(s, c)) && 0 < d <= s.len() {
        match p_stmt(skip(s, d)) {
            Some((k, body)) => Some((d + k, SStmt::Func(s.subrange(a, a + n), params, Box::new(body)))),
            None => None,
        }
    } else {
        None
    }
}

pub open spec fn p_stmt(s: Seq<char>) -> Option<(int, SStmt)>
    decreases s.len(), 4nat,
{
    match p_let(s) {
        Some(r) => Some(r),
        None => match p_fn(s) {
            Some(r) => Some(r),
            None => match p_expr(s) {
                Some((n, e)) => Some((n, SStmt::Expr(e))),
                None => None,
            },
        },
    }
}

/// Statements separated by whitespace, as many as there are.
pub open spec fn p_stmts(s: Seq<char>) -> (int, Seq<SStmt>)
    decreases s.len(), 5nat,
{
    match p_stmt(s) {
        Some((n, st)) => {
            if n <= 0 || n > s.len() {
                (0, Seq::empty())
            } else {
                let k = n + ws_len(skip(s, n));
                if k > s.len() {
                    (0, Seq::empty())
                } else {
                    let (m, rest) = p_stmts(skip(s, k));
                    (k + m, seq![st] + rest)
                }
            }
        },
        None => (0, Seq::empty()),
    }
}

} // verus!
