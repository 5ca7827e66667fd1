use lang_rs::{BindingDef, BindingUsage, Block, Expr, FuncDef, Number, Op, Stmt};

#[test]
fn parse_binding_usage() {
    assert_eq!(
        BindingUsage::new("abc"),
        Ok((
            "",
            BindingUsage {
                name: "abc".to_string(),
            },
        )),
    );
    assert_eq!(
        BindingUsage::new("let abc"),
        Ok((
            " abc",
            BindingUsage {
                name: "let".to_string(),
            },
        )),
    );
    assert_eq!(
        BindingUsage::new("let "),
        Ok((
            " ",
            BindingUsage {
                name: "let".to_string(),
            },
        )),
    );
}

#[test]
fn parse_empty_block() {
    assert_eq!(Block::new("{}"), Ok(("", Block { stmts: Vec::new() })))
}

#[test]
fn parse_empty_block_with_whitespace() {
    assert_eq!(Block::new("{   }"), Ok(("", Block { stmts: Vec::new() })));
}

#[test]
fn parse_block_with_one_stmt() {
    assert_eq!(
        Block::new("{ 5 }"),
        Ok((
            "",
            Block {
                stmts: vec![Stmt::Expr(Expr::Number(Number(5)))],
            },
        )),
    );
}

#[test]
fn parse_block_with_multiple_stmts() {
    assert_eq!(
        Block::new(
            "{
    let a = 10
    let b = a
    b
}",
        ),
        Ok((
            "",
            Block {
                stmts: vec![
                    Stmt::BindingDef(BindingDef {
                        name: "a".to_string(),
                        val: Expr::Number(Number(10)),
                    }),
                    Stmt::BindingDef(BindingDef {
                        name: "b".to_string(),
                        val: Expr::BindingUsage(BindingUsage {
                            name: "a".to_string(),
                        }),
                    }),
                    Stmt::Expr(Expr::BindingUsage(BindingUsage {
                        name: "b".to_string(),
                    })),
                ],
            },
        )),
    );
}

#[test]
fn parse_func_no_params() {
    assert_eq!(
        FuncDef::new("fn nothing => {}"),
        Ok((
            "",
            FuncDef {
                name: "nothing".to_string(),
                params: Vec::new(),
                body: Box::new(Stmt::Expr(Expr::Block(Block { stmts: Vec::new() })))
            }
        ))
    );
}

#[test]
fn parse_func_params() {
    assert_eq!(
        FuncDef::new("fn hi name => {}"),
        Ok((
            "",
            FuncDef {
                name: "hi".to_string(),
                params: vec!["name".to_owned()],
                body: Box::new(Stmt::Expr(Expr::Block(Block { stmts: Vec::new() })))
            }
        ))
    );
}

#[test]
fn parse_func_multiple_params() {
    assert_eq!(
        FuncDef::new("fn hi name last => {}"),
        Ok((
            "",
            FuncDef {
                name: "hi".to_string(),
                params: vec!["name".to_owned(), "last".to_owned()],
                body: Box::new(Stmt::Expr(Expr::Block(Block { stmts: Vec::new() })))
            }
        ))
    );
}

#[test]
fn parse_func_expr() {
    assert_eq!(
        FuncDef::new("fn hi x y => x + y"),
        Ok((
            "",
            FuncDef {
                name: "hi".to_string(),
                params: vec!["x".to_owned(), "y".to_owned()],
                body: Box::new(Stmt::Expr(Expr::Operation {
                    lhs: Box::new(Expr::BindingUsage(BindingUsage {
                        name: "x".to_owned()
                    })),
                    rhs: Box::new(Expr::BindingUsage(BindingUsage {
                        name: "y".to_owned()
                    })),
                    op: Op::Add
                }))
            }
        ))
    );
}

#[test]
fn parse_binding_def() {
    assert_eq!(
        Stmt::new("let a = 10"),
        Ok((
            "",
            Stmt::BindingDef(BindingDef {
                name: "a".to_string(),
                val: Expr::Number(Number(10)),
            }),
        )),
    );
}

#[test]
fn parse_expr() {
    assert_eq!(
        Stmt::new("1+1"),
        Ok((
            "",
            Stmt::Expr(Expr::Operation {
                lhs: Box::new(Expr::Number(Number(1))),
                rhs: Box::new(Expr::Number(Number(1))),
                op: Op::Add,
            }),
        )),
    );
}

#[test]
fn parse_func_def() {
    assert_eq!(
        Stmt::new("fn identity x => x"),
        Ok((
            "",
            Stmt::FuncDef(FuncDef {
                name: "identity".to_owned(),
                params: vec!["x".to_owned()],
                body: Box::new(Stmt::Expr(Expr::BindingUsage(BindingUsage {
                    name: "x".to_owned()
                })))
            })
        ))
    )
}

#[test]
fn parse_negative_number_and_rest() {
    assert_eq!(Number::new("-42 rest"), Ok((" rest", Number(-42))));
    assert!(Number::new("-").is_err());
    assert!(Number::new("abc").is_err());
}

#[test]
fn parse_number_out_of_range_fails() {
    assert!(Number::new("2147483648").is_err());
    assert_eq!(Number::new("2147483647"), Ok(("", Number(2147483647))));
    assert_eq!(Number::new("-2147483648"), Ok(("", Number(-2147483648))));
}

#[test]
fn parse_operator() {
    assert_eq!(Op::new("+ 1"), Ok((" 1", Op::Add)));
    assert_eq!(Op::new("-1"), Ok(("1", Op::Sub)));
    assert!(Op::new("*").is_err());
}

#[test]
fn parse_call_with_arguments() {
    assert_eq!(
        Expr::new("add 2 3"),
        Ok((
            "",
            Expr::FuncCall(lang_rs::FuncCall {
                callee: "add".to_string(),
                params: vec![Expr::Number(Number(2)), Expr::Number(Number(3))],
            }),
        )),
    );
}

#[test]
fn parse_call_stops_at_newline() {
    assert_eq!(
        Expr::new("a\nb"),
        Ok((
            "\nb",
            Expr::BindingUsage(BindingUsage {
                name: "a".to_string()
            })
        )),
    );
}

#[test]
fn parse_let_needs_space_after_keyword() {
    assert!(BindingDef::new("letx = 5").is_err());
    assert!(BindingDef::new("let = 5").is_err());
}

#[test]
fn parse_unclosed_block_fails() {
    assert!(Block::new("{").is_err());
    assert!(Block::new("{ 1").is_err());
}
