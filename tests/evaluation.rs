use lang_rs::env::Env;
use lang_rs::{parse, BindingDef, BindingUsage, Block, Expr, Number, Op, Stmt, Val};

fn run(src: &str, env: &mut Env) -> Result<Val, String> {
    parse(src)?.eval(env)
}

#[test]
fn parser_error_binding_usage() {
    let empty_env = Env::default();
    assert_eq!(
        BindingUsage { name: "wrong".to_owned() }.eval(&empty_env),
        Err("binding with name 'wrong' does not exist".to_owned())
    );
}

#[test]
fn eval_empty_block() {
    assert_eq!(
        Block { stmts: Vec::new() }.eval(&Env::default()),
        Ok(Val::Unit),
    )
}

#[test]
fn eval_block_with_one_expr() {
    assert_eq!(
        Block {
            stmts: vec![Stmt::Expr(Expr::Number(Number(25)))]
        }.eval(&Env::default()),
        Ok(Val::Number(25)),
    )
}

#[test]
fn eval_block_with_binding_def_and_usage() {
    assert_eq!(
        Block {
            stmts: vec![
                Stmt::BindingDef(BindingDef {
                    name: "one".to_string(),
                    val: Expr::Number(Number(1)),
                }),
                Stmt::Expr(Expr::BindingUsage(BindingUsage {
                    name: "one".to_string(),
                })),
            ],
        }
        .eval(&Env::default()),
        Ok(Val::Number(1)),
    );
}

#[test]
fn eval_block_with_multiple_binding_defs() {
    assert_eq!(
        Block {
            stmts: vec![
                Stmt::BindingDef(BindingDef {
                    name: "foo".to_string(),
                    val: Expr::Number(Number(5)),
                }),
                Stmt::BindingDef(BindingDef {
                    name: "bar".to_string(),
                    val: Expr::Number(Number(4)),
                }),
                Stmt::BindingDef(BindingDef {
                    name: "baz".to_string(),
                    val: Expr::Number(Number(3)),
                }),
            ],
        }
        .eval(&Env::default()),
        Ok(Val::Unit),
    );
}

#[test]
fn eval_block_with_multiple_exprs() {
    assert_eq!(
        Block {
            stmts: vec![
                Stmt::Expr(Expr::Number(Number(100))),
                Stmt::Expr(Expr::Number(Number(30))),
                Stmt::Expr(Expr::Operation {
                    lhs: Box::new(Expr::Number(Number(100))),
                    rhs: Box::new(Expr::Number(Number(30))),
                    op: Op::Sub,
                }),
            ],
        }
        .eval(&Env::default()),
        Ok(Val::Number(70)),
    );
}

#[test]
fn eval_binding_def() {
    assert_eq!(
        Stmt::BindingDef(BindingDef {
            name: "whatever".to_string(),
            val: Expr::Number(Number(-10)),
        })
        .eval(&mut Env::default()),
        Ok(Val::Unit),
    );
}

#[test]
fn eval_expr() {
    assert_eq!(
        Stmt::Expr(Expr::Number(Number(5))).eval(&mut Env::default()),
        Ok(Val::Number(5)),
    );
}

#[test]
fn addition_and_subtraction() {
    let mut env = Env::default();
    assert_eq!(run("2 + 3", &mut env), Ok(Val::Number(5)));
    assert_eq!(run("5 - 7", &mut env), Ok(Val::Number(-2)));
    assert_eq!(run("-4 + -6", &mut env), Ok(Val::Number(-10)));
}

#[test]
fn arithmetic_wraps_on_overflow() {
    let mut env = Env::default();
    assert_eq!(run("2147483647 + 1", &mut env), Ok(Val::Number(-2147483648)));
    assert_eq!(run("-2147483648 - 1", &mut env), Ok(Val::Number(2147483647)));
}

#[test]
fn let_then_use_in_same_env() {
    let mut env = Env::default();
    assert_eq!(run("let x = 5", &mut env), Ok(Val::Unit));
    assert_eq!(run("x", &mut env), Ok(Val::Number(5)));
    assert_eq!(run("let x = 6", &mut env), Ok(Val::Unit));
    assert_eq!(run("x", &mut env), Ok(Val::Number(6)));
}

#[test]
fn undefined_name_fails() {
    let mut env = Env::default();
    assert_eq!(
        run("y", &mut env),
        Err("binding with name 'y' does not exist".to_string())
    );
}

#[test]
fn call_function_with_arguments() {
    let mut env = Env::default();
    assert_eq!(run("fn add x y => x + y", &mut env), Ok(Val::Unit));
    assert_eq!(run("add 2 3", &mut env), Ok(Val::Number(5)));
}

#[test]
fn missing_argument_fails_at_use() {
    let mut env = Env::default();
    assert_eq!(run("fn add x y => x + y", &mut env), Ok(Val::Unit));
    assert_eq!(
        run("add 2", &mut env),
        Err("binding with name 'y' does not exist".to_string())
    );
    assert_eq!(run("fn first x y => x", &mut env), Ok(Val::Unit));
    assert_eq!(run("first 7", &mut env), Ok(Val::Number(7)));
}

#[test]
fn zero_param_function_used_as_value() {
    let mut env = Env::default();
    assert_eq!(run("fn five => 5", &mut env), Ok(Val::Unit));
    assert_eq!(run("five", &mut env), Ok(Val::Number(5)));
}

#[test]
fn calling_unknown_function_fails() {
    let mut env = Env::default();
    assert_eq!(
        run("nope 1", &mut env),
        Err("function with name 'nope' does not exist".to_string())
    );
    assert_eq!(run("let v = 1", &mut env), Ok(Val::Unit));
    assert_eq!(
        run("v 1", &mut env),
        Err("function with name 'v' does not exist".to_string())
    );
}

#[test]
fn function_name_is_not_a_binding_for_lookup() {
    let mut env = Env::default();
    assert_eq!(run("let f = 1", &mut env), Ok(Val::Unit));
    assert_eq!(run("fn f => 2", &mut env), Ok(Val::Unit));
    assert_eq!(env.get_binding(&"f".to_string()), Err("binding with name 'f' does not exist".to_string()));
    assert!(env.get_func(&"f".to_string()).is_ok());
}

#[test]
fn self_calling_function_hits_depth_limit() {
    let mut env = Env::default();
    assert_eq!(run("fn f => f", &mut env), Ok(Val::Unit));
    assert_eq!(run("f", &mut env), Err("call depth limit exceeded".to_string()));
}

#[test]
fn operator_on_unit_fails() {
    let mut env = Env::default();
    assert_eq!(
        run("{} + 1", &mut env),
        Err("operator applied to an operand without a value".to_string())
    );
}

#[test]
fn block_results() {
    let mut env = Env::default();
    assert_eq!(run("{}", &mut env), Ok(Val::Unit));
    assert_eq!(run("{ let a = 1 }", &mut env), Ok(Val::Unit));
    assert_eq!(run("{ 1 2 }", &mut env), Ok(Val::Number(2)));
}

#[test]
fn block_binding_not_visible_outside() {
    let mut env = Env::default();
    assert_eq!(run("{ let a = 1 a }", &mut env), Ok(Val::Number(1)));
    assert_eq!(
        run("a", &mut env),
        Err("binding with name 'a' does not exist".to_string())
    );
}

#[test]
fn block_does_not_see_outer_bindings() {
    let mut env = Env::default();
    assert_eq!(run("let z = 3", &mut env), Ok(Val::Unit));
    assert_eq!(
        run("{ z }", &mut env),
        Err("binding with name 'z' does not exist".to_string())
    );
}

#[test]
fn function_body_sees_root_not_caller() {
    let mut env = Env::default();
    assert_eq!(run("let base = 10", &mut env), Ok(Val::Unit));
    assert_eq!(run("fn plus x => x + base", &mut env), Ok(Val::Unit));
    assert_eq!(run("plus 5", &mut env), Ok(Val::Number(15)));
}

#[test]
fn malformed_input_is_a_parse_error() {
    assert!(parse("let = 5").is_err());
    assert!(parse("{").is_err());
    assert!(parse("{ 1").is_err());
    assert!(parse("1 2").is_err());
}

#[test]
fn failed_parse_leaves_env_untouched() {
    let mut env = Env::default();
    assert_eq!(run("let k = 4", &mut env), Ok(Val::Unit));
    assert!(run("let k = ", &mut env).is_err());
    assert_eq!(run("k", &mut env), Ok(Val::Number(4)));
}

#[test]
fn failed_definition_leaves_binding_unset() {
    let mut env = Env::default();
    assert_eq!(
        run("let q = nothere", &mut env),
        Err("binding with name 'nothere' does not exist".to_string())
    );
    assert_eq!(
        run("q", &mut env),
        Err("binding with name 'q' does not exist".to_string())
    );
}
