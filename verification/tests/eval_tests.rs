use druim::compiler::ast::{Expr, Literal, Param, Program, Stmt};
use druim::compiler::lexer::Lexer;
use druim::compiler::parser::Parser;
use druim::compiler::semantics::env::Env;
use druim::compiler::semantics::eval::{Evaluator, Fault};
use druim::compiler::semantics::value::{Function, Value};

fn lit(v: Literal) -> Expr {
    Expr::Lit(v)
}

#[test]
fn guard_assigns_first_truthy_branch() {
    let stmt = Stmt::Guard {
        target: "x".into(),
        branches: vec![
            lit(Literal::Flag(false)),
            lit(Literal::Num(1)), // truthy
            lit(Literal::Num(2)),
        ],
    };

    let mut ev = Evaluator::new();
    ev.eval_node(&stmt);

    match ev.get("x") {
        Some(Value::Num(n)) => assert_eq!(n, 1),
        other => panic!("expected x = Num(1), got {:?}", other),
    }
}

#[test]
fn guard_skips_false_values_until_true() {
    let stmt = Stmt::Guard {
        target: "x".into(),
        branches: vec![
            lit(Literal::Void),
            lit(Literal::Num(0)),
            lit(Literal::Text("".into())),
            lit(Literal::Text("ok".into())),
        ],
    };

    let mut ev = Evaluator::new();
    ev.eval_node(&stmt);

    match ev.get("x") {
        Some(Value::Text(s)) => assert_eq!(s, "ok"),
        other => panic!("expected x = Text(\"ok\"), got {:?}", other),
    }
}

#[test]
fn guard_assigns_emp_if_all_branches_false() {
    let stmt = Stmt::Guard {
        target: "x".into(),
        branches: vec![
            lit(Literal::Flag(false)),
            lit(Literal::Num(0)),
            lit(Literal::Text("".into())),
        ],
    };

    let mut ev = Evaluator::new();
    ev.eval_node(&stmt);

    match ev.get("x") {
        Some(Value::Void) => {}
        other => panic!("expected x = Emp, got {:?}", other),
    }
}

#[test]
fn guard_single_branch_true() {
    let stmt = Stmt::Guard { target: "x".into(), branches: vec![lit(Literal::Num(5))] };

    let mut ev = Evaluator::new();
    ev.eval_node(&stmt);

    match ev.get("x") {
        Some(Value::Num(n)) => assert_eq!(n, 5),
        other => panic!("expected x = Num(5), got {:?}", other),
    }
}

#[test]
fn guard_single_branch_false_becomes_emp() {
    let stmt = Stmt::Guard { target: "x".into(), branches: vec![lit(Literal::Num(0))] };

    let mut ev = Evaluator::new();
    ev.eval_node(&stmt);

    match ev.get("x") {
        Some(Value::Void) => {}
        other => panic!("expected x = Emp, got {:?}", other),
    }
}

fn run(src: &str) -> (Evaluator, Result<(), Fault>) {
    let tokens = Lexer::new(src).tokenize().expect("lexing failed");
    let program = Parser::new(&tokens).parse_program().expect("parsing failed");
    let mut ev = Evaluator::new();
    let r = ev.try_eval_program(&program);
    (ev, r)
}

#[test]
fn define_creates_a_binding_and_define_empty_binds_the_empty_value() {
    let (ev, r) = run("a = 7; b =; c = \"t\"; d = 1.5; e = 1 + 2;");
    assert_eq!(r, Ok(()));
    assert_eq!(ev.get("a"), Some(Value::Num(7)));
    assert_eq!(ev.get("b"), Some(Value::Void));
    assert_eq!(ev.get("c"), Some(Value::Text("t".into())));
    assert_eq!(ev.get("d"), Some(Value::Dec("1.5".into())));
    assert_eq!(ev.get("e"), Some(Value::Void));
    assert_eq!(ev.get("zzz"), None);
}

#[test]
fn guard_reads_names_and_takes_the_first_true_one() {
    let (ev, r) = run("a = 0; b = \"x\"; c ?= a : missing : b : 5;");
    assert_eq!(r, Ok(()));
    assert_eq!(ev.get("c"), Some(Value::Text("x".into())));
}

#[test]
fn copy_aliases_and_bind_snapshots() {
    let mut env = Env::new();
    env.define("a".into(), Value::Num(1));
    assert_eq!(env.copy("alias".into(), "a"), Ok(()));
    let snapshot = env.get_value("a").unwrap();
    env.define("snap".into(), snapshot);
    assert_eq!(env.assign("a", Value::Num(2)), Ok(()));
    assert_eq!(env.get_value("a"), Some(Value::Num(2)));
    assert_eq!(env.get_value("alias"), Some(Value::Num(2)));
    assert_eq!(env.get_value("snap"), Some(Value::Num(1)));
    assert_eq!(env.assign("alias", Value::Num(3)), Ok(()));
    assert_eq!(env.get_value("a"), Some(Value::Num(3)));
    assert_eq!(env.lookup("a"), env.lookup("alias"));
    assert_ne!(env.lookup("a"), env.lookup("snap"));
    assert_eq!(env.copy("x".into(), "nope"), Err(()));
    assert_eq!(env.assign("nope", Value::Void), Err(()));
    assert_eq!(env.lookup("nope"), None);
    assert_eq!(env.get_value("x"), None);
}

#[test]
fn a_redefinition_takes_a_fresh_slot() {
    let mut env = Env::new();
    env.define("a".into(), Value::Num(1));
    env.copy("b".into(), "a").unwrap();
    env.define("a".into(), Value::Num(9));
    assert_eq!(env.get_value("a"), Some(Value::Num(9)));
    assert_eq!(env.get_value("b"), Some(Value::Num(1)));
}

#[test]
fn inner_scopes_shadow_and_end() {
    let mut env = Env::new();
    env.define("a".into(), Value::Num(1));
    env.push_scope();
    assert_eq!(env.get_value("a"), Some(Value::Num(1)));
    env.define("a".into(), Value::Num(2));
    env.define("b".into(), Value::Num(3));
    assert_eq!(env.get_value("a"), Some(Value::Num(2)));
    env.pop_scope();
    assert_eq!(env.get_value("a"), Some(Value::Num(1)));
    assert_eq!(env.get_value("b"), None);
    env.pop_scope();
    assert_eq!(env.get_value("a"), None);
    assert_eq!(Env::default().lookup("a"), None);
}

#[test]
fn statements_run_through_the_evaluator() {
    let (ev, r) = run("a = 1; b := a; c :> a; :{ d = 2; a = 5; e := d; }: f();");
    assert_eq!(r, Ok(()));
    assert_eq!(ev.get("a"), Some(Value::Num(1)));
    assert_eq!(ev.get("b"), Some(Value::Num(1)));
    assert_eq!(ev.get("c"), Some(Value::Num(1)));
    assert_eq!(ev.get("d"), None);
    assert_eq!(ev.get("e"), None);
}

#[test]
fn a_function_statement_defines_a_function_value() {
    let (ev, r) = run("fn f :( x, y = 2 )( ret 1; )( a =; ):");
    assert_eq!(r, Ok(()));
    assert_eq!(
        ev.get("f"),
        Some(Value::Func(Function {
            name: "f".into(),
            params: vec![
                Param { name: "x".into(), default: None },
                Param { name: "y".into(), default: Some(Expr::Lit(Literal::Num(2))) }
            ],
            bodies: vec![
                Stmt::Block { stmts: vec![Stmt::Return { value: Some(Expr::Lit(Literal::Num(1))) }] },
                Stmt::Block { stmts: vec![Stmt::DefineEmpty { name: "a".into() }] },
            ],
        }))
    );
}

#[test]
fn faults_stop_the_program() {
    let (ev, r) = run("a = 1; b := nope; c = 2;");
    assert_eq!(r, Err(Fault::MissingCopyTarget));
    assert_eq!(ev.get("a"), Some(Value::Num(1)));
    assert_eq!(ev.get("c"), None);
    let (_, r) = run("b :> nope;");
    assert_eq!(r, Err(Fault::MissingBindTarget));
    let (_, r) = run("ret 1;");
    assert_eq!(r, Err(Fault::ReturnOutsideFunction));
    let (ev, r) = run("a = 1; :{ b = 2; ret; c = 3; }: d = 4;");
    assert_eq!(r, Err(Fault::ReturnOutsideFunction));
    assert_eq!(ev.get("b"), None);
    assert_eq!(ev.get("d"), None);
    let mut ev = Evaluator::new();
    assert_eq!(ev.try_eval_node(&Stmt::Return { value: None }), Err(Fault::ReturnOutsideFunction));
    assert_eq!(ev.try_eval_node(&Stmt::DefineEmpty { name: "x".into() }), Ok(()));
    ev.eval_program(&Program { stmts: vec![Stmt::Copy { name: "y".into(), target: "x".into() }] });
    assert_eq!(ev.get("y"), Some(Value::Void));
}

#[test]
fn clones_are_equal_trees() {
    let tokens = Lexer::new("fn f :( x = -1 )( a ?= g(1, \"t\") : !? 2.5 |> void; ): :{ b := a; }:")
        .tokenize()
        .unwrap();
    let program = Parser::new(&tokens).parse_program().unwrap();
    assert_eq!(program.clone(), program);
    assert_eq!(program.stmts[0].clone(), program.stmts[0]);
    let v = Value::Text("abc".into());
    assert_eq!(v.clone(), v);
}
