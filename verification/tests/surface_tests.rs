use druim::compiler::ast::{Expr, Literal, Program, Stmt};
use druim::compiler::lexer::Lexer;
use druim::compiler::parser::Parser;

fn reparse(text: &str) -> Program {
    let tokens = Lexer::new(text).tokenize().expect("lexing failed");
    Parser::new(&tokens).parse_program().expect("parsing failed")
}

fn num(n: i64) -> Expr {
    Expr::Lit(Literal::Num(n))
}

fn round_trip(stmt: Stmt, text: &str) {
    assert_eq!(stmt.to_source().as_deref(), Some(text));
    assert_eq!(reparse(text), Program { stmts: vec![stmt] });
}

#[test]
fn defines_round_trip() {
    round_trip(Stmt::Define { name: "x".into(), value: num(42) }, "x = 42;");
    round_trip(Stmt::Define { name: "x".into(), value: num(0) }, "x = 0;");
    round_trip(Stmt::Define { name: "big".into(), value: num(i64::MAX) }, "big = 9223372036854775807;");
    round_trip(
        Stmt::Define { name: "pi".into(), value: Expr::Lit(Literal::Dec("3.140".into())) },
        "pi = 3.140;",
    );
    round_trip(
        Stmt::Define { name: "t".into(), value: Expr::Lit(Literal::Text("a; b = \u{e9}".into())) },
        "t = \"a; b = \u{e9}\";",
    );
    round_trip(Stmt::Define { name: "e".into(), value: Expr::Lit(Literal::Void) }, "e = void;");
    round_trip(Stmt::Define { name: "9lives".into(), value: num(9) }, "9lives = 9;");
    round_trip(Stmt::DefineEmpty { name: "_a1".into() }, "_a1 =;");
}

#[test]
fn copies_and_binds_round_trip() {
    round_trip(Stmt::Copy { name: "a".into(), target: "b".into() }, "a := b;");
    round_trip(Stmt::Bind { name: "a".into(), target: "b_2".into() }, "a :> b_2;");
    round_trip(Stmt::Copy { name: "numx".into(), target: "Void".into() }, "numx := Void;");
}

#[test]
fn guards_round_trip() {
    round_trip(
        Stmt::Guard { target: "x".into(), branches: vec![Expr::Ident("y".into())] },
        "x ?= y;",
    );
    round_trip(
        Stmt::Guard {
            target: "x".into(),
            branches: vec![
                Expr::Ident("y".into()),
                num(0),
                Expr::Lit(Literal::Text("".into())),
                Expr::Lit(Literal::Dec("0.5".into())),
                Expr::Lit(Literal::Void),
            ],
        },
        "x ?= y : 0 : \"\" : 0.5 : void;",
    );
}

#[test]
fn literals_round_trip() {
    for (value, text) in [
        (num(7), "7"),
        (Expr::Lit(Literal::Dec("10.01".into())), "10.01"),
        (Expr::Lit(Literal::Text("hi there".into())), "\"hi there\""),
        (Expr::Lit(Literal::Void), "void"),
        (Expr::Ident("name".into()), "name"),
    ] {
        assert_eq!(value.to_source().as_deref(), Some(text));
        let tokens = Lexer::new(text).tokenize().unwrap();
        assert_eq!(Parser::new(&tokens).parse_expr().unwrap(), value);
    }
}

#[test]
fn what_has_no_canonical_form() {
    for value in [
        num(-1),
        Expr::Lit(Literal::Flag(true)),
        Expr::Lit(Literal::Dec("1.".into())),
        Expr::Lit(Literal::Dec(".5".into())),
        Expr::Lit(Literal::Dec("1.2.3".into())),
        Expr::Lit(Literal::Dec("12".into())),
        Expr::Lit(Literal::Dec("".into())),
        Expr::Lit(Literal::Text("say \"hi\"".into())),
        Expr::Ident("".into()),
        Expr::Ident("void".into()),
        Expr::Ident("ret".into()),
        Expr::Ident("123".into()),
        Expr::Ident("a b".into()),
        Expr::Ident("a-b".into()),
        Expr::Neg(Box::new(num(-1))),
        Expr::Add(Box::new(num(1)), Box::new(Expr::Lit(Literal::Flag(false)))),
        Expr::Call { callee: Box::new(Expr::Ident("f".into())), args: vec![Expr::Ident("x".into())] },
        Expr::Call { callee: Box::new(Expr::Ident("fn".into())), args: vec![] },
        Expr::Not(Box::new(Expr::Call {
            callee: Box::new(num(1)),
            args: vec![num(1), Expr::Ident("x".into())],
        })),
    ] {
        assert_eq!(value.to_source(), None, "{value:?}");
        assert_eq!(Stmt::Define { name: "x".into(), value: value.clone() }.to_source(), None);
        assert_eq!(
            Stmt::Guard { target: "x".into(), branches: vec![num(1), value.clone()] }.to_source(),
            None
        );
    }
    for stmt in [
        Stmt::Define { name: "x".into(), value: Expr::Ident("y".into()) },
        Stmt::Define { name: "fn".into(), value: num(1) },
        Stmt::DefineEmpty { name: "loc".into() },
        Stmt::Copy { name: "a".into(), target: "1".into() },
        Stmt::Bind { name: "".into(), target: "a".into() },
        Stmt::Guard { target: "x".into(), branches: vec![] },
        Stmt::Return { value: None },
        Stmt::Block { stmts: vec![] },
        Stmt::Call { callee: Expr::Ident("f".into()), args: vec![] },
    ] {
        assert_eq!(stmt.to_source(), None, "{stmt:?}");
    }
}

fn bx(e: Expr) -> Box<Expr> {
    Box::new(e)
}

fn name(text: &str) -> Expr {
    Expr::Ident(text.into())
}

#[test]
fn compound_expressions_stand_in_parentheses() {
    for (value, text) in [
        (Expr::Add(bx(num(1)), bx(num(2))), "( 1 + 2 )"),
        (Expr::Neg(bx(num(5))), "( - 5 )"),
        (Expr::Not(bx(name("a"))), "( !? a )"),
        (
            Expr::Mul(bx(Expr::Add(bx(num(1)), bx(num(2)))), bx(Expr::Neg(bx(name("x"))))),
            "( ( 1 + 2 ) * ( - x ) )",
        ),
        (
            Expr::Add(bx(num(1)), bx(Expr::Mul(bx(num(2)), bx(num(3))))),
            "( 1 + ( 2 * 3 ) )",
        ),
        (
            Expr::Sub(bx(num(1)), bx(Expr::Sub(bx(num(2)), bx(num(3))))),
            "( 1 - ( 2 - 3 ) )",
        ),
        (Expr::Call { callee: bx(name("f")), args: vec![] }, "( f ( ) )"),
        (
            Expr::Call {
                callee: bx(name("f")),
                args: vec![
                    num(1),
                    Expr::Lit(Literal::Text("a, b)".into())),
                    Expr::Call { callee: bx(name("g")), args: vec![Expr::Lit(Literal::Void)] },
                ],
            },
            "( f ( 1 , \"a, b)\" , ( g ( void ) ) ) )",
        ),
        (
            Expr::Call {
                callee: bx(Expr::Call { callee: bx(name("f")), args: vec![num(1)] }),
                args: vec![num(2)],
            },
            "( ( f ( 1 ) ) ( 2 ) )",
        ),
        (
            Expr::Pipe(
                bx(Expr::Has(bx(name("a")), bx(name("b")))),
                bx(Expr::Present(bx(name("c")), bx(name("d")))),
            ),
            "( ( a :: b ) |> ( c :? d ) )",
        ),
    ] {
        assert_eq!(value.to_source().as_deref(), Some(text));
        let tokens = Lexer::new(text).tokenize().unwrap();
        assert_eq!(Parser::new(&tokens).parse_expr().unwrap(), value, "{text}");
    }
}

#[test]
fn every_operator_round_trips() {
    let l = || bx(name("l"));
    let r = || bx(num(2));
    for (value, op) in [
        (Expr::Add(l(), r()), "+"),
        (Expr::Sub(l(), r()), "-"),
        (Expr::Mul(l(), r()), "*"),
        (Expr::Div(l(), r()), "/"),
        (Expr::Mod(l(), r()), "%"),
        (Expr::Eq(l(), r()), "=="),
        (Expr::Ne(l(), r()), "!="),
        (Expr::Lt(l(), r()), "<"),
        (Expr::Le(l(), r()), "<="),
        (Expr::Gt(l(), r()), ">"),
        (Expr::Ge(l(), r()), ">="),
        (Expr::And(l(), r()), "&?"),
        (Expr::Or(l(), r()), "|?"),
        (Expr::Has(l(), r()), "::"),
        (Expr::Present(l(), r()), ":?"),
        (Expr::Pipe(l(), r()), "|>"),
    ] {
        let text = format!("( l {op} 2 )");
        assert_eq!(value.to_source(), Some(text.clone()));
        round_trip(Stmt::Define { name: "x".into(), value }, &format!("x = {text};"));
    }
}

#[test]
fn statements_over_compound_expressions_round_trip() {
    round_trip(
        Stmt::Define {
            name: "total".into(),
            value: Expr::Mul(bx(name("price")), bx(Expr::Add(bx(name("qty")), bx(num(1))))),
        },
        "total = ( price * ( qty + 1 ) );",
    );
    round_trip(
        Stmt::Define { name: "y".into(), value: Expr::Call { callee: bx(name("f")), args: vec![num(1)] } },
        "y = ( f ( 1 ) );",
    );
    round_trip(
        Stmt::Guard {
            target: "x".into(),
            branches: vec![
                Expr::Gt(bx(name("a")), bx(num(0))),
                name("b"),
                Expr::Not(bx(Expr::Lit(Literal::Void))),
            ],
        },
        "x ?= ( a > 0 ) : b : ( !? void );",
    );
}

#[test]
fn a_parsed_tree_prints_to_a_text_that_parses_to_it() {
    for text in [
        "x = 1 + 2 * 3 - 4;",
        "x = -a * !? b;",
        "x = f(1, g(2) + 3) |> h;",
        "x = f(1, g(2));",
        "x = (1 + 2) (3);",
        "x ?= a :: b : c :? d : 007;",
        "loc x = \"t\";",
        "x := y;",
        "x :> y;",
        "x =;",
    ] {
        let program = reparse(text);
        assert_eq!(program.stmts.len(), 1, "{text}");
        let printed = program.stmts[0].to_source().expect(text);
        assert_eq!(reparse(&printed), program, "{text} -> {printed}");
    }
}
