use druim::compiler::ast::{Expr, Literal, Param, Program, Stmt};
use druim::compiler::diagnostic::render;
use druim::compiler::error::{Diagnostic, Severity, Source, Span};
use druim::compiler::lexer::Lexer;
use druim::compiler::parser::Parser;
use druim::compiler::token::{Token, TokenKind};

fn program(src: &str) -> Result<Program, Diagnostic> {
    let tokens = Lexer::new(src).tokenize().expect("lexing failed");
    Parser::new(&tokens).parse_program()
}

fn stmts(src: &str) -> Vec<Stmt> {
    match program(src) {
        Ok(p) => p.stmts,
        Err(d) => panic!("{src:?} failed: {d:?}"),
    }
}

fn failure(src: &str) -> Diagnostic {
    match program(src) {
        Ok(p) => panic!("{src:?} parsed: {p:?}"),
        Err(d) => d,
    }
}

fn expr(src: &str) -> Expr {
    let tokens = Lexer::new(src).tokenize().expect("lexing failed");
    Parser::new(&tokens).parse_expr().expect("expression failed")
}

fn num(n: i64) -> Expr {
    Expr::Lit(Literal::Num(n))
}

fn ident(name: &str) -> Expr {
    Expr::Ident(name.to_string())
}

fn bx(e: Expr) -> Box<Expr> {
    Box::new(e)
}

fn span(start: usize, end: usize) -> Span {
    Span { start, end }
}

#[test]
fn guard_keeps_three_branches_in_source_order() {
    assert_eq!(
        stmts("x ?= y : z : v;"),
        vec![Stmt::Guard { target: "x".into(), branches: vec![ident("y"), ident("z"), ident("v")] }]
    );
}

#[test]
fn function_without_body_section_mentions_the_body() {
    let d = failure("fn f :(x):");
    assert_eq!(d.message, "incomplete function definition");
    assert!(d.help.unwrap().contains("body"));
    assert_eq!(d.span, span(7, 8));
    let d = failure("fn f :( x )( ):");
    assert_eq!(d.message, "incomplete function definition");
}

#[test]
fn malformed_statements_report_their_own_kind() {
    for (src, message) in [
        ("a = b = c;", "invalid define statement"),
        ("a = 1 := c;", "invalid define statement"),
        ("a := b := c;", "invalid copy statement"),
        ("a := b = c;", "invalid copy statement"),
        ("a :> b :> c;", "invalid bind statement"),
        ("a :> b ?= c;", "invalid bind statement"),
        ("a ?= 1 ?= 2;", "invalid guard statement"),
        ("a ?= 1 : b = 2;", "invalid guard statement"),
        ("ret 1 = 2;", "invalid return statement"),
        ("ret ret;", "invalid return statement"),
        ("a =; = b;", "invalid define empty statement"),
        ("a =; =; b;", "invalid define empty statement"),
    ] {
        let d = failure(src);
        assert_eq!(d.message, message, "{src}");
        assert_ne!(d.message, "unexpected token");
        assert_eq!(d.severity, Severity::Error);
        assert!(d.help.unwrap().contains("cannot be chained"), "{src}: {:?}", d.help);
        assert!(d.secondary.is_empty() && d.notes.is_empty());
    }
}

#[test]
fn chained_operator_is_the_primary_span() {
    assert_eq!(failure("a = b = c;").span, span(6, 7));
    assert_eq!(failure("aa := bb :> c;").span, span(9, 11));
    assert_eq!(failure("a =; = b;").span, span(5, 6));
}

#[test]
fn malformed_left_sides_are_statement_specific() {
    for (src, message, at) in [
        ("= 1;", "invalid define statement", span(0, 1)),
        ("1 = 2;", "invalid define statement", span(0, 1)),
        ("loc = 2;", "invalid define statement", span(4, 5)),
        (":= a;", "invalid copy statement", span(0, 2)),
        ("a := 1;", "invalid copy statement", span(5, 6)),
        ("a := ;", "invalid copy statement", span(5, 6)),
        (":> a;", "invalid bind statement", span(0, 2)),
        ("a :> \"t\";", "invalid bind statement", span(5, 6)),
        ("?= a;", "invalid guard statement", span(0, 2)),
        ("=;", "invalid define empty statement", span(0, 2)),
        ("(a) =;", "invalid define empty statement", span(0, 1)),
        ("1();", "invalid function call statement", span(0, 1)),
        ("a;", "invalid function call statement", span(1, 2)),
        ("x <- y;", "invalid function call statement", span(2, 4)),
        ("f(1) = 2;", "invalid define statement", span(1, 2)),
        ("x y = 1;", "invalid define statement", span(2, 3)),
        ("loc x y =;", "invalid define empty statement", span(6, 7)),
        ("a b := c;", "invalid copy statement", span(2, 3)),
        ("a 1 :> c;", "invalid bind statement", span(2, 3)),
        ("a, b ?= c;", "invalid guard statement", span(1, 2)),
        ("a -> b;", "invalid function call statement", span(2, 4)),
    ] {
        let d = failure(src);
        assert_eq!(d.message, message, "{src}");
        assert_eq!(d.span, at, "{src}");
    }
}

#[test]
fn missing_terminators_are_reported_before_anything_else() {
    for (src, message, at) in [
        ("x = 1", "unterminated define statement", span(0, 1)),
        ("= = =", "unterminated define statement", span(0, 1)),
        ("a := b", "unterminated copy statement", span(0, 1)),
        ("a :> b", "unterminated bind statement", span(0, 1)),
        ("a ?= b", "unterminated guard statement", span(0, 1)),
        ("ret 1", "unterminated return statement", span(4, 5)),
        ("ret", "unterminated return statement", span(3, 3)),
        ("f(1)", "unterminated function call statement", span(0, 1)),
        ("", "", span(0, 0)),
    ] {
        if src.is_empty() {
            assert_eq!(stmts(src), vec![]);
            continue;
        }
        let d = failure(src);
        assert_eq!(d.message, message, "{src}");
        assert_eq!(d.span, at, "{src}");
        assert!(d.help.unwrap().contains("`;`"));
    }
}

#[test]
fn a_statement_ends_at_its_block_or_function_boundary() {
    let d = failure(":{ x = 1 }: y = 2;");
    assert_eq!(d.message, "unterminated define statement");
    assert_eq!(d.span, span(3, 4));
    let d = failure("fn f :( a )( ret 1 ): g();");
    assert_eq!(d.message, "unterminated return statement");
}

#[test]
fn values_may_not_be_bare_identifiers() {
    let d = failure("a = b;");
    assert_eq!(d.message, "invalid define statement");
    assert_eq!(d.span, span(4, 5));
    assert!(d.help.unwrap().contains(":="));
    let d = failure("ret x;");
    assert_eq!(d.message, "invalid value expression");
    assert_eq!(d.span, span(4, 5));
    assert!(d.help.unwrap().contains("bare identifier"));
    let d = failure("f(x);");
    assert_eq!(d.message, "invalid value expression");
    assert_eq!(d.span, span(2, 3));
    let d = failure("a = (b);");
    assert_eq!(d.message, "invalid value expression");
    assert_eq!(d.span, span(4, 5));
}

#[test]
fn statement_constructs_are_not_values() {
    for (src, at) in [
        ("a ?= 1 : fn;", span(9, 11)),
        ("a ?= 1 : loc;", span(9, 12)),
        ("f(:{);", span(2, 4)),
    ] {
        let d = failure(src);
        assert_eq!(d.message, "invalid value expression", "{src}");
        assert_eq!(d.span, at, "{src}");
        assert!(d.help.unwrap().contains("cannot be used as a value"));
    }
    let tokens = Lexer::new("= 1").tokenize().unwrap();
    let d = Parser::new(&tokens).parse_expr().unwrap_err();
    assert_eq!(d.message, "invalid value expression");
    assert!(d.help.unwrap().contains("Statement operators are not valid values"));
    let tokens = Lexer::new("1 + *").tokenize().unwrap();
    let d = Parser::new(&tokens).parse_expr().unwrap_err();
    assert_eq!(d.message, "unexpected token in value expression");
    assert_eq!(d.span, span(4, 5));
    let tokens = Lexer::new("1 +").tokenize().unwrap();
    let d = Parser::new(&tokens).parse_expr().unwrap_err();
    assert_eq!(d.message, "unexpected token in value expression");
    assert_eq!(d.span, span(3, 3));
}

#[test]
fn input_that_ends_early_is_reported_at_the_last_token_end() {
    let tokens = vec![
        Token { kind: TokenKind::NumLit, lexeme: "12".into(), pos: 0 },
        Token { kind: TokenKind::Add, lexeme: "+".into(), pos: 3 },
    ];
    let d = Parser::new(&tokens).parse_expr().unwrap_err();
    assert_eq!(d.message, "unexpected end of input");
    assert_eq!(d.span, span(4, 4));
    assert_eq!(d.help, Some("Druim expected a value expression here."));
    let tokens = vec![
        Token { kind: TokenKind::LParen, lexeme: "(".into(), pos: 0 },
        Token { kind: TokenKind::NumLit, lexeme: "1".into(), pos: 1 },
    ];
    let d = Parser::new(&tokens).parse_expr().unwrap_err();
    assert_eq!(d.message, "unexpected end of input");
    assert_eq!(d.span, span(2, 2));
    assert_eq!(d.help, Some("`)`"));
    let none: Vec<Token> = vec![];
    let d = Parser::new(&none).parse_expr().unwrap_err();
    assert_eq!(d.span, span(0, 0));
    assert_eq!(Parser::new(&none).parse_program().unwrap(), Program { stmts: vec![] });
}

#[test]
fn unclosed_parenthesis_is_an_unexpected_token() {
    let d = failure("a = (1 + 2;");
    assert_eq!(d.message, "unexpected token");
    assert_eq!(d.help, Some("`)`"));
    assert_eq!(d.span, span(10, 11));
}

#[test]
fn precedence_climbs_from_pipe_to_call() {
    assert_eq!(
        expr("1 + 2 * 3"),
        Expr::Add(bx(num(1)), bx(Expr::Mul(bx(num(2)), bx(num(3)))))
    );
    assert_eq!(
        expr("1 - 2 - 3"),
        Expr::Sub(bx(Expr::Sub(bx(num(1)), bx(num(2)))), bx(num(3)))
    );
    assert_eq!(
        expr("a |> b :: c |? d &? e == f < g + h * i"),
        Expr::Pipe(
            bx(ident("a")),
            bx(Expr::Has(
                bx(ident("b")),
                bx(Expr::Or(
                    bx(ident("c")),
                    bx(Expr::And(
                        bx(ident("d")),
                        bx(Expr::Eq(
                            bx(ident("e")),
                            bx(Expr::Lt(
                                bx(ident("f")),
                                bx(Expr::Add(
                                    bx(ident("g")),
                                    bx(Expr::Mul(bx(ident("h")), bx(ident("i"))))
                                ))
                            ))
                        ))
                    ))
                ))
            ))
        )
    );
    assert_eq!(
        expr("a :: b :? c"),
        Expr::Present(bx(Expr::Has(bx(ident("a")), bx(ident("b")))), bx(ident("c")))
    );
    assert_eq!(
        expr("a / b % c >= d != e <= f > g"),
        Expr::Ne(
            bx(Expr::Ge(
                bx(Expr::Mod(bx(Expr::Div(bx(ident("a")), bx(ident("b")))), bx(ident("c")))),
                bx(ident("d"))
            )),
            bx(Expr::Gt(bx(Expr::Le(bx(ident("e")), bx(ident("f")))), bx(ident("g"))))
        )
    );
}

#[test]
fn prefix_operators_bind_tighter_than_infix() {
    assert_eq!(expr("-1 * 2"), Expr::Mul(bx(Expr::Neg(bx(num(1)))), bx(num(2))));
    assert_eq!(
        expr("!? a &? b"),
        Expr::And(bx(Expr::Not(bx(ident("a")))), bx(ident("b")))
    );
    assert_eq!(expr("- - 1"), Expr::Neg(bx(Expr::Neg(bx(num(1))))));
    assert_eq!(
        expr("(1 + 2) * 3"),
        Expr::Mul(bx(Expr::Add(bx(num(1)), bx(num(2)))), bx(num(3)))
    );
}

#[test]
fn call_application_binds_tightest_and_to_the_left() {
    assert_eq!(
        expr("1 + f(2, 3)"),
        Expr::Add(bx(num(1)), bx(Expr::Call { callee: bx(ident("f")), args: vec![num(2), num(3)] }))
    );
    assert_eq!(
        expr("f(1) (2)"),
        Expr::Call {
            callee: bx(Expr::Call { callee: bx(ident("f")), args: vec![num(1)] }),
            args: vec![num(2)]
        }
    );
    assert_eq!(
        expr("-f()"),
        Expr::Neg(bx(Expr::Call { callee: bx(ident("f")), args: vec![] }))
    );
}

#[test]
fn literals_keep_their_text() {
    assert_eq!(expr("007"), num(7));
    assert_eq!(expr("9223372036854775807"), num(i64::MAX));
    assert_eq!(expr("9223372036854775808"), num(0));
    assert_eq!(expr("99999999999999999999999999"), num(0));
    assert_eq!(expr("3.140"), Expr::Lit(Literal::Dec("3.140".into())));
    assert_eq!(expr("\"a b\""), Expr::Lit(Literal::Text("a b".into())));
    assert_eq!(expr("void"), Expr::Lit(Literal::Void));
    let lit = |text: &str| {
        let tokens = vec![Token { kind: TokenKind::NumLit, lexeme: text.into(), pos: 0 }];
        Parser::new(&tokens).parse_expr().unwrap()
    };
    assert_eq!(lit("-9223372036854775808"), num(i64::MIN));
    assert_eq!(lit("-9223372036854775809"), num(0));
    assert_eq!(lit("+12"), num(12));
    assert_eq!(lit("-12"), num(-12));
    assert_eq!(lit(""), num(0));
    assert_eq!(lit("-"), num(0));
    assert_eq!(lit("1x"), num(0));
    assert_eq!(lit("--1"), num(0));
}

#[test]
fn statements_of_every_kind() {
    assert_eq!(
        stmts("loc a = 1 + 2; b =; c := a; d :> a; e ?= void : 0; f(a(), 2); ret; ret 0;"),
        vec![
            Stmt::Define { name: "a".into(), value: Expr::Add(bx(num(1)), bx(num(2))) },
            Stmt::DefineEmpty { name: "b".into() },
            Stmt::Copy { name: "c".into(), target: "a".into() },
            Stmt::Bind { name: "d".into(), target: "a".into() },
            Stmt::Guard { target: "e".into(), branches: vec![Expr::Lit(Literal::Void), num(0)] },
            Stmt::Call {
                callee: ident("f"),
                args: vec![Expr::Call { callee: bx(ident("a")), args: vec![] }, num(2)]
            },
            Stmt::Return { value: None },
            Stmt::Return { value: Some(num(0)) },
        ]
    );
}

#[test]
fn blocks_join_their_segments() {
    assert_eq!(
        stmts(":{ a = 1; }{ b =; }{ }: c =;"),
        vec![
            Stmt::Block {
                stmts: vec![
                    Stmt::Define { name: "a".into(), value: num(1) },
                    Stmt::DefineEmpty { name: "b".into() }
                ]
            },
            Stmt::DefineEmpty { name: "c".into() }
        ]
    );
    assert_eq!(stmts(":{ }:"), vec![Stmt::Block { stmts: vec![] }]);
    let d = failure(":{ a = 1;");
    assert_eq!(d.message, "unterminated block structure");
    assert_eq!(d.span, span(3, 4));
    let d = failure(":{");
    assert_eq!(d.span, span(2, 2));
}

#[test]
fn functions_keep_parameters_and_bodies_in_order() {
    assert_eq!(
        stmts("fn add_one :( x, y = 2 * 3 )( z = x + y;   )( ret z(); )( ):"),
        vec![Stmt::Func {
            name: "add_one".into(),
            params: vec![
                Param { name: "x".into(), default: None },
                Param { name: "y".into(), default: Some(Expr::Mul(bx(num(2)), bx(num(3)))) }
            ],
            bodies: vec![
                Stmt::Block {
                    stmts: vec![Stmt::Define {
                        name: "z".into(),
                        value: Expr::Add(bx(ident("x")), bx(ident("y")))
                    }]
                },
                Stmt::Block { stmts: vec![Stmt::Return { value: Some(ident_call("z")) }] },
                Stmt::Block { stmts: vec![] },
            ]
        }]
    );
    assert_eq!(
        stmts("fn f :()( g(); ):"),
        vec![Stmt::Func {
            name: "f".into(),
            params: vec![],
            bodies: vec![Stmt::Block { stmts: vec![Stmt::Call { callee: ident("g"), args: vec![] }] }]
        }]
    );
}

fn ident_call(name: &str) -> Expr {
    Expr::Call { callee: bx(ident(name)), args: vec![] }
}

#[test]
fn function_structure_errors() {
    for (src, message, at) in [
        ("fn f :( x )( a =;", "unterminated function structure", span(3, 4)),
        ("fn", "unterminated function structure", span(2, 2)),
        ("fn 1 :( x )( a =; ):", "invalid function structure", span(3, 4)),
        ("fn Foo :( x )( a =; ):", "invalid function name", span(3, 6)),
        ("fn a__b :( x )( a =; ):", "invalid function name", span(3, 7)),
        ("fn _a :( x )( a =; ):", "invalid function name", span(3, 5)),
        ("fn a_ :( x )( a =; ):", "invalid function name", span(3, 5)),
        ("fn f ( x )( a =; ):", "invalid function structure", span(5, 6)),
        ("fn f :( loc x )( a =; ):", "invalid function parameter", span(8, 11)),
        ("fn f :( 1 )( a =; ):", "invalid function parameter", span(8, 9)),
        ("fn f :( x = )( a =; ):", "invalid default parameter", span(12, 14)),
        ("fn f :( x = , y )( a =; ):", "invalid default parameter", span(12, 13)),
        ("fn f :( x y )( a =; ):", "invalid function parameter list", span(10, 11)),
        ("fn f :( x, )( a =; ):", "invalid function parameter", span(11, 13)),
        ("fn f :( x = y )( a =; ):", "invalid value expression", span(12, 13)),
    ] {
        let d = failure(src);
        assert_eq!(d.message, message, "{src}");
        assert_eq!(d.span, at, "{src}");
    }
    assert_eq!(stmts("fn a_1b2 :( x )( ret; ):").len(), 1);
}

#[test]
fn call_errors() {
    for (src, message, at) in [
        ("f(1 2);", "invalid function call", span(4, 5)),
        ("f(1,);", "unexpected token in value expression", span(4, 5)),
        ("a = f(1;", "invalid function call", span(7, 8)),
        ("f() = 1;", "invalid define statement", span(1, 2)),
        ("f(a := b);", "invalid copy statement", span(1, 2)),
        ("f(1) g(2);", "invalid function call statement", span(5, 6)),
    ] {
        let d = failure(src);
        assert_eq!(d.message, message, "{src}");
        assert_eq!(d.span, at, "{src}");
    }
}

#[test]
fn guard_needs_a_value_after_each_colon() {
    let d = failure("x ?= 1 : ;");
    assert_eq!(d.message, "invalid guard statement");
    assert_eq!(d.span, span(9, 10));
    assert!(d.help.unwrap().contains("after `:`"));
    let d = failure("x ?= : 1;");
    assert_eq!(d.message, "invalid guard statement");
    assert_eq!(d.span, span(5, 6));
    let d = failure("x = ;");
    assert_eq!(d.message, "invalid define statement");
    assert_eq!(d.span, span(4, 5));
    assert!(d.help.unwrap().contains("`x =;`"));
}

#[test]
fn the_first_defect_ends_the_parse() {
    let d = failure("a = 1; b = ; c = = ;");
    assert_eq!(d.span, span(11, 12));
    let src = "let x = ;";
    let d = failure(src);
    let text = render(&d, &Source::new(src.to_string()));
    assert!(text.starts_with("error: invalid define statement\n --> line 1, column 5\n"), "{text}");
}

#[test]
fn parse_node_reads_one_node_and_stops() {
    let tokens = Lexer::new("a =; b =;").tokenize().unwrap();
    let mut parser = Parser::new(&tokens);
    assert_eq!(parser.parse_node().unwrap(), Stmt::DefineEmpty { name: "a".into() });
    assert_eq!(parser.parse_node().unwrap(), Stmt::DefineEmpty { name: "b".into() });
    assert!(parser.parse_node().is_err());
    let tokens = Lexer::new("1 2").tokenize().unwrap();
    let mut parser = Parser::new(&tokens);
    assert_eq!(parser.parse_expr().unwrap(), num(1));
    assert_eq!(parser.parse_expr().unwrap(), num(2));
}

#[test]
fn the_terminator_must_follow_the_value() {
    for (src, message, at) in [
        ("x = 1 2;", "invalid define statement", span(6, 7)),
        ("x = 1 2 foo();", "invalid define statement", span(6, 7)),
        ("x = f(1) g;", "invalid define statement", span(9, 10)),
        ("a := b c;", "invalid copy statement", span(7, 8)),
        ("a :> b (c);", "invalid bind statement", span(7, 8)),
        ("x ?= 1 2;", "invalid guard statement", span(7, 8)),
        ("x ?= 1 : 2 3;", "invalid guard statement", span(11, 12)),
        ("ret 1 2;", "invalid return statement", span(6, 7)),
        ("f(1) 2;", "invalid function call statement", span(5, 6)),
        ("f(1)(2);", "invalid function call", span(3, 5)),
    ] {
        let d = failure(src);
        assert_eq!(d.message, message, "{src}");
        assert_eq!(d.span, at, "{src}");
        if at != span(3, 5) {
            assert!(d.help.unwrap().contains("expected a semicolon `;` to end the statement"));
        }
    }
}

#[test]
fn a_call_may_begin_a_longer_value() {
    assert_eq!(
        stmts("x = f(1) + 2; y ?= g() : h(a(), 2) |> k;"),
        vec![
            Stmt::Define {
                name: "x".into(),
                value: Expr::Add(
                    bx(Expr::Call { callee: bx(ident("f")), args: vec![num(1)] }),
                    bx(num(2))
                )
            },
            Stmt::Guard {
                target: "y".into(),
                branches: vec![
                    Expr::Call { callee: bx(ident("g")), args: vec![] },
                    Expr::Pipe(
                        bx(Expr::Call {
                            callee: bx(ident("h")),
                            args: vec![Expr::Call { callee: bx(ident("a")), args: vec![] }, num(2)]
                        }),
                        bx(ident("k"))
                    )
                ]
            },
        ]
    );
}
