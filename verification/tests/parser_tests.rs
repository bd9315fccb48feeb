use druim::compiler::ast::{Expr, Literal, Stmt};
use druim::compiler::diagnostic::render;
use druim::compiler::error::{Diagnostic, Source};
use druim::compiler::lexer::Lexer;
use druim::compiler::parser::Parser;

fn parse_stmt(src: &str) -> Stmt {
    let mut lexer = Lexer::new(src);
    let tokens = lexer.tokenize().expect("lexing failed");
    let mut parser = Parser::new(&tokens);
    parser.parse_node().expect("failed to parse statement")
}

fn parse_expr_err(src: &str) -> Diagnostic {
    let mut lexer = Lexer::new(src);
    let tokens = lexer.tokenize().expect("lexing failed");
    let mut parser = Parser::new(&tokens);

    parser.parse_expr().expect_err("expected expression parse error")
}

#[test]
fn define_statement() {
    let src = "x = 42;";
    let tokens = Lexer::new(src).tokenize().unwrap();
    let mut parser = Parser::new(&tokens);

    let stmt = parser.parse_node().expect("failed to parse define statement");

    match stmt {
        Stmt::Define { name, value } => {
            assert_eq!(name, "x");

            match value {
                Expr::Lit(Literal::Num(n)) => assert_eq!(n, 42),
                _ => panic!("expected numeric literal on right-hand side"),
            }
        }
        _ => panic!("expected Define statement"),
    }
}

#[test]
fn define_empty_statement() {
    let stmt = parse_stmt("a =;");

    assert_eq!(stmt, Stmt::DefineEmpty { name: "a".into() });
}

#[test]
fn define_empty_requires_identifier_lhs() {
    let src = "(a) =;";
    let tokens = Lexer::new(src).tokenize().unwrap();
    let mut parser = Parser::new(&tokens);

    let err = parser.parse_node().expect_err("expected invalid define-empty");

    let source = Source::new(src.to_string());
    let msg = render(&err, &source);

    assert!(msg.contains("invalid define"), "expected invalid define error, got:\n{msg}");
}

#[test]
fn define_empty_cannot_be_chained() {
    let src = "a =; = b;";
    let tokens = Lexer::new(src).tokenize().unwrap();
    let mut parser = Parser::new(&tokens);

    let err = parser.parse_program().expect_err("expected chained define-empty to fail");

    let source = Source::new(src.to_string());
    let msg = render(&err, &source);

    assert!(msg.contains("invalid define"), "expected invalid define error, got:\n{msg}");
}

#[test]
fn define_empty_is_not_expression() {
    let src = ":[ a =; ]:";

    let tokens = Lexer::new(src).tokenize().unwrap();
    let mut parser = Parser::new(&tokens);

    let err = parser.parse_expr().expect_err("expected expression error");

    let source = Source::new(src.to_string());
    let msg = render(&err, &source);

    assert!(msg.contains("expression"), "expected expression error, got:\n{msg}");
}

#[test]
fn define_requires_identifier_lhs() {
    let src = "(x) = 1;";
    let tokens = Lexer::new(src).tokenize().unwrap();
    let mut parser = Parser::new(&tokens);

    let err = parser.parse_node().expect_err("expected invalid define error");

    let source = Source::new(src.to_string());
    let msg = render(&err, &source);

    assert!(
        msg.contains("invalid define statement"),
        "expected invalid define wording, got:\n{msg}"
    );

    assert!(
        msg.contains("define statements must start with an identifier"),
        "expected identifier-specific help, got:\n{msg}"
    );
}

#[test]
fn define_requires_semicolon() {
    let src = "x = 1";
    let tokens = Lexer::new(src).tokenize().unwrap();
    let mut parser = Parser::new(&tokens);

    let err = parser.parse_node().expect_err("expected missing semicolon error");
    let _ = err;
}

#[test]
fn define_cannot_be_chained() {
    let src = "a = b = c;";
    let tokens = Lexer::new(src).tokenize().unwrap();
    let mut parser = Parser::new(&tokens);

    let err = parser.parse_node().expect_err("expected chained define to fail");
    let _ = err;
}

#[test]
fn define_chaining_is_invalid_define() {
    let src = "a = b = c;";
    let tokens = Lexer::new(src).tokenize().unwrap();
    let mut parser = Parser::new(&tokens);

    let err = parser.parse_node().expect_err("expected chained define to fail");

    let source = Source::new(src.to_string());
    let msg = render(&err, &source);

    assert!(
        msg.contains("invalid define statement"),
        "expected invalid define error, got:\n{msg}"
    );

    assert!(msg.contains("cannot be chained"), "expected chained-define help text, got:\n{msg}");
}

#[test]
fn block_requires_closing_delimiter() {
    let src = ":{ a <- b;";
    let tokens = Lexer::new(src).tokenize().unwrap();
    let mut parser = Parser::new(&tokens);

    let err = parser.parse_program().unwrap_err();

    let source = Source::new(src.to_string());
    let diag: Diagnostic = err.into();
    let msg = render(&diag, &source);
    assert!(msg.contains("}:"));
}

#[test]
fn expression_block_rejects_statement() {
    let src = ":[ x = 3; ]:";

    let err = parse_expr_err(src);
    let source = Source::new(src.to_string());
    let diag: Diagnostic = err.into();
    let msg = render(&diag, &source);

    assert!(msg.contains("expression"), "expected expression error, got: {msg}");
}

#[test]
fn guard_basic_statement() {
    let src = "x ?= y;";
    let tokens = Lexer::new(src).tokenize().unwrap();
    let mut parser = Parser::new(&tokens);

    let program = parser.parse_program().unwrap();
    assert_eq!(program.stmts.len(), 1);

    match &program.stmts[0] {
        Stmt::Guard { target, branches } => {
            assert_eq!(target, "x");
            assert_eq!(branches.len(), 1);
        }
        _ => panic!("expected Guard statement"),
    }
}

#[test]
fn guard_single_fallback_statement() {
    let src = "x ?= y : z;";
    let tokens = Lexer::new(src).tokenize().unwrap();
    let mut parser = Parser::new(&tokens);

    let program = parser.parse_program().unwrap();
    assert_eq!(program.stmts.len(), 1);

    match &program.stmts[0] {
        Stmt::Guard { target, branches } => {
            assert_eq!(target, "x");
            assert_eq!(branches.len(), 2);

            assert!(matches!(branches[0], Expr::Ident(ref s) if s == "y"));
            assert!(matches!(branches[1], Expr::Ident(ref s) if s == "z"));
        }
        other => panic!("expected Guard statement, got {:?}", other),
    }
}

#[test]
fn guard_chained_statement() {
    let src = "x ?= y : z : v : w;";
    let tokens = Lexer::new(src).tokenize().unwrap();
    let mut parser = Parser::new(&tokens);
    let program = parser.parse_program().unwrap();

    assert_eq!(program.stmts.len(), 1);

    match &program.stmts[0] {
        Stmt::Guard { target, branches } => {
            assert_eq!(target, "x");
            assert_eq!(branches.len(), 4);
        }
        _ => panic!("expected Guard statement"),
    }
}

#[test]
fn guard_requires_identifier_lhs() {
    let src = "?= a;";
    let tokens = Lexer::new(src).tokenize().unwrap();
    let mut parser = Parser::new(&tokens);

    let err = parser.parse_node().expect_err("expected invalid guard statement");

    let source = Source::new(src.to_string());
    let msg = render(&err, &source);

    assert!(
        msg.contains("invalid guard statement"),
        "expected invalid statement error, got:\n{msg}"
    );

    assert!(msg.contains("identifier"), "expected identifier-related help text, got:\n{msg}");
}

#[test]
fn guard_allows_void_condition() {
    let src = "x ?= void;";
    let tokens = Lexer::new(src).tokenize().unwrap();
    let mut parser = Parser::new(&tokens);

    let stmt = parser.parse_node().expect("expected guard statement to parse");

    match stmt {
        Stmt::Guard { target, branches } => {
            assert_eq!(target, "x");
            assert_eq!(branches.len(), 1);

            match &branches[0] {
                Expr::Lit(Literal::Void) => {}
                other => panic!("expected void literal, got {:?}", other),
            }
        }
        other => panic!("expected Guard statement, got {:?}", other),
    }
}

#[test]
fn guard_rhs_cannot_be_empty() {
    let src = "a ?=;";
    let tokens = Lexer::new(src).tokenize().unwrap();
    let mut parser = Parser::new(&tokens);

    let err = parser.parse_node().expect_err("expected invalid guard statement");

    let source = Source::new(src.to_string());
    let msg = render(&err, &source);

    assert!(
        msg.contains("invalid guard statement"),
        "expected guard-specific error, got:\n{msg}"
    );

    assert!(msg.contains("DefineEmpty"), "expected DefineEmpty suggestion, got:\n{msg}");

    assert!(msg.contains("a =;"), "expected example syntax in help text, got:\n{msg}");
}

#[test]
fn parses_return_statement_with_value() {
    let src = "ret 42;";
    let tokens = Lexer::new(src).tokenize().unwrap();
    let mut parser = Parser::new(&tokens);

    let stmt = parser.parse_node().expect("failed to parse return");

    match stmt {
        Stmt::Return { value: Some(Expr::Lit(Literal::Num(n))) } => {
            assert_eq!(n, 42);
        }
        other => panic!("expected return statement, got {:?}", other),
    }
}
