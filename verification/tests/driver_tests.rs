use druim::compiler::ast::{Expr, Literal, Program, Stmt};
use druim::compiler::driver::{check_text, parse_text};
use druim::compiler::error::Span;

#[test]
fn a_text_that_parses_gives_its_program() {
    assert_eq!(
        parse_text("a = 1;\nb := a;\n"),
        Ok(Program {
            stmts: vec![
                Stmt::Define { name: "a".into(), value: Expr::Lit(Literal::Num(1)) },
                Stmt::Copy { name: "b".into(), target: "a".into() },
            ]
        })
    );
    assert_eq!(parse_text(""), Ok(Program { stmts: vec![] }));
    assert_eq!(check_text("  \n", true), Ok(Program { stmts: vec![] }));
}

#[test]
fn a_lexical_error_is_reported_before_any_parsing() {
    let d = parse_text("a = = ; #").unwrap_err();
    assert_eq!(d.message, "unexpected character");
    assert_eq!(d.span, Span { start: 8, end: 8 });
    let d = parse_text("a = \"abc").unwrap_err();
    assert_eq!(d.message, "unterminated text literal");
    assert_eq!(d.span, Span { start: 4, end: 4 });
}

#[test]
fn the_first_defect_is_rendered_against_the_text() {
    assert_eq!(
        check_text("a = 1;\nb = c;\n", false),
        Err("error: invalid define statement\n --> line 2, column 5\n  |\n2 | b = c;\n  |     ^\n\nhelp: Define statements cannot assign directly from another identifier.\nUse `:=` to copy from an identifier.\nExample: `a := b;`\n".to_string())
    );
    assert_eq!(
        check_text("x = 1.;", true),
        Err("\x1b[38;5;88merror: unexpected character\n\x1b[39m --> line 1, column 6\n  |\n1 | x = 1.;\n  |      \x1b[38;5;135m^\x1b[39m\n\nhelp: This character starts no Druim token.\n".to_string())
    );
}
