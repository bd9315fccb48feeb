use druim::compiler::diagnostic::render;
use druim::compiler::error::{Severity, Source, Span};
use druim::compiler::lexer::{LexError, Lexer};
use druim::compiler::token::TokenKind;
use druim::compiler::token::TokenKind::{
    Bind, BlockExprChain, BlockExprEnd, BlockExprStart, Cast, Colon, DecLit, Eof, Guard, Has,
    Ident, KwFn, KwLoc, KwNum, KwRet, KwText, KwVoid, NumLit, Present, TextLit,
};

fn kinds(src: &str) -> Vec<TokenKind> {
    let mut lx = Lexer::new(src);
    lx.tokenize().unwrap().into_iter().map(|t| t.kind).collect()
}

#[test]
fn colon_family_tokens() {
    let ks = kinds("a:b a::b a:=b a:?b a:>b");
    assert!(ks.contains(&Colon));
    assert!(ks.contains(&Has));
    assert!(ks.contains(&Bind));
    assert!(ks.contains(&Present));
    assert!(ks.contains(&Cast));
}

#[test]
fn keyword_vs_identifier() {
    let ks = kinds("num numx text void fn ret loc");
    assert_eq!(ks[0], KwNum);
    assert_eq!(ks[1], Ident);
    assert_eq!(ks[2], KwText);
    assert_eq!(ks[3], KwVoid);
    assert_eq!(ks[4], KwFn);
    assert_eq!(ks[5], KwRet);
    assert_eq!(ks[6], KwLoc);
}

#[test]
fn number_literals() {
    let ks = kinds("42 3.14");
    assert_eq!(ks[0], NumLit);
    assert_eq!(ks[1], DecLit);
}

#[test]
fn text_literal() {
    let ks = kinds("\"hello\"");
    assert_eq!(ks[0], TextLit);
}

#[test]
fn block_tokens() {
    let src = ":[ x + 1 ][ c * 56 ]: :{ a <- b; }{ d := a }: fn my_function :( b )( a = b; ):";
    let tokens = Lexer::new(src).tokenize().unwrap();

    let kinds: Vec<_> = tokens.iter().map(|t| t.kind).collect();

    assert!(kinds.contains(&TokenKind::BlockExprStart));
    assert!(kinds.contains(&TokenKind::BlockExprChain));
    assert!(kinds.contains(&TokenKind::BlockExprEnd));
    assert!(kinds.contains(&TokenKind::BlockStmtStart));
    assert!(kinds.contains(&TokenKind::BlockStmtChain));
    assert!(kinds.contains(&TokenKind::BlockStmtEnd));
    assert!(kinds.contains(&TokenKind::BlockFuncStart));
    assert!(kinds.contains(&TokenKind::BlockFuncChain));
    assert!(kinds.contains(&TokenKind::BlockFuncEnd));
}

#[test]
fn digit_leading_identifiers() {
    let ks = kinds("1a 9lives 123abc 123_456 1_foo");
    assert_eq!(ks[0], Ident);
    assert_eq!(ks[1], Ident);
    assert_eq!(ks[2], Ident);
    assert_eq!(ks[3], Ident);
    assert_eq!(ks[4], Ident);
}

#[test]
fn pure_digit_sequences_are_numbers() {
    let ks = kinds("1 123 000");
    assert_eq!(ks[0], NumLit);
    assert_eq!(ks[1], NumLit);
    assert_eq!(ks[2], NumLit);
}

#[test]
fn invalid_decimal_forms_error() {
    let mut lx = Lexer::new(".5");
    assert!(lx.tokenize().is_err());

    let mut lx = Lexer::new("1.");
    assert!(lx.tokenize().is_err());

    let mut lx = Lexer::new("1..2");
    assert!(lx.tokenize().is_err());
}

#[test]
fn guard_token() {
    let ks = kinds("x ?= y;");
    assert!(ks.contains(&Guard));
}

#[test]
fn tokens_carry_text_and_byte_offsets() {
    let tokens = Lexer::new("ab  \"h\u{e9}\" 12.5;").tokenize().unwrap();
    let got: Vec<(TokenKind, &str, usize)> =
        tokens.iter().map(|t| (t.kind, t.lexeme.as_str(), t.pos)).collect();
    assert_eq!(
        got,
        vec![
            (Ident, "ab", 0),
            (TextLit, "h\u{e9}", 4),
            (DecLit, "12.5", 10),
            (TokenKind::Semicolon, ";", 14),
            (Eof, "", 15),
        ]
    );
}

#[test]
fn empty_input_is_one_end_marker() {
    let tokens = Lexer::new("").tokenize().unwrap();
    assert_eq!(tokens.len(), 1);
    assert_eq!(tokens[0].kind, Eof);
    assert_eq!(tokens[0].pos, 0);
    let tokens = Lexer::new(" \t\n\u{a0}\u{2003}").tokenize().unwrap();
    assert_eq!(tokens.len(), 1);
    assert_eq!(tokens[0].pos, 8);
}

#[test]
fn lexical_errors_name_the_offending_byte() {
    assert_eq!(
        Lexer::new(".5").tokenize().unwrap_err(),
        LexError::UnexpectedChar { ch: '.', pos: 0 }
    );
    assert_eq!(
        Lexer::new("x 1.").tokenize().unwrap_err(),
        LexError::UnexpectedChar { ch: '.', pos: 3 }
    );
    assert_eq!(
        Lexer::new("1..2").tokenize().unwrap_err(),
        LexError::UnexpectedChar { ch: '.', pos: 1 }
    );
    assert_eq!(
        Lexer::new("a \u{e9} #").tokenize().unwrap_err(),
        LexError::UnexpectedChar { ch: '\u{e9}', pos: 2 }
    );
    assert_eq!(
        Lexer::new("x = \"abc").tokenize().unwrap_err(),
        LexError::UnterminatedText { pos: 4 }
    );
}

#[test]
fn longest_match_wins() {
    assert_eq!(
        kinds("a=;b==c=d)(e):f"),
        vec![
            Ident,
            TokenKind::DefineEmpty,
            Ident,
            TokenKind::Eq,
            Ident,
            TokenKind::Define,
            Ident,
            TokenKind::BlockFuncChain,
            Ident,
            TokenKind::BlockFuncEnd,
            Ident,
            Eof
        ]
    );
    assert_eq!(
        kinds("&? |? !? |> -> <- < > <= >= + - * / % ( ) ,"),
        vec![
            TokenKind::And,
            TokenKind::Or,
            TokenKind::Not,
            TokenKind::Pipe,
            TokenKind::ArrowR,
            TokenKind::ArrowL,
            TokenKind::Lt,
            TokenKind::Gt,
            TokenKind::Le,
            TokenKind::Ge,
            TokenKind::Add,
            TokenKind::Sub,
            TokenKind::Mul,
            TokenKind::Div,
            TokenKind::Mod,
            TokenKind::LParen,
            TokenKind::RParen,
            TokenKind::Comma,
            Eof
        ]
    );
}

#[test]
fn decimal_followed_by_word_splits() {
    assert_eq!(kinds("1.5abc"), vec![DecLit, Ident, Eof]);
    assert_eq!(kinds("Num NUM dec flag"), vec![Ident, Ident, TokenKind::KwDec, TokenKind::KwFlag, Eof]);
}

#[test]
fn a_second_call_continues_from_the_cursor() {
    let mut lx = Lexer::new("a 1. b");
    assert!(lx.tokenize().is_err());
    let rest = lx.tokenize().unwrap();
    let ks: Vec<TokenKind> = rest.iter().map(|t| t.kind).collect();
    assert_eq!(ks, vec![Ident, Eof]);
    let again = lx.tokenize().unwrap();
    assert_eq!(again.len(), 1);
    assert_eq!(again[0].pos, 6);
}

#[test]
fn lexical_errors_become_diagnostics() {
    let src = "x = #;";
    let err = Lexer::new(src).tokenize().unwrap_err();
    let d = err.to_diagnostic();
    assert_eq!(d.severity, Severity::Error);
    assert_eq!(d.message, "unexpected character");
    assert_eq!(d.span, Span { start: 4, end: 4 });
    assert_eq!(
        render(&d, &Source::new(src.to_string())),
        "error: unexpected character\n --> line 1, column 5\n  |\n1 | x = #;\n  |     ^\n\nhelp: This character starts no Druim token.\n"
    );
    let d = LexError::UnterminatedText { pos: 7 }.to_diagnostic();
    assert_eq!(d.message, "unterminated text literal");
    assert_eq!(d.span, Span { start: 7, end: 7 });
    assert!(d.help.unwrap().contains("closing"));
}
