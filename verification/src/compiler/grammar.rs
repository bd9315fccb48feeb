//! The grammar as mathematics: what the parser makes of a token sequence.
//!
//! Every function here reads the tokens from an index on and gives either
//! the node it finds together with the index after it, or the one
//! diagnostic that ends the parse.
//!
//! Where a function goes on after a nested parse, it first tests that the
//! nested parse has moved forward. The test makes the definition
//! well-founded; it never fails, which `law_parse_moves_forward` and its
//! companions prove, so what stands in its `else` is of no account.

use vstd::prelude::*;
use crate::compiler::ast::{ExprView, LiteralView, ParamView, ProgramView, StmtView};
use crate::compiler::error::{DiagnosticView, Span};
use crate::compiler::lexer::is_digit;
use crate::compiler::messages;
use crate::compiler::messages::alias_texts;
use crate::compiler::token::{TokenKind, TokenView};

verus! {

/// Kind of the token at `i`; the end marker past the last token.
pub open spec fn kind_at(toks: Seq<TokenView>, i: int) -> TokenKind {
    if 0 <= i < toks.len() {
        toks[i].kind
    } else {
        TokenKind::Eof
    }
}

/// The byte range of a token's text.
pub open spec fn token_span(t: TokenView) -> Span {
    Span { start: t.pos, end: t.end() as usize }
}

/// The span reported at index `i`: that of the token there, or the empty
/// span at the end of the last token where the input has ended.
pub open spec fn span_at(toks: Seq<TokenView>, i: int) -> Span {
    if 0 <= i < toks.len() {
        token_span(toks[i])
    } else if toks.len() > 0 {
        Span { start: toks.last().end() as usize, end: toks.last().end() as usize }
    } else {
        Span { start: 0, end: 0 }
    }
}

/// The token at `i`, or an end marker at the current position.
pub open spec fn token_or_end(toks: Seq<TokenView>, i: int) -> TokenView {
    if 0 <= i < toks.len() {
        toks[i]
    } else {
        TokenView { kind: TokenKind::Eof, lexeme: Seq::empty(), pos: span_at(toks, i).start }
    }
}

/// The index after consuming the token at `i`; `i` itself at the end.
pub open spec fn after(toks: Seq<TokenView>, i: int) -> int {
    if 0 <= i < toks.len() {
        i + 1
    } else {
        i
    }
}

/// An error diagnostic with a help text.
pub open spec fn fail(message: Seq<char>, span: Span, help: Seq<char>) -> DiagnosticView {
    DiagnosticView::error(message, span).with_help(help)
}

/// The operators that define a statement: `=`, `=;`, `:=`, `:>`, `?=`.
pub open spec fn is_statement_operator(kind: TokenKind) -> bool {
    kind == TokenKind::Define || kind == TokenKind::DefineEmpty || kind == TokenKind::Bind || kind
        == TokenKind::Cast || kind == TokenKind::Guard
}

/// What may not appear inside a terminated statement: a statement
/// operator or the `ret` keyword.
pub open spec fn starts_statement(kind: TokenKind) -> bool {
    is_statement_operator(kind) || kind == TokenKind::KwRet
}

/// The tokens that bound a statement: `;`, `}:` and `):`.
pub open spec fn is_boundary(kind: TokenKind) -> bool {
    kind == TokenKind::Semicolon || kind == TokenKind::BlockStmtEnd || kind
        == TokenKind::BlockFuncEnd
}

/// Index of the `;` that terminates the statement at `i`: the first
/// boundary token from `i` on, if that is a semicolon.
pub open spec fn statement_end(toks: Seq<TokenView>, i: int) -> Option<int>
    decreases toks.len() - i,
{
    if !(0 <= i < toks.len()) {
        None
    } else if toks[i].kind == TokenKind::Semicolon {
        Some(i)
    } else if is_boundary(toks[i].kind) {
        None
    } else {
        statement_end(toks, i + 1)
    }
}

/// The first statement operator or `ret` in the statement at `i`, before
/// its boundary: it decides which statement is parsed.
pub open spec fn statement_lead(toks: Seq<TokenView>, i: int) -> Option<TokenKind>
    decreases toks.len() - i,
{
    if !(0 <= i < toks.len()) {
        None
    } else if starts_statement(toks[i].kind) {
        Some(toks[i].kind)
    } else if is_boundary(toks[i].kind) {
        None
    } else {
        statement_lead(toks, i + 1)
    }
}

/// First index in `[from, to)` that holds a statement operator or `ret`.
pub open spec fn first_chained(toks: Seq<TokenView>, from: int, to: int) -> Option<int>
    decreases to - from,
{
    if !(0 <= from < to && from < toks.len()) {
        None
    } else if starts_statement(toks[from].kind) {
        Some(from)
    } else {
        first_chained(toks, from + 1, to)
    }
}

/// First index from `from` on that holds a token of kind `kind`.
pub open spec fn find_kind(toks: Seq<TokenView>, from: int, kind: TokenKind) -> Option<int>
    decreases toks.len() - from,
{
    if !(0 <= from < toks.len()) {
        None
    } else if toks[from].kind == kind {
        Some(from)
    } else {
        find_kind(toks, from + 1, kind)
    }
}

/// The infix operators, tightest first.
#[derive(Debug, Clone, Copy, PartialEq, Eq, Structural)]
pub enum Infix {
    Call,
    Mul,
    Div,
    Mod,
    Add,
    Sub,
    Lt,
    Le,
    Gt,
    Ge,
    Eq,
    Ne,
    And,
    Or,
    Has,
    Present,
    Pipe,
}

/// How tightly an infix operator binds on its two sides.
#[derive(Debug, Clone, Copy, PartialEq, Eq, Structural)]
pub struct Binding {
    pub left: u8,
    pub right: u8,
    pub op: Infix,
}

/// Binding power of the prefix operators: tighter than any binary one.
pub const PREFIX_BP: u8 = 90;

/// One binding-power pair per infix operator; the right power is one
/// more than the left, which makes every operator left-associative.
pub open spec fn infix_binding_power(kind: TokenKind) -> Option<Binding> {
    match kind {
        TokenKind::LParen => Some(Binding { left: 95, right: 96, op: Infix::Call }),
        TokenKind::Mul => Some(Binding { left: 70, right: 71, op: Infix::Mul }),
        TokenKind::Div => Some(Binding { left: 70, right: 71, op: Infix::Div }),
        TokenKind::Mod => Some(Binding { left: 70, right: 71, op: Infix::Mod }),
        TokenKind::Add => Some(Binding { left: 60, right: 61, op: Infix::Add }),
        TokenKind::Sub => Some(Binding { left: 60, right: 61, op: Infix::Sub }),
        TokenKind::Lt => Some(Binding { left: 50, right: 51, op: Infix::Lt }),
        TokenKind::Le => Some(Binding { left: 50, right: 51, op: Infix::Le }),
        TokenKind::Gt => Some(Binding { left: 50, right: 51, op: Infix::Gt }),
        TokenKind::Ge => Some(Binding { left: 50, right: 51, op: Infix::Ge }),
        TokenKind::Eq => Some(Binding { left: 45, right: 46, op: Infix::Eq }),
        TokenKind::Ne => Some(Binding { left: 45, right: 46, op: Infix::Ne }),
        TokenKind::And => Some(Binding { left: 30, right: 31, op: Infix::And }),
        TokenKind::Or => Some(Binding { left: 25, right: 26, op: Infix::Or }),
        TokenKind::Has => Some(Binding { left: 22, right: 23, op: Infix::Has }),
        TokenKind::Present => Some(Binding { left: 22, right: 23, op: Infix::Present }),
        TokenKind::Pipe => Some(Binding { left: 20, right: 21, op: Infix::Pipe }),
        _ => None,
    }
}

/// The node of a binary operator over its two operands. A call is no
/// binary node: its arguments are a list.
pub open spec fn build_infix(op: Infix, lhs: ExprView, rhs: ExprView) -> ExprView
    recommends
        op != Infix::Call,
{
    match op {
        Infix::Call => ExprView::Call { callee: Box::new(lhs), args: seq![rhs] },
        Infix::Mul => ExprView::Mul(Box::new(lhs), Box::new(rhs)),
        Infix::Div => ExprView::Div(Box::new(lhs), Box::new(rhs)),
        Infix::Mod => ExprView::Mod(Box::new(lhs), Box::new(rhs)),
        Infix::Add => ExprView::Add(Box::new(lhs), Box::new(rhs)),
        Infix::Sub => ExprView::Sub(Box::new(lhs), Box::new(rhs)),
        Infix::Lt => ExprView::Lt(Box::new(lhs), Box::new(rhs)),
        Infix::Le => ExprView::Le(Box::new(lhs), Box::new(rhs)),
        Infix::Gt => ExprView::Gt(Box::new(lhs), Box::new(rhs)),
        Infix::Ge => ExprView::Ge(Box::new(lhs), Box::new(rhs)),
        Infix::Eq => ExprView::Eq(Box::new(lhs), Box::new(rhs)),
        Infix::Ne => ExprView::Ne(Box::new(lhs), Box::new(rhs)),
        Infix::And => ExprView::And(Box::new(lhs), Box::new(rhs)),
        Infix::Or => ExprView::Or(Box::new(lhs), Box::new(rhs)),
        Infix::Has => ExprView::Has(Box::new(lhs), Box::new(rhs)),
        Infix::Present => ExprView::Present(Box::new(lhs), Box::new(rhs)),
        Infix::Pipe => ExprView::Pipe(Box::new(lhs), Box::new(rhs)),
    }
}

/// The number a run of digits writes.
pub open spec fn digits_value(s: Seq<char>) -> nat
    decreases s.len(),
{
    if s.len() == 0 {
        0
    } else {
        digits_value(s.drop_last()) * 10 + ((s.last() as u32 - '0' as u32) as nat)
    }
}

pub open spec fn all_digits(s: Seq<char>) -> bool {
    forall|i: int| 0 <= i < s.len() ==> is_digit(#[trigger] s[i])
}

/// The value of an integer literal: the number its text writes, an
/// optional sign before the digits; 0 where the text writes no integer
/// or one out of the range of `i64`.
pub open spec fn num_value(s: Seq<char>) -> i64 {
    let signed = s.len() > 0 && (s[0] == '+' || s[0] == '-');
    let digits = if signed {
        s.skip(1)
    } else {
        s
    };
    let magnitude = digits_value(digits) as int;
    let value = if signed && s[0] == '-' {
        -magnitude
    } else {
        magnitude
    };
    if digits.len() > 0 && all_digits(digits) && i64::MIN <= value <= i64::MAX {
        value as i64
    } else {
        0
    }
}

/// Function names are snake case: lower-case letters, digits and single
/// underscores, with no underscore first or last.
pub open spec fn is_snake_case(name: Seq<char>) -> bool {
    &&& forall|i: int|
        0 <= i < name.len() ==> ('a' <= #[trigger] name[i] <= 'z') || is_digit(name[i]) || name[i]
            == '_'
    &&& forall|i: int| 0 <= i < name.len() - 1 ==> !(#[trigger] name[i] == '_' && name[i + 1] == '_')
    &&& name.len() > 0 ==> name[0] != '_' && name.last() != '_'
}

/// Checks that the token at `i` is of kind `kind` and steps over it.
pub open spec fn expect(toks: Seq<TokenView>, i: int, kind: TokenKind, expected: Seq<char>) -> Result<
    int,
    DiagnosticView,
> {
    if !(0 <= i < toks.len()) {
        Err(
            fail(
                messages::UNEXPECTED_END@,
                Span { start: span_at(toks, i).start, end: span_at(toks, i).start },
                expected,
            ),
        )
    } else if toks[i].kind != kind {
        Err(fail(messages::UNEXPECTED_TOKEN@, token_span(toks[i]), expected))
    } else {
        Ok(i + 1)
    }
}

/// A value at `i`: an expression. A lone identifier is a value only
/// where `bare` allows it, which it does in the branches of a guard.
pub open spec fn parse_value(toks: Seq<TokenView>, i: int, bare: bool) -> Result<
    (ExprView, int),
    DiagnosticView,
>
    decreases toks.len() - i, 2int,
{
    match parse_bp(toks, i, 0) {
        Err(d) => Err(d),
        Ok((e, j)) => {
            if e is Ident && !bare {
                Err(fail(messages::INVALID_VALUE@, span_at(toks, i), messages::BARE_IDENT_HELP@))
            } else {
                Ok((e, j))
            }
        },
    }
}

/// A call at `i`: a name, `(`, the arguments and `)`.
pub open spec fn parse_call(toks: Seq<TokenView>, i: int) -> Result<(ExprView, int), DiagnosticView> {
    if !(0 <= i < toks.len()) {
        Err(fail(messages::UNEXPECTED_END@, span_at(toks, i), messages::CALL_END_HELP@))
    } else if toks[i].kind != TokenKind::Ident {
        Err(fail(messages::INVALID_CALL@, token_span(toks[i]), messages::CALL_NAME_HELP@))
    } else if !(i + 1 < toks.len() && toks[i + 1].kind == TokenKind::LParen) {
        Err(fail(messages::INVALID_CALL@, span_at(toks, i + 1), messages::CALL_OPEN_HELP@))
    } else {
        match parse_args(toks, i + 2) {
            Err(d) => Err(d),
            Ok((args, j)) => Ok(
                (ExprView::Call { callee: Box::new(ExprView::Ident(toks[i].lexeme)), args }, j),
            ),
        }
    }
}

/// The arguments of a call, from just after `(` up to and with `)`.
pub open spec fn parse_args(toks: Seq<TokenView>, i: int) -> Result<
    (Seq<ExprView>, int),
    DiagnosticView,
>
    decreases toks.len() - i, 4int,
{
    if kind_at(toks, i) == TokenKind::RParen {
        Ok((Seq::empty(), i + 1))
    } else {
        parse_arg_list(toks, i, Seq::empty())
    }
}

/// One or more values separated by commas and closed by `)`, after the
/// arguments `acc`.
pub open spec fn parse_arg_list(toks: Seq<TokenView>, i: int, acc: Seq<ExprView>) -> Result<
    (Seq<ExprView>, int),
    DiagnosticView,
>
    decreases toks.len() - i, 3int,
{
    match parse_value(toks, i, false) {
        Err(d) => Err(d),
        Ok((e, j)) => {
            if kind_at(toks, j) == TokenKind::Comma {
                if i <= j < toks.len() {
                    parse_arg_list(toks, j + 1, acc.push(e))
                } else {
                    arbitrary()
                }
            } else if kind_at(toks, j) == TokenKind::RParen {
                Ok((acc.push(e), j + 1))
            } else {
                Err(fail(messages::INVALID_CALL@, span_at(toks, j), messages::CALL_ARGS_HELP@))
            }
        },
    }
}

/// An expression at `i` whose infix operators all bind at least as
/// tightly as `min_bp`, by precedence climbing.
pub open spec fn parse_bp(toks: Seq<TokenView>, i: int, min_bp: u8) -> Result<
    (ExprView, int),
    DiagnosticView,
>
    decreases toks.len() - i, 1int,
{
    match parse_prefix(toks, i) {
        Err(d) => Err(d),
        Ok((lhs, j)) => {
            if i < j <= toks.len() {
                parse_infix(toks, j, lhs, min_bp)
            } else {
                arbitrary()
            }
        },
    }
}

/// Extends the operand `lhs`, which ends before `i`, by the infix
/// operators that follow it and bind at least as tightly as `min_bp`.
pub open spec fn parse_infix(toks: Seq<TokenView>, i: int, lhs: ExprView, min_bp: u8) -> Result<
    (ExprView, int),
    DiagnosticView,
>
    decreases toks.len() - i, 0int,
{
    if !(0 <= i < toks.len()) {
        Ok((lhs, i))
    } else {
        match infix_binding_power(toks[i].kind) {
            None => Ok((lhs, i)),
            Some(binding) => {
                if binding.left < min_bp {
                    Ok((lhs, i))
                } else if binding.op == Infix::Call {
                    match parse_args(toks, i + 1) {
                        Err(d) => Err(d),
                        Ok((args, j)) => {
                            if i < j <= toks.len() {
                                parse_infix(
                                    toks,
                                    j,
                                    ExprView::Call { callee: Box::new(lhs), args },
                                    min_bp,
                                )
                            } else {
                                arbitrary()
                            }
                        },
                    }
                } else {
                    match parse_bp(toks, i + 1, binding.right) {
                        Err(d) => Err(d),
                        Ok((rhs, j)) => {
                            if i < j <= toks.len() {
                                parse_infix(toks, j, build_infix(binding.op, lhs, rhs), min_bp)
                            } else {
                                arbitrary()
                            }
                        },
                    }
                }
            },
        }
    }
}

/// An operand at `i`: an identifier, a literal, a prefix operator with
/// its operand, or a parenthesised expression. Statement-only constructs
/// are refused as values, apart from other unexpected tokens.
pub open spec fn parse_prefix(toks: Seq<TokenView>, i: int) -> Result<
    (ExprView, int),
    DiagnosticView,
>
    decreases toks.len() - i, 0int,
{
    if !(0 <= i < toks.len()) {
        Err(
            fail(
                messages::UNEXPECTED_END@,
                Span { start: span_at(toks, i).start, end: span_at(toks, i).start },
                messages::VALUE_END_HELP@,
            ),
        )
    } else {
        let t = toks[i];
        match t.kind {
            TokenKind::Ident => Ok((ExprView::Ident(t.lexeme), i + 1)),
            TokenKind::NumLit => Ok((ExprView::Lit(LiteralView::Num(num_value(t.lexeme))), i + 1)),
            TokenKind::DecLit => Ok((ExprView::Lit(LiteralView::Dec(t.lexeme)), i + 1)),
            TokenKind::TextLit => Ok((ExprView::Lit(LiteralView::Text(t.lexeme)), i + 1)),
            TokenKind::KwVoid => Ok((ExprView::Lit(LiteralView::Void), i + 1)),
            TokenKind::Not => match parse_bp(toks, i + 1, PREFIX_BP) {
                Err(d) => Err(d),
                Ok((e, j)) => Ok((ExprView::Not(Box::new(e)), j)),
            },
            TokenKind::Sub => match parse_bp(toks, i + 1, PREFIX_BP) {
                Err(d) => Err(d),
                Ok((e, j)) => Ok((ExprView::Neg(Box::new(e)), j)),
            },
            TokenKind::LParen => match parse_bp(toks, i + 1, 0) {
                Err(d) => Err(d),
                Ok((e, j)) => match expect(toks, j, TokenKind::RParen, messages::CLOSING_PAREN@) {
                    Err(d) => Err(d),
                    Ok(k) => Ok((e, k)),
                },
            },
            TokenKind::Define
            | TokenKind::DefineEmpty
            | TokenKind::Bind
            | TokenKind::Cast
            | TokenKind::Guard => Err(fail(
                messages::INVALID_VALUE@,
                token_span(t),
                messages::OPERATOR_VALUE_HELP@,
            )),
            TokenKind::KwFn | TokenKind::KwLoc | TokenKind::KwRet | TokenKind::BlockStmtStart => Err(
                fail(messages::INVALID_VALUE@, token_span(t), messages::CONSTRUCT_VALUE_HELP@),
            ),
            _ => Err(fail(messages::UNEXPECTED_VALUE_TOKEN@, token_span(t), messages::VALUE_HELP@)),
        }
    }
}

/// An expression at `i`.
pub open spec fn parse_expr(toks: Seq<TokenView>, i: int) -> Result<(ExprView, int), DiagnosticView> {
    parse_bp(toks, i, 0)
}

/// A value that parses ends past its start and within the tokens.
pub proof fn lemma_value_advances(toks: Seq<TokenView>, i: int, bare: bool)
    ensures
        parse_value(toks, i, bare) matches Ok((_, j)) ==> i < j <= toks.len(),
    decreases toks.len() - i, 2int,
{
    lemma_bp_advances(toks, i, 0);
}

/// A call that parses ends past its start and within the tokens.
pub proof fn lemma_call_advances(toks: Seq<TokenView>, i: int)
    ensures
        parse_call(toks, i) matches Ok((e, j)) ==> i < j <= toks.len() && e is Call,
{
    if 0 <= i < toks.len() && toks[i].kind == TokenKind::Ident && i + 1 < toks.len() && toks[i
        + 1].kind == TokenKind::LParen {
        lemma_args_advance(toks, i + 2);
    }
}

/// An argument list that parses ends past its start and within the
/// tokens.
pub proof fn lemma_args_advance(toks: Seq<TokenView>, i: int)
    ensures
        parse_args(toks, i) matches Ok((_, j)) ==> i < j <= toks.len(),
    decreases toks.len() - i, 4int,
{
    if kind_at(toks, i) != TokenKind::RParen {
        lemma_arg_list_advances(toks, i, Seq::empty());
    }
}

pub proof fn lemma_arg_list_advances(toks: Seq<TokenView>, i: int, acc: Seq<ExprView>)
    ensures
        parse_arg_list(toks, i, acc) matches Ok((_, j)) ==> i < j <= toks.len(),
    decreases toks.len() - i, 3int,
{
    lemma_value_advances(toks, i, false);
    match parse_value(toks, i, false) {
        Err(d) => {},
        Ok((e, j)) => {
            if kind_at(toks, j) == TokenKind::Comma {
                lemma_arg_list_advances(toks, j + 1, acc.push(e));
            }
        },
    }
}

/// An expression that parses ends past its start and within the tokens.
pub proof fn lemma_bp_advances(toks: Seq<TokenView>, i: int, min_bp: u8)
    ensures
        parse_bp(toks, i, min_bp) matches Ok((_, j)) ==> i < j <= toks.len(),
    decreases toks.len() - i, 1int,
{
    lemma_prefix_advances(toks, i);
    match parse_prefix(toks, i) {
        Err(d) => {},
        Ok((lhs, j)) => {
            lemma_infix_advances(toks, j, lhs, min_bp);
        },
    }
}

/// The infix operators after an operand never move the parse back.
pub proof fn lemma_infix_advances(toks: Seq<TokenView>, i: int, lhs: ExprView, min_bp: u8)
    requires
        0 <= i <= toks.len(),
    ensures
        parse_infix(toks, i, lhs, min_bp) matches Ok((_, j)) ==> i <= j <= toks.len(),
    decreases toks.len() - i, 0int,
{
    if 0 <= i < toks.len() {
        match infix_binding_power(toks[i].kind) {
            None => {},
            Some(binding) => {
                if binding.left < min_bp {
                } else if binding.op == Infix::Call {
                    lemma_args_advance(toks, i + 1);
                    match parse_args(toks, i + 1) {
                        Err(d) => {},
                        Ok((args, j)) => {
                            lemma_infix_advances(
                                toks,
                                j,
                                ExprView::Call { callee: Box::new(lhs), args },
                                min_bp,
                            );
                        },
                    }
                } else {
                    lemma_bp_advances(toks, i + 1, binding.right);
                    match parse_bp(toks, i + 1, binding.right) {
                        Err(d) => {},
                        Ok((rhs, j)) => {
                            lemma_infix_advances(
                                toks,
                                j,
                                build_infix(binding.op, lhs, rhs),
                                min_bp,
                            );
                        },
                    }
                }
            },
        }
    }
}

/// An operand that parses ends past its start and within the tokens.
pub proof fn lemma_prefix_advances(toks: Seq<TokenView>, i: int)
    ensures
        parse_prefix(toks, i) matches Ok((_, j)) ==> i < j <= toks.len(),
    decreases toks.len() - i, 0int,
{
    if 0 <= i < toks.len() {
        match toks[i].kind {
            TokenKind::Not => {
                lemma_bp_advances(toks, i + 1, PREFIX_BP);
            },
            TokenKind::Sub => {
                lemma_bp_advances(toks, i + 1, PREFIX_BP);
            },
            TokenKind::LParen => {
                lemma_bp_advances(toks, i + 1, 0);
            },
            _ => {},
        }
    }
}

/// Ends the statement `s`, whose last token stands before `j`: the
/// terminator is expected right there.
pub open spec fn end_statement(toks: Seq<TokenView>, j: int, s: StmtView, invalid: Seq<char>) -> Result<
    (StmtView, int),
    DiagnosticView,
> {
    if kind_at(toks, j) == TokenKind::Semicolon {
        Ok((s, j + 1))
    } else {
        Err(fail(invalid, span_at(toks, j), messages::STATEMENT_END_HELP@))
    }
}

/// `ret;` or `ret value;` at `i`. The token at `i` is consumed as the
/// keyword; the value may hold no statement operator or second `ret`.
pub open spec fn parse_ret(toks: Seq<TokenView>, i: int) -> Result<(StmtView, int), DiagnosticView> {
    let start = after(toks, i);
    match statement_end(toks, start) {
        None => Err(
            fail(
                messages::UNTERMINATED_RETURN@,
                span_at(toks, start),
                messages::UNTERMINATED_RETURN_HELP@,
            ),
        ),
        Some(end) => {
            if kind_at(toks, start) == TokenKind::Semicolon {
                Ok((StmtView::Return { value: None }, start + 1))
            } else {
                match first_chained(toks, start, end) {
                    Some(at) => Err(fail(
                        messages::INVALID_RETURN@,
                        token_span(toks[at]),
                        messages::RETURN_CHAIN_HELP@,
                    )),
                    None => match parse_value(toks, start, false) {
                        Err(d) => Err(d),
                        Ok((value, j)) => end_statement(
                            toks,
                            j,
                            StmtView::Return { value: Some(value) },
                            messages::INVALID_RETURN@,
                        ),
                    },
                }
            }
        },
    }
}

/// Index of the statement's name: `i`, or the token after a leading `loc`.
pub open spec fn name_index(toks: Seq<TokenView>, i: int) -> int {
    if kind_at(toks, i) == TokenKind::KwLoc {
        i + 1
    } else {
        i
    }
}

/// The left-hand side of a statement at `i`: exactly one identifier,
/// after `loc` or not, and right after it the operator `op`. Gives the
/// name and the index after the operator.
pub open spec fn parse_head(
    toks: Seq<TokenView>,
    i: int,
    op: TokenKind,
    invalid: Seq<char>,
    help: Seq<char>,
) -> Result<(Seq<char>, int), DiagnosticView> {
    let n = name_index(toks, i);
    let name = token_or_end(toks, n);
    if name.kind != TokenKind::Ident {
        Err(fail(invalid, token_span(name), help))
    } else if kind_at(toks, n + 1) != op {
        Err(fail(invalid, span_at(toks, n + 1), help))
    } else {
        Ok((name.lexeme, n + 2))
    }
}

/// `name =;` at `i`, not directly followed by another statement operator.
pub open spec fn parse_define_empty(toks: Seq<TokenView>, i: int) -> Result<
    (StmtView, int),
    DiagnosticView,
> {
    match parse_head(
        toks,
        i,
        TokenKind::DefineEmpty,
        messages::INVALID_DEFINE_EMPTY@,
        messages::DEFINE_EMPTY_START_HELP@,
    ) {
        Err(d) => Err(d),
        Ok((name, next)) => {
            if is_statement_operator(kind_at(toks, next)) {
                Err(fail(
                    messages::INVALID_DEFINE_EMPTY@,
                    span_at(toks, next),
                    messages::DEFINE_EMPTY_CHAIN_HELP@,
                ))
            } else {
                Ok((StmtView::DefineEmpty { name }, next))
            }
        },
    }
}

/// `name = value;` at `i`.
pub open spec fn parse_define(toks: Seq<TokenView>, i: int) -> Result<
    (StmtView, int),
    DiagnosticView,
> {
    match statement_end(toks, i) {
        None => Err(fail(
            messages::UNTERMINATED_DEFINE@,
            span_at(toks, i),
            messages::UNTERMINATED_DEFINE_HELP@,
        )),
        Some(end) => match parse_head(
            toks,
            i,
            TokenKind::Define,
            messages::INVALID_DEFINE@,
            messages::DEFINE_START_HELP@,
        ) {
            Err(d) => Err(d),
            Ok((name, value_at)) => {
                if kind_at(toks, value_at) == TokenKind::Semicolon {
                    Err(fail(
                        messages::INVALID_DEFINE@,
                        span_at(toks, value_at),
                        messages::DEFINE_VALUE_HELP@,
                    ))
                } else {
                    match first_chained(toks, value_at, end) {
                        Some(at) => Err(
                            fail(
                                messages::INVALID_DEFINE@,
                                token_span(toks[at]),
                                messages::DEFINE_CHAIN_HELP@,
                            ),
                        ),
                        None => {
                            if value_at + 1 == end && kind_at(toks, value_at) == TokenKind::Ident {
                                Err(
                                    fail(
                                        messages::INVALID_DEFINE@,
                                        span_at(toks, value_at),
                                        messages::DEFINE_IDENT_HELP@,
                                    ),
                                )
                            } else {
                                match parse_value(toks, value_at, false) {
                                    Err(d) => Err(d),
                                    Ok((value, j)) => end_statement(
                                        toks,
                                        j,
                                        StmtView::Define { name, value },
                                        messages::INVALID_DEFINE@,
                                    ),
                                }
                            }
                        },
                    }
                }
            },
        },
    }
}

/// `name := target;` where `copy` holds, else `name :> target;`, at `i`:
/// exactly one identifier on each side of the operator.
pub open spec fn parse_alias(toks: Seq<TokenView>, i: int, copy: bool) -> Result<
    (StmtView, int),
    DiagnosticView,
> {
    let texts = alias_texts(copy);
    let op = if copy {
        TokenKind::Bind
    } else {
        TokenKind::Cast
    };
    match statement_end(toks, i) {
        None => Err(fail(texts.unterminated@, span_at(toks, i), texts.unterminated_help@)),
        Some(end) => match parse_head(toks, i, op, texts.invalid@, texts.start_help@) {
            Err(d) => Err(d),
            Ok((name, t)) => {
                let target = token_or_end(toks, t);
                if target.kind != TokenKind::Ident {
                    Err(fail(texts.invalid@, token_span(target), texts.target_help@))
                } else {
                    match first_chained(toks, t + 1, end) {
                        Some(at) => Err(
                            fail(texts.invalid@, token_span(toks[at]), texts.chain_help@),
                        ),
                        None => end_statement(
                            toks,
                            t + 1,
                            if copy {
                                StmtView::Copy { name, target: target.lexeme }
                            } else {
                                StmtView::Bind { name, target: target.lexeme }
                            },
                            texts.invalid@,
                        ),
                    }
                }
            },
        },
    }
}

/// `name := target;` at `i`.
pub open spec fn parse_copy(toks: Seq<TokenView>, i: int) -> Result<(StmtView, int), DiagnosticView> {
    parse_alias(toks, i, true)
}

/// `name :> target;` at `i`.
pub open spec fn parse_bind(toks: Seq<TokenView>, i: int) -> Result<(StmtView, int), DiagnosticView> {
    parse_alias(toks, i, false)
}

/// The branches of a guard after the first: each `:` is followed by a
/// value. Ends at the first token that is no `:`.
pub open spec fn parse_branches(toks: Seq<TokenView>, i: int, acc: Seq<ExprView>) -> Result<
    (Seq<ExprView>, int),
    DiagnosticView,
>
    decreases toks.len() - i,
{
    if kind_at(toks, i) != TokenKind::Colon {
        Ok((acc, i))
    } else if kind_at(toks, i + 1) == TokenKind::Semicolon {
        Err(fail(messages::INVALID_GUARD@, span_at(toks, i + 1), messages::GUARD_BRANCH_HELP@))
    } else {
        match parse_value(toks, i + 1, true) {
            Err(d) => Err(d),
            Ok((e, j)) => {
                if i < j <= toks.len() {
                    parse_branches(toks, j, acc.push(e))
                } else {
                    arbitrary()
                }
            },
        }
    }
}

/// The guard of `target` over parsed branches, ended by the terminator.
pub open spec fn guard_of(
    toks: Seq<TokenView>,
    target: Seq<char>,
    branches: Result<(Seq<ExprView>, int), DiagnosticView>,
) -> Result<(StmtView, int), DiagnosticView> {
    match branches {
        Err(d) => Err(d),
        Ok((branches, k)) => end_statement(
            toks,
            k,
            StmtView::Guard { target, branches },
            messages::INVALID_GUARD@,
        ),
    }
}

/// `target ?= branch : branch;` at `i`, with at least one branch.
pub open spec fn parse_guard(toks: Seq<TokenView>, i: int) -> Result<(StmtView, int), DiagnosticView> {
    match statement_end(toks, i) {
        None => Err(fail(
            messages::UNTERMINATED_GUARD@,
            span_at(toks, i),
            messages::UNTERMINATED_GUARD_HELP@,
        )),
        Some(end) => match parse_head(
            toks,
            i,
            TokenKind::Guard,
            messages::INVALID_GUARD@,
            messages::GUARD_START_HELP@,
        ) {
            Err(d) => Err(d),
            Ok((name, first)) => {
                if kind_at(toks, first) == TokenKind::Semicolon || kind_at(toks, first)
                    == TokenKind::Colon {
                    Err(fail(
                        messages::INVALID_GUARD@,
                        span_at(toks, first),
                        messages::GUARD_VALUE_HELP@,
                    ))
                } else {
                    match first_chained(toks, first, end) {
                        Some(at) => Err(
                            fail(
                                messages::INVALID_GUARD@,
                                token_span(toks[at]),
                                messages::GUARD_CHAIN_HELP@,
                            ),
                        ),
                        None => match parse_value(toks, first, true) {
                            Err(d) => Err(d),
                            Ok((branch, j)) => guard_of(
                                toks,
                                name,
                                parse_branches(toks, j, seq![branch]),
                            ),
                        },
                    }
                }
            },
        },
    }
}

/// The call statement of a parsed call.
pub open spec fn statement_of_call(call: ExprView) -> StmtView {
    match call {
        ExprView::Call { callee, args } => StmtView::Call { callee: *callee, args },
        _ => StmtView::Call { callee: call, args: Seq::empty() },
    }
}

/// `name(args);` at `i`: the one expression that is a statement.
pub open spec fn parse_call_statement(toks: Seq<TokenView>, i: int) -> Result<
    (StmtView, int),
    DiagnosticView,
> {
    match statement_end(toks, i) {
        None => Err(fail(
            messages::UNTERMINATED_CALL@,
            span_at(toks, i),
            messages::UNTERMINATED_CALL_HELP@,
        )),
        Some(end) => {
            if toks[i].kind != TokenKind::Ident {
                Err(fail(
                    messages::INVALID_CALL_STATEMENT@,
                    token_span(toks[i]),
                    messages::CALL_START_HELP@,
                ))
            } else if kind_at(toks, i + 1) != TokenKind::LParen {
                Err(fail(
                    messages::INVALID_CALL_STATEMENT@,
                    span_at(toks, i + 1),
                    messages::CALL_BARE_HELP@,
                ))
            } else {
                match first_chained(toks, i + 1, end) {
                    Some(at) => Err(
                        fail(
                            messages::INVALID_CALL_STATEMENT@,
                            token_span(toks[at]),
                            messages::CALL_CHAIN_HELP@,
                        ),
                    ),
                    None => match parse_call(toks, i) {
                        Err(d) => Err(d),
                        Ok((call, j)) => end_statement(
                            toks,
                            j,
                            statement_of_call(call),
                            messages::INVALID_CALL_STATEMENT@,
                        ),
                    },
                }
            }
        },
    }
}

/// The statement at `i`, chosen by the first statement operator or `ret`
/// before the statement's boundary; a call statement where there is none.
pub open spec fn parse_statement(toks: Seq<TokenView>, i: int) -> Result<
    (StmtView, int),
    DiagnosticView,
> {
    match statement_lead(toks, i) {
        Some(TokenKind::KwRet) => parse_ret(toks, i),
        Some(TokenKind::Define) => parse_define(toks, i),
        Some(TokenKind::DefineEmpty) => parse_define_empty(toks, i),
        Some(TokenKind::Bind) => parse_copy(toks, i),
        Some(TokenKind::Cast) => parse_bind(toks, i),
        Some(TokenKind::Guard) => parse_guard(toks, i),
        _ => parse_call_statement(toks, i),
    }
}

/// The statements of a block from `i` up to and with its `}:`, after the
/// statements `acc`. A chain token `}{` joins two segments.
pub open spec fn parse_block_items(toks: Seq<TokenView>, i: int, acc: Seq<StmtView>) -> Result<
    (Seq<StmtView>, int),
    DiagnosticView,
>
    decreases toks.len() - i,
{
    if kind_at(toks, i) == TokenKind::BlockStmtEnd {
        Ok((acc, i + 1))
    } else if kind_at(toks, i) == TokenKind::BlockStmtChain {
        parse_block_items(toks, i + 1, acc)
    } else {
        match parse_statement(toks, i) {
            Err(d) => Err(d),
            Ok((s, j)) => {
                if i < j <= toks.len() {
                    parse_block_items(toks, j, acc.push(s))
                } else {
                    arbitrary()
                }
            },
        }
    }
}

/// The block of parsed statements.
pub open spec fn block_of(items: Result<(Seq<StmtView>, int), DiagnosticView>) -> Result<
    (StmtView, int),
    DiagnosticView,
> {
    match items {
        Err(d) => Err(d),
        Ok((stmts, j)) => Ok((StmtView::Block { stmts }, j)),
    }
}

/// A block at `i`. The closing `}:` is looked for before any statement
/// of the block is parsed.
pub open spec fn parse_block(toks: Seq<TokenView>, i: int) -> Result<(StmtView, int), DiagnosticView> {
    let start = after(toks, i);
    if find_kind(toks, start, TokenKind::BlockStmtEnd) is None {
        Err(fail(
            messages::UNTERMINATED_BLOCK@,
            span_at(toks, start),
            messages::UNTERMINATED_BLOCK_HELP@,
        ))
    } else {
        block_of(parse_block_items(toks, start, Seq::empty()))
    }
}

/// One parameter at `i`: `name` or `name = default`. The `loc` qualifier
/// is not allowed on a parameter.
pub open spec fn parse_param(toks: Seq<TokenView>, i: int) -> Result<
    (ParamView, int),
    DiagnosticView,
> {
    if kind_at(toks, i) == TokenKind::KwLoc {
        Err(fail(messages::INVALID_PARAMETER@, span_at(toks, i), messages::PARAMETER_LOC_HELP@))
    } else if !(0 <= i < toks.len()) {
        Err(fail(messages::INVALID_PARAMETER@, span_at(toks, i), messages::PARAMETER_NAME_HELP@))
    } else if toks[i].kind != TokenKind::Ident {
        Err(fail(messages::INVALID_PARAMETER@, token_span(toks[i]), messages::PARAMETER_NAME_HELP@))
    } else if kind_at(toks, i + 1) == TokenKind::Define {
        if kind_at(toks, i + 2) == TokenKind::Comma || kind_at(toks, i + 2)
            == TokenKind::BlockFuncChain {
            Err(fail(
                messages::INVALID_DEFAULT@,
                span_at(toks, i + 2),
                messages::DEFAULT_VALUE_HELP@,
            ))
        } else {
            match parse_value(toks, i + 2, false) {
                Err(d) => Err(d),
                Ok((value, j)) => Ok((ParamView { name: toks[i].lexeme, default: Some(value) }, j)),
            }
        }
    } else {
        Ok((ParamView { name: toks[i].lexeme, default: None }, i + 1))
    }
}

/// The parameters of a function from `i` up to its first `)(`, after the
/// parameters `acc`, separated by commas.
pub open spec fn parse_param_list(toks: Seq<TokenView>, i: int, acc: Seq<ParamView>) -> Result<
    (Seq<ParamView>, int),
    DiagnosticView,
>
    decreases toks.len() - i,
{
    match parse_param(toks, i) {
        Err(d) => Err(d),
        Ok((param, j)) => {
            if kind_at(toks, j) == TokenKind::Comma {
                if i <= j < toks.len() {
                    parse_param_list(toks, j + 1, acc.push(param))
                } else {
                    arbitrary()
                }
            } else if kind_at(toks, j) == TokenKind::BlockFuncChain {
                Ok((acc.push(param), j))
            } else {
                Err(fail(
                    messages::INVALID_PARAMETER_LIST@,
                    span_at(toks, j),
                    messages::PARAMETER_LIST_HELP@,
                ))
            }
        },
    }
}

/// The statements of one function body from `i` up to the next `)(` or
/// `):`, after the statements `acc`.
pub open spec fn parse_body_items(toks: Seq<TokenView>, i: int, acc: Seq<StmtView>) -> Result<
    (Seq<StmtView>, int),
    DiagnosticView,
>
    decreases toks.len() - i,
{
    if kind_at(toks, i) == TokenKind::BlockFuncChain || kind_at(toks, i)
        == TokenKind::BlockFuncEnd {
        Ok((acc, i))
    } else {
        match parse_statement(toks, i) {
            Err(d) => Err(d),
            Ok((s, j)) => {
                if i < j <= toks.len() {
                    parse_body_items(toks, j, acc.push(s))
                } else {
                    arbitrary()
                }
            },
        }
    }
}

/// The bodies of a function from `i` up to its `):`, after the bodies
/// `acc`. Each body is kept as a block, in order.
pub open spec fn parse_bodies(toks: Seq<TokenView>, i: int, acc: Seq<StmtView>) -> Result<
    (Seq<StmtView>, int),
    DiagnosticView,
>
    decreases toks.len() - i,
{
    match parse_body_items(toks, i, Seq::empty()) {
        Err(d) => Err(d),
        Ok((stmts, j)) => {
            let bodies = acc.push(StmtView::Block { stmts });
            if kind_at(toks, j) == TokenKind::BlockFuncChain {
                if i <= j < toks.len() {
                    parse_bodies(toks, j + 1, bodies)
                } else {
                    arbitrary()
                }
            } else {
                Ok((bodies, j))
            }
        },
    }
}

/// The function `name` over parsed parameters and bodies, with the token
/// after the bodies consumed as the closing `):`.
pub open spec fn func_of(
    toks: Seq<TokenView>,
    name: Seq<char>,
    params: Seq<ParamView>,
    bodies: Result<(Seq<StmtView>, int), DiagnosticView>,
) -> Result<(StmtView, int), DiagnosticView> {
    match bodies {
        Err(d) => Err(d),
        Ok((bodies, j)) => Ok((StmtView::Func { name, params, bodies }, after(toks, j))),
    }
}

/// The parameters of a function from `i`, just after `:(`, up to its
/// first `)(`.
pub open spec fn parse_params(toks: Seq<TokenView>, i: int) -> Result<
    (Seq<ParamView>, int),
    DiagnosticView,
> {
    if kind_at(toks, i) == TokenKind::BlockFuncChain {
        Ok((Seq::empty(), i))
    } else {
        parse_param_list(toks, i, Seq::empty())
    }
}

/// The head of a function at `i`: `fn`, a snake-case name and `:(`. That
/// the function closes with `):` and has a body, which is to say that
/// the token after its first `)(` is not `):`, is checked here, before
/// any parameter is parsed. Gives the name and the index after `:(`.
pub open spec fn parse_func_head(toks: Seq<TokenView>, i: int) -> Result<
    (Seq<char>, int),
    DiagnosticView,
> {
    let n = after(toks, i);
    let open = n + 1;
    let first = n + 2;
    if find_kind(toks, n, TokenKind::BlockFuncEnd) is None {
        Err(fail(
            messages::UNTERMINATED_FUNCTION@,
            span_at(toks, n),
            messages::UNTERMINATED_FUNCTION_HELP@,
        ))
    } else if toks[n].kind != TokenKind::Ident {
        Err(fail(messages::INVALID_FUNCTION@, token_span(toks[n]), messages::FUNCTION_NAME_HELP@))
    } else if !is_snake_case(toks[n].lexeme) {
        Err(fail(messages::INVALID_FUNCTION_NAME@, token_span(toks[n]), messages::SNAKE_CASE_HELP@))
    } else if kind_at(toks, open) != TokenKind::BlockFuncStart {
        Err(fail(messages::INVALID_FUNCTION@, span_at(toks, open), messages::FUNCTION_PARAMS_HELP@))
    } else {
        match find_kind(toks, first, TokenKind::BlockFuncChain) {
            None => Err(fail(
                messages::INCOMPLETE_FUNCTION@,
                span_at(toks, first),
                messages::FUNCTION_BODY_HELP@,
            )),
            Some(chain) => {
                if kind_at(toks, chain + 1) == TokenKind::BlockFuncEnd {
                    Err(fail(
                        messages::INCOMPLETE_FUNCTION@,
                        span_at(toks, first),
                        messages::FUNCTION_BODY_HELP@,
                    ))
                } else {
                    Ok((toks[n].lexeme, first))
                }
            },
        }
    }
}

/// A function at `i`: its head, the parameters up to the first `)(`, and
/// one or more bodies, each opened by `)(`, up to `):`.
pub open spec fn parse_func(toks: Seq<TokenView>, i: int) -> Result<(StmtView, int), DiagnosticView> {
    match parse_func_head(toks, i) {
        Err(d) => Err(d),
        Ok((name, first)) => match parse_params(toks, first) {
            Err(d) => Err(d),
            Ok((params, p)) => func_of(toks, name, params, parse_bodies(toks, p + 1, Seq::empty())),
        },
    }
}

/// The node at `i`: a block, a function, or a statement.
pub open spec fn parse_node(toks: Seq<TokenView>, i: int) -> Result<(StmtView, int), DiagnosticView> {
    if kind_at(toks, i) == TokenKind::BlockStmtStart {
        parse_block(toks, i)
    } else if kind_at(toks, i) == TokenKind::KwFn {
        parse_func(toks, i)
    } else {
        parse_statement(toks, i)
    }
}

/// The nodes from `i` up to the end marker, after the nodes `acc`. The
/// first defect ends the parse with its diagnostic.
pub open spec fn parse_nodes(toks: Seq<TokenView>, i: int, acc: Seq<StmtView>) -> Result<
    (Seq<StmtView>, int),
    DiagnosticView,
>
    decreases toks.len() - i,
{
    if kind_at(toks, i) == TokenKind::Eof {
        Ok((acc, i))
    } else {
        match parse_node(toks, i) {
            Err(d) => Err(d),
            Ok((s, j)) => {
                if i < j <= toks.len() {
                    parse_nodes(toks, j, acc.push(s))
                } else {
                    arbitrary()
                }
            },
        }
    }
}

/// The program the tokens from `i` on write.
pub open spec fn parse_program(toks: Seq<TokenView>, i: int) -> Result<
    (ProgramView, int),
    DiagnosticView,
> {
    program_of(parse_nodes(toks, i, Seq::empty()))
}

/// The program of parsed nodes.
pub open spec fn program_of(nodes: Result<(Seq<StmtView>, int), DiagnosticView>) -> Result<
    (ProgramView, int),
    DiagnosticView,
> {
    match nodes {
        Err(d) => Err(d),
        Ok((stmts, j)) => Ok((ProgramView { stmts }, j)),
    }
}

pub proof fn lemma_statement_end_bounds(toks: Seq<TokenView>, i: int)
    ensures
        statement_end(toks, i) matches Some(end) ==> 0 <= i <= end < toks.len() && toks[end].kind
            == TokenKind::Semicolon,
    decreases toks.len() - i,
{
    if 0 <= i < toks.len() && toks[i].kind != TokenKind::Semicolon && !is_boundary(toks[i].kind) {
        lemma_statement_end_bounds(toks, i + 1);
    }
}

pub proof fn lemma_branches_advance(toks: Seq<TokenView>, i: int, acc: Seq<ExprView>)
    requires
        0 <= i <= toks.len(),
    ensures
        parse_branches(toks, i, acc) matches Ok((_, j)) ==> i <= j <= toks.len(),
    decreases toks.len() - i,
{
    if kind_at(toks, i) == TokenKind::Colon && kind_at(toks, i + 1) != TokenKind::Semicolon {
        lemma_value_advances(toks, i + 1, true);
        match parse_value(toks, i + 1, true) {
            Err(d) => {},
            Ok((e, j)) => {
                lemma_branches_advance(toks, j, acc.push(e));
            },
        }
    }
}

/// A statement that parses ends past its start and within the tokens.
pub proof fn lemma_statement_advances(toks: Seq<TokenView>, i: int)
    ensures
        parse_statement(toks, i) matches Ok((_, j)) ==> 0 <= i < j <= toks.len(),
{
    lemma_statement_end_bounds(toks, i);
    lemma_statement_end_bounds(toks, after(toks, i));
    let n = name_index(toks, i);
    match statement_lead(toks, i) {
        Some(TokenKind::KwRet) => {
            lemma_value_advances(toks, after(toks, i), false);
        },
        Some(TokenKind::Define) => {
            lemma_value_advances(toks, n + 2, false);
        },
        Some(TokenKind::DefineEmpty) => {},
        Some(TokenKind::Bind) => {},
        Some(TokenKind::Cast) => {},
        Some(TokenKind::Guard) => {
            lemma_value_advances(toks, n + 2, true);
            match parse_value(toks, n + 2, true) {
                Err(d) => {},
                Ok((branch, j)) => {
                    if statement_end(toks, i) is Some {
                        lemma_branches_advance(toks, j, seq![branch]);
                    }
                },
            }
        },
        _ => {
            if statement_end(toks, i) is Some {
                lemma_call_advances(toks, i);
            }
        },
    }
}

pub proof fn lemma_block_items_advance(toks: Seq<TokenView>, i: int, acc: Seq<StmtView>)
    ensures
        parse_block_items(toks, i, acc) matches Ok((_, j)) ==> 0 <= i < j <= toks.len(),
    decreases toks.len() - i,
{
    if kind_at(toks, i) == TokenKind::BlockStmtEnd {
    } else if kind_at(toks, i) == TokenKind::BlockStmtChain {
        lemma_block_items_advance(toks, i + 1, acc);
    } else {
        lemma_statement_advances(toks, i);
        match parse_statement(toks, i) {
            Err(d) => {},
            Ok((s, j)) => {
                lemma_block_items_advance(toks, j, acc.push(s));
            },
        }
    }
}

pub proof fn lemma_param_advances(toks: Seq<TokenView>, i: int)
    ensures
        parse_param(toks, i) matches Ok((_, j)) ==> 0 <= i < j <= toks.len(),
{
    lemma_value_advances(toks, i + 2, false);
}

pub proof fn lemma_param_list_advances(toks: Seq<TokenView>, i: int, acc: Seq<ParamView>)
    ensures
        parse_param_list(toks, i, acc) matches Ok((_, j)) ==> 0 <= i < j < toks.len(),
    decreases toks.len() - i,
{
    lemma_param_advances(toks, i);
    match parse_param(toks, i) {
        Err(d) => {},
        Ok((param, j)) => {
            if kind_at(toks, j) == TokenKind::Comma {
                lemma_param_list_advances(toks, j + 1, acc.push(param));
            }
        },
    }
}

pub proof fn lemma_body_items_advance(toks: Seq<TokenView>, i: int, acc: Seq<StmtView>)
    requires
        0 <= i <= toks.len(),
    ensures
        parse_body_items(toks, i, acc) matches Ok((_, j)) ==> i <= j < toks.len(),
    decreases toks.len() - i,
{
    if !(kind_at(toks, i) == TokenKind::BlockFuncChain || kind_at(toks, i)
        == TokenKind::BlockFuncEnd) {
        lemma_statement_advances(toks, i);
        match parse_statement(toks, i) {
            Err(d) => {},
            Ok((s, j)) => {
                lemma_body_items_advance(toks, j, acc.push(s));
            },
        }
    }
}

pub proof fn lemma_bodies_advance(toks: Seq<TokenView>, i: int, acc: Seq<StmtView>)
    requires
        0 <= i <= toks.len(),
    ensures
        parse_bodies(toks, i, acc) matches Ok((_, j)) ==> i <= j < toks.len(),
    decreases toks.len() - i,
{
    lemma_body_items_advance(toks, i, Seq::empty());
    match parse_body_items(toks, i, Seq::empty()) {
        Err(d) => {},
        Ok((stmts, j)) => {
            if kind_at(toks, j) == TokenKind::BlockFuncChain {
                lemma_bodies_advance(toks, j + 1, acc.push(StmtView::Block { stmts }));
            }
        },
    }
}

/// A node that parses ends past its start and within the tokens: a
/// parse always moves forward, so none of the tests on progress in this
/// grammar ever fails.
pub proof fn law_parse_moves_forward(toks: Seq<TokenView>, i: int)
    ensures
        parse_node(toks, i) matches Ok((_, j)) ==> 0 <= i < j <= toks.len(),
{
    if kind_at(toks, i) == TokenKind::BlockStmtStart {
        lemma_block_items_advance(toks, after(toks, i), Seq::empty());
    } else if kind_at(toks, i) == TokenKind::KwFn {
        match parse_func_head(toks, i) {
            Err(d) => {},
            Ok((name, first)) => {
                if kind_at(toks, first) != TokenKind::BlockFuncChain {
                    lemma_param_list_advances(toks, first, Seq::empty());
                }
                match parse_params(toks, first) {
                    Err(d) => {},
                    Ok((params, p)) => {
                        lemma_bodies_advance(toks, p + 1, Seq::empty());
                    },
                }
            },
        }
    } else {
        lemma_statement_advances(toks, i);
    }
}

} // verus!
