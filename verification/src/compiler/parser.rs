//! The parser: tokens in, a program or one diagnostic out.
//!
//! Statements are validated for structure before any node is built: the
//! terminator is looked for first, then the left-hand shape, then embedded
//! statement operators, and only then is the value parsed.

use vstd::prelude::*;
use crate::compiler::ast::{
    expr_views, lemma_block_view, lemma_call_view, lemma_expr_views_push, lemma_func_view,
    lemma_param_views_push, lemma_stmt_views_push, lemma_views_empty, param_views, stmt_views,
    Expr, ExprView, Literal, Param, ParamView, Program, ProgramView, Stmt, StmtView,
};
use crate::compiler::error::{Diagnostic, DiagnosticView, Span};
use crate::compiler::grammar;
use crate::compiler::grammar::{after, kind_at, span_at, token_span, Binding, Infix};
use crate::compiler::lexer::tokens_within;
use crate::compiler::messages;
use crate::compiler::text::{lemma_byte_len_empty, str_byte_len, to_chars};
use crate::compiler::token::{token_views, Token, TokenKind, TokenView};

verus! {

/// The expression result `r`, with the parser then at `cursor`, is what
/// the grammar gives.
pub open spec fn expr_agrees(
    r: Result<Expr, Diagnostic>,
    cursor: int,
    want: Result<(ExprView, int), DiagnosticView>,
) -> bool {
    match want {
        Ok((e, j)) => r matches Ok(x) && x@ == e && cursor == j,
        Err(d) => r matches Err(y) && y@ == d,
    }
}

/// The statement result `r`, with the parser then at `cursor`, is what
/// the grammar gives.
pub open spec fn stmt_agrees(
    r: Result<Stmt, Diagnostic>,
    cursor: int,
    want: Result<(StmtView, int), DiagnosticView>,
) -> bool {
    match want {
        Ok((s, j)) => r matches Ok(x) && x@ == s && cursor == j,
        Err(d) => r matches Err(y) && y@ == d,
    }
}

/// The program result `r`, with the parser then at `cursor`, is what the
/// grammar gives.
pub open spec fn program_agrees(
    r: Result<Program, Diagnostic>,
    cursor: int,
    want: Result<(ProgramView, int), DiagnosticView>,
) -> bool {
    match want {
        Ok((p, j)) => r matches Ok(x) && x@ == p && cursor == j,
        Err(d) => r matches Err(y) && y@ == d,
    }
}

pub open spec fn exprs_agree(
    r: Result<Vec<Expr>, Diagnostic>,
    cursor: int,
    want: Result<(Seq<ExprView>, int), DiagnosticView>,
) -> bool {
    match want {
        Ok((es, j)) => r matches Ok(xs) && expr_views(xs@) == es && cursor == j,
        Err(d) => r matches Err(y) && y@ == d,
    }
}

pub open spec fn stmts_agree(
    r: Result<Vec<Stmt>, Diagnostic>,
    cursor: int,
    want: Result<(Seq<StmtView>, int), DiagnosticView>,
) -> bool {
    match want {
        Ok((ss, j)) => r matches Ok(xs) && stmt_views(xs@) == ss && cursor == j,
        Err(d) => r matches Err(y) && y@ == d,
    }
}

pub open spec fn params_agree(
    r: Result<Vec<Param>, Diagnostic>,
    cursor: int,
    want: Result<(Seq<ParamView>, int), DiagnosticView>,
) -> bool {
    match want {
        Ok((ps, j)) => r matches Ok(xs) && param_views(xs@) == ps && cursor == j,
        Err(d) => r matches Err(y) && y@ == d,
    }
}

/// An error diagnostic with a help text, as a failed result.
fn fail<T>(message: &'static str, span: Span, help: &'static str) -> (r: Result<T, Diagnostic>)
    ensures
        r matches Err(d) && d@ == grammar::fail(message@, span, help@),
{
    Err(Diagnostic::error(message, span).with_help(help))
}

fn is_statement_operator(kind: TokenKind) -> (b: bool)
    ensures
        b == grammar::is_statement_operator(kind),
{
    match kind {
        TokenKind::Define => true,
        TokenKind::DefineEmpty => true,
        TokenKind::Bind => true,
        TokenKind::Cast => true,
        TokenKind::Guard => true,
        _ => false,
    }
}

fn starts_statement(kind: TokenKind) -> (b: bool)
    ensures
        b == grammar::starts_statement(kind),
{
    match kind {
        TokenKind::KwRet => true,
        _ => is_statement_operator(kind),
    }
}

fn is_boundary(kind: TokenKind) -> (b: bool)
    ensures
        b == grammar::is_boundary(kind),
{
    match kind {
        TokenKind::Semicolon => true,
        TokenKind::BlockStmtEnd => true,
        TokenKind::BlockFuncEnd => true,
        _ => false,
    }
}

fn infix_binding_power(op: TokenKind) -> (b: Option<Binding>)
    ensures
        b == grammar::infix_binding_power(op),
{
    match op {
        TokenKind::LParen => Some(Binding { left: 95, right: 96, op: Infix::Call }),
        TokenKind::Mul => Some(Binding { left: 70, right: 71, op: Infix::Mul }),
        TokenKind::Div => Some(Binding { left: 70, right: 71, op: Infix::Div }),
        TokenKind::Mod => Some(Binding { left: 70, right: 71, op: Infix::Mod }),
        TokenKind::Add => Some(Binding { left: 60, right: 61, op: Infix::Add }),
        TokenKind::Sub => Some(Binding { left: 60, right: 61, op: Infix::Sub }),
        TokenKind::Lt => Some(Binding { left: 50, right: 51, op: Infix::Lt }),
        TokenKind::Le => Some(Binding { left: 50, right: 51, op: Infix::Le }),
        TokenKind::Gt => Some(Binding { left: 50, right: 51, op: Infix::Gt }),
        TokenKind::Ge => Some(Binding { left: 50, right: 51, op: Infix::Ge }),
        TokenKind::Eq => Some(Binding { left: 45, right: 46, op: Infix::Eq }),
        TokenKind::Ne => Some(Binding { left: 45, right: 46, op: Infix::Ne }),
        TokenKind::And => Some(Binding { left: 30, right: 31, op: Infix::And }),
        TokenKind::Or => Some(Binding { left: 25, right: 26, op: Infix::Or }),
        TokenKind::Has => Some(Binding { left: 22, right: 23, op: Infix::Has }),
        TokenKind::Present => Some(Binding { left: 22, right: 23, op: Infix::Present }),
        TokenKind::Pipe => Some(Binding { left: 20, right: 21, op: Infix::Pipe }),
        _ => None,
    }
}

fn build_infix(kind: Infix, lhs: Expr, rhs: Expr) -> (e: Expr)
    requires
        kind != Infix::Call,
    ensures
        e@ == grammar::build_infix(kind, lhs@, rhs@),
{
    match kind {
        Infix::Mul => Expr::Mul(Box::new(lhs), Box::new(rhs)),
        Infix::Div => Expr::Div(Box::new(lhs), Box::new(rhs)),
        Infix::Mod => Expr::Mod(Box::new(lhs), Box::new(rhs)),
        Infix::Add => Expr::Add(Box::new(lhs), Box::new(rhs)),
        Infix::Sub => Expr::Sub(Box::new(lhs), Box::new(rhs)),
        Infix::Lt => Expr::Lt(Box::new(lhs), Box::new(rhs)),
        Infix::Le => Expr::Le(Box::new(lhs), Box::new(rhs)),
        Infix::Gt => Expr::Gt(Box::new(lhs), Box::new(rhs)),
        Infix::Ge => Expr::Ge(Box::new(lhs), Box::new(rhs)),
        Infix::Eq => Expr::Eq(Box::new(lhs), Box::new(rhs)),
        Infix::Ne => Expr::Ne(Box::new(lhs), Box::new(rhs)),
        Infix::And => Expr::And(Box::new(lhs), Box::new(rhs)),
        Infix::Or => Expr::Or(Box::new(lhs), Box::new(rhs)),
        Infix::Has => Expr::Has(Box::new(lhs), Box::new(rhs)),
        Infix::Present => Expr::Present(Box::new(lhs), Box::new(rhs)),
        Infix::Pipe => Expr::Pipe(Box::new(lhs), Box::new(rhs)),
        Infix::Call => Expr::Lit(Literal::Void),
    }
}

proof fn lemma_digits_value_grows(s: Seq<char>, n: int)
    requires
        0 <= n <= s.len(),
        grammar::all_digits(s),
    ensures
        grammar::digits_value(s.take(n)) <= grammar::digits_value(s),
    decreases s.len() - n,
{
    if n < s.len() {
        assert(s.take(n + 1).drop_last() =~= s.take(n));
        assert(s.take(n + 1).last() == s[n]);
        lemma_digits_value_grows(s, n + 1);
    } else {
        assert(s.take(n) =~= s);
    }
}

/// The value of an integer literal's text.
fn parse_num(lexeme: &str) -> (n: i64)
    ensures
        n == grammar::num_value(lexeme@),
{
    let chars = to_chars(lexeme);
    let ghost s = chars@;
    let signed = chars.len() > 0 && (chars[0] == '+' || chars[0] == '-');
    let negative = signed && chars[0] == '-';
    let start: usize = if signed {
        1
    } else {
        0
    };
    let ghost digits = if signed {
        s.skip(1)
    } else {
        s
    };
    if chars.len() == start {
        return 0;
    }
    let mut magnitude: u64 = 0;
    let mut i: usize = start;
    assert(digits.take(0) =~= Seq::<char>::empty());
    while i < chars.len()
        invariant
            s == chars@,
            s == lexeme@,
            start <= i <= s.len(),
            signed == (s.len() > 0 && (s[0] == '+' || s[0] == '-')),
            digits == if signed {
                s.skip(1)
            } else {
                s
            },
            start == if signed {
                1usize
            } else {
                0usize
            },
            digits.len() == s.len() - start,
            digits.len() > 0,
            forall|k: int| 0 <= k < i - start ==> crate::compiler::lexer::is_digit(#[trigger] digits[k]),
            magnitude == grammar::digits_value(digits.take(i - start)),
            magnitude <= 0x8000_0000_0000_0000u64,
        decreases s.len() - i,
    {
        let c = chars[i];
        let ghost at = i - start;
        assert(digits[at] == c);
        if !(c >= '0' && c <= '9') {
            assert(!grammar::all_digits(digits));
            return 0;
        }
        let d: u64 = (c as u32 - '0' as u32) as u64;
        proof {
            assert(digits.take(at + 1).drop_last() =~= digits.take(at));
            assert(digits.take(at + 1).last() == c);
        }
        if magnitude > (0x8000_0000_0000_0000u64 - d) / 10 {
            proof {
                if grammar::all_digits(digits) {
                    lemma_digits_value_grows(digits, at + 1);
                }
            }
            return 0;
        }
        magnitude = magnitude * 10 + d;
        i += 1;
    }
    proof {
        assert(digits.take(i - start) =~= digits);
        assert(grammar::all_digits(digits));
    }
    if negative {
        if magnitude == 0x8000_0000_0000_0000u64 {
            i64::MIN
        } else {
            -(magnitude as i64)
        }
    } else if magnitude <= 0x7FFF_FFFF_FFFF_FFFFu64 {
        magnitude as i64
    } else {
        0
    }
}

/// Whether `name` is in snake case.
fn is_snake_case(name: &str) -> (b: bool)
    ensures
        b == grammar::is_snake_case(name@),
{
    let chars = to_chars(name);
    let ghost s = chars@;
    let mut prev_underscore = false;
    let mut i: usize = 0;
    while i < chars.len()
        invariant
            s == chars@,
            s == name@,
            i <= s.len(),
            forall|k: int|
                0 <= k < i ==> ('a' <= #[trigger] s[k] <= 'z') || crate::compiler::lexer::is_digit(
                    s[k],
                ) || s[k] == '_',
            forall|k: int| 0 <= k < i - 1 ==> !(#[trigger] s[k] == '_' && s[k + 1] == '_'),
            prev_underscore == (i > 0 && s[i - 1] == '_'),
        decreases s.len() - i,
    {
        let c = chars[i];
        if c == '_' {
            if prev_underscore {
                assert(s[i - 1] == '_' && s[i - 1 + 1] == '_');
                return false;
            }
            prev_underscore = true;
        } else if (c >= 'a' && c <= 'z') || (c >= '0' && c <= '9') {
            prev_underscore = false;
        } else {
            assert(!(('a' <= s[i as int] <= 'z') || crate::compiler::lexer::is_digit(s[i as int])
                || s[i as int] == '_'));
            return false;
        }
        i += 1;
    }
    if chars.len() == 0 {
        return true;
    }
    chars[0] != '_' && chars[chars.len() - 1] != '_'
}

pub struct Parser<'a> {
    tokens: &'a [Token],
    index: usize,
}

impl<'a> Parser<'a> {
    #[verifier::type_invariant]
    spec fn inv(self) -> bool {
        &&& self.index <= self.tokens@.len()
        &&& tokens_within(token_views(self.tokens@), usize::MAX as int)
    }

    /// The tokens being parsed.
    pub closed spec fn toks(&self) -> Seq<TokenView> {
        token_views(self.tokens@)
    }

    /// Index of the next token to be read.
    pub closed spec fn cursor(&self) -> int {
        self.index as int
    }

    /// A parser at the start of `tokens`. No token may end past the
    /// largest byte offset there is.
    pub fn new(tokens: &'a [Token]) -> (parser: Self)
        requires
            tokens_within(token_views(tokens@), usize::MAX as int),
        ensures
            parser.toks() == token_views(tokens@),
            parser.cursor() == 0,
    {
        Self { tokens, index: 0 }
    }

    fn len(&self) -> (n: usize)
        ensures
            n == self.toks().len(),
            self.cursor() <= n,
    {
        proof {
            use_type_invariant(self);
        }
        self.tokens.len()
    }

    fn kind_of(&self, i: usize) -> (kind: TokenKind)
        ensures
            kind == kind_at(self.toks(), i as int),
    {
        if i < self.tokens.len() {
            self.tokens[i].kind
        } else {
            TokenKind::Eof
        }
    }

    fn peek_kind(&self) -> (kind: TokenKind)
        ensures
            kind == kind_at(self.toks(), self.cursor()),
    {
        self.kind_of(self.index)
    }

    /// The span reported at index `i`.
    fn span_of(&self, i: usize) -> (span: Span)
        ensures
            span == span_at(self.toks(), i as int),
            i < self.toks().len() ==> span == token_span(self.toks()[i as int]),
    {
        proof {
            use_type_invariant(self);
        }
        let n = self.tokens.len();
        if i < n {
            let t = &self.tokens[i];
            assert(self.toks()[i as int] == t@);
            assert(self.toks()[i as int].end() <= usize::MAX);
            Span { start: t.pos, end: t.pos + str_byte_len(t.lexeme.as_str()) }
        } else if n > 0 {
            let t = &self.tokens[n - 1];
            assert(self.toks()[n - 1] == t@);
            assert(self.toks()[n - 1].end() <= usize::MAX);
            let end = t.pos + str_byte_len(t.lexeme.as_str());
            Span { start: end, end }
        } else {
            Span { start: 0, end: 0 }
        }
    }

    fn current_span(&self) -> (span: Span)
        ensures
            span == span_at(self.toks(), self.cursor()),
    {
        self.span_of(self.index)
    }

    /// The text of the token at `i`.
    fn lexeme_of(&self, i: usize) -> (text: String)
        requires
            i < self.toks().len(),
        ensures
            text@ == self.toks()[i as int].lexeme,
    {
        self.tokens[i].lexeme.clone()
    }

    /// Steps over the token at the cursor, if there is one.
    fn bump(&mut self)
        ensures
            final(self).toks() == old(self).toks(),
            final(self).cursor() == after(old(self).toks(), old(self).cursor()),
    {
        proof {
            use_type_invariant(&*self);
        }
        if self.index < self.tokens.len() {
            self.index = self.index + 1;
        }
    }

    fn expect(&mut self, kind: TokenKind, expected: &'static str) -> (r: Result<(), Diagnostic>)
        ensures
            final(self).toks() == old(self).toks(),
            match grammar::expect(old(self).toks(), old(self).cursor(), kind, expected@) {
                Ok(j) => r is Ok && final(self).cursor() == j,
                Err(d) => r matches Err(y) && y@ == d,
            },
    {
        let span_start = self.current_span().start;
        if self.index >= self.len() {
            return fail(
                messages::UNEXPECTED_END,
                Span { start: span_start, end: span_start },
                expected,
            );
        }
        let at = self.index;
        self.bump();
        if self.kind_of(at) != kind {
            return fail(messages::UNEXPECTED_TOKEN, self.span_of(at), expected);
        }
        Ok(())
    }

    /// Parses a value: an expression, which may be a lone identifier
    /// only where `bare` allows it.
    fn parse_rhs(&mut self, bare: bool) -> (r: Result<Expr, Diagnostic>)
        ensures
            final(self).toks() == old(self).toks(),
            expr_agrees(
                r,
                final(self).cursor(),
                grammar::parse_value(old(self).toks(), old(self).cursor(), bare),
            ),
            r is Ok ==> old(self).cursor() < final(self).cursor(),
        decreases old(self).toks().len() - old(self).cursor(), 2int,
    {
        let start_span = self.current_span();
        let value = self.parse_bp(0)?;
        let is_ident = match &value {
            Expr::Ident(_) => true,
            _ => false,
        };
        if is_ident && !bare {
            return fail(messages::INVALID_VALUE, start_span, messages::BARE_IDENT_HELP);
        }
        Ok(value)
    }

    /// Parses a call: a name, `(`, the arguments and `)`.
    fn parse_call(&mut self) -> (r: Result<Expr, Diagnostic>)
        ensures
            final(self).toks() == old(self).toks(),
            expr_agrees(
                r,
                final(self).cursor(),
                grammar::parse_call(old(self).toks(), old(self).cursor()),
            ),
            r is Ok ==> old(self).cursor() < final(self).cursor(),
            r matches Ok(call) ==> call is Call,
    {
        let n = self.len();
        let at = self.index;
        if at >= n {
            return fail(messages::UNEXPECTED_END, self.current_span(), messages::CALL_END_HELP);
        }
        if self.kind_of(at) != TokenKind::Ident {
            return fail(messages::INVALID_CALL, self.span_of(at), messages::CALL_NAME_HELP);
        }
        let callee = self.lexeme_of(at);
        self.bump();
        if self.peek_kind() != TokenKind::LParen {
            return fail(messages::INVALID_CALL, self.current_span(), messages::CALL_OPEN_HELP);
        }
        self.bump();
        let args = self.parse_args()?;
        let callee = Expr::Ident(callee);
        proof {
            lemma_call_view(callee, args);
        }
        Ok(Expr::Call { callee: Box::new(callee), args })
    }

    /// Parses the arguments of a call, from just after `(` up to and
    /// with `)`.
    fn parse_args(&mut self) -> (r: Result<Vec<Expr>, Diagnostic>)
        ensures
            final(self).toks() == old(self).toks(),
            exprs_agree(
                r,
                final(self).cursor(),
                grammar::parse_args(old(self).toks(), old(self).cursor()),
            ),
            r is Ok ==> old(self).cursor() < final(self).cursor(),
        decreases old(self).toks().len() - old(self).cursor(), 4int,
    {
        let ghost toks = self.toks();
        let ghost first = self.cursor();
        let mut args: Vec<Expr> = Vec::new();
        proof {
            lemma_views_empty();
        }
        if self.peek_kind() == TokenKind::RParen {
            self.bump();
            return Ok(args);
        }
        proof {
            use_type_invariant(&*self);
        }
        loop
            invariant
                self.toks() == toks,
                toks == old(self).toks(),
                first == old(self).cursor(),
                first <= self.cursor() <= toks.len(),
                grammar::parse_arg_list(toks, self.cursor(), expr_views(args@))
                    == grammar::parse_args(toks, first),
            decreases toks.len() - self.cursor(),
        {
            let ghost before = self.cursor();
            let ghost acc = expr_views(args@);
            let value = self.parse_rhs(false)?;
            proof {
                lemma_expr_views_push(args@, value);
                use_type_invariant(&*self);
            }
            args.push(value);
            match self.peek_kind() {
                TokenKind::Comma => {
                    self.bump();
                },
                TokenKind::RParen => {
                    self.bump();
                    return Ok(args);
                },
                _ => {
                    return fail(
                        messages::INVALID_CALL,
                        self.current_span(),
                        messages::CALL_ARGS_HELP,
                    );
                },
            }
        }
    }

    /// Parses an expression.
    pub fn parse_expr(&mut self) -> (r: Result<Expr, Diagnostic>)
        ensures
            final(self).toks() == old(self).toks(),
            expr_agrees(
                r,
                final(self).cursor(),
                grammar::parse_expr(old(self).toks(), old(self).cursor()),
            ),
    {
        self.parse_bp(0)
    }

    /// Parses an expression whose infix operators all bind at least as
    /// tightly as `min_bp`.
    fn parse_bp(&mut self, min_bp: u8) -> (r: Result<Expr, Diagnostic>)
        ensures
            final(self).toks() == old(self).toks(),
            expr_agrees(
                r,
                final(self).cursor(),
                grammar::parse_bp(old(self).toks(), old(self).cursor(), min_bp),
            ),
            r is Ok ==> old(self).cursor() < final(self).cursor(),
        decreases old(self).toks().len() - old(self).cursor(), 1int,
    {
        let ghost toks = self.toks();
        let ghost first = self.cursor();
        let mut lhs = self.parse_prefix()?;
        proof {
            use_type_invariant(&*self);
        }
        loop
            invariant
                self.toks() == toks,
                toks == old(self).toks(),
                first == old(self).cursor(),
                first < self.cursor() <= toks.len(),
                grammar::parse_infix(toks, self.cursor(), lhs@, min_bp) == grammar::parse_bp(
                    toks,
                    first,
                    min_bp,
                ),
            decreases toks.len() - self.cursor(),
        {
            let binding = match infix_binding_power(self.peek_kind()) {
                Some(binding) => binding,
                None => {
                    return Ok(lhs);
                },
            };
            if binding.left < min_bp {
                return Ok(lhs);
            }
            self.bump();
            if binding.op == Infix::Call {
                let args = self.parse_args()?;
                proof {
                    lemma_call_view(lhs, args);
                    use_type_invariant(&*self);
                }
                lhs = Expr::Call { callee: Box::new(lhs), args };
            } else {
                let rhs = self.parse_bp(binding.right)?;
                proof {
                    use_type_invariant(&*self);
                }
                lhs = build_infix(binding.op, lhs, rhs);
            }
        }
    }

    /// Parses an operand.
    fn parse_prefix(&mut self) -> (r: Result<Expr, Diagnostic>)
        ensures
            final(self).toks() == old(self).toks(),
            expr_agrees(
                r,
                final(self).cursor(),
                grammar::parse_prefix(old(self).toks(), old(self).cursor()),
            ),
            r is Ok ==> old(self).cursor() < final(self).cursor(),
        decreases old(self).toks().len() - old(self).cursor(), 0int,
    {
        let span_start = self.current_span().start;
        let at = self.index;
        if at >= self.len() {
            return fail(
                messages::UNEXPECTED_END,
                Span { start: span_start, end: span_start },
                messages::VALUE_END_HELP,
            );
        }
        self.bump();
        match self.kind_of(at) {
            TokenKind::Ident => Ok(Expr::Ident(self.lexeme_of(at))),
            TokenKind::NumLit => {
                let text = self.lexeme_of(at);
                Ok(Expr::Lit(Literal::Num(parse_num(text.as_str()))))
            },
            TokenKind::DecLit => Ok(Expr::Lit(Literal::Dec(self.lexeme_of(at)))),
            TokenKind::TextLit => Ok(Expr::Lit(Literal::Text(self.lexeme_of(at)))),
            TokenKind::KwVoid => Ok(Expr::Lit(Literal::Void)),
            TokenKind::Not => {
                let rhs = self.parse_bp(grammar::PREFIX_BP)?;
                Ok(Expr::Not(Box::new(rhs)))
            },
            TokenKind::Sub => {
                let rhs = self.parse_bp(grammar::PREFIX_BP)?;
                Ok(Expr::Neg(Box::new(rhs)))
            },
            TokenKind::LParen => {
                let expr = self.parse_bp(0)?;
                self.expect(TokenKind::RParen, messages::CLOSING_PAREN)?;
                Ok(expr)
            },
            TokenKind::Define
            | TokenKind::DefineEmpty
            | TokenKind::Bind
            | TokenKind::Cast
            | TokenKind::Guard => fail(
                messages::INVALID_VALUE,
                self.span_of(at),
                messages::OPERATOR_VALUE_HELP,
            ),
            TokenKind::KwFn | TokenKind::KwLoc | TokenKind::KwRet | TokenKind::BlockStmtStart => fail(
                messages::INVALID_VALUE,
                self.span_of(at),
                messages::CONSTRUCT_VALUE_HELP,
            ),
            _ => fail(messages::UNEXPECTED_VALUE_TOKEN, self.span_of(at), messages::VALUE_HELP),
        }
    }

    /// Index of the `;` that terminates the statement at `from`.
    fn statement_end(&self, from: usize) -> (r: Option<usize>)
        ensures
            match grammar::statement_end(self.toks(), from as int) {
                Some(end) => r matches Some(e) && e == end && from <= end < self.toks().len(),
                None => r is None,
            },
    {
        let n = self.len();
        let mut i: usize = from;
        while i < n
            invariant
                n == self.toks().len(),
                from <= i,
                grammar::statement_end(self.toks(), i as int) == grammar::statement_end(
                    self.toks(),
                    from as int,
                ),
            decreases n - i,
        {
            let kind = self.kind_of(i);
            if kind == TokenKind::Semicolon {
                return Some(i);
            }
            if is_boundary(kind) {
                return None;
            }
            i += 1;
        }
        None
    }

    /// The first statement operator or `ret` of the statement at the
    /// cursor.
    fn statement_lead(&self) -> (r: Option<TokenKind>)
        ensures
            r == grammar::statement_lead(self.toks(), self.cursor()),
    {
        let n = self.len();
        let mut i: usize = self.index;
        while i < n
            invariant
                n == self.toks().len(),
                grammar::statement_lead(self.toks(), i as int) == grammar::statement_lead(
                    self.toks(),
                    self.cursor(),
                ),
            decreases n - i,
        {
            let kind = self.kind_of(i);
            if starts_statement(kind) {
                return Some(kind);
            }
            if is_boundary(kind) {
                return None;
            }
            i += 1;
        }
        None
    }

    /// First index in `[from, to)` that holds a statement operator or
    /// `ret`.
    fn first_chained(&self, from: usize, to: usize) -> (r: Option<usize>)
        ensures
            match grammar::first_chained(self.toks(), from as int, to as int) {
                Some(at) => r matches Some(a) && a == at && from <= at < self.toks().len(),
                None => r is None,
            },
    {
        let n = self.len();
        let mut i: usize = from;
        while i < to && i < n
            invariant
                n == self.toks().len(),
                from <= i,
                grammar::first_chained(self.toks(), i as int, to as int) == grammar::first_chained(
                    self.toks(),
                    from as int,
                    to as int,
                ),
            decreases n - i,
        {
            if starts_statement(self.kind_of(i)) {
                return Some(i);
            }
            i += 1;
        }
        None
    }

    /// First index from `from` on that holds a token of kind `kind`.
    fn find_kind(&self, from: usize, kind: TokenKind) -> (r: Option<usize>)
        ensures
            match grammar::find_kind(self.toks(), from as int, kind) {
                Some(at) => r matches Some(a) && a == at && from <= at < self.toks().len(),
                None => r is None,
            },
    {
        let n = self.len();
        let mut i: usize = from;
        while i < n
            invariant
                n == self.toks().len(),
                from <= i,
                grammar::find_kind(self.toks(), i as int, kind) == grammar::find_kind(
                    self.toks(),
                    from as int,
                    kind,
                ),
            decreases n - i,
        {
            if self.kind_of(i) == kind {
                return Some(i);
            }
            i += 1;
        }
        None
    }

    /// Steps over a leading `loc`, which carries no meaning here.
    fn skip_loc(&mut self)
        ensures
            final(self).toks() == old(self).toks(),
            final(self).cursor() == grammar::name_index(old(self).toks(), old(self).cursor()),
    {
        if self.peek_kind() == TokenKind::KwLoc {
            self.bump();
        }
    }

    /// Consumes the token at the cursor and gives its kind, span and
    /// text; at the end of input, those of an end marker.
    fn take(&mut self) -> (t: (TokenKind, Span, String))
        ensures
            final(self).toks() == old(self).toks(),
            final(self).cursor() == after(old(self).toks(), old(self).cursor()),
            t.0 == grammar::token_or_end(old(self).toks(), old(self).cursor()).kind,
            t.1 == token_span(grammar::token_or_end(old(self).toks(), old(self).cursor())),
            t.2@ == grammar::token_or_end(old(self).toks(), old(self).cursor()).lexeme,
    {
        let at = self.index;
        if at < self.len() {
            self.bump();
            (self.kind_of(at), self.span_of(at), self.lexeme_of(at))
        } else {
            let start = self.current_span().start;
            proof {
                lemma_byte_len_empty();
            }
            (TokenKind::Eof, Span { start, end: start }, String::new())
        }
    }

    /// Parses the left-hand side of a statement: one identifier, after
    /// `loc` or not, and right after it the operator `op`.
    fn parse_head(&mut self, op: TokenKind, invalid: &'static str, help: &'static str) -> (r: Result<
        String,
        Diagnostic,
    >)
        requires
            op != TokenKind::Eof,
        ensures
            final(self).toks() == old(self).toks(),
            match grammar::parse_head(old(self).toks(), old(self).cursor(), op, invalid@, help@) {
                Ok((name, next)) => r matches Ok(x) && x@ == name && final(self).cursor() == next,
                Err(d) => r matches Err(y) && y@ == d,
            },
            r is Ok ==> old(self).cursor() < final(self).cursor(),
    {
        self.skip_loc();
        let (kind, span, name) = self.take();
        if kind != TokenKind::Ident {
            return fail(invalid, span, help);
        }
        if self.peek_kind() != op {
            return fail(invalid, self.current_span(), help);
        }
        self.bump();
        Ok(name)
    }

    /// Consumes the terminator, which is expected at the cursor.
    fn end_statement(&mut self, invalid: &'static str) -> (r: Result<(), Diagnostic>)
        ensures
            final(self).toks() == old(self).toks(),
            r is Ok ==> kind_at(old(self).toks(), old(self).cursor()) == TokenKind::Semicolon
                && final(self).cursor() == old(self).cursor() + 1,
            r matches Err(d) ==> kind_at(old(self).toks(), old(self).cursor())
                != TokenKind::Semicolon && d@ == grammar::fail(
                invalid@,
                span_at(old(self).toks(), old(self).cursor()),
                messages::STATEMENT_END_HELP@,
            ),
    {
        if self.peek_kind() != TokenKind::Semicolon {
            return fail(invalid, self.current_span(), messages::STATEMENT_END_HELP);
        }
        self.bump();
        Ok(())
    }

    fn parse_ret(&mut self) -> (r: Result<Stmt, Diagnostic>)
        ensures
            final(self).toks() == old(self).toks(),
            stmt_agrees(
                r,
                final(self).cursor(),
                grammar::parse_ret(old(self).toks(), old(self).cursor()),
            ),
            r is Ok ==> old(self).cursor() < final(self).cursor(),
    {
        self.bump();
        let stmt_end = match self.statement_end(self.index) {
            Some(end) => end,
            None => {
                return fail(
                    messages::UNTERMINATED_RETURN,
                    self.current_span(),
                    messages::UNTERMINATED_RETURN_HELP,
                );
            },
        };
        if self.peek_kind() == TokenKind::Semicolon {
            self.bump();
            return Ok(Stmt::Return { value: None });
        }
        match self.first_chained(self.index, stmt_end) {
            Some(at) => {
                return fail(
                    messages::INVALID_RETURN,
                    self.span_of(at),
                    messages::RETURN_CHAIN_HELP,
                );
            },
            None => {},
        }
        let value = self.parse_rhs(false)?;
        self.end_statement(messages::INVALID_RETURN)?;
        Ok(Stmt::Return { value: Some(value) })
    }

    fn parse_define_empty(&mut self) -> (r: Result<Stmt, Diagnostic>)
        ensures
            final(self).toks() == old(self).toks(),
            stmt_agrees(
                r,
                final(self).cursor(),
                grammar::parse_define_empty(old(self).toks(), old(self).cursor()),
            ),
            r is Ok ==> old(self).cursor() < final(self).cursor(),
    {
        let name = self.parse_head(
            TokenKind::DefineEmpty,
            messages::INVALID_DEFINE_EMPTY,
            messages::DEFINE_EMPTY_START_HELP,
        )?;
        if is_statement_operator(self.peek_kind()) {
            return fail(
                messages::INVALID_DEFINE_EMPTY,
                self.current_span(),
                messages::DEFINE_EMPTY_CHAIN_HELP,
            );
        }
        Ok(Stmt::DefineEmpty { name })
    }

    fn parse_define(&mut self) -> (r: Result<Stmt, Diagnostic>)
        ensures
            final(self).toks() == old(self).toks(),
            stmt_agrees(
                r,
                final(self).cursor(),
                grammar::parse_define(old(self).toks(), old(self).cursor()),
            ),
            r is Ok ==> old(self).cursor() < final(self).cursor(),
    {
        let stmt_end = match self.statement_end(self.index) {
            Some(end) => end,
            None => {
                return fail(
                    messages::UNTERMINATED_DEFINE,
                    self.current_span(),
                    messages::UNTERMINATED_DEFINE_HELP,
                );
            },
        };
        let name = self.parse_head(
            TokenKind::Define,
            messages::INVALID_DEFINE,
            messages::DEFINE_START_HELP,
        )?;
        if self.peek_kind() == TokenKind::Semicolon {
            return fail(
                messages::INVALID_DEFINE,
                self.current_span(),
                messages::DEFINE_VALUE_HELP,
            );
        }
        match self.first_chained(self.index, stmt_end) {
            Some(at) => {
                return fail(
                    messages::INVALID_DEFINE,
                    self.span_of(at),
                    messages::DEFINE_CHAIN_HELP,
                );
            },
            None => {},
        }
        proof {
            use_type_invariant(&*self);
        }
        if stmt_end > 0 && self.index == stmt_end - 1 && self.peek_kind() == TokenKind::Ident {
            return fail(
                messages::INVALID_DEFINE,
                self.current_span(),
                messages::DEFINE_IDENT_HELP,
            );
        }
        let value = self.parse_rhs(false)?;
        self.end_statement(messages::INVALID_DEFINE)?;
        Ok(Stmt::Define { name, value })
    }

    /// Parses a copy statement where `copy` holds, else a bind statement.
    fn parse_alias(&mut self, copy: bool) -> (r: Result<Stmt, Diagnostic>)
        ensures
            final(self).toks() == old(self).toks(),
            stmt_agrees(
                r,
                final(self).cursor(),
                grammar::parse_alias(old(self).toks(), old(self).cursor(), copy),
            ),
            r is Ok ==> old(self).cursor() < final(self).cursor(),
    {
        let texts = messages::texts_of_alias(copy);
        let op = if copy {
            TokenKind::Bind
        } else {
            TokenKind::Cast
        };
        let stmt_end = match self.statement_end(self.index) {
            Some(end) => end,
            None => {
                return fail(texts.unterminated, self.current_span(), texts.unterminated_help);
            },
        };
        let name = self.parse_head(op, texts.invalid, texts.start_help)?;
        let (kind, span, target) = self.take();
        if kind != TokenKind::Ident {
            return fail(texts.invalid, span, texts.target_help);
        }
        match self.first_chained(self.index, stmt_end) {
            Some(at) => {
                return fail(texts.invalid, self.span_of(at), texts.chain_help);
            },
            None => {},
        }
        self.end_statement(texts.invalid)?;
        if copy {
            Ok(Stmt::Copy { name, target })
        } else {
            Ok(Stmt::Bind { name, target })
        }
    }

    fn parse_copy(&mut self) -> (r: Result<Stmt, Diagnostic>)
        ensures
            final(self).toks() == old(self).toks(),
            stmt_agrees(
                r,
                final(self).cursor(),
                grammar::parse_copy(old(self).toks(), old(self).cursor()),
            ),
            r is Ok ==> old(self).cursor() < final(self).cursor(),
    {
        self.parse_alias(true)
    }

    fn parse_bind(&mut self) -> (r: Result<Stmt, Diagnostic>)
        ensures
            final(self).toks() == old(self).toks(),
            stmt_agrees(
                r,
                final(self).cursor(),
                grammar::parse_bind(old(self).toks(), old(self).cursor()),
            ),
            r is Ok ==> old(self).cursor() < final(self).cursor(),
    {
        self.parse_alias(false)
    }

    fn parse_guard(&mut self) -> (r: Result<Stmt, Diagnostic>)
        ensures
            final(self).toks() == old(self).toks(),
            stmt_agrees(
                r,
                final(self).cursor(),
                grammar::parse_guard(old(self).toks(), old(self).cursor()),
            ),
            r is Ok ==> old(self).cursor() < final(self).cursor(),
    {
        let ghost toks = self.toks();
        let ghost entry = self.cursor();
        let stmt_end = match self.statement_end(self.index) {
            Some(end) => end,
            None => {
                return fail(
                    messages::UNTERMINATED_GUARD,
                    self.current_span(),
                    messages::UNTERMINATED_GUARD_HELP,
                );
            },
        };
        let name = self.parse_head(
            TokenKind::Guard,
            messages::INVALID_GUARD,
            messages::GUARD_START_HELP,
        )?;
        match self.peek_kind() {
            TokenKind::Semicolon | TokenKind::Colon => {
                return fail(
                    messages::INVALID_GUARD,
                    self.current_span(),
                    messages::GUARD_VALUE_HELP,
                );
            },
            _ => {},
        }
        match self.first_chained(self.index, stmt_end) {
            Some(at) => {
                return fail(messages::INVALID_GUARD, self.span_of(at), messages::GUARD_CHAIN_HELP);
            },
            None => {},
        }
        let branch = self.parse_rhs(true)?;
        let branches = self.parse_branches(branch)?;
        self.end_statement(messages::INVALID_GUARD)?;
        Ok(Stmt::Guard { target: name, branches })
    }

    /// Parses the branches of a guard after the first one, `first`: each
    /// `:` is followed by a value.
    fn parse_branches(&mut self, first: Expr) -> (r: Result<Vec<Expr>, Diagnostic>)
        ensures
            final(self).toks() == old(self).toks(),
            exprs_agree(
                r,
                final(self).cursor(),
                grammar::parse_branches(old(self).toks(), old(self).cursor(), seq![first@]),
            ),
            r is Ok ==> old(self).cursor() <= final(self).cursor(),
    {
        let ghost toks = self.toks();
        let ghost entry = self.cursor();
        let ghost goal = grammar::parse_branches(toks, entry, seq![first@]);
        let mut branches: Vec<Expr> = Vec::new();
        proof {
            lemma_views_empty();
            lemma_expr_views_push(branches@, first);
            use_type_invariant(&*self);
        }
        branches.push(first);
        assert(expr_views(branches@) =~= seq![first@]);
        while self.peek_kind() == TokenKind::Colon
            invariant
                self.toks() == toks,
                toks == old(self).toks(),
                entry == old(self).cursor(),
                entry <= self.cursor() <= toks.len(),
                goal == grammar::parse_branches(toks, entry, seq![first@]),
                goal == grammar::parse_branches(toks, self.cursor(), expr_views(branches@)),
            decreases toks.len() - self.cursor(),
        {
            self.bump();
            if self.peek_kind() == TokenKind::Semicolon {
                return fail(
                    messages::INVALID_GUARD,
                    self.current_span(),
                    messages::GUARD_BRANCH_HELP,
                );
            }
            let branch = self.parse_rhs(true)?;
            proof {
                lemma_expr_views_push(branches@, branch);
                use_type_invariant(&*self);
            }
            branches.push(branch);
        }
        Ok(branches)
    }

    fn parse_call_statement(&mut self) -> (r: Result<Stmt, Diagnostic>)
        ensures
            final(self).toks() == old(self).toks(),
            stmt_agrees(
                r,
                final(self).cursor(),
                grammar::parse_call_statement(old(self).toks(), old(self).cursor()),
            ),
            r is Ok ==> old(self).cursor() < final(self).cursor(),
    {
        let stmt_end = match self.statement_end(self.index) {
            Some(end) => end,
            None => {
                return fail(
                    messages::UNTERMINATED_CALL,
                    self.current_span(),
                    messages::UNTERMINATED_CALL_HELP,
                );
            },
        };
        let at = self.index;
        let n = self.len();
        if self.kind_of(at) != TokenKind::Ident {
            return fail(
                messages::INVALID_CALL_STATEMENT,
                self.span_of(at),
                messages::CALL_START_HELP,
            );
        }
        if self.kind_of(at + 1) != TokenKind::LParen {
            return fail(
                messages::INVALID_CALL_STATEMENT,
                self.span_of(at + 1),
                messages::CALL_BARE_HELP,
            );
        }
        match self.first_chained(at + 1, stmt_end) {
            Some(found) => {
                return fail(
                    messages::INVALID_CALL_STATEMENT,
                    self.span_of(found),
                    messages::CALL_CHAIN_HELP,
                );
            },
            None => {},
        }
        let call = self.parse_call()?;
        self.end_statement(messages::INVALID_CALL_STATEMENT)?;
        match call {
            Expr::Call { callee, args } => {
                proof {
                    lemma_call_view(*callee, args);
                }
                Ok(Stmt::Call { callee: *callee, args })
            },
            other => Ok(Stmt::Call { callee: other, args: Vec::new() }),
        }
    }

    /// Parses the statement at the cursor, chosen by its first statement
    /// operator or `ret`.
    fn parse_statement_entry(&mut self) -> (r: Result<Stmt, Diagnostic>)
        ensures
            final(self).toks() == old(self).toks(),
            stmt_agrees(
                r,
                final(self).cursor(),
                grammar::parse_statement(old(self).toks(), old(self).cursor()),
            ),
            r is Ok ==> old(self).cursor() < final(self).cursor(),
    {
        match self.statement_lead() {
            Some(TokenKind::KwRet) => self.parse_ret(),
            Some(TokenKind::Define) => self.parse_define(),
            Some(TokenKind::DefineEmpty) => self.parse_define_empty(),
            Some(TokenKind::Bind) => self.parse_copy(),
            Some(TokenKind::Cast) => self.parse_bind(),
            Some(TokenKind::Guard) => self.parse_guard(),
            _ => self.parse_call_statement(),
        }
    }

    /// Parses a block: `:{`, statements, `}{` between segments, `}:`.
    fn parse_block(&mut self) -> (r: Result<Stmt, Diagnostic>)
        ensures
            final(self).toks() == old(self).toks(),
            stmt_agrees(
                r,
                final(self).cursor(),
                grammar::parse_block(old(self).toks(), old(self).cursor()),
            ),
            r is Ok ==> old(self).cursor() < final(self).cursor(),
    {
        let ghost toks = self.toks();
        let ghost entry = self.cursor();
        let ghost goal = grammar::parse_block(toks, entry);
        self.bump();
        match self.find_kind(self.index, TokenKind::BlockStmtEnd) {
            Some(_) => {},
            None => {
                return fail(
                    messages::UNTERMINATED_BLOCK,
                    self.current_span(),
                    messages::UNTERMINATED_BLOCK_HELP,
                );
            },
        }
        let mut nodes: Vec<Stmt> = Vec::new();
        proof {
            lemma_views_empty();
            use_type_invariant(&*self);
        }
        while self.peek_kind() != TokenKind::BlockStmtEnd
            invariant
                self.toks() == toks,
                toks == old(self).toks(),
                entry == old(self).cursor(),
                entry < self.cursor() <= toks.len(),
                goal == grammar::parse_block(toks, entry),
                goal == grammar::block_of(
                    grammar::parse_block_items(toks, self.cursor(), stmt_views(nodes@)),
                ),
            decreases toks.len() - self.cursor(),
        {
            if self.peek_kind() == TokenKind::BlockStmtChain {
                self.bump();
                continue ;
            }
            let node = self.parse_statement_entry()?;
            proof {
                lemma_stmt_views_push(nodes@, node);
                use_type_invariant(&*self);
            }
            nodes.push(node);
        }
        self.bump();
        proof {
            lemma_block_view(nodes);
        }
        Ok(Stmt::Block { stmts: nodes })
    }

    /// Parses the parameters of a function, from just after `:(` up to
    /// the first `)(`, which is left at the cursor.
    fn parse_params(&mut self) -> (r: Result<Vec<Param>, Diagnostic>)
        ensures
            final(self).toks() == old(self).toks(),
            params_agree(
                r,
                final(self).cursor(),
                grammar::parse_params(old(self).toks(), old(self).cursor()),
            ),
            r is Ok ==> old(self).cursor() <= final(self).cursor() < final(self).toks().len(),
    {
        let ghost toks = self.toks();
        let ghost entry = self.cursor();
        let ghost goal = grammar::parse_params(toks, entry);
        let mut params: Vec<Param> = Vec::new();
        proof {
            lemma_views_empty();
            use_type_invariant(&*self);
        }
        if self.peek_kind() == TokenKind::BlockFuncChain {
            return Ok(params);
        }
        loop
            invariant
                self.toks() == toks,
                toks == old(self).toks(),
                entry == old(self).cursor(),
                entry <= self.cursor() <= toks.len(),
                goal == grammar::parse_params(toks, entry),
                goal == grammar::parse_param_list(toks, self.cursor(), param_views(params@)),
            decreases toks.len() - self.cursor(),
        {
            let param = self.parse_param()?;
            proof {
                lemma_param_views_push(params@, param);
                use_type_invariant(&*self);
            }
            params.push(param);
            match self.peek_kind() {
                TokenKind::Comma => {
                    self.bump();
                },
                TokenKind::BlockFuncChain => {
                    return Ok(params);
                },
                _ => {
                    return fail(
                        messages::INVALID_PARAMETER_LIST,
                        self.current_span(),
                        messages::PARAMETER_LIST_HELP,
                    );
                },
            }
        }
    }

    /// Parses one parameter: `name` or `name = default`.
    fn parse_param(&mut self) -> (r: Result<Param, Diagnostic>)
        ensures
            final(self).toks() == old(self).toks(),
            match grammar::parse_param(old(self).toks(), old(self).cursor()) {
                Ok((param, j)) => r matches Ok(x) && x@ == param && final(self).cursor() == j,
                Err(d) => r matches Err(y) && y@ == d,
            },
            r is Ok ==> old(self).cursor() < final(self).cursor(),
    {
        if self.peek_kind() == TokenKind::KwLoc {
            return fail(
                messages::INVALID_PARAMETER,
                self.current_span(),
                messages::PARAMETER_LOC_HELP,
            );
        }
        let at = self.index;
        if at >= self.len() {
            return fail(
                messages::INVALID_PARAMETER,
                self.current_span(),
                messages::PARAMETER_NAME_HELP,
            );
        }
        if self.kind_of(at) != TokenKind::Ident {
            return fail(
                messages::INVALID_PARAMETER,
                self.span_of(at),
                messages::PARAMETER_NAME_HELP,
            );
        }
        let name = self.lexeme_of(at);
        self.bump();
        if self.peek_kind() == TokenKind::Define {
            self.bump();
            if self.peek_kind() == TokenKind::Comma || self.peek_kind()
                == TokenKind::BlockFuncChain {
                return fail(
                    messages::INVALID_DEFAULT,
                    self.current_span(),
                    messages::DEFAULT_VALUE_HELP,
                );
            }
            let value = self.parse_rhs(false)?;
            Ok(Param { name, default: Some(value) })
        } else {
            Ok(Param { name, default: None })
        }
    }

    /// Parses the statements of one function body, up to the next `)(`
    /// or `):`, which is left at the cursor.
    fn parse_body(&mut self) -> (r: Result<Vec<Stmt>, Diagnostic>)
        ensures
            final(self).toks() == old(self).toks(),
            stmts_agree(
                r,
                final(self).cursor(),
                grammar::parse_body_items(old(self).toks(), old(self).cursor(), Seq::empty()),
            ),
            r is Ok ==> old(self).cursor() <= final(self).cursor(),
    {
        let ghost toks = self.toks();
        let ghost entry = self.cursor();
        let ghost goal = grammar::parse_body_items(toks, entry, Seq::empty());
        let mut nodes: Vec<Stmt> = Vec::new();
        proof {
            lemma_views_empty();
            use_type_invariant(&*self);
        }
        while self.peek_kind() != TokenKind::BlockFuncChain && self.peek_kind()
            != TokenKind::BlockFuncEnd
            invariant
                self.toks() == toks,
                toks == old(self).toks(),
                entry == old(self).cursor(),
                entry <= self.cursor() <= toks.len(),
                goal == grammar::parse_body_items(toks, entry, Seq::empty()),
                goal == grammar::parse_body_items(toks, self.cursor(), stmt_views(nodes@)),
            decreases toks.len() - self.cursor(),
        {
            let node = self.parse_statement_entry()?;
            proof {
                lemma_stmt_views_push(nodes@, node);
                use_type_invariant(&*self);
            }
            nodes.push(node);
        }
        Ok(nodes)
    }

    /// Parses the head of a function and checks that the function closes
    /// and has a body. Gives the name; the cursor is left after `:(`.
    fn parse_func_head(&mut self) -> (r: Result<String, Diagnostic>)
        ensures
            final(self).toks() == old(self).toks(),
            match grammar::parse_func_head(old(self).toks(), old(self).cursor()) {
                Ok((name, first)) => r matches Ok(x) && x@ == name && final(self).cursor() == first,
                Err(d) => r matches Err(y) && y@ == d,
            },
            r is Ok ==> old(self).cursor() < final(self).cursor(),
    {
        self.bump();
        match self.find_kind(self.index, TokenKind::BlockFuncEnd) {
            Some(_) => {},
            None => {
                return fail(
                    messages::UNTERMINATED_FUNCTION,
                    self.current_span(),
                    messages::UNTERMINATED_FUNCTION_HELP,
                );
            },
        }
        let at = self.index;
        if self.kind_of(at) != TokenKind::Ident {
            return fail(
                messages::INVALID_FUNCTION,
                self.span_of(at),
                messages::FUNCTION_NAME_HELP,
            );
        }
        let name = self.lexeme_of(at);
        self.bump();
        if !is_snake_case(name.as_str()) {
            return fail(
                messages::INVALID_FUNCTION_NAME,
                self.span_of(at),
                messages::SNAKE_CASE_HELP,
            );
        }
        if self.peek_kind() != TokenKind::BlockFuncStart {
            return fail(
                messages::INVALID_FUNCTION,
                self.current_span(),
                messages::FUNCTION_PARAMS_HELP,
            );
        }
        self.bump();
        let n = self.len();
        match self.find_kind(self.index, TokenKind::BlockFuncChain) {
            Some(chain) => {
                assert(chain < n);
                if self.kind_of(chain + 1) == TokenKind::BlockFuncEnd {
                    return fail(
                        messages::INCOMPLETE_FUNCTION,
                        self.current_span(),
                        messages::FUNCTION_BODY_HELP,
                    );
                }
            },
            None => {
                return fail(
                    messages::INCOMPLETE_FUNCTION,
                    self.current_span(),
                    messages::FUNCTION_BODY_HELP,
                );
            },
        }
        Ok(name)
    }

    /// Parses the bodies of a function, up to `):`, which is left at the
    /// cursor.
    fn parse_bodies(&mut self) -> (r: Result<Vec<Stmt>, Diagnostic>)
        ensures
            final(self).toks() == old(self).toks(),
            stmts_agree(
                r,
                final(self).cursor(),
                grammar::parse_bodies(old(self).toks(), old(self).cursor(), Seq::empty()),
            ),
            r is Ok ==> old(self).cursor() <= final(self).cursor(),
    {
        let ghost toks = self.toks();
        let ghost entry = self.cursor();
        let ghost goal = grammar::parse_bodies(toks, entry, Seq::empty());
        let mut bodies: Vec<Stmt> = Vec::new();
        proof {
            lemma_views_empty();
            use_type_invariant(&*self);
        }
        loop
            invariant
                self.toks() == toks,
                toks == old(self).toks(),
                entry == old(self).cursor(),
                entry <= self.cursor() <= toks.len(),
                goal == grammar::parse_bodies(toks, entry, Seq::empty()),
                goal == grammar::parse_bodies(toks, self.cursor(), stmt_views(bodies@)),
            decreases toks.len() - self.cursor(),
        {
            let nodes = self.parse_body()?;
            let body = Stmt::Block { stmts: nodes };
            proof {
                lemma_block_view(nodes);
                lemma_stmt_views_push(bodies@, body);
                use_type_invariant(&*self);
            }
            bodies.push(body);
            if self.peek_kind() == TokenKind::BlockFuncChain {
                self.bump();
            } else {
                return Ok(bodies);
            }
        }
    }

    /// Parses a function: its head, the parameters, and the bodies up to
    /// `):`.
    fn parse_func(&mut self) -> (r: Result<Stmt, Diagnostic>)
        ensures
            final(self).toks() == old(self).toks(),
            stmt_agrees(
                r,
                final(self).cursor(),
                grammar::parse_func(old(self).toks(), old(self).cursor()),
            ),
            r is Ok ==> old(self).cursor() < final(self).cursor(),
    {
        let name = self.parse_func_head()?;
        let params = self.parse_params()?;
        self.bump();
        let bodies = self.parse_bodies()?;
        self.bump();
        proof {
            lemma_func_view(name, params, bodies);
        }
        Ok(Stmt::Func { name, params, bodies })
    }

    /// Parses one node: a block, a function, or a statement.
    pub fn parse_node(&mut self) -> (r: Result<Stmt, Diagnostic>)
        ensures
            final(self).toks() == old(self).toks(),
            stmt_agrees(
                r,
                final(self).cursor(),
                grammar::parse_node(old(self).toks(), old(self).cursor()),
            ),
            r is Ok ==> old(self).cursor() < final(self).cursor(),
    {
        match self.peek_kind() {
            TokenKind::BlockStmtStart => self.parse_block(),
            TokenKind::KwFn => self.parse_func(),
            _ => self.parse_statement_entry(),
        }
    }

    /// Parses nodes up to the end marker: the program, or the diagnostic
    /// of the first defect.
    pub fn parse_program(&mut self) -> (r: Result<Program, Diagnostic>)
        ensures
            final(self).toks() == old(self).toks(),
            program_agrees(
                r,
                final(self).cursor(),
                grammar::parse_program(old(self).toks(), old(self).cursor()),
            ),
    {
        let ghost toks = self.toks();
        let ghost entry = self.cursor();
        let ghost goal = grammar::parse_program(toks, entry);
        let mut nodes: Vec<Stmt> = Vec::new();
        proof {
            lemma_views_empty();
            use_type_invariant(&*self);
        }
        while self.peek_kind() != TokenKind::Eof
            invariant
                self.toks() == toks,
                toks == old(self).toks(),
                entry == old(self).cursor(),
                self.cursor() <= toks.len(),
                goal == grammar::parse_program(toks, entry),
                goal == grammar::program_of(
                    grammar::parse_nodes(toks, self.cursor(), stmt_views(nodes@)),
                ),
            decreases toks.len() - self.cursor(),
        {
            let node = self.parse_node()?;
            proof {
                lemma_stmt_views_push(nodes@, node);
                use_type_invariant(&*self);
            }
            nodes.push(node);
        }
        Ok(Program { stmts: nodes })
    }
}

} // verus!
