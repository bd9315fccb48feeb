//! Parsing the canonical words of an expression gives the expression.

use vstd::prelude::*;
use crate::compiler::ast::{ExprView, LiteralView};
use crate::compiler::error::DiagnosticView;
use crate::compiler::grammar::{
    after, build_infix, digits_value, infix_binding_power, num_value, parse_arg_list, parse_args,
    parse_bp, parse_infix, parse_prefix, parse_value, Infix,
};
use crate::compiler::lexer::is_digit;
use crate::compiler::surface::form::{
    binary_parts, binary_words, call_words, expr_words, list_words, printable, unary_words,
    value_word,
};
use crate::compiler::surface::words::{
    infix_kind, lemma_decimal_digits, token_is, written_from, Word,
};
use crate::compiler::text::{decimal, digit_char};
use crate::compiler::token::{TokenKind, TokenView};

verus! {

pub proof fn lemma_written_split(toks: Seq<TokenView>, j: int, a: Seq<Word>, b: Seq<Word>)
    requires
        written_from(toks, j, a + b),
    ensures
        written_from(toks, j, a),
        written_from(toks, j + a.len(), b),
{
    let all = a + b;
    assert forall|k: int| 0 <= k < a.len() implies token_is(toks[j + k], #[trigger] a[k]) by {
        assert(all[k] == a[k]);
    }
    assert forall|k: int| 0 <= k < b.len() implies token_is(
        toks[j + a.len() + k],
        #[trigger] b[k],
    ) by {
        assert(all[a.len() + k] == b[k]);
    }
}

pub proof fn lemma_binary_layout(
    toks: Seq<TokenView>,
    j: int,
    op: Infix,
    left: Seq<Word>,
    right: Seq<Word>,
)
    requires
        written_from(toks, j, binary_words(op, left, right)),
    ensures
        binary_words(op, left, right).len() == left.len() + right.len() + 3,
        toks[j].kind == TokenKind::LParen,
        written_from(toks, j + 1, left),
        toks[j + 1 + left.len()].kind == infix_kind(op),
        written_from(toks, j + 2 + left.len(), right),
        toks[j + 2 + left.len() + right.len()].kind == TokenKind::RParen,
{
    let a = seq![Word::LParen] + left;
    let b = a + seq![Word::Op(op)];
    let c = b + right;
    let d = c + seq![Word::RParen];
    assert(d == binary_words(op, left, right));
    lemma_written_split(toks, j, c, seq![Word::RParen]);
    lemma_written_split(toks, j, b, right);
    lemma_written_split(toks, j, a, seq![Word::Op(op)]);
    lemma_written_split(toks, j, seq![Word::LParen], left);
    assert(token_is(toks[j + 0], seq![Word::LParen][0]));
    assert(token_is(toks[j + a.len() + 0], seq![Word::Op(op)][0]));
    assert(token_is(toks[j + c.len() + 0], seq![Word::RParen][0]));
}

pub proof fn lemma_unary_layout(toks: Seq<TokenView>, j: int, op: Word, operand: Seq<Word>)
    requires
        written_from(toks, j, unary_words(op, operand)),
    ensures
        unary_words(op, operand).len() == operand.len() + 3,
        toks[j].kind == TokenKind::LParen,
        toks[j + 1].kind == op.kind(),
        written_from(toks, j + 2, operand),
        toks[j + 2 + operand.len()].kind == TokenKind::RParen,
{
    let a = seq![Word::LParen, op];
    let b = a + operand;
    lemma_written_split(toks, j, b, seq![Word::RParen]);
    lemma_written_split(toks, j, a, operand);
    assert(token_is(toks[j + 0], a[0]));
    assert(token_is(toks[j + 1], a[1]));
    assert(token_is(toks[j + b.len() + 0], seq![Word::RParen][0]));
}

pub proof fn lemma_call_layout(toks: Seq<TokenView>, j: int, callee: Seq<Word>, args: Seq<Word>)
    requires
        written_from(toks, j, call_words(callee, args)),
    ensures
        call_words(callee, args).len() == callee.len() + args.len() + 4,
        toks[j].kind == TokenKind::LParen,
        written_from(toks, j + 1, callee),
        toks[j + 1 + callee.len()].kind == TokenKind::LParen,
        written_from(toks, j + 2 + callee.len(), args),
        toks[j + 2 + callee.len() + args.len()].kind == TokenKind::RParen,
        toks[j + 3 + callee.len() + args.len()].kind == TokenKind::RParen,
{
    let a = seq![Word::LParen] + callee;
    let b = a + seq![Word::LParen];
    let c = b + args;
    let close = seq![Word::RParen, Word::RParen];
    lemma_written_split(toks, j, c, close);
    lemma_written_split(toks, j, b, args);
    lemma_written_split(toks, j, a, seq![Word::LParen]);
    lemma_written_split(toks, j, seq![Word::LParen], callee);
    assert(token_is(toks[j + 0], seq![Word::LParen][0]));
    assert(token_is(toks[j + a.len() + 0], seq![Word::LParen][0]));
    assert(token_is(toks[j + c.len() + 0], close[0]));
    assert(token_is(toks[j + c.len() + 1], close[1]));
}

/// A parenthesised expression is an operand.
pub proof fn lemma_parse_paren(toks: Seq<TokenView>, j: int, e: ExprView, d: int)
    requires
        0 <= j < d < toks.len(),
        toks[j].kind == TokenKind::LParen,
        parse_bp(toks, j + 1, 0) == Ok::<(ExprView, int), DiagnosticView>((e, d)),
        toks[d].kind == TokenKind::RParen,
    ensures
        parse_prefix(toks, j) == Ok::<(ExprView, int), DiagnosticView>((e, d + 1)),
{
}

/// An operand followed by a token that binds nothing is an expression.
pub proof fn lemma_parse_stop(toks: Seq<TokenView>, j: int, e: ExprView, d: int, min_bp: u8)
    requires
        0 <= j < d < toks.len(),
        parse_prefix(toks, j) == Ok::<(ExprView, int), DiagnosticView>((e, d)),
        infix_binding_power(toks[d].kind) is None,
    ensures
        parse_bp(toks, j, min_bp) == Ok::<(ExprView, int), DiagnosticView>((e, d)),
        parse_infix(toks, d, e, min_bp) == Ok::<(ExprView, int), DiagnosticView>((e, d)),
{
}

/// Two operands around a binary operator, closed by a parenthesis, are
/// the binary expression.
pub proof fn lemma_parse_operator(
    toks: Seq<TokenView>,
    a: int,
    b: int,
    d: int,
    op: Infix,
    l: ExprView,
    r: ExprView,
)
    requires
        0 <= a < b,
        b + 1 < d < toks.len(),
        op != Infix::Call,
        parse_prefix(toks, a) == Ok::<(ExprView, int), DiagnosticView>((l, b)),
        toks[b].kind == infix_kind(op),
        parse_prefix(toks, b + 1) == Ok::<(ExprView, int), DiagnosticView>((r, d)),
        toks[d].kind == TokenKind::RParen,
    ensures
        parse_bp(toks, a, 0) == Ok::<(ExprView, int), DiagnosticView>((build_infix(op, l, r), d)),
{
    let binding = infix_binding_power(toks[b].kind)->0;
    assert(binding.op == op);
    lemma_parse_stop(toks, b + 1, r, d, binding.right);
    assert(parse_infix(toks, d, build_infix(op, l, r), 0) == Ok::<(ExprView, int), DiagnosticView>(
        (build_infix(op, l, r), d),
    ));
    assert(parse_infix(toks, b, l, 0) == Ok::<(ExprView, int), DiagnosticView>(
        (build_infix(op, l, r), d),
    ));
}

/// A prefix operator and its operand, closed by a parenthesis.
pub proof fn lemma_parse_prefix_operator(
    toks: Seq<TokenView>,
    a: int,
    d: int,
    x: ExprView,
    not: bool,
)
    requires
        0 <= a,
        a + 1 < d < toks.len(),
        toks[a].kind == if not {
            TokenKind::Not
        } else {
            TokenKind::Sub
        },
        parse_prefix(toks, a + 1) == Ok::<(ExprView, int), DiagnosticView>((x, d)),
        toks[d].kind == TokenKind::RParen,
    ensures
        parse_bp(toks, a, 0) == Ok::<(ExprView, int), DiagnosticView>(
            (
                if not {
                    ExprView::Not(Box::new(x))
                } else {
                    ExprView::Neg(Box::new(x))
                },
                d,
            ),
        ),
{
    lemma_parse_stop(toks, a + 1, x, d, crate::compiler::grammar::PREFIX_BP);
    let e = if not {
        ExprView::Not(Box::new(x))
    } else {
        ExprView::Neg(Box::new(x))
    };
    assert(parse_prefix(toks, a) == Ok::<(ExprView, int), DiagnosticView>((e, d)));
    lemma_parse_stop(toks, a, e, d, 0);
}

/// A callee and its parsed arguments, closed by a parenthesis.
pub proof fn lemma_parse_application(
    toks: Seq<TokenView>,
    a: int,
    b: int,
    d: int,
    callee: ExprView,
    args: Seq<ExprView>,
)
    requires
        0 <= a < b < d < toks.len(),
        parse_prefix(toks, a) == Ok::<(ExprView, int), DiagnosticView>((callee, b)),
        toks[b].kind == TokenKind::LParen,
        parse_args(toks, b + 1) == Ok::<(Seq<ExprView>, int), DiagnosticView>((args, d)),
        toks[d].kind == TokenKind::RParen,
    ensures
        parse_bp(toks, a, 0) == Ok::<(ExprView, int), DiagnosticView>(
            (ExprView::Call { callee: Box::new(callee), args }, d),
        ),
{
    let e = ExprView::Call { callee: Box::new(callee), args };
    assert(parse_infix(toks, d, e, 0) == Ok::<(ExprView, int), DiagnosticView>((e, d)));
    assert(parse_infix(toks, b, callee, 0) == Ok::<(ExprView, int), DiagnosticView>((e, d)));
}

/// The canonical form of an expression has a first word, and that word
/// is a name only where the expression is a lone name. It is never a
/// closing parenthesis.
pub proof fn lemma_first_word(e: ExprView)
    requires
        printable(e),
    ensures
        expr_words(e).len() >= 1,
        expr_words(e)[0].kind() == TokenKind::Ident <==> e is Ident,
        expr_words(e)[0].kind() != TokenKind::RParen,
{
    match e {
        ExprView::Ident(_) => {},
        ExprView::Lit(_) => {},
        ExprView::Not(x) => {
            assert(expr_words(e)[0] == Word::LParen);
        },
        ExprView::Neg(x) => {
            assert(expr_words(e)[0] == Word::LParen);
        },
        ExprView::Call { callee, args } => {
            assert(expr_words(e)[0] == Word::LParen);
        },
        _ => {
            let parts = binary_parts(e)->0;
            assert(expr_words(e) == binary_words(parts.0, expr_words(parts.1), expr_words(parts.2)));
            assert(expr_words(e)[0] == Word::LParen);
        },
    }
}

/// A binary expression in its parentheses is an operand.
proof fn lemma_binary_unit(toks: Seq<TokenView>, j: int, op: Infix, l: ExprView, r: ExprView)
    requires
        0 <= j,
        op != Infix::Call,
        expr_words(l).len() >= 1,
        expr_words(r).len() >= 1,
        written_from(toks, j, binary_words(op, expr_words(l), expr_words(r))),
        j + binary_words(op, expr_words(l), expr_words(r)).len() < toks.len(),
        parse_prefix(toks, j + 1) == Ok::<(ExprView, int), DiagnosticView>(
            (l, j + 1 + expr_words(l).len()),
        ),
        parse_prefix(toks, j + 2 + expr_words(l).len()) == Ok::<(ExprView, int), DiagnosticView>(
            (r, j + 2 + expr_words(l).len() + expr_words(r).len()),
        ),
    ensures
        parse_prefix(toks, j) == Ok::<(ExprView, int), DiagnosticView>(
            (build_infix(op, l, r), j + binary_words(op, expr_words(l), expr_words(r)).len()),
        ),
{
    let wl = expr_words(l);
    let wr = expr_words(r);
    lemma_binary_layout(toks, j, op, wl, wr);
    let b = j + 1 + wl.len();
    let d = j + 2 + wl.len() + wr.len();
    lemma_parse_operator(toks, j + 1, b, d, op, l, r);
    lemma_parse_paren(toks, j, build_infix(op, l, r), d);
}

/// A prefix operator and its operand in their parentheses are an
/// operand.
proof fn lemma_unary_unit(toks: Seq<TokenView>, j: int, x: ExprView, not: bool)
    requires
        0 <= j,
        expr_words(x).len() >= 1,
        written_from(
            toks,
            j,
            unary_words(
                if not {
                    Word::Not
                } else {
                    Word::Op(Infix::Sub)
                },
                expr_words(x),
            ),
        ),
        j + expr_words(x).len() + 3 < toks.len(),
        parse_prefix(toks, j + 2) == Ok::<(ExprView, int), DiagnosticView>(
            (x, j + 2 + expr_words(x).len()),
        ),
    ensures
        parse_prefix(toks, j) == Ok::<(ExprView, int), DiagnosticView>(
            (
                if not {
                    ExprView::Not(Box::new(x))
                } else {
                    ExprView::Neg(Box::new(x))
                },
                j + expr_words(x).len() + 3,
            ),
        ),
{
    let op = if not {
        Word::Not
    } else {
        Word::Op(Infix::Sub)
    };
    let made = if not {
        ExprView::Not(Box::new(x))
    } else {
        ExprView::Neg(Box::new(x))
    };
    lemma_unary_layout(toks, j, op, expr_words(x));
    let d = j + 2 + expr_words(x).len();
    lemma_parse_prefix_operator(toks, j + 1, d, x, not);
    lemma_parse_paren(toks, j, made, d);
}

/// A callee and its arguments in their parentheses are an operand.
proof fn lemma_call_unit(
    toks: Seq<TokenView>,
    j: int,
    callee: ExprView,
    args: Seq<ExprView>,
    words: Seq<Word>,
)
    requires
        0 <= j,
        expr_words(callee).len() >= 1,
        written_from(toks, j, call_words(expr_words(callee), words)),
        j + expr_words(callee).len() + words.len() + 4 < toks.len(),
        parse_prefix(toks, j + 1) == Ok::<(ExprView, int), DiagnosticView>(
            (callee, j + 1 + expr_words(callee).len()),
        ),
        parse_args(toks, j + 2 + expr_words(callee).len()) == Ok::<
            (Seq<ExprView>, int),
            DiagnosticView,
        >((args, j + 3 + expr_words(callee).len() + words.len())),
    ensures
        parse_prefix(toks, j) == Ok::<(ExprView, int), DiagnosticView>(
            (
                ExprView::Call { callee: Box::new(callee), args },
                j + expr_words(callee).len() + words.len() + 4,
            ),
        ),
{
    let wc = expr_words(callee);
    lemma_call_layout(toks, j, wc, words);
    let b = j + 1 + wc.len();
    let d = j + 3 + wc.len() + words.len();
    lemma_parse_application(toks, j + 1, b, d, callee, args);
    lemma_parse_paren(toks, j, ExprView::Call { callee: Box::new(callee), args }, d);
}

/// A name or a literal is an operand.
proof fn lemma_atom_unit(e: ExprView, toks: Seq<TokenView>, j: int)
    requires
        e is Ident || e is Lit,
        value_word(e) is Some,
        0 <= j,
        j + 1 < toks.len(),
        token_is(toks[j], value_word(e)->0),
    ensures
        parse_prefix(toks, j) == Ok::<(ExprView, int), DiagnosticView>((e, j + 1)),
{
    match e {
        ExprView::Lit(LiteralView::Num(n)) => {
            lemma_num_value_of_decimal(n as nat);
        },
        _ => {},
    }
}

/// The arguments of a call in canonical form, closed by the parenthesis
/// at `d - 1`, parse to the arguments.
proof fn lemma_no_arguments(toks: Seq<TokenView>, k: int)
    requires
        0 <= k < toks.len(),
        toks[k].kind == TokenKind::RParen,
    ensures
        parse_args(toks, k) == Ok::<(Seq<ExprView>, int), DiagnosticView>(
            (Seq::<ExprView>::empty(), k + 1),
        ),
{
}

/// A printable expression whose canonical words stand at `j`, with a
/// token after them, parses as an operand to the very expression.
#[verifier::rlimit(60)]
pub proof fn lemma_parse_unit(e: ExprView, toks: Seq<TokenView>, j: int)
    requires
        printable(e),
        0 <= j,
        j + expr_words(e).len() < toks.len(),
        written_from(toks, j, expr_words(e)),
    ensures
        parse_prefix(toks, j) == Ok::<(ExprView, int), DiagnosticView>(
            (e, j + expr_words(e).len()),
        ),
    decreases e, 0int,
{
    let ws = expr_words(e);
    match e {
        ExprView::Ident(name) => {
            assert(ws =~= seq![Word::Name(name)]);
            assert(token_is(toks[j + 0], ws[0]));
            lemma_atom_unit(e, toks, j);
        },
        ExprView::Lit(lit) => {
            assert(ws =~= seq![value_word(e)->0]);
            assert(token_is(toks[j + 0], ws[0]));
            lemma_atom_unit(e, toks, j);
        },
        ExprView::Not(x) => {
            lemma_unary_layout(toks, j, Word::Not, expr_words(*x));
            lemma_first_word(*x);
            lemma_parse_unit(*x, toks, j + 2);
            lemma_unary_unit(toks, j, *x, true);
        },
        ExprView::Neg(x) => {
            lemma_unary_layout(toks, j, Word::Op(Infix::Sub), expr_words(*x));
            lemma_first_word(*x);
            lemma_parse_unit(*x, toks, j + 2);
            lemma_unary_unit(toks, j, *x, false);
        },
        ExprView::Call { callee, args } => {
            let wc = expr_words(*callee);
            let wa = list_words(args, 0, Word::Comma);
            lemma_call_layout(toks, j, wc, wa);
            lemma_first_word(*callee);
            lemma_parse_unit(*callee, toks, j + 1);
            let b = j + 1 + wc.len();
            if args.len() == 0 {
                assert(args =~= Seq::<ExprView>::empty());
                lemma_no_arguments(toks, b + 1);
            } else {
                lemma_first_word(args[0]);
                assert(wa[0] == expr_words(args[0])[0]);
                assert(token_is(toks[b + 1 + 0], wa[0]));
                lemma_parse_arguments(args, 0, toks, b + 1, Seq::empty());
                assert(Seq::<ExprView>::empty() + args.skip(0) =~= args);
            }
            lemma_call_unit(toks, j, *callee, args, wa);
        },
        _ => {
            let parts = binary_parts(e)->0;
            let op = parts.0;
            let l = parts.1;
            let r = parts.2;
            let wl = expr_words(l);
            assert(ws == binary_words(op, wl, expr_words(r)));
            assert(e == build_infix(op, l, r));
            lemma_binary_layout(toks, j, op, wl, expr_words(r));
            lemma_first_word(l);
            lemma_first_word(r);
            lemma_parse_unit(l, toks, j + 1);
            lemma_parse_unit(r, toks, j + 2 + wl.len());
            lemma_binary_unit(toks, j, op, l, r);
        },
    }
}

/// The canonical words of the arguments from the one with index `i` on,
/// closed by a parenthesis, parse to those arguments after the ones
/// already parsed.
#[verifier::rlimit(40)]
pub proof fn lemma_parse_arguments(
    args: Seq<ExprView>,
    i: int,
    toks: Seq<TokenView>,
    k: int,
    acc: Seq<ExprView>,
)
    requires
        0 <= i < args.len(),
        0 <= k,
        forall|m: int| 0 <= m < args.len() ==> printable(#[trigger] args[m]) && !(args[m] is Ident),
        written_from(toks, k, list_words(args, i, Word::Comma)),
        k + list_words(args, i, Word::Comma).len() < toks.len(),
        toks[k + list_words(args, i, Word::Comma).len()].kind == TokenKind::RParen,
    ensures
        parse_arg_list(toks, k, acc) == Ok::<(Seq<ExprView>, int), DiagnosticView>(
            (acc + args.skip(i), k + list_words(args, i, Word::Comma).len() + 1),
        ),
        toks[k].kind != TokenKind::RParen ==> parse_args(toks, k) == parse_arg_list(
            toks,
            k,
            Seq::empty(),
        ),
    decreases args, args.len() - i,
{
    let a = args[i];
    let wa = expr_words(a);
    let all = list_words(args, i, Word::Comma);
    lemma_first_word(a);
    if i == args.len() - 1 {
        assert(all == wa);
        lemma_parse_unit(a, toks, k);
        let q = k + wa.len();
        lemma_parse_stop(toks, k, a, q, 0);
        assert(token_is(toks[k + 0], wa[0]));
        assert(parse_value(toks, k, false) == Ok::<(ExprView, int), DiagnosticView>((a, q)));
        assert(acc.push(a) =~= acc + args.skip(i));
    } else {
        let rest = list_words(args, i + 1, Word::Comma);
        assert(all == wa + seq![Word::Comma] + rest);
        lemma_written_split(toks, k, wa + seq![Word::Comma], rest);
        lemma_written_split(toks, k, wa, seq![Word::Comma]);
        let q = k + wa.len();
        assert(token_is(toks[q + 0], seq![Word::Comma][0]));
        lemma_parse_unit(a, toks, k);
        lemma_parse_stop(toks, k, a, q, 0);
        assert(token_is(toks[k + 0], wa[0]));
        assert(parse_value(toks, k, false) == Ok::<(ExprView, int), DiagnosticView>((a, q)));
        lemma_parse_arguments(args, i + 1, toks, q + 1, acc.push(a));
        assert(acc.push(a) + args.skip(i + 1) =~= acc + args.skip(i));
    }
}

pub proof fn lemma_digits_of_decimal(n: nat)
    ensures
        digits_value(decimal(n)) == n,
    decreases n,
{
    assert(forall|d: nat| d < 10 ==> (#[trigger] digit_char(d)) as u32 - '0' as u32 == d);
    if n < 10 {
        assert(decimal(n).drop_last() =~= Seq::<char>::empty());
        assert(digits_value(decimal(n).drop_last()) == 0);
    } else {
        lemma_digits_of_decimal(n / 10);
        assert(decimal(n).drop_last() =~= decimal(n / 10));
    }
}

/// An integer literal means the number it writes.
pub proof fn lemma_num_value_of_decimal(n: nat)
    requires
        n <= i64::MAX,
    ensures
        num_value(decimal(n)) == n,
{
    lemma_decimal_digits(n);
    lemma_digits_of_decimal(n);
    assert(is_digit(decimal(n)[0]));
}

} // verus!
