//! The canonical form of expressions and statements as runs of words.

use vstd::prelude::*;
use crate::compiler::ast::{ExprView, LiteralView, StmtView};
use crate::compiler::grammar::{after, infix_binding_power, is_boundary, starts_statement, Infix};
use crate::compiler::surface::words::{is_decimal_text, is_name, is_text_body, spell, Word};

verus! {

/// The word that writes a value: a literal or a name. Negative numbers
/// and flags have no literal form.
pub open spec fn value_word(e: ExprView) -> Option<Word> {
    match e {
        ExprView::Lit(LiteralView::Num(n)) => if n >= 0 {
            Some(Word::Number(n as nat))
        } else {
            None
        },
        ExprView::Lit(LiteralView::Dec(d)) => if is_decimal_text(d) {
            Some(Word::Decimal(d))
        } else {
            None
        },
        ExprView::Lit(LiteralView::Text(t)) => if is_text_body(t) {
            Some(Word::Text(t))
        } else {
            None
        },
        ExprView::Lit(LiteralView::Void) => Some(Word::Void),
        ExprView::Ident(name) => if is_name(name) {
            Some(Word::Name(name))
        } else {
            None
        },
        _ => None,
    }
}

/// An expression has a canonical form: its names and literals have one,
/// and no argument of a call is a lone name.
pub open spec fn printable(e: ExprView) -> bool
    decreases e,
{
    match e {
        ExprView::Ident(_) => value_word(e) is Some,
        ExprView::Lit(_) => value_word(e) is Some,
        ExprView::Not(x) => printable(*x),
        ExprView::Neg(x) => printable(*x),
        ExprView::Add(l, r) => printable(*l) && printable(*r),
        ExprView::Sub(l, r) => printable(*l) && printable(*r),
        ExprView::Mul(l, r) => printable(*l) && printable(*r),
        ExprView::Div(l, r) => printable(*l) && printable(*r),
        ExprView::Mod(l, r) => printable(*l) && printable(*r),
        ExprView::Eq(l, r) => printable(*l) && printable(*r),
        ExprView::Ne(l, r) => printable(*l) && printable(*r),
        ExprView::Lt(l, r) => printable(*l) && printable(*r),
        ExprView::Le(l, r) => printable(*l) && printable(*r),
        ExprView::Gt(l, r) => printable(*l) && printable(*r),
        ExprView::Ge(l, r) => printable(*l) && printable(*r),
        ExprView::And(l, r) => printable(*l) && printable(*r),
        ExprView::Or(l, r) => printable(*l) && printable(*r),
        ExprView::Has(l, r) => printable(*l) && printable(*r),
        ExprView::Present(l, r) => printable(*l) && printable(*r),
        ExprView::Pipe(l, r) => printable(*l) && printable(*r),
        ExprView::Call { callee, args } => printable(*callee) && forall|i: int|
            0 <= i < args.len() ==> printable(#[trigger] args[i]) && !(args[i] is Ident),
    }
}

/// The words of a binary expression: both operands in one pair of
/// parentheses, the operator between them.
pub open spec fn binary_words(op: Infix, left: Seq<Word>, right: Seq<Word>) -> Seq<Word> {
    seq![Word::LParen] + left + seq![Word::Op(op)] + right + seq![Word::RParen]
}

/// The words of a prefix operator and its operand, in parentheses.
pub open spec fn unary_words(op: Word, operand: Seq<Word>) -> Seq<Word> {
    seq![Word::LParen, op] + operand + seq![Word::RParen]
}

/// The words of a call, in parentheses: the callee, then the arguments
/// in their own parentheses.
pub open spec fn call_words(callee: Seq<Word>, args: Seq<Word>) -> Seq<Word> {
    seq![Word::LParen] + callee + seq![Word::LParen] + args + seq![Word::RParen, Word::RParen]
}

/// The words of an expression in canonical form: a name or a literal is
/// one word; every other expression stands in parentheses, so that no
/// operator has to compete with another.
pub open spec fn expr_words(e: ExprView) -> Seq<Word>
    decreases e, 0int,
{
    match e {
        ExprView::Ident(_) => seq![value_word(e)->0],
        ExprView::Lit(_) => seq![value_word(e)->0],
        ExprView::Not(x) => unary_words(Word::Not, expr_words(*x)),
        ExprView::Neg(x) => unary_words(Word::Op(Infix::Sub), expr_words(*x)),
        ExprView::Add(l, r) => binary_words(Infix::Add, expr_words(*l), expr_words(*r)),
        ExprView::Sub(l, r) => binary_words(Infix::Sub, expr_words(*l), expr_words(*r)),
        ExprView::Mul(l, r) => binary_words(Infix::Mul, expr_words(*l), expr_words(*r)),
        ExprView::Div(l, r) => binary_words(Infix::Div, expr_words(*l), expr_words(*r)),
        ExprView::Mod(l, r) => binary_words(Infix::Mod, expr_words(*l), expr_words(*r)),
        ExprView::Eq(l, r) => binary_words(Infix::Eq, expr_words(*l), expr_words(*r)),
        ExprView::Ne(l, r) => binary_words(Infix::Ne, expr_words(*l), expr_words(*r)),
        ExprView::Lt(l, r) => binary_words(Infix::Lt, expr_words(*l), expr_words(*r)),
        ExprView::Le(l, r) => binary_words(Infix::Le, expr_words(*l), expr_words(*r)),
        ExprView::Gt(l, r) => binary_words(Infix::Gt, expr_words(*l), expr_words(*r)),
        ExprView::Ge(l, r) => binary_words(Infix::Ge, expr_words(*l), expr_words(*r)),
        ExprView::And(l, r) => binary_words(Infix::And, expr_words(*l), expr_words(*r)),
        ExprView::Or(l, r) => binary_words(Infix::Or, expr_words(*l), expr_words(*r)),
        ExprView::Has(l, r) => binary_words(Infix::Has, expr_words(*l), expr_words(*r)),
        ExprView::Present(l, r) => binary_words(Infix::Present, expr_words(*l), expr_words(*r)),
        ExprView::Pipe(l, r) => binary_words(Infix::Pipe, expr_words(*l), expr_words(*r)),
        ExprView::Call { callee, args } => call_words(
            expr_words(*callee),
            list_words(args, 0, Word::Comma),
        ),
    }
}

/// The words of the expressions `items` from the one with index `i` on,
/// the word `sep` between two of them: a comma between the arguments of
/// a call, a colon between the branches of a guard.
pub open spec fn list_words(items: Seq<ExprView>, i: int, sep: Word) -> Seq<Word>
    decreases items, items.len() - i,
{
    if !(0 <= i < items.len()) {
        Seq::empty()
    } else if i == items.len() - 1 {
        expr_words(items[i])
    } else {
        expr_words(items[i]) + seq![sep] + list_words(items, i + 1, sep)
    }
}

/// The operator and the operands of a binary expression.
pub open spec fn binary_parts(e: ExprView) -> Option<(Infix, ExprView, ExprView)> {
    match e {
        ExprView::Add(l, r) => Some((Infix::Add, *l, *r)),
        ExprView::Sub(l, r) => Some((Infix::Sub, *l, *r)),
        ExprView::Mul(l, r) => Some((Infix::Mul, *l, *r)),
        ExprView::Div(l, r) => Some((Infix::Div, *l, *r)),
        ExprView::Mod(l, r) => Some((Infix::Mod, *l, *r)),
        ExprView::Eq(l, r) => Some((Infix::Eq, *l, *r)),
        ExprView::Ne(l, r) => Some((Infix::Ne, *l, *r)),
        ExprView::Lt(l, r) => Some((Infix::Lt, *l, *r)),
        ExprView::Le(l, r) => Some((Infix::Le, *l, *r)),
        ExprView::Gt(l, r) => Some((Infix::Gt, *l, *r)),
        ExprView::Ge(l, r) => Some((Infix::Ge, *l, *r)),
        ExprView::And(l, r) => Some((Infix::And, *l, *r)),
        ExprView::Or(l, r) => Some((Infix::Or, *l, *r)),
        ExprView::Has(l, r) => Some((Infix::Has, *l, *r)),
        ExprView::Present(l, r) => Some((Infix::Present, *l, *r)),
        ExprView::Pipe(l, r) => Some((Infix::Pipe, *l, *r)),
        _ => None,
    }
}

/// The word belongs to an expression: it writes a value, opens or closes
/// a parenthesis, separates arguments, or is an operator.
pub open spec fn is_expr_word(w: Word) -> bool {
    w.is_value() || w is LParen || w is RParen || w is Comma || w is Not || w is Op
}

/// Every word is a valid word of an expression.
pub open spec fn plain(ws: Seq<Word>) -> bool {
    forall|k: int| 0 <= k < ws.len() ==> is_expr_word(#[trigger] ws[k]) && ws[k].valid()
}

/// The words of an expression neither bound nor start a statement, and
/// what can follow a whole expression binds nothing.
pub proof fn lemma_word_kinds(w: Word)
    ensures
        is_expr_word(w) && w.valid() ==> !starts_statement(w.kind()) && !is_boundary(w.kind()),
        w is Colon ==> !starts_statement(w.kind()) && !is_boundary(w.kind())
            && infix_binding_power(w.kind()) is None,
        w is Semicolon ==> infix_binding_power(w.kind()) is None && is_boundary(w.kind()),
        w is Comma || w is RParen ==> infix_binding_power(w.kind()) is None,
{
}

pub proof fn lemma_plain_concat(a: Seq<Word>, b: Seq<Word>)
    requires
        plain(a),
        plain(b),
    ensures
        plain(a + b),
{
    let all = a + b;
    assert forall|k: int| 0 <= k < all.len() implies is_expr_word(#[trigger] all[k])
        && all[k].valid() by {
        if k < a.len() {
            assert(all[k] == a[k]);
        } else {
            assert(all[k] == b[k - a.len()]);
        }
    }
}

pub proof fn lemma_plain_one(w: Word)
    requires
        is_expr_word(w),
        w.valid(),
    ensures
        plain(seq![w]),
{
}

/// The canonical words of a printable expression are valid words of an
/// expression, and the last of them ends a value.
pub proof fn lemma_expr_words_plain(e: ExprView)
    requires
        printable(e),
    ensures
        plain(expr_words(e)),
        expr_words(e).len() >= 1,
        expr_words(e).last().closes(),
    decreases e, 0int,
{
    match e {
        ExprView::Ident(_) => {},
        ExprView::Lit(_) => {},
        ExprView::Not(x) => {
            lemma_expr_words_plain(*x);
            lemma_plain_concat(seq![Word::LParen, Word::Not], expr_words(*x));
            lemma_plain_one(Word::RParen);
            lemma_plain_concat(seq![Word::LParen, Word::Not] + expr_words(*x), seq![Word::RParen]);
        },
        ExprView::Neg(x) => {
            lemma_expr_words_plain(*x);
            lemma_plain_concat(seq![Word::LParen, Word::Op(Infix::Sub)], expr_words(*x));
            lemma_plain_one(Word::RParen);
            lemma_plain_concat(
                seq![Word::LParen, Word::Op(Infix::Sub)] + expr_words(*x),
                seq![Word::RParen],
            );
        },
        ExprView::Call { callee, args } => {
            lemma_expr_words_plain(*callee);
            lemma_list_words_plain(args, 0, Word::Comma);
            let close = seq![Word::RParen, Word::RParen];
            lemma_plain_one(Word::LParen);
            let a = seq![Word::LParen] + expr_words(*callee);
            lemma_plain_concat(seq![Word::LParen], expr_words(*callee));
            lemma_plain_concat(a, seq![Word::LParen]);
            lemma_plain_concat(a + seq![Word::LParen], list_words(args, 0, Word::Comma));
            lemma_plain_concat(
                a + seq![Word::LParen] + list_words(args, 0, Word::Comma),
                close,
            );
        },
        _ => {
            let parts = binary_parts(e)->0;
            let op = parts.0;
            let l = parts.1;
            let r = parts.2;
            assert(expr_words(e) == binary_words(op, expr_words(l), expr_words(r)));
            lemma_expr_words_plain(l);
            lemma_expr_words_plain(r);
            lemma_plain_one(Word::LParen);
            lemma_plain_one(Word::Op(op));
            lemma_plain_one(Word::RParen);
            let a = seq![Word::LParen] + expr_words(l);
            lemma_plain_concat(seq![Word::LParen], expr_words(l));
            lemma_plain_concat(a, seq![Word::Op(op)]);
            lemma_plain_concat(a + seq![Word::Op(op)], expr_words(r));
            lemma_plain_concat(a + seq![Word::Op(op)] + expr_words(r), seq![Word::RParen]);
        },
    }
}

/// The words of a list of printable expressions are valid words of an
/// expression, where the separator is one or is the colon.
pub proof fn lemma_list_words_plain(items: Seq<ExprView>, i: int, sep: Word)
    requires
        forall|m: int| 0 <= m < items.len() ==> printable(#[trigger] items[m]),
        sep is Comma || sep is Colon,
    ensures
        sep is Comma ==> plain(list_words(items, i, sep)),
        forall|k: int|
            0 <= k < list_words(items, i, sep).len() ==> (#[trigger] list_words(
                items,
                i,
                sep,
            )[k]).valid() && !starts_statement(list_words(items, i, sep)[k].kind()) && !is_boundary(
                list_words(items, i, sep)[k].kind(),
            ),
        0 <= i < items.len() ==> list_words(items, i, sep).len() >= 1 && list_words(
            items,
            i,
            sep,
        ).last().closes(),
    decreases items, items.len() - i,
{
    let all = list_words(items, i, sep);
    if 0 <= i < items.len() {
        let w = expr_words(items[i]);
        lemma_expr_words_plain(items[i]);
        assert forall|k: int| 0 <= k < w.len() implies !starts_statement((#[trigger] w[k]).kind())
            && !is_boundary(w[k].kind()) by {
            lemma_word_kinds(w[k]);
        }
        if i < items.len() - 1 {
            let rest = list_words(items, i + 1, sep);
            lemma_list_words_plain(items, i + 1, sep);
            lemma_word_kinds(sep);
            if sep is Comma {
                lemma_plain_one(sep);
                lemma_plain_concat(w, seq![sep]);
                lemma_plain_concat(w + seq![sep], rest);
            }
            assert forall|k: int| 0 <= k < all.len() implies (#[trigger] all[k]).valid()
                && !starts_statement(all[k].kind()) && !is_boundary(all[k].kind()) by {
                if k < w.len() {
                    assert(all[k] == w[k]);
                } else if k == w.len() {
                    assert(all[k] == sep);
                } else {
                    assert(all[k] == rest[k - w.len() - 1]);
                }
            }
            assert(all.last() == rest.last());
        }
    }
}

/// The words of a statement in canonical form, for the statements that
/// have one: define, define-empty, copy, bind and guard over printable
/// expressions.
pub open spec fn statement_words(s: StmtView) -> Option<Seq<Word>> {
    match s {
        StmtView::Define { name, value } => if is_name(name) && printable(value) && !(value
            is Ident) {
            Some(seq![Word::Name(name), Word::Define] + expr_words(value) + seq![Word::Semicolon])
        } else {
            None
        },
        StmtView::DefineEmpty { name } => if is_name(name) {
            Some(seq![Word::Name(name), Word::DefineEmpty])
        } else {
            None
        },
        StmtView::Copy { name, target } => if is_name(name) && is_name(target) {
            Some(seq![Word::Name(name), Word::Copy, Word::Name(target), Word::Semicolon])
        } else {
            None
        },
        StmtView::Bind { name, target } => if is_name(name) && is_name(target) {
            Some(seq![Word::Name(name), Word::Bind, Word::Name(target), Word::Semicolon])
        } else {
            None
        },
        StmtView::Guard { target, branches } => if is_name(target) && branches.len() > 0 && (
        forall|k: int| 0 <= k < branches.len() ==> printable(#[trigger] branches[k])) {
            Some(
                seq![Word::Name(target), Word::Guard] + list_words(branches, 0, Word::Colon)
                    + seq![Word::Semicolon],
            )
        } else {
            None
        },
        _ => None,
    }
}

/// The canonical surface form of a statement, where it has one.
pub open spec fn surface(s: StmtView) -> Option<Seq<char>> {
    match statement_words(s) {
        Some(ws) => Some(spell(ws)),
        None => None,
    }
}

/// The canonical surface form of an expression, where it has one.
pub open spec fn value_surface(e: ExprView) -> Option<Seq<char>> {
    if printable(e) {
        Some(spell(expr_words(e)))
    } else {
        None
    }
}

/// Appending one expression to a list appends its words, after the
/// separator unless it is the first from `i` on.
pub proof fn lemma_list_push(items: Seq<ExprView>, x: ExprView, i: int, sep: Word)
    requires
        0 <= i <= items.len(),
    ensures
        list_words(items.push(x), i, sep) == if i == items.len() {
            expr_words(x)
        } else {
            list_words(items, i, sep) + seq![sep] + expr_words(x)
        },
    decreases items.len() - i,
{
    let more = items.push(x);
    if i < items.len() {
        assert(more[i] == items[i]);
        lemma_list_push(items, x, i + 1, sep);
        if i == items.len() - 1 {
            assert(list_words(more, i, sep) =~= list_words(items, i, sep) + seq![sep] + expr_words(
                x,
            ));
        } else {
            assert(list_words(more, i, sep) =~= list_words(items, i, sep) + seq![sep] + expr_words(
                x,
            ));
        }
    }
}

} // verus!
