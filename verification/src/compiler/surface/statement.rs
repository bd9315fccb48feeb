//! Parsing the canonical words of a statement gives the statement, and
//! the round trip through text that follows from it.

use vstd::prelude::*;
use crate::compiler::ast::{ExprView, ProgramView, StmtView};
use crate::compiler::driver::front_end;
use crate::compiler::error::DiagnosticView;
use crate::compiler::grammar::{
    after, first_chained, infix_binding_power, is_boundary, kind_at, parse_alias, parse_branches,
    parse_define_empty, parse_expr, parse_head, parse_node, parse_nodes, parse_program,
    parse_statement, parse_value, starts_statement, statement_end, statement_lead,
};
use crate::compiler::lexer::lex;
use crate::compiler::surface::expression::{
    lemma_first_word, lemma_parse_stop, lemma_parse_unit, lemma_written_split,
};
use crate::compiler::surface::form::{
    expr_words, is_expr_word, lemma_expr_words_plain, lemma_list_words_plain, lemma_word_kinds,
    list_words, printable, statement_words, surface, value_surface,
};
use crate::compiler::surface::words::{
    is_name, lemma_lex_spelled, spell, token_is, well_formed, written_as, written_from, Word,
};
use crate::compiler::token::{TokenKind, TokenView};

verus! {

pub proof fn lemma_statement_end(toks: Seq<TokenView>, i: int, end: int)
    requires
        0 <= i <= end < toks.len(),
        forall|k: int| i <= k < end ==> !is_boundary(#[trigger] toks[k].kind),
        toks[end].kind == TokenKind::Semicolon,
    ensures
        statement_end(toks, i) == Some(end),
    decreases end - i,
{
    if i < end {
        assert(!is_boundary(toks[i].kind));
        lemma_statement_end(toks, i + 1, end);
    }
}

pub proof fn lemma_statement_lead(toks: Seq<TokenView>, i: int, at: int)
    requires
        0 <= i <= at < toks.len(),
        forall|k: int|
            i <= k < at ==> !is_boundary(#[trigger] toks[k].kind) && !starts_statement(
                toks[k].kind,
            ),
        starts_statement(toks[at].kind),
    ensures
        statement_lead(toks, i) == Some(toks[at].kind),
    decreases at - i,
{
    if i < at {
        assert(!is_boundary(toks[i].kind));
        lemma_statement_lead(toks, i + 1, at);
    }
}

pub proof fn lemma_not_chained(toks: Seq<TokenView>, from: int, to: int)
    requires
        0 <= from,
        forall|k: int| from <= k < to && k < toks.len() ==> !starts_statement(#[trigger] toks[k].kind),
    ensures
        first_chained(toks, from, to) is None,
    decreases to - from,
{
    if from < to && from < toks.len() {
        assert(!starts_statement(toks[from].kind));
        lemma_not_chained(toks, from + 1, to);
    }
}

/// A printable expression that is followed by a token which binds
/// nothing parses as a value, where it is no lone name or a lone name
/// is allowed.
pub proof fn lemma_parse_value_written(toks: Seq<TokenView>, j: int, e: ExprView, bare: bool)
    requires
        printable(e),
        0 <= j,
        j + expr_words(e).len() < toks.len(),
        written_from(toks, j, expr_words(e)),
        infix_binding_power(toks[j + expr_words(e).len()].kind) is None,
        bare || !(e is Ident),
    ensures
        parse_value(toks, j, bare) == Ok::<(ExprView, int), DiagnosticView>(
            (e, j + expr_words(e).len()),
        ),
        parse_expr(toks, j) == Ok::<(ExprView, int), DiagnosticView>(
            (e, j + expr_words(e).len()),
        ),
        toks[j].kind == expr_words(e)[0].kind(),
{
    let ws = expr_words(e);
    lemma_first_word(e);
    lemma_parse_unit(e, toks, j);
    lemma_parse_stop(toks, j, e, j + ws.len(), 0);
    assert(token_is(toks[j + 0], ws[0]));
    if e is Ident {
        assert(ws.len() == 1);
    }
}

proof fn lemma_parse_define(toks: Seq<TokenView>, name: Seq<char>, value: ExprView)
    requires
        printable(value),
        !(value is Ident),
        toks.len() == expr_words(value).len() + 4,
        toks[0].kind == TokenKind::Ident,
        toks[0].lexeme == name,
        toks[1].kind == TokenKind::Define,
        written_from(toks, 2, expr_words(value)),
        toks[2 + expr_words(value).len() as int].kind == TokenKind::Semicolon,
    ensures
        parse_statement(toks, 0) == Ok::<(StmtView, int), DiagnosticView>(
            (StmtView::Define { name, value }, toks.len() - 1),
        ),
{
    let ws = expr_words(value);
    let end = 2 + ws.len() as int;
    lemma_expr_words_plain(value);
    assert forall|k: int| 2 <= k < end implies !is_boundary(#[trigger] toks[k].kind)
        && !starts_statement(toks[k].kind) by {
        assert(token_is(toks[2 + (k - 2)], ws[k - 2]));
        lemma_word_kinds(ws[k - 2]);
    }
    lemma_statement_lead(toks, 0, 1);
    lemma_statement_end(toks, 0, end);
    lemma_not_chained(toks, 2, end);
    lemma_first_word(value);
    lemma_parse_value_written(toks, 2, value, false);
    lemma_parse_head(
        toks,
        TokenKind::Define,
        crate::compiler::messages::INVALID_DEFINE@,
        crate::compiler::messages::DEFINE_START_HELP@,
    );
}

/// A name directly followed by its operator is the left-hand side of a
/// statement.
proof fn lemma_parse_head(toks: Seq<TokenView>, op: TokenKind, invalid: Seq<char>, help: Seq<char>)
    requires
        toks.len() >= 2,
        toks[0].kind == TokenKind::Ident,
        toks[1].kind == op,
    ensures
        parse_head(toks, 0, op, invalid, help) == Ok::<(Seq<char>, int), DiagnosticView>(
            (toks[0].lexeme, 2),
        ),
{
}

proof fn lemma_parse_define_empty(toks: Seq<TokenView>, name: Seq<char>)
    requires
        toks.len() == 3,
        toks[0].kind == TokenKind::Ident,
        toks[0].lexeme == name,
        toks[1].kind == TokenKind::DefineEmpty,
        toks[2].kind == TokenKind::Eof,
    ensures
        parse_statement(toks, 0) == Ok::<(StmtView, int), DiagnosticView>(
            (StmtView::DefineEmpty { name }, 2),
        ),
{
    lemma_statement_lead(toks, 0, 1);
    lemma_parse_head(
        toks,
        TokenKind::DefineEmpty,
        crate::compiler::messages::INVALID_DEFINE_EMPTY@,
        crate::compiler::messages::DEFINE_EMPTY_START_HELP@,
    );
    assert(parse_define_empty(toks, 0) == Ok::<(StmtView, int), DiagnosticView>(
        (StmtView::DefineEmpty { name }, 2),
    ));
}

/// A statement whose first operator is `:=` or `:>` is a copy or a bind
/// statement.
proof fn lemma_alias_chosen(toks: Seq<TokenView>, copy: bool)
    requires
        statement_lead(toks, 0) == Some(
            if copy {
                TokenKind::Bind
            } else {
                TokenKind::Cast
            },
        ),
    ensures
        parse_statement(toks, 0) == parse_alias(toks, 0, copy),
{
}

/// A name, the operator, a target and the terminator are a copy or a
/// bind statement.
proof fn lemma_alias_assembles(
    toks: Seq<TokenView>,
    name: Seq<char>,
    target: Seq<char>,
    copy: bool,
    made: StmtView,
)
    requires
        toks.len() == 5,
        statement_end(toks, 0) == Some(3int),
        first_chained(toks, 3, 3) is None,
        parse_head(
            toks,
            0,
            if copy {
                TokenKind::Bind
            } else {
                TokenKind::Cast
            },
            crate::compiler::messages::alias_texts(copy).invalid@,
            crate::compiler::messages::alias_texts(copy).start_help@,
        ) == Ok::<(Seq<char>, int), DiagnosticView>((name, 2)),
        toks[2].kind == TokenKind::Ident,
        toks[2].lexeme == target,
        toks[3].kind == TokenKind::Semicolon,
        made == if copy {
            StmtView::Copy { name, target }
        } else {
            StmtView::Bind { name, target }
        },
    ensures
        parse_alias(toks, 0, copy) == Ok::<(StmtView, int), DiagnosticView>((made, 4)),
{
    assert(crate::compiler::grammar::token_or_end(toks, 2) == toks[2]);
}

proof fn lemma_parse_alias(toks: Seq<TokenView>, name: Seq<char>, target: Seq<char>, copy: bool)
    requires
        toks.len() == 5,
        toks[0].kind == TokenKind::Ident,
        toks[0].lexeme == name,
        toks[1].kind == if copy {
            TokenKind::Bind
        } else {
            TokenKind::Cast
        },
        toks[2].kind == TokenKind::Ident,
        toks[2].lexeme == target,
        toks[3].kind == TokenKind::Semicolon,
    ensures
        parse_statement(toks, 0) == Ok::<(StmtView, int), DiagnosticView>(
            (
                if copy {
                    StmtView::Copy { name, target }
                } else {
                    StmtView::Bind { name, target }
                },
                4,
            ),
        ),
{
    let texts = crate::compiler::messages::alias_texts(copy);
    let op = if copy {
        TokenKind::Bind
    } else {
        TokenKind::Cast
    };
    let made = if copy {
        StmtView::Copy { name, target }
    } else {
        StmtView::Bind { name, target }
    };
    lemma_statement_lead(toks, 0, 1);
    lemma_statement_end(toks, 0, 3);
    lemma_not_chained(toks, 3, 3);
    lemma_parse_head(toks, op, texts.invalid@, texts.start_help@);
    lemma_alias_assembles(toks, name, target, copy, made);
    lemma_alias_chosen(toks, copy);
}

/// After a colon and a value, the branches go on behind that value.
proof fn lemma_branch_step(toks: Seq<TokenView>, q: int, j: int, e: ExprView, acc: Seq<ExprView>)
    requires
        0 <= q,
        q + 1 < j <= toks.len(),
        toks[q].kind == TokenKind::Colon,
        toks[q + 1].kind != TokenKind::Semicolon,
        parse_value(toks, q + 1, true) == Ok::<(ExprView, int), DiagnosticView>((e, j)),
    ensures
        parse_branches(toks, q, acc) == parse_branches(toks, j, acc.push(e)),
{
}

/// The branches end at the first token that is no colon.
proof fn lemma_branch_stop(toks: Seq<TokenView>, q: int, acc: Seq<ExprView>)
    requires
        0 <= q < toks.len(),
        toks[q].kind != TokenKind::Colon,
    ensures
        parse_branches(toks, q, acc) == Ok::<(Seq<ExprView>, int), DiagnosticView>((acc, q)),
{
}

/// Where a list of expressions goes on after the one with index `i`,
/// the words of that one are followed by the separator and the words of
/// the rest.
proof fn lemma_list_layout(items: Seq<ExprView>, i: int, sep: Word, toks: Seq<TokenView>, k: int)
    requires
        0 <= i < items.len() - 1,
        written_from(toks, k, list_words(items, i, sep)),
    ensures
        list_words(items, i, sep).len() == expr_words(items[i]).len() + 1 + list_words(
            items,
            i + 1,
            sep,
        ).len(),
        written_from(toks, k, expr_words(items[i])),
        toks[k + expr_words(items[i]).len()].kind == sep.kind(),
        written_from(toks, k + expr_words(items[i]).len() + 1, list_words(items, i + 1, sep)),
{
    let w = expr_words(items[i]);
    let rest = list_words(items, i + 1, sep);
    assert(list_words(items, i, sep) == w + seq![sep] + rest);
    lemma_written_split(toks, k, w + seq![sep], rest);
    lemma_written_split(toks, k, w, seq![sep]);
    assert(token_is(toks[k + w.len() + 0], seq![sep][0]));
}

/// Taking one more item in front: the items before `i`, that item and
/// the items after it are the items before `i` and those from `i` on.
proof fn lemma_skip_push(acc: Seq<ExprView>, items: Seq<ExprView>, i: int)
    requires
        0 <= i < items.len(),
    ensures
        acc.push(items[i]) + items.skip(i + 1) == acc + items.skip(i),
{
    assert(acc.push(items[i]) + items.skip(i + 1) =~= acc + items.skip(i));
}

/// The branches of a guard from the one with index `i` on, whose words
/// stand at `k` and are closed by the semicolon, parse to those branches
/// after the ones already parsed.
#[verifier::rlimit(40)]
pub proof fn lemma_parse_branch_list(
    branches: Seq<ExprView>,
    i: int,
    toks: Seq<TokenView>,
    k: int,
    acc: Seq<ExprView>,
)
    requires
        0 <= i < branches.len(),
        0 <= k,
        forall|m: int| 0 <= m < branches.len() ==> printable(#[trigger] branches[m]),
        written_from(toks, k, list_words(branches, i, Word::Colon)),
        k + list_words(branches, i, Word::Colon).len() < toks.len(),
        toks[k + list_words(branches, i, Word::Colon).len()].kind == TokenKind::Semicolon,
    ensures
        parse_value(toks, k, true) == Ok::<(ExprView, int), DiagnosticView>(
            (branches[i], k + expr_words(branches[i]).len()),
        ),
        parse_branches(toks, k + expr_words(branches[i]).len(), acc.push(branches[i])) == Ok::<
            (Seq<ExprView>, int),
            DiagnosticView,
        >((acc + branches.skip(i), k + list_words(branches, i, Word::Colon).len())),
        toks[k].kind != TokenKind::Semicolon,
        toks[k].kind != TokenKind::Colon,
    decreases branches.len() - i,
{
    let b = branches[i];
    let q = k + expr_words(b).len();
    let grown = acc.push(b);
    lemma_first_word(b);
    lemma_expr_words_plain(b);
    lemma_word_kinds(expr_words(b)[0]);
    lemma_skip_push(acc, branches, i);
    if i == branches.len() - 1 {
        lemma_parse_value_written(toks, k, b, true);
        lemma_branch_stop(toks, q, grown);
        assert(branches.skip(i + 1) =~= Seq::<ExprView>::empty());
        assert(grown + Seq::<ExprView>::empty() =~= grown);
    } else {
        let next = branches[i + 1];
        lemma_list_layout(branches, i, Word::Colon, toks, k);
        lemma_parse_value_written(toks, k, b, true);
        lemma_parse_branch_list(branches, i + 1, toks, q + 1, grown);
        lemma_first_word(next);
        lemma_branch_step(toks, q, q + 1 + expr_words(next).len(), next, grown);
    }
}

proof fn lemma_parse_guard(toks: Seq<TokenView>, target: Seq<char>, branches: Seq<ExprView>)
    requires
        branches.len() > 0,
        forall|m: int| 0 <= m < branches.len() ==> printable(#[trigger] branches[m]),
        toks.len() == list_words(branches, 0, Word::Colon).len() + 4,
        toks[0].kind == TokenKind::Ident,
        toks[0].lexeme == target,
        toks[1].kind == TokenKind::Guard,
        written_from(toks, 2, list_words(branches, 0, Word::Colon)),
        toks[2 + list_words(branches, 0, Word::Colon).len() as int].kind == TokenKind::Semicolon,
    ensures
        parse_statement(toks, 0) == Ok::<(StmtView, int), DiagnosticView>(
            (StmtView::Guard { target, branches }, toks.len() - 1),
        ),
{
    let ws = list_words(branches, 0, Word::Colon);
    let end = 2 + ws.len() as int;
    lemma_list_words_plain(branches, 0, Word::Colon);
    assert forall|k: int| 2 <= k < end implies !is_boundary(#[trigger] toks[k].kind)
        && !starts_statement(toks[k].kind) by {
        assert(token_is(toks[2 + (k - 2)], ws[k - 2]));
    }
    lemma_statement_lead(toks, 0, 1);
    lemma_statement_end(toks, 0, end);
    lemma_not_chained(toks, 2, end);
    lemma_parse_branch_list(branches, 0, toks, 2, Seq::empty());
    assert(Seq::<ExprView>::empty().push(branches[0]) =~= seq![branches[0]]);
    assert(Seq::<ExprView>::empty() + branches.skip(0) =~= branches);
    lemma_parse_head(
        toks,
        TokenKind::Guard,
        crate::compiler::messages::INVALID_GUARD@,
        crate::compiler::messages::GUARD_START_HELP@,
    );
}

/// What `written_as` says of a statement of four words.
proof fn lemma_written_four(toks: Seq<TokenView>, ws: Seq<Word>)
    requires
        written_as(toks, ws),
        ws.len() == 4,
    ensures
        toks.len() == 5,
        token_is(toks[0], ws[0]),
        token_is(toks[1], ws[1]),
        token_is(toks[2], ws[2]),
        token_is(toks[3], ws[3]),
{
    assert(token_is(toks[0int + 0], ws[0]));
    assert(token_is(toks[0int + 1], ws[1]));
    assert(token_is(toks[0int + 2], ws[2]));
    assert(token_is(toks[0int + 3], ws[3]));
}

/// What `written_as` says of a statement that is a name, an operator,
/// the words `body` and the semicolon.
proof fn lemma_written_statement(toks: Seq<TokenView>, name: Word, op: Word, body: Seq<Word>)
    requires
        written_as(toks, seq![name, op] + body + seq![Word::Semicolon]),
    ensures
        toks.len() == body.len() + 4,
        token_is(toks[0], name),
        token_is(toks[1], op),
        written_from(toks, 2, body),
        toks[2 + body.len() as int].kind == TokenKind::Semicolon,
{
    let head = seq![name, op];
    lemma_written_split(toks, 0, head + body, seq![Word::Semicolon]);
    lemma_written_split(toks, 0, head, body);
    assert(token_is(toks[0int + 0], head[0]));
    assert(token_is(toks[0int + 1], head[1]));
    assert(token_is(toks[(head + body).len() as int + 0], seq![Word::Semicolon][0]));
}

proof fn lemma_written_define(toks: Seq<TokenView>, name: Seq<char>, value: ExprView)
    requires
        statement_words(StmtView::Define { name, value }) matches Some(ws) && written_as(toks, ws),
    ensures
        parse_statement(toks, 0) == Ok::<(StmtView, int), DiagnosticView>(
            (StmtView::Define { name, value }, toks.len() - 1),
        ),
        toks[0].kind == TokenKind::Ident,
{
    lemma_written_statement(toks, Word::Name(name), Word::Define, expr_words(value));
    lemma_parse_define(toks, name, value);
}

proof fn lemma_written_define_empty(toks: Seq<TokenView>, name: Seq<char>)
    requires
        written_as(toks, seq![Word::Name(name), Word::DefineEmpty]),
    ensures
        parse_statement(toks, 0) == Ok::<(StmtView, int), DiagnosticView>(
            (StmtView::DefineEmpty { name }, toks.len() - 1),
        ),
        toks[0].kind == TokenKind::Ident,
{
    let ws = seq![Word::Name(name), Word::DefineEmpty];
    assert(token_is(toks[0int + 0], ws[0]));
    assert(token_is(toks[0int + 1], ws[1]));
    assert(toks.len() == 3);
    lemma_parse_define_empty(toks, name);
}

proof fn lemma_written_alias(toks: Seq<TokenView>, name: Seq<char>, target: Seq<char>, copy: bool)
    requires
        is_name(name),
        is_name(target),
        written_as(
            toks,
            seq![
                Word::Name(name),
                if copy {
                    Word::Copy
                } else {
                    Word::Bind
                },
                Word::Name(target),
                Word::Semicolon,
            ],
        ),
    ensures
        parse_statement(toks, 0) == Ok::<(StmtView, int), DiagnosticView>(
            (
                if copy {
                    StmtView::Copy { name, target }
                } else {
                    StmtView::Bind { name, target }
                },
                toks.len() - 1,
            ),
        ),
        toks[0].kind == TokenKind::Ident,
{
    let ws = seq![
        Word::Name(name),
        if copy {
            Word::Copy
        } else {
            Word::Bind
        },
        Word::Name(target),
        Word::Semicolon,
    ];
    lemma_written_four(toks, ws);
    lemma_parse_alias(toks, name, target, copy);
}

proof fn lemma_written_guard(toks: Seq<TokenView>, target: Seq<char>, branches: Seq<ExprView>)
    requires
        statement_words(StmtView::Guard { target, branches }) matches Some(ws) && written_as(
            toks,
            ws,
        ),
    ensures
        parse_statement(toks, 0) == Ok::<(StmtView, int), DiagnosticView>(
            (StmtView::Guard { target, branches }, toks.len() - 1),
        ),
        toks[0].kind == TokenKind::Ident,
{
    lemma_written_statement(
        toks,
        Word::Name(target),
        Word::Guard,
        list_words(branches, 0, Word::Colon),
    );
    lemma_parse_guard(toks, target, branches);
}

/// The tokens of a statement's canonical words parse to the statement.
pub proof fn lemma_parse_written(s: StmtView, toks: Seq<TokenView>)
    requires
        statement_words(s) matches Some(ws) && written_as(toks, ws),
    ensures
        parse_node(toks, 0) == Ok::<(StmtView, int), DiagnosticView>((s, toks.len() - 1)),
        kind_at(toks, 0) == TokenKind::Ident,
{
    match s {
        StmtView::Define { name, value } => {
            lemma_written_define(toks, name, value);
        },
        StmtView::DefineEmpty { name } => {
            lemma_written_define_empty(toks, name);
        },
        StmtView::Copy { name, target } => {
            lemma_written_alias(toks, name, target, true);
        },
        StmtView::Bind { name, target } => {
            lemma_written_alias(toks, name, target, false);
        },
        StmtView::Guard { target, branches } => {
            lemma_written_guard(toks, target, branches);
        },
        _ => {},
    }
}

/// A name, an operator, the words of expressions and the semicolon are
/// well formed.
proof fn lemma_statement_well_formed(name: Word, op: Word, body: Seq<Word>)
    requires
        name.valid(),
        op.valid(),
        !(op is Semicolon),
        body.len() >= 1,
        body.last().closes(),
        forall|k: int| 0 <= k < body.len() ==> (#[trigger] body[k]).valid() && !is_boundary(
            body[k].kind(),
        ),
    ensures
        well_formed(seq![name, op] + body + seq![Word::Semicolon]),
{
    let ws = seq![name, op] + body + seq![Word::Semicolon];
    assert forall|k: int| 0 <= k < ws.len() implies (#[trigger] ws[k]).valid() by {
        if 2 <= k < ws.len() - 1 {
            assert(ws[k] == body[k - 2]);
        }
    }
    assert forall|k: int| 0 < k < ws.len() && #[trigger] ws[k] is Semicolon implies ws[k
        - 1].closes() by {
        if 2 <= k < ws.len() - 1 {
            assert(ws[k] == body[k - 2]);
        } else if k == ws.len() - 1 {
            assert(ws[k - 1] == body[body.len() - 1]);
        }
    }
}

/// The canonical words of a statement are well formed.
proof fn lemma_words_well_formed(s: StmtView)
    requires
        statement_words(s) is Some,
    ensures
        well_formed(statement_words(s)->0),
{
    match s {
        StmtView::Define { name, value } => {
            let body = expr_words(value);
            lemma_expr_words_plain(value);
            assert forall|k: int| 0 <= k < body.len() implies (#[trigger] body[k]).valid()
                && !is_boundary(body[k].kind()) by {
                lemma_word_kinds(body[k]);
            }
            lemma_statement_well_formed(Word::Name(name), Word::Define, body);
        },
        StmtView::Guard { target, branches } => {
            lemma_list_words_plain(branches, 0, Word::Colon);
            lemma_statement_well_formed(
                Word::Name(target),
                Word::Guard,
                list_words(branches, 0, Word::Colon),
            );
        },
        _ => {},
    }
}

/// Round trip of a statement: where a statement has a canonical surface
/// form, that text lexes without error, and its tokens parse to the very
/// statement, as a node and as a program of one node, with nothing left
/// but the end marker. So the front end gives the program of that one
/// statement.
pub proof fn law_statement_round_trip(s: StmtView)
    requires
        surface(s) is Some,
    ensures
        lex(surface(s)->0) matches Ok(toks) && {
            &&& parse_node(toks, 0) == Ok::<(StmtView, int), DiagnosticView>((s, toks.len() - 1))
            &&& parse_program(toks, 0) == Ok::<(ProgramView, int), DiagnosticView>(
                (ProgramView { stmts: seq![s] }, toks.len() - 1),
            )
        },
        front_end(surface(s)->0) == Ok::<ProgramView, DiagnosticView>(
            ProgramView { stmts: seq![s] },
        ),
{
    let ws = statement_words(s)->0;
    let text = spell(ws);
    lemma_words_well_formed(s);
    assert(text.skip(0) =~= text);
    lemma_lex_spelled(text, 0, ws, Seq::empty());
    let toks = lex(text)->Ok_0;
    assert(toks.skip(0) =~= toks);
    lemma_parse_written(s, toks);
    assert(toks[toks.len() - 1].kind == TokenKind::Eof);
    lemma_program_of_one(s, toks);
}

/// A token sequence that is one node and the end marker is the program
/// of that node.
proof fn lemma_program_of_one(s: StmtView, toks: Seq<TokenView>)
    requires
        toks.len() >= 2,
        kind_at(toks, 0) != TokenKind::Eof,
        toks[toks.len() - 1].kind == TokenKind::Eof,
        parse_node(toks, 0) == Ok::<(StmtView, int), DiagnosticView>((s, toks.len() - 1)),
    ensures
        parse_program(toks, 0) == Ok::<(ProgramView, int), DiagnosticView>(
            (ProgramView { stmts: seq![s] }, toks.len() - 1),
        ),
{
    let n = toks.len() - 1;
    assert(Seq::<StmtView>::empty().push(s) =~= seq![s]);
    assert(parse_nodes(toks, n, seq![s]) == Ok::<(Seq<StmtView>, int), DiagnosticView>(
        (seq![s], n),
    ));
}

/// Round trip of an expression: the canonical text of a printable
/// expression lexes without error, and its tokens parse to the very
/// expression, with nothing left but the end marker.
pub proof fn law_value_round_trip(e: ExprView)
    requires
        value_surface(e) is Some,
    ensures
        lex(value_surface(e)->0) matches Ok(toks) && parse_expr(toks, 0) == Ok::<
            (ExprView, int),
            DiagnosticView,
        >((e, toks.len() - 1)),
{
    let ws = expr_words(e);
    let text = spell(ws);
    lemma_expr_words_plain(e);
    assert(well_formed(ws)) by {
        assert forall|k: int| 0 < k < ws.len() && #[trigger] ws[k] is Semicolon implies ws[k
            - 1].closes() by {
            assert(is_expr_word(ws[k]));
        }
    }
    assert(text.skip(0) =~= text);
    lemma_lex_spelled(text, 0, ws, Seq::empty());
    let toks = lex(text)->Ok_0;
    assert(toks.skip(0) =~= toks);
    lemma_parse_value_written(toks, 0, e, true);
}

} // verus!
