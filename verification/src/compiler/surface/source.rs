//! Writing the canonical surface form of a tree as text.

use vstd::prelude::*;
use vstd::string::*;
use crate::compiler::ast::{expr_views, Expr, ExprView, Literal, Stmt, StmtView};
use crate::compiler::grammar::Infix;
use crate::compiler::lexer::{is_digit, is_word, kind_of_word};
use crate::compiler::surface::form::{
    binary_parts, binary_words, expr_words, lemma_list_push, list_words, printable, surface,
    value_surface, value_word,
};
use crate::compiler::surface::words::{
    infix_text, is_decimal_text, is_name, is_text_body, lemma_spell_push, spell, Word,
};
use crate::compiler::text::{decimal, push_char, push_decimal, to_chars};
use crate::compiler::token::TokenKind;

verus! {

/// Whether `name` lexes as an identifier.
fn check_name(name: &str) -> (b: bool)
    ensures
        b == is_name(name@),
{
    let chars = to_chars(name);
    let n = chars.len();
    if n == 0 {
        return false;
    }
    let mut i: usize = 0;
    let mut other = false;
    while i < n
        invariant
            n == chars@.len(),
            chars@ == name@,
            i <= n,
            forall|k: int| 0 <= k < i ==> is_word(#[trigger] chars@[k]),
            other <==> exists|k: int| 0 <= k < i && !is_digit(#[trigger] chars@[k]),
        decreases n - i,
    {
        let c = chars[i];
        let digit = c >= '0' && c <= '9';
        if !(digit || (c >= 'a' && c <= 'z') || (c >= 'A' && c <= 'Z') || c == '_') {
            assert(!is_word(chars@[i as int]));
            return false;
        }
        if !digit {
            other = true;
        }
        i += 1;
    }
    let first = chars[0];
    if (first >= 'a' && first <= 'z') || (first >= 'A' && first <= 'Z') || first == '_' {
        assert(chars@.subrange(0, n as int) =~= chars@);
        match kind_of_word(&chars, 0, n) {
            TokenKind::Ident => true,
            _ => false,
        }
    } else {
        other
    }
}

/// Whether `d` is digits, one point, digits.
fn check_decimal(d: &str) -> (b: bool)
    ensures
        b == is_decimal_text(d@),
{
    let chars = to_chars(d);
    let n = chars.len();
    let mut i: usize = 0;
    let mut point: Option<usize> = None;
    while i < n
        invariant
            n == chars@.len(),
            chars@ == d@,
            i <= n,
            match point {
                Some(p) => p < i && chars@[p as int] == '.' && forall|k: int|
                    0 <= k < i && k != p ==> is_digit(#[trigger] chars@[k]),
                None => forall|k: int| 0 <= k < i ==> is_digit(#[trigger] chars@[k]),
            },
        decreases n - i,
    {
        let c = chars[i];
        if c == '.' {
            match point {
                Some(p) => {
                    assert forall|q: int|
                        !(0 < q < chars@.len() - 1 && #[trigger] chars@[q] == '.' && forall|k: int|
                            0 <= k < chars@.len() && k != q ==> is_digit(
                                #[trigger] chars@[k],
                            )) by {
                        if q != p {
                            assert(!is_digit(chars@[p as int]));
                        } else {
                            assert(!is_digit(chars@[i as int]));
                        }
                    }
                    return false;
                },
                None => {
                    point = Some(i);
                },
            }
        } else if !(c >= '0' && c <= '9') {
            assert forall|q: int|
                !(0 < q < chars@.len() - 1 && #[trigger] chars@[q] == '.' && forall|k: int|
                    0 <= k < chars@.len() && k != q ==> is_digit(#[trigger] chars@[k])) by {
                if q != i {
                    assert(!is_digit(chars@[i as int]));
                }
            }
            return false;
        }
        i += 1;
    }
    match point {
        Some(p) => {
            if 0 < p && p + 1 < n {
                true
            } else {
                assert forall|q: int|
                    !(0 < q < chars@.len() - 1 && #[trigger] chars@[q] == '.' && forall|k: int|
                        0 <= k < chars@.len() && k != q ==> is_digit(#[trigger] chars@[k])) by {
                    if q != p {
                        assert(!is_digit(chars@[p as int]));
                    }
                }
                false
            }
        },
        None => {
            assert forall|q: int|
                !(0 < q < chars@.len() - 1 && #[trigger] chars@[q] == '.' && forall|k: int|
                    0 <= k < chars@.len() && k != q ==> is_digit(#[trigger] chars@[k])) by {
                if 0 <= q < chars@.len() {
                    assert(is_digit(chars@[q]));
                }
            }
            false
        },
    }
}

/// Whether `t` holds no closing quote.
fn check_text_body(t: &str) -> (b: bool)
    ensures
        b == is_text_body(t@),
{
    let chars = to_chars(t);
    let mut i: usize = 0;
    while i < chars.len()
        invariant
            chars@ == t@,
            i <= chars@.len(),
            forall|k: int| 0 <= k < i ==> #[trigger] chars@[k] != '"',
        decreases chars@.len() - i,
    {
        if chars[i] == '"' {
            return false;
        }
        i += 1;
    }
    true
}

/// Appends the word `w`, whose text is `text`, to the run `ws` that `out`
/// spells.
fn append_word(
    out: &mut String,
    text: &str,
    first: bool,
    semicolon: bool,
    Ghost(ws): Ghost<Seq<Word>>,
    Ghost(w): Ghost<Word>,
)
    requires
        old(out)@ == spell(ws),
        text@ == w.text(),
        first == (ws.len() == 0),
        semicolon == (w is Semicolon),
    ensures
        final(out)@ == spell(ws.push(w)),
{
    proof {
        lemma_spell_push(ws, w);
    }
    if !first && !semicolon {
        push_char(out, ' ');
    }
    out.append(text);
    proof {
        if first {
            assert(spell(ws) =~= Seq::<char>::empty());
            assert(out@ =~= w.text());
        } else if semicolon {
        } else {
            assert(out@ =~= spell(ws) + seq![' '] + w.text());
        }
    }
}

/// The text of the word that writes the name or literal `e`, where it
/// has one.
fn word_text(e: &Expr) -> (text: Option<String>)
    ensures
        match value_word(e@) {
            Some(w) => text matches Some(x) && x@ == w.text(),
            None => text is None,
        },
{
    match e {
        Expr::Lit(Literal::Num(n)) => {
            if *n >= 0 {
                let mut out = String::new();
                push_decimal(&mut out, *n as u128);
                assert(out@ =~= decimal(*n as nat));
                Some(out)
            } else {
                None
            }
        },
        Expr::Lit(Literal::Dec(d)) => {
            if check_decimal(d.as_str()) {
                Some(d.clone())
            } else {
                None
            }
        },
        Expr::Lit(Literal::Text(t)) => {
            if check_text_body(t.as_str()) {
                let mut out = String::new();
                push_char(&mut out, '"');
                out.append(t.as_str());
                push_char(&mut out, '"');
                assert(out@ =~= seq!['"'] + t@ + seq!['"']);
                Some(out)
            } else {
                None
            }
        },
        Expr::Lit(Literal::Void) => {
            let mut out = String::new();
            push_char(&mut out, 'v');
            push_char(&mut out, 'o');
            push_char(&mut out, 'i');
            push_char(&mut out, 'd');
            assert(out@ =~= seq!['v', 'o', 'i', 'd']);
            Some(out)
        },
        Expr::Ident(name) => {
            if check_name(name.as_str()) {
                Some(name.clone())
            } else {
                None
            }
        },
        _ => None,
    }
}

/// `l` and `r` are the operands of the binary expression `e`.
pub open spec fn is_operands(e: Expr, l: Expr, r: Expr) -> bool {
    match e {
        Expr::Add(a, b) => *a == l && *b == r,
        Expr::Sub(a, b) => *a == l && *b == r,
        Expr::Mul(a, b) => *a == l && *b == r,
        Expr::Div(a, b) => *a == l && *b == r,
        Expr::Mod(a, b) => *a == l && *b == r,
        Expr::Eq(a, b) => *a == l && *b == r,
        Expr::Ne(a, b) => *a == l && *b == r,
        Expr::Lt(a, b) => *a == l && *b == r,
        Expr::Le(a, b) => *a == l && *b == r,
        Expr::Gt(a, b) => *a == l && *b == r,
        Expr::Ge(a, b) => *a == l && *b == r,
        Expr::And(a, b) => *a == l && *b == r,
        Expr::Or(a, b) => *a == l && *b == r,
        Expr::Has(a, b) => *a == l && *b == r,
        Expr::Present(a, b) => *a == l && *b == r,
        Expr::Pipe(a, b) => *a == l && *b == r,
        _ => false,
    }
}

/// The operator and the operands of a binary expression.
fn split_binary(e: &Expr) -> (parts: Option<(Infix, &Expr, &Expr)>)
    ensures
        match parts {
            Some((op, l, r)) => binary_parts(e@) == Some((op, l@, r@)) && is_operands(*e, *l, *r)
                && op != Infix::Call,
            None => binary_parts(e@) is None,
        },
{
    match e {
        Expr::Add(a, b) => Some((Infix::Add, &**a, &**b)),
        Expr::Sub(a, b) => Some((Infix::Sub, &**a, &**b)),
        Expr::Mul(a, b) => Some((Infix::Mul, &**a, &**b)),
        Expr::Div(a, b) => Some((Infix::Div, &**a, &**b)),
        Expr::Mod(a, b) => Some((Infix::Mod, &**a, &**b)),
        Expr::Eq(a, b) => Some((Infix::Eq, &**a, &**b)),
        Expr::Ne(a, b) => Some((Infix::Ne, &**a, &**b)),
        Expr::Lt(a, b) => Some((Infix::Lt, &**a, &**b)),
        Expr::Le(a, b) => Some((Infix::Le, &**a, &**b)),
        Expr::Gt(a, b) => Some((Infix::Gt, &**a, &**b)),
        Expr::Ge(a, b) => Some((Infix::Ge, &**a, &**b)),
        Expr::And(a, b) => Some((Infix::And, &**a, &**b)),
        Expr::Or(a, b) => Some((Infix::Or, &**a, &**b)),
        Expr::Has(a, b) => Some((Infix::Has, &**a, &**b)),
        Expr::Present(a, b) => Some((Infix::Present, &**a, &**b)),
        Expr::Pipe(a, b) => Some((Infix::Pipe, &**a, &**b)),
        _ => None,
    }
}

/// The characters that spell a binary operator.
fn infix_str(op: Infix) -> (text: &'static str)
    ensures
        text@ == infix_text(op),
{
    proof {
        reveal_strlit("(");
        reveal_strlit("*");
        reveal_strlit("/");
        reveal_strlit("%");
        reveal_strlit("+");
        reveal_strlit("-");
        reveal_strlit("<");
        reveal_strlit("<=");
        reveal_strlit(">");
        reveal_strlit(">=");
        reveal_strlit("==");
        reveal_strlit("!=");
        reveal_strlit("&?");
        reveal_strlit("|?");
        reveal_strlit("::");
        reveal_strlit(":?");
        reveal_strlit("|>");
    }
    let text = match op {
        Infix::Call => "(",
        Infix::Mul => "*",
        Infix::Div => "/",
        Infix::Mod => "%",
        Infix::Add => "+",
        Infix::Sub => "-",
        Infix::Lt => "<",
        Infix::Le => "<=",
        Infix::Gt => ">",
        Infix::Ge => ">=",
        Infix::Eq => "==",
        Infix::Ne => "!=",
        Infix::And => "&?",
        Infix::Or => "|?",
        Infix::Has => "::",
        Infix::Present => ":?",
        Infix::Pipe => "|>",
    };
    assert(text@ =~= infix_text(op));
    text
}

/// Appends the canonical words of `e` to the run `ws` that `out` spells;
/// tells whether `e` has a canonical form.
fn write_expr(out: &mut String, e: &Expr, first: bool, Ghost(ws): Ghost<Seq<Word>>) -> (ok: bool)
    requires
        old(out)@ == spell(ws),
        first == (ws.len() == 0),
    ensures
        ok == printable(e@),
        ok ==> final(out)@ == spell(ws + expr_words(e@)),
    decreases e, 1int,
{
    proof {
        reveal_strlit("(");
        reveal_strlit(")");
        reveal_strlit("!?");
        reveal_strlit("-");
        assert("("@ =~= seq!['(']);
        assert(")"@ =~= seq![')']);
        assert("!?"@ =~= seq!['!', '?']);
        assert("-"@ =~= seq!['-']);
    }
    match e {
        Expr::Ident(_) | Expr::Lit(_) => {
            match word_text(e) {
                Some(text) => {
                    let ghost w = value_word(e@)->0;
                    append_word(out, text.as_str(), first, false, Ghost(ws), Ghost(w));
                    proof {
                        assert(ws.push(w) =~= ws + expr_words(e@));
                    }
                    true
                },
                None => false,
            }
        },
        Expr::Not(x) => {
            let ghost w0 = ws.push(Word::LParen);
            let ghost w1 = w0.push(Word::Not);
            append_word(out, "(", first, false, Ghost(ws), Ghost(Word::LParen));
            append_word(out, "!?", false, false, Ghost(w0), Ghost(Word::Not));
            if !write_expr(out, x, false, Ghost(w1)) {
                return false;
            }
            let ghost w2 = w1 + expr_words(x@);
            append_word(out, ")", false, false, Ghost(w2), Ghost(Word::RParen));
            proof {
                assert(w2.push(Word::RParen) =~= ws + expr_words(e@));
            }
            true
        },
        Expr::Neg(x) => {
            let ghost minus = Word::Op(Infix::Sub);
            let ghost w0 = ws.push(Word::LParen);
            let ghost w1 = w0.push(minus);
            append_word(out, "(", first, false, Ghost(ws), Ghost(Word::LParen));
            append_word(out, "-", false, false, Ghost(w0), Ghost(minus));
            if !write_expr(out, x, false, Ghost(w1)) {
                return false;
            }
            let ghost w2 = w1 + expr_words(x@);
            append_word(out, ")", false, false, Ghost(w2), Ghost(Word::RParen));
            proof {
                assert(w2.push(Word::RParen) =~= ws + expr_words(e@));
            }
            true
        },
        Expr::Call { callee, args } => {
            proof {
                crate::compiler::ast::lemma_call_view(**callee, *args);
            }
            let ghost w0 = ws.push(Word::LParen);
            append_word(out, "(", first, false, Ghost(ws), Ghost(Word::LParen));
            if !write_expr(out, callee, false, Ghost(w0)) {
                return false;
            }
            let ghost w1 = w0 + expr_words(callee@);
            let ghost w2 = w1.push(Word::LParen);
            append_word(out, "(", false, false, Ghost(w1), Ghost(Word::LParen));
            if !write_list(out, args, true, Ghost(w2)) {
                return false;
            }
            let ghost w3 = w2 + list_words(expr_views(args@), 0, Word::Comma);
            append_word(out, ")", false, false, Ghost(w3), Ghost(Word::RParen));
            append_word(out, ")", false, false, Ghost(w3.push(Word::RParen)), Ghost(Word::RParen));
            proof {
                assert(w3.push(Word::RParen).push(Word::RParen) =~= ws + expr_words(e@));
            }
            true
        },
        _ => {
            match split_binary(e) {
                Some((op, l, r)) => {
                    let ghost w0 = ws.push(Word::LParen);
                    append_word(out, "(", first, false, Ghost(ws), Ghost(Word::LParen));
                    if !write_expr(out, l, false, Ghost(w0)) {
                        return false;
                    }
                    let ghost w1 = w0 + expr_words(l@);
                    let ghost w2 = w1.push(Word::Op(op));
                    append_word(out, infix_str(op), false, false, Ghost(w1), Ghost(Word::Op(op)));
                    if !write_expr(out, r, false, Ghost(w2)) {
                        return false;
                    }
                    let ghost w3 = w2 + expr_words(r@);
                    append_word(out, ")", false, false, Ghost(w3), Ghost(Word::RParen));
                    proof {
                        assert(expr_words(e@) == binary_words(op, expr_words(l@), expr_words(r@)));
                        assert(w3.push(Word::RParen) =~= ws + expr_words(e@));
                    }
                    true
                },
                None => false,
            }
        },
    }
}

/// Appends the canonical words of the expressions `items` to the run
/// `ws` that `out` spells, commas between them where `args` holds, else
/// colons; tells whether all of them have a canonical form and, for
/// arguments, none is a lone name.
fn write_list(out: &mut String, items: &Vec<Expr>, args: bool, Ghost(ws): Ghost<Seq<Word>>) -> (ok:
    bool)
    requires
        old(out)@ == spell(ws),
        ws.len() > 0,
    ensures
        ok == (forall|m: int|
            0 <= m < items@.len() ==> printable(#[trigger] expr_views(items@)[m]) && (args ==> !(
            expr_views(items@)[m] is Ident))),
        ok ==> final(out)@ == spell(
            ws + list_words(
                expr_views(items@),
                0,
                if args {
                    Word::Comma
                } else {
                    Word::Colon
                },
            ),
        ),
    decreases items, 0int,
{
    let ghost views = expr_views(items@);
    let ghost sep = if args {
        Word::Comma
    } else {
        Word::Colon
    };
    proof {
        reveal_strlit(",");
        reveal_strlit(":");
        assert(","@ =~= seq![',']);
        assert(":"@ =~= seq![':']);
        assert(views.take(0) =~= Seq::<ExprView>::empty());
        assert(ws + list_words(views.take(0), 0, sep) =~= ws);
    }
    let mut i: usize = 0;
    while i < items.len()
        invariant
            i <= items@.len(),
            views == expr_views(items@),
            sep == if args {
                Word::Comma
            } else {
                Word::Colon
            },
            ","@ == seq![','],
            ":"@ == seq![':'],
            ws.len() > 0,
            forall|m: int|
                0 <= m < i ==> printable(#[trigger] views[m]) && (args ==> !(views[m] is Ident)),
            out@ == spell(ws + list_words(views.take(i as int), 0, sep)),
        decreases items@.len() - i,
    {
        let ghost done = ws + list_words(views.take(i as int), 0, sep);
        let ghost x = views[i as int];
        assert(x == items@[i as int]@);
        let item = &items[i];
        let lone = match item {
            Expr::Ident(_) => true,
            _ => false,
        };
        if args && lone {
            return false;
        }
        proof {
            assert(views.take(i + 1) =~= views.take(i as int).push(x));
            lemma_list_push(views.take(i as int), x, 0, sep);
        }
        if i > 0 {
            if args {
                append_word(out, ",", false, false, Ghost(done), Ghost(sep));
            } else {
                append_word(out, ":", false, false, Ghost(done), Ghost(sep));
            }
            if !write_expr(out, item, false, Ghost(done.push(sep))) {
                return false;
            }
            proof {
                assert(done.push(sep) + expr_words(x) =~= ws + list_words(
                    views.take(i + 1),
                    0,
                    sep,
                ));
            }
        } else {
            if !write_expr(out, item, false, Ghost(done)) {
                return false;
            }
            proof {
                assert(done + expr_words(x) =~= ws + list_words(views.take(i + 1), 0, sep));
            }
        }
        i += 1;
    }
    proof {
        assert(views.take(i as int) =~= views);
    }
    true
}

impl Expr {
    /// The canonical surface form of an expression: a name or a literal
    /// as it is written, every other expression in parentheses. `None`
    /// where the expression has none: it holds a negative number, a
    /// flag, a name or literal that cannot be written, or a call with a
    /// lone name as an argument.
    pub fn to_source(&self) -> (text: Option<String>)
        ensures
            match value_surface(self@) {
                Some(t) => text matches Some(x) && x@ == t,
                None => text is None,
            },
    {
        let mut out = String::new();
        let ghost none = Seq::<Word>::empty();
        assert(out@ =~= spell(none));
        if write_expr(&mut out, self, true, Ghost(none)) {
            assert(none + expr_words(self@) =~= expr_words(self@));
            Some(out)
        } else {
            None
        }
    }
}

/// The canonical form of `name op target;`.
fn alias_source(name: &String, target: &String, copy: bool) -> (text: Option<String>)
    ensures
        match surface(
            if copy {
                StmtView::Copy { name: name@, target: target@ }
            } else {
                StmtView::Bind { name: name@, target: target@ }
            },
        ) {
            Some(t) => text matches Some(x) && x@ == t,
            None => text is None,
        },
{
    if !check_name(name.as_str()) || !check_name(target.as_str()) {
        return None;
    }
    let ghost op = if copy {
        Word::Copy
    } else {
        Word::Bind
    };
    let ghost w0 = seq![Word::Name(name@)];
    let ghost w1 = w0.push(op);
    let ghost w2 = w1.push(Word::Name(target@));
    let ghost w3 = w2.push(Word::Semicolon);
    let mut out = name.clone();
    proof {
        reveal_strlit(":=");
        reveal_strlit(":>");
        reveal_strlit(";");
        assert(":="@ =~= seq![':', '=']);
        assert(":>"@ =~= seq![':', '>']);
        assert(";"@ =~= seq![';']);
        assert(w3 =~= seq![Word::Name(name@), op, Word::Name(target@), Word::Semicolon]);
    }
    if copy {
        append_word(&mut out, ":=", false, false, Ghost(w0), Ghost(op));
    } else {
        append_word(&mut out, ":>", false, false, Ghost(w0), Ghost(op));
    }
    append_word(&mut out, target.as_str(), false, false, Ghost(w1), Ghost(Word::Name(target@)));
    append_word(&mut out, ";", false, true, Ghost(w2), Ghost(Word::Semicolon));
    Some(out)
}

impl Stmt {
    /// The canonical surface form of a define, define-empty, copy, bind
    /// or guard statement: its tokens with one space between two of them
    /// and none before the semicolon, every compound expression in
    /// parentheses. `None` for every other statement, and where a name
    /// or an expression has no canonical form.
    pub fn to_source(&self) -> (text: Option<String>)
        ensures
            match surface(self@) {
                Some(t) => text matches Some(x) && x@ == t,
                None => text is None,
            },
    {
        proof {
            reveal_strlit("=");
            reveal_strlit("?=");
            reveal_strlit("=;");
            reveal_strlit(";");
            assert("="@ =~= seq!['=']);
            assert("?="@ =~= seq!['?', '=']);
            assert("=;"@ =~= seq!['=', ';']);
            assert(";"@ =~= seq![';']);
        }
        match self {
            Stmt::Define { name, value } => {
                if !check_name(name.as_str()) {
                    return None;
                }
                let is_ident = match value {
                    Expr::Ident(_) => true,
                    _ => false,
                };
                if is_ident {
                    return None;
                }
                let ghost w0 = seq![Word::Name(name@)];
                let ghost w1 = w0.push(Word::Define);
                let mut out = name.clone();
                append_word(&mut out, "=", false, false, Ghost(w0), Ghost(Word::Define));
                if !write_expr(&mut out, value, false, Ghost(w1)) {
                    return None;
                }
                let ghost w2 = w1 + expr_words(value@);
                append_word(&mut out, ";", false, true, Ghost(w2), Ghost(Word::Semicolon));
                proof {
                    assert(w2.push(Word::Semicolon) =~= seq![Word::Name(name@), Word::Define]
                        + expr_words(value@) + seq![Word::Semicolon]);
                }
                Some(out)
            },
            Stmt::DefineEmpty { name } => {
                if !check_name(name.as_str()) {
                    return None;
                }
                let ghost w0 = seq![Word::Name(name@)];
                let mut out = name.clone();
                proof {
                    assert(w0.push(Word::DefineEmpty) =~= seq![
                        Word::Name(name@),
                        Word::DefineEmpty,
                    ]);
                }
                append_word(&mut out, "=;", false, false, Ghost(w0), Ghost(Word::DefineEmpty));
                Some(out)
            },
            Stmt::Copy { name, target } => alias_source(name, target, true),
            Stmt::Bind { name, target } => alias_source(name, target, false),
            Stmt::Guard { target, branches } => {
                if !check_name(target.as_str()) || branches.len() == 0 {
                    return None;
                }
                let ghost w0 = seq![Word::Name(target@)];
                let ghost w1 = w0.push(Word::Guard);
                let mut out = target.clone();
                append_word(&mut out, "?=", false, false, Ghost(w0), Ghost(Word::Guard));
                if !write_list(&mut out, branches, false, Ghost(w1)) {
                    return None;
                }
                let ghost w2 = w1 + list_words(expr_views(branches@), 0, Word::Colon);
                append_word(&mut out, ";", false, true, Ghost(w2), Ghost(Word::Semicolon));
                proof {
                    assert(w2.push(Word::Semicolon) =~= seq![Word::Name(target@), Word::Guard]
                        + list_words(expr_views(branches@), 0, Word::Colon) + seq![
                        Word::Semicolon,
                    ]);
                }
                Some(out)
            },
            _ => None,
        }
    }
}

} // verus!
