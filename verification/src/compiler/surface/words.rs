//! The words of the canonical form: how each token is written, how a run
//! of words is spelled, and the proof that lexing the spelled text gives
//! the tokens of the words.

use vstd::prelude::*;
use crate::compiler::grammar::{after, Infix};
use crate::compiler::lexer::{
    is_digit, is_space, is_word, is_word_start, lemma_run_end_bounds, lex_from, lex_token, run_end,
    token_at, word_kind, CharClass, LexStep,
};
use crate::compiler::text::{decimal, digit_char};
use crate::compiler::token::{TokenKind, TokenView};

verus! {

/// A name that lexes as an identifier: a word that is no keyword and,
/// where it starts with a digit, is not made of digits alone.
pub open spec fn is_name(w: Seq<char>) -> bool {
    &&& w.len() > 0
    &&& forall|k: int| 0 <= k < w.len() ==> is_word(#[trigger] w[k])
    &&& if is_word_start(w[0]) {
        word_kind(w) == TokenKind::Ident
    } else {
        exists|k: int| 0 <= k < w.len() && !is_digit(#[trigger] w[k])
    }
}

/// A decimal literal's text: digits, one point, digits.
pub open spec fn is_decimal_text(d: Seq<char>) -> bool {
    exists|p: int|
        0 < p < d.len() - 1 && #[trigger] d[p] == '.' && forall|k: int|
            0 <= k < d.len() && k != p ==> is_digit(#[trigger] d[k])
}

/// A text literal's content: anything but the closing quote.
pub open spec fn is_text_body(t: Seq<char>) -> bool {
    forall|k: int| 0 <= k < t.len() ==> #[trigger] t[k] != '"'
}

/// One token as it is written in the canonical form.
pub enum Word {
    Name(Seq<char>),
    Number(nat),
    Decimal(Seq<char>),
    Text(Seq<char>),
    Void,
    Define,
    DefineEmpty,
    Copy,
    Bind,
    Guard,
    Colon,
    Semicolon,
    LParen,
    RParen,
    Comma,
    Not,
    /// A binary operator, or the minus sign before an operand.
    Op(Infix),
}

/// The characters that spell a binary operator.
pub open spec fn infix_text(op: Infix) -> Seq<char> {
    match op {
        Infix::Call => seq!['('],
        Infix::Mul => seq!['*'],
        Infix::Div => seq!['/'],
        Infix::Mod => seq!['%'],
        Infix::Add => seq!['+'],
        Infix::Sub => seq!['-'],
        Infix::Lt => seq!['<'],
        Infix::Le => seq!['<', '='],
        Infix::Gt => seq!['>'],
        Infix::Ge => seq!['>', '='],
        Infix::Eq => seq!['=', '='],
        Infix::Ne => seq!['!', '='],
        Infix::And => seq!['&', '?'],
        Infix::Or => seq!['|', '?'],
        Infix::Has => seq![':', ':'],
        Infix::Present => seq![':', '?'],
        Infix::Pipe => seq!['|', '>'],
    }
}

/// The kind of the token a binary operator lexes to.
pub open spec fn infix_kind(op: Infix) -> TokenKind {
    match op {
        Infix::Call => TokenKind::LParen,
        Infix::Mul => TokenKind::Mul,
        Infix::Div => TokenKind::Div,
        Infix::Mod => TokenKind::Mod,
        Infix::Add => TokenKind::Add,
        Infix::Sub => TokenKind::Sub,
        Infix::Lt => TokenKind::Lt,
        Infix::Le => TokenKind::Le,
        Infix::Gt => TokenKind::Gt,
        Infix::Ge => TokenKind::Ge,
        Infix::Eq => TokenKind::Eq,
        Infix::Ne => TokenKind::Ne,
        Infix::And => TokenKind::And,
        Infix::Or => TokenKind::Or,
        Infix::Has => TokenKind::Has,
        Infix::Present => TokenKind::Present,
        Infix::Pipe => TokenKind::Pipe,
    }
}

impl Word {
    /// The characters that spell the word.
    pub open spec fn text(self) -> Seq<char> {
        match self {
            Word::Name(name) => name,
            Word::Number(n) => decimal(n),
            Word::Decimal(d) => d,
            Word::Text(t) => seq!['"'] + t + seq!['"'],
            Word::Void => seq!['v', 'o', 'i', 'd'],
            Word::Define => seq!['='],
            Word::DefineEmpty => seq!['=', ';'],
            Word::Copy => seq![':', '='],
            Word::Bind => seq![':', '>'],
            Word::Guard => seq!['?', '='],
            Word::Colon => seq![':'],
            Word::Semicolon => seq![';'],
            Word::LParen => seq!['('],
            Word::RParen => seq![')'],
            Word::Comma => seq![','],
            Word::Not => seq!['!', '?'],
            Word::Op(op) => infix_text(op),
        }
    }

    /// The kind of the token the word lexes to.
    pub open spec fn kind(self) -> TokenKind {
        match self {
            Word::Name(_) => TokenKind::Ident,
            Word::Number(_) => TokenKind::NumLit,
            Word::Decimal(_) => TokenKind::DecLit,
            Word::Text(_) => TokenKind::TextLit,
            Word::Void => TokenKind::KwVoid,
            Word::Define => TokenKind::Define,
            Word::DefineEmpty => TokenKind::DefineEmpty,
            Word::Copy => TokenKind::Bind,
            Word::Bind => TokenKind::Cast,
            Word::Guard => TokenKind::Guard,
            Word::Colon => TokenKind::Colon,
            Word::Semicolon => TokenKind::Semicolon,
            Word::LParen => TokenKind::LParen,
            Word::RParen => TokenKind::RParen,
            Word::Comma => TokenKind::Comma,
            Word::Not => TokenKind::Not,
            Word::Op(op) => infix_kind(op),
        }
    }

    /// The text the token carries: the word's own, without the quotes
    /// for a text literal.
    pub open spec fn lexeme(self) -> Seq<char> {
        match self {
            Word::Text(t) => t,
            _ => self.text(),
        }
    }

    pub open spec fn valid(self) -> bool {
        match self {
            Word::Name(name) => is_name(name),
            Word::Decimal(d) => is_decimal_text(d),
            Word::Text(t) => is_text_body(t),
            Word::Op(op) => op != Infix::Call,
            _ => true,
        }
    }

    /// The word writes a value: a name or a literal.
    pub open spec fn is_value(self) -> bool {
        self is Name || self is Number || self is Decimal || self is Text || self is Void
    }

    /// The word can end a value: it is a value itself or closes a
    /// parenthesis.
    pub open spec fn closes(self) -> bool {
        self.is_value() || self is RParen
    }
}

/// The word `w` stands in `s` at index `i`, followed by the end of the
/// text, by a space, or, where it ends a value, by the semicolon.
pub open spec fn stands_at(s: Seq<char>, i: int, w: Word) -> bool {
    let end = i + w.text().len();
    &&& 0 <= i
    &&& end <= s.len()
    &&& s.subrange(i, end) == w.text()
    &&& end < s.len() ==> s[end] == ' ' || (w.closes() && s[end] == ';')
}

pub proof fn lemma_run_over(s: Seq<char>, i: int, j: int, class: CharClass)
    requires
        0 <= i <= j <= s.len(),
        forall|k: int| i <= k < j ==> class.holds(#[trigger] s[k]),
        j < s.len() ==> !class.holds(s[j]),
    ensures
        run_end(s, i, class) == j,
    decreases j - i,
{
    if i < j {
        lemma_run_over(s, i + 1, j, class);
    }
}

pub proof fn lemma_decimal_digits(n: nat)
    ensures
        decimal(n).len() >= 1,
        forall|k: int| 0 <= k < decimal(n).len() ==> is_digit(#[trigger] decimal(n)[k]),
    decreases n,
{
    assert(forall|d: nat| d < 10 ==> is_digit(#[trigger] digit_char(d)));
    if n >= 10 {
        lemma_decimal_digits(n / 10);
    }
}

/// A valid word that stands at `i` is what the lexer scans there: one
/// token of the word's kind with the word's lexeme, ending where the
/// word ends.
pub proof fn lemma_lex_word(s: Seq<char>, i: int, w: Word)
    requires
        w.valid(),
        stands_at(s, i, w),
    ensures
        i < s.len(),
        !is_space(s[i]),
        lex_token(s, i) == (LexStep::Token {
            token: token_at(
                s,
                w.kind(),
                if w is Text {
                    i + 1
                } else {
                    i
                },
                if w is Text {
                    i + w.text().len() - 1
                } else {
                    i + w.text().len()
                },
                i,
            ),
            next: i + w.text().len(),
        }),
        token_at(
            s,
            w.kind(),
            if w is Text {
                i + 1
            } else {
                i
            },
            if w is Text {
                i + w.text().len() - 1
            } else {
                i + w.text().len()
            },
            i,
        ).lexeme == w.lexeme(),
{
    let text = w.text();
    let end = i + text.len();
    assert forall|k: int| 0 <= k < text.len() implies s[i + k] == #[trigger] text[k] by {
        assert(s.subrange(i, end)[k] == s[i + k]);
    }
    match w {
        Word::Name(name) => {
            assert(s[i] == name[0]);
            assert(is_word(name[0]));
            assert forall|k: int| i <= k < end implies is_word(#[trigger] s[k]) by {
                assert(s[k] == name[k - i]);
            }
            lemma_run_over(s, i, end, CharClass::Word);
            if is_word_start(name[0]) {
                assert(s.subrange(i, end) == name);
            } else {
                let j = run_end(s, i, CharClass::Digit);
                lemma_run_end_bounds(s, i, CharClass::Digit);
                let x = choose|k: int| 0 <= k < name.len() && !is_digit(#[trigger] name[k]);
                assert(!is_digit(s[i + x]));
                assert(j <= i + x);
                assert(j < end);
                assert(is_word(s[j]));
                assert(!is_digit(s[j]));
                assert(forall|k: int| j <= k < end ==> is_word(#[trigger] s[k]));
                lemma_run_over(s, j, end, CharClass::Word);
            }
        },
        Word::Number(n) => {
            lemma_decimal_digits(n);
            assert(s[i] == text[0]);
            assert forall|k: int| i <= k < end implies is_digit(#[trigger] s[k]) by {
                assert(s[k] == text[k - i]);
            }
            lemma_run_over(s, i, end, CharClass::Digit);
        },
        Word::Decimal(d) => {
            let p = choose|p: int|
                0 < p < d.len() - 1 && #[trigger] d[p] == '.' && forall|k: int|
                    0 <= k < d.len() && k != p ==> is_digit(#[trigger] d[k]);
            assert(s[i] == d[0]);
            assert forall|k: int| i <= k < i + p implies is_digit(#[trigger] s[k]) by {
                assert(s[k] == d[k - i]);
            }
            assert(s[i + p] == d[p]);
            lemma_run_over(s, i, i + p, CharClass::Digit);
            assert(s[i + p + 1] == d[p + 1]);
            assert forall|k: int| i + p + 1 <= k < end implies is_digit(#[trigger] s[k]) by {
                assert(s[k] == d[k - i]);
            }
            lemma_run_over(s, i + p + 1, end, CharClass::Digit);
        },
        Word::Text(t) => {
            assert(text[0] == '"');
            assert(s[i] == '"');
            assert forall|k: int| i + 1 <= k < end - 1 implies CharClass::TextBody.holds(
                #[trigger] s[k],
            ) by {
                assert(s[k] == text[k - i]);
                assert(text[k - i] == t[k - i - 1]);
            }
            assert(s[end - 1] == text[text.len() - 1]);
            assert(text[text.len() - 1] == '"');
            lemma_run_over(s, i + 1, end - 1, CharClass::TextBody);
            assert(text.len() == t.len() + 2);
            assert forall|k: int| 0 <= k < t.len() implies s.subrange(i + 1, end - 1)[k] == t[k] by {
                assert(s[i + 1 + k] == text[k + 1]);
                assert(text[k + 1] == t[k]);
            }
            assert(s.subrange(i + 1, end - 1) =~= t);
        },
        Word::Void => {
            assert(s[i] == text[0]);
            assert forall|k: int| i <= k < end implies is_word(#[trigger] s[k]) by {
                assert(s[k] == text[k - i]);
            }
            lemma_run_over(s, i, end, CharClass::Word);
            assert(s.subrange(i, end) == seq!['v', 'o', 'i', 'd']);
        },
        Word::Define => {
            assert(s[i] == text[0]);
        },
        Word::DefineEmpty => {
            assert(s[i] == text[0]);
            assert(s[i + 1] == text[1]);
        },
        Word::Copy => {
            assert(s[i] == text[0]);
            assert(s[i + 1] == text[1]);
        },
        Word::Bind => {
            assert(s[i] == text[0]);
            assert(s[i + 1] == text[1]);
        },
        Word::Guard => {
            assert(s[i] == text[0]);
            assert(s[i + 1] == text[1]);
        },
        Word::Colon => {
            assert(s[i] == text[0]);
        },
        Word::Semicolon => {
            assert(s[i] == text[0]);
        },
        Word::LParen => {
            assert(s[i] == text[0]);
        },
        Word::RParen => {
            assert(s[i] == text[0]);
        },
        Word::Comma => {
            assert(s[i] == text[0]);
        },
        Word::Not => {
            assert(s[i] == text[0]);
            assert(s[i + 1] == text[1]);
        },
        Word::Op(op) => {
            assert(s[i] == text[0]);
            if text.len() == 2 {
                assert(s[i + 1] == text[1]);
            }
        },
    }
}

/// The canonical text of a run of words: one space between two words,
/// and none before a semicolon.
pub open spec fn spell(ws: Seq<Word>) -> Seq<char>
    decreases ws.len(),
{
    if ws.len() == 0 {
        Seq::empty()
    } else if ws.len() == 1 {
        ws[0].text()
    } else if ws[1] is Semicolon {
        ws[0].text() + spell(ws.drop_first())
    } else {
        ws[0].text() + seq![' '] + spell(ws.drop_first())
    }
}

/// Every word is valid, and a semicolon follows a value only.
pub open spec fn well_formed(ws: Seq<Word>) -> bool {
    &&& forall|k: int| 0 <= k < ws.len() ==> (#[trigger] ws[k]).valid()
    &&& forall|k: int| 0 < k < ws.len() && #[trigger] ws[k] is Semicolon ==> ws[k - 1].closes()
}

/// The token `t` is the one the word `w` lexes to.
pub open spec fn token_is(t: TokenView, w: Word) -> bool {
    t.kind == w.kind() && t.lexeme == w.lexeme()
}

/// From index `j` on, the tokens are those of the words `ws`.
pub open spec fn written_from(toks: Seq<TokenView>, j: int, ws: Seq<Word>) -> bool {
    forall|k: int| 0 <= k < ws.len() ==> token_is(toks[j + k], #[trigger] ws[k])
}

/// The tokens `toks` are those of the words `ws`, in order, closed by the
/// end marker.
pub open spec fn written_as(toks: Seq<TokenView>, ws: Seq<Word>) -> bool {
    &&& toks.len() == ws.len() + 1
    &&& written_from(toks, 0, ws)
    &&& toks[ws.len() as int].kind == TokenKind::Eof
}

pub proof fn lemma_text_nonempty(w: Word)
    requires
        w.valid(),
    ensures
        w.text().len() > 0,
        w is Semicolon ==> w.text() == seq![';'],
{
    match w {
        Word::Number(n) => {
            lemma_decimal_digits(n);
        },
        Word::Decimal(d) => {},
        _ => {},
    }
}

/// Lexing a text from the index where a well-formed run of words is
/// spelled gives, after the tokens already there, the tokens of those
/// words and the end marker.
pub proof fn lemma_lex_spelled(s: Seq<char>, i: int, ws: Seq<Word>, acc: Seq<TokenView>)
    requires
        0 <= i <= s.len(),
        s.skip(i) == spell(ws),
        well_formed(ws),
    ensures
        lex_from(s, i, acc).result matches Ok(toks) && {
            &&& toks.len() == acc.len() + ws.len() + 1
            &&& toks.take(acc.len() as int) == acc
            &&& written_as(toks.skip(acc.len() as int), ws)
        },
    decreases ws.len(),
{
    if ws.len() == 0 {
        assert(s.skip(i).len() == 0);
        let toks = lex_from(s, i, acc).result->Ok_0;
        assert(toks.take(acc.len() as int) =~= acc);
    } else {
        let w = ws[0];
        let rest = ws.drop_first();
        let text = w.text();
        let end = i + text.len();
        lemma_text_nonempty(w);
        let tail = s.skip(i);
        assert(well_formed(rest)) by {
            assert forall|k: int| 0 <= k < rest.len() implies (#[trigger] rest[k]).valid() by {
                assert(rest[k] == ws[k + 1]);
            }
            assert forall|k: int| 0 < k < rest.len() && #[trigger] rest[k] is Semicolon implies rest[k
                - 1].closes() by {
                assert(rest[k] == ws[k + 1]);
                assert(rest[k - 1] == ws[k]);
            }
        }
        if ws.len() == 1 {
            assert(tail == text);
            assert(s.subrange(i, end) =~= text);
        } else {
            lemma_text_nonempty(ws[1]);
            assert(rest[0] == ws[1]);
            if ws[1] is Semicolon {
                assert(tail == text + spell(rest));
                assert(spell(rest).len() > 0 && spell(rest)[0] == ';') by {
                    if rest.len() == 1 {
                    } else if rest[1] is Semicolon {
                        assert(spell(rest) == rest[0].text() + spell(rest.drop_first()));
                    } else {
                        assert(spell(rest) == rest[0].text() + seq![' '] + spell(
                            rest.drop_first(),
                        ));
                    }
                }
                assert(s.subrange(i, end) =~= text) by {
                    assert forall|k: int| 0 <= k < text.len() implies s[i + k] == text[k] by {
                        assert(tail[k] == s[i + k]);
                    }
                }
                assert(s[end] == ';') by {
                    assert(tail[text.len() as int] == s[end]);
                }
                assert(ws[0].closes());
                assert(s.skip(end) =~= spell(rest)) by {
                    assert forall|k: int| 0 <= k < spell(rest).len() implies s.skip(end)[k]
                        == spell(rest)[k] by {
                        assert(tail[text.len() + k] == s[end + k]);
                    }
                }
            } else {
                assert(tail == text + seq![' '] + spell(rest));
                assert(s.subrange(i, end) =~= text) by {
                    assert forall|k: int| 0 <= k < text.len() implies s[i + k] == text[k] by {
                        assert(tail[k] == s[i + k]);
                    }
                }
                assert(s[end] == ' ') by {
                    assert(tail[text.len() as int] == s[end]);
                }
                assert(s.skip(end + 1) =~= spell(rest)) by {
                    assert forall|k: int| 0 <= k < spell(rest).len() implies s.skip(end + 1)[k]
                        == spell(rest)[k] by {
                        assert(tail[text.len() + 1 + k] == s[end + 1 + k]);
                    }
                }
            }
        }
        lemma_lex_word(s, i, w);
        let step = lex_token(s, i);
        let token = step->Token_token;
        let acc2 = acc.push(token);
        assert(lex_from(s, i, acc) == lex_from(s, end, acc2));
        let start = if ws.len() > 1 && !(ws[1] is Semicolon) {
            end + 1
        } else {
            end
        };
        if start == end + 1 {
            assert(is_space(s[end]));
            assert(lex_from(s, end, acc2) == lex_from(s, end + 1, acc2));
        }
        if ws.len() == 1 {
            assert(s.skip(end) =~= spell(rest));
        }
        lemma_lex_spelled(s, start, rest, acc2);
        let toks = lex_from(s, i, acc).result->Ok_0;
        assert(toks.take(acc.len() as int) =~= acc) by {
            assert(toks.take(acc2.len() as int) == acc2);
            assert forall|k: int| 0 <= k < acc.len() implies toks[k] == acc[k] by {
                assert(toks.take(acc2.len() as int)[k] == acc2[k]);
            }
        }
        let new = toks.skip(acc.len() as int);
        let deeper = toks.skip(acc2.len() as int);
        assert(new[0] == token) by {
            assert(toks.take(acc2.len() as int)[acc.len() as int] == acc2[acc.len() as int]);
        }
        assert forall|k: int| 0 <= k < ws.len() implies token_is(new[0 + k], #[trigger] ws[k]) by {
            if k > 0 {
                assert(new[k] == deeper[0 + (k - 1)]);
                assert(rest[k - 1] == ws[k]);
                assert(token_is(deeper[0 + (k - 1)], rest[k - 1]));
            }
        }
        assert(new[ws.len() as int] == deeper[rest.len() as int]);
    }
}

/// Appending a word to a run appends its text, after a space unless the
/// word is the first or a semicolon.
pub proof fn lemma_spell_push(ws: Seq<Word>, w: Word)
    ensures
        spell(ws.push(w)) == if ws.len() == 0 {
            w.text()
        } else if w is Semicolon {
            spell(ws) + w.text()
        } else {
            spell(ws) + seq![' '] + w.text()
        },
    decreases ws.len(),
{
    let all = ws.push(w);
    if ws.len() == 0 {
    } else {
        let rest = ws.drop_first();
        assert(all.drop_first() =~= rest.push(w));
        assert(all[0] == ws[0]);
        lemma_spell_push(rest, w);
        if ws.len() == 1 {
            assert(all[1] == w);
            assert(spell(ws) == ws[0].text());
            if w is Semicolon {
                assert(spell(all) =~= spell(ws) + w.text());
            } else {
                assert(spell(all) =~= spell(ws) + seq![' '] + w.text());
            }
        } else {
            assert(all[1] == ws[1]);
            if ws[1] is Semicolon {
                assert(spell(ws) == ws[0].text() + spell(rest));
                if w is Semicolon {
                    assert(spell(all) =~= spell(ws) + w.text());
                } else {
                    assert(spell(all) =~= spell(ws) + seq![' '] + w.text());
                }
            } else {
                assert(spell(ws) == ws[0].text() + seq![' '] + spell(rest));
                if w is Semicolon {
                    assert(spell(all) =~= spell(ws) + w.text());
                } else {
                    assert(spell(all) =~= spell(ws) + seq![' '] + w.text());
                }
            }
        }
    }
}

} // verus!
