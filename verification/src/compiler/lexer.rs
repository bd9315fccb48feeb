//! Maximal-munch lexer: source text in, ordered tokens out.

use vstd::prelude::*;
use crate::compiler::text::{
    byte_len, byte_offset, char_width, lemma_byte_len_concat, lemma_byte_offset_bounds,
    lemma_byte_offset_step, str_byte_len, string_from_chars, to_chars,
};
use crate::compiler::error::{Diagnostic, DiagnosticView, Span};
use crate::compiler::messages;
use crate::compiler::token::{token_views, Token, TokenKind, TokenView};

verus! {

#[derive(Debug, Clone, Copy, PartialEq, Eq, Structural)]
pub enum LexError {
    /// A character that starts no token, at byte offset `pos`.
    UnexpectedChar { ch: char, pos: usize },
    /// A text literal whose opening quote at `pos` is never closed.
    UnterminatedText { pos: usize },
}

impl LexError {
    /// The byte offset the error is reported at.
    pub open spec fn pos(self) -> usize {
        match self {
            LexError::UnexpectedChar { ch, pos } => pos,
            LexError::UnterminatedText { pos } => pos,
        }
    }

    /// The diagnostic a lexical error is reported as: an error with an
    /// empty span at the offending byte and a help text.
    pub open spec fn diagnostic(self) -> DiagnosticView {
        let span = Span { start: self.pos(), end: self.pos() };
        match self {
            LexError::UnexpectedChar { ch, pos } => DiagnosticView::error(
                messages::UNEXPECTED_CHARACTER@,
                span,
            ).with_help(messages::UNEXPECTED_CHARACTER_HELP@),
            LexError::UnterminatedText { pos } => DiagnosticView::error(
                messages::UNTERMINATED_TEXT@,
                span,
            ).with_help(messages::UNTERMINATED_TEXT_HELP@),
        }
    }

    /// Converts the error into the diagnostic it is reported as.
    pub fn to_diagnostic(&self) -> (d: Diagnostic)
        ensures
            d@ == self.diagnostic(),
    {
        match self {
            LexError::UnexpectedChar { ch, pos } => Diagnostic::error(
                messages::UNEXPECTED_CHARACTER,
                Span { start: *pos, end: *pos },
            ).with_help(messages::UNEXPECTED_CHARACTER_HELP),
            LexError::UnterminatedText { pos } => Diagnostic::error(
                messages::UNTERMINATED_TEXT,
                Span { start: *pos, end: *pos },
            ).with_help(messages::UNTERMINATED_TEXT_HELP),
        }
    }
}

/// The character classes a run can be made of.
#[derive(Clone, Copy)]
pub enum CharClass {
    Digit,
    Word,
    Space,
    TextBody,
}

pub open spec fn is_digit(c: char) -> bool {
    '0' <= c <= '9'
}

pub open spec fn is_letter(c: char) -> bool {
    ('a' <= c <= 'z') || ('A' <= c <= 'Z')
}

/// Letters and the underscore start an identifier or continue a
/// digit-leading one.
pub open spec fn is_word_start(c: char) -> bool {
    is_letter(c) || c == '_'
}

pub open spec fn is_word(c: char) -> bool {
    is_letter(c) || is_digit(c) || c == '_'
}

/// Characters with the Unicode property `White_Space`.
pub open spec fn is_space(c: char) -> bool {
    let v = c as u32;
    (0x09 <= v <= 0x0D) || v == 0x20 || v == 0x85 || v == 0xA0 || v == 0x1680 || (0x2000 <= v
        <= 0x200A) || v == 0x2028 || v == 0x2029 || v == 0x202F || v == 0x205F || v == 0x3000
}

impl CharClass {
    pub open spec fn holds(self, c: char) -> bool {
        match self {
            CharClass::Digit => is_digit(c),
            CharClass::Word => is_word(c),
            CharClass::Space => is_space(c),
            CharClass::TextBody => c != '"',
        }
    }

    fn test(self, c: char) -> (b: bool)
        ensures
            b == self.holds(c),
    {
        match self {
            CharClass::Digit => c >= '0' && c <= '9',
            CharClass::Word => (c >= 'a' && c <= 'z') || (c >= 'A' && c <= 'Z') || (c >= '0' && c
                <= '9') || c == '_',
            CharClass::Space => {
                let v: u32 = c as u32;
                (0x09 <= v && v <= 0x0D) || v == 0x20 || v == 0x85 || v == 0xA0 || v == 0x1680 || (
                0x2000 <= v && v <= 0x200A) || v == 0x2028 || v == 0x2029 || v == 0x202F || v
                    == 0x205F || v == 0x3000
            },
            CharClass::TextBody => c != '"',
        }
    }
}

/// Index just past the longest run of `class` characters that starts at `i`.
pub open spec fn run_end(s: Seq<char>, i: int, class: CharClass) -> int
    decreases s.len() - i,
{
    if 0 <= i < s.len() && class.holds(s[i]) {
        run_end(s, i + 1, class)
    } else {
        i
    }
}

/// Keywords are matched on the whole word, case-sensitively.
pub open spec fn word_kind(w: Seq<char>) -> TokenKind {
    if w == seq!['n', 'u', 'm'] {
        TokenKind::KwNum
    } else if w == seq!['d', 'e', 'c'] {
        TokenKind::KwDec
    } else if w == seq!['f', 'l', 'a', 'g'] {
        TokenKind::KwFlag
    } else if w == seq!['t', 'e', 'x', 't'] {
        TokenKind::KwText
    } else if w == seq!['v', 'o', 'i', 'd'] {
        TokenKind::KwVoid
    } else if w == seq!['f', 'n'] {
        TokenKind::KwFn
    } else if w == seq!['r', 'e', 't'] {
        TokenKind::KwRet
    } else if w == seq!['l', 'o', 'c'] {
        TokenKind::KwLoc
    } else {
        TokenKind::Ident
    }
}

/// The two-character tokens: block delimiters, compound operators and the
/// long members of the colon family.
pub open spec fn pair_kind(a: char, b: char) -> Option<TokenKind> {
    if a == ':' && b == '[' {
        Some(TokenKind::BlockExprStart)
    } else if a == ']' && b == ':' {
        Some(TokenKind::BlockExprEnd)
    } else if a == ']' && b == '[' {
        Some(TokenKind::BlockExprChain)
    } else if a == ':' && b == '{' {
        Some(TokenKind::BlockStmtStart)
    } else if a == '}' && b == ':' {
        Some(TokenKind::BlockStmtEnd)
    } else if a == '}' && b == '{' {
        Some(TokenKind::BlockStmtChain)
    } else if a == ':' && b == '(' {
        Some(TokenKind::BlockFuncStart)
    } else if a == ')' && b == ':' {
        Some(TokenKind::BlockFuncEnd)
    } else if a == ')' && b == '(' {
        Some(TokenKind::BlockFuncChain)
    } else if a == ':' && b == '<' {
        Some(TokenKind::BlockArrayStart)
    } else if a == '>' && b == ':' {
        Some(TokenKind::BlockArrayEnd)
    } else if a == '>' && b == '<' {
        Some(TokenKind::BlockArrayChain)
    } else if a == '?' && b == '=' {
        Some(TokenKind::Guard)
    } else if a == '=' && b == ';' {
        Some(TokenKind::DefineEmpty)
    } else if a == '|' && b == '>' {
        Some(TokenKind::Pipe)
    } else if a == '=' && b == '=' {
        Some(TokenKind::Eq)
    } else if a == '!' && b == '=' {
        Some(TokenKind::Ne)
    } else if a == '<' && b == '=' {
        Some(TokenKind::Le)
    } else if a == '>' && b == '=' {
        Some(TokenKind::Ge)
    } else if a == '&' && b == '?' {
        Some(TokenKind::And)
    } else if a == '|' && b == '?' {
        Some(TokenKind::Or)
    } else if a == '!' && b == '?' {
        Some(TokenKind::Not)
    } else if a == '-' && b == '>' {
        Some(TokenKind::ArrowR)
    } else if a == '<' && b == '-' {
        Some(TokenKind::ArrowL)
    } else if a == ':' && b == ':' {
        Some(TokenKind::Has)
    } else if a == ':' && b == '=' {
        Some(TokenKind::Bind)
    } else if a == ':' && b == '?' {
        Some(TokenKind::Present)
    } else if a == ':' && b == '>' {
        Some(TokenKind::Cast)
    } else {
        None
    }
}

/// The one-character tokens, tried after every two-character token.
pub open spec fn single_kind(c: char) -> Option<TokenKind> {
    if c == ':' {
        Some(TokenKind::Colon)
    } else if c == '=' {
        Some(TokenKind::Define)
    } else if c == '+' {
        Some(TokenKind::Add)
    } else if c == '-' {
        Some(TokenKind::Sub)
    } else if c == '*' {
        Some(TokenKind::Mul)
    } else if c == '/' {
        Some(TokenKind::Div)
    } else if c == '%' {
        Some(TokenKind::Mod)
    } else if c == '>' {
        Some(TokenKind::Gt)
    } else if c == '<' {
        Some(TokenKind::Lt)
    } else if c == '(' {
        Some(TokenKind::LParen)
    } else if c == ')' {
        Some(TokenKind::RParen)
    } else if c == ',' {
        Some(TokenKind::Comma)
    } else if c == ';' {
        Some(TokenKind::Semicolon)
    } else {
        None
    }
}

/// Outcome of scanning one token: the token and the index after it, or the
/// error and the index at which scanning stopped.
pub enum LexStep {
    Token { token: TokenView, next: int },
    Fail { error: LexError, at: int },
}

pub open spec fn token_at(s: Seq<char>, kind: TokenKind, from: int, to: int, start: int) -> TokenView {
    TokenView { kind, lexeme: s.subrange(from, to), pos: byte_offset(s, start) as usize }
}

/// The token that starts at index `i`, which holds a character that is not
/// white space.
pub open spec fn lex_token(s: Seq<char>, i: int) -> LexStep
    recommends
        0 <= i < s.len(),
{
    let c = s[i];
    if is_digit(c) {
        let j = run_end(s, i, CharClass::Digit);
        if j < s.len() && s[j] == '.' {
            if j + 1 < s.len() && is_digit(s[j + 1]) {
                let k = run_end(s, j + 1, CharClass::Digit);
                LexStep::Token { token: token_at(s, TokenKind::DecLit, i, k, i), next: k }
            } else {
                LexStep::Fail {
                    error: LexError::UnexpectedChar { ch: '.', pos: byte_offset(s, j) as usize },
                    at: j + 1,
                }
            }
        } else if j < s.len() && is_word_start(s[j]) {
            let k = run_end(s, j, CharClass::Word);
            LexStep::Token { token: token_at(s, TokenKind::Ident, i, k, i), next: k }
        } else {
            LexStep::Token { token: token_at(s, TokenKind::NumLit, i, j, i), next: j }
        }
    } else if is_word_start(c) {
        let k = run_end(s, i, CharClass::Word);
        LexStep::Token { token: token_at(s, word_kind(s.subrange(i, k)), i, k, i), next: k }
    } else if c == '"' {
        let k = run_end(s, i + 1, CharClass::TextBody);
        if k < s.len() {
            LexStep::Token { token: token_at(s, TokenKind::TextLit, i + 1, k, i), next: k + 1 }
        } else {
            LexStep::Fail {
                error: LexError::UnterminatedText { pos: byte_offset(s, i) as usize },
                at: k,
            }
        }
    } else if i + 1 < s.len() && pair_kind(c, s[i + 1]) is Some {
        LexStep::Token { token: token_at(s, pair_kind(c, s[i + 1])->0, i, i + 2, i), next: i + 2 }
    } else if single_kind(c) is Some {
        LexStep::Token { token: token_at(s, single_kind(c)->0, i, i + 1, i), next: i + 1 }
    } else {
        LexStep::Fail {
            error: LexError::UnexpectedChar { ch: c, pos: byte_offset(s, i) as usize },
            at: i,
        }
    }
}

/// What lexing ends in, and where the cursor then stands.
pub struct LexOutcome {
    pub result: Result<Seq<TokenView>, LexError>,
    pub cursor: int,
}

/// Lexes `s` from index `i` on, after the tokens `acc`: white space is
/// skipped between tokens, the first error ends the scan, and the end of
/// input adds the end marker at the final byte offset.
pub open spec fn lex_from(s: Seq<char>, i: int, acc: Seq<TokenView>) -> LexOutcome
    decreases s.len() - i,
{
    if !(0 <= i < s.len()) {
        let eof = TokenView {
            kind: TokenKind::Eof,
            lexeme: Seq::empty(),
            pos: byte_len(s) as usize,
        };
        LexOutcome { result: Ok(acc.push(eof)), cursor: i }
    } else if is_space(s[i]) {
        lex_from(s, i + 1, acc)
    } else {
        match lex_token(s, i) {
            LexStep::Token { token, next } => {
                proof {
                    lemma_lex_token_advances(s, i);
                }
                lex_from(s, next, acc.push(token))
            },
            LexStep::Fail { error, at } => LexOutcome { result: Err(error), cursor: at },
        }
    }
}

/// The tokens of the text `s`, or the first lexical error in it.
pub open spec fn lex(s: Seq<char>) -> Result<Seq<TokenView>, LexError> {
    lex_from(s, 0, Seq::empty()).result
}

/// Every token ends within `limit` bytes.
pub open spec fn tokens_within(tokens: Seq<TokenView>, limit: int) -> bool {
    forall|k: int| 0 <= k < tokens.len() ==> (#[trigger] tokens[k]).end() <= limit
}

pub proof fn lemma_run_end_bounds(s: Seq<char>, i: int, class: CharClass)
    requires
        0 <= i <= s.len(),
    ensures
        i <= run_end(s, i, class) <= s.len(),
        forall|k: int| i <= k < run_end(s, i, class) ==> class.holds(#[trigger] s[k]),
        run_end(s, i, class) < s.len() ==> !class.holds(s[run_end(s, i, class)]),
    decreases s.len() - i,
{
    if i < s.len() && class.holds(s[i]) {
        lemma_run_end_bounds(s, i + 1, class);
    }
}

/// A scanned token is never empty: its end lies past its start.
pub proof fn lemma_lex_token_advances(s: Seq<char>, i: int)
    requires
        0 <= i < s.len(),
    ensures
        lex_token(s, i) matches LexStep::Token { token, next } ==> i < next <= s.len(),
{
    lemma_run_end_bounds(s, i, CharClass::Digit);
    lemma_run_end_bounds(s, i, CharClass::Word);
    lemma_run_end_bounds(s, i + 1, CharClass::TextBody);
    let j = run_end(s, i, CharClass::Digit);
    if j + 1 <= s.len() {
        lemma_run_end_bounds(s, j + 1, CharClass::Digit);
    }
    lemma_run_end_bounds(s, j, CharClass::Word);
}

/// Skipping white space does not change what is lexed.
pub proof fn lemma_lex_from_skips_space(s: Seq<char>, i: int, acc: Seq<TokenView>)
    requires
        0 <= i <= s.len(),
    ensures
        lex_from(s, i, acc) == lex_from(s, run_end(s, i, CharClass::Space), acc),
    decreases s.len() - i,
{
    if i < s.len() && is_space(s[i]) {
        lemma_lex_from_skips_space(s, i + 1, acc);
    }
}

/// A token cut from `s` ends within `s`.
pub proof fn lemma_token_at_within(s: Seq<char>, kind: TokenKind, from: int, to: int, start: int)
    requires
        0 <= start <= from <= to <= s.len(),
        byte_len(s) <= usize::MAX,
    ensures
        token_at(s, kind, from, to, start).end() <= byte_offset(s, to) <= byte_len(s),
        token_at(s, kind, from, to, start).pos == byte_offset(s, start),
{
    let head = s.take(to);
    assert(head.take(start) =~= s.take(start));
    assert(head.take(from) =~= s.take(from));
    assert(head.skip(from) =~= s.subrange(from, to));
    assert(head =~= head.take(from) + head.skip(from));
    lemma_byte_len_concat(head.take(from), head.skip(from));
    let mid = s.take(from);
    assert(mid.take(start) =~= s.take(start));
    assert(mid =~= mid.take(start) + mid.skip(start));
    lemma_byte_len_concat(mid.take(start), mid.skip(start));
    lemma_byte_offset_bounds(s, to);
}

/// Byte offsets grow with the character index.
pub proof fn lemma_byte_offset_grows(s: Seq<char>, i: int, j: int)
    requires
        0 <= i <= j <= s.len(),
    ensures
        byte_offset(s, i) <= byte_offset(s, j),
{
    let head = s.take(j);
    assert(head.take(i) =~= s.take(i));
    assert(head =~= head.take(i) + head.skip(i));
    lemma_byte_len_concat(head.take(i), head.skip(i));
}

/// What a scanned token is: never the end marker, placed at its first
/// character, and ending at or before the index where scanning goes on.
pub proof fn lemma_lex_token_placed(s: Seq<char>, i: int)
    requires
        0 <= i < s.len(),
        byte_len(s) <= usize::MAX,
    ensures
        lex_token(s, i) matches LexStep::Token { token, next } ==> token.kind != TokenKind::Eof
            && token.pos == byte_offset(s, i) && token.end() <= byte_offset(s, next) && i < next
            <= s.len(),
{
    lemma_lex_token_advances(s, i);
    lemma_run_end_bounds(s, i, CharClass::Digit);
    lemma_run_end_bounds(s, i, CharClass::Word);
    lemma_run_end_bounds(s, i + 1, CharClass::TextBody);
    let j = run_end(s, i, CharClass::Digit);
    if j + 1 <= s.len() {
        lemma_run_end_bounds(s, j + 1, CharClass::Digit);
    }
    lemma_run_end_bounds(s, j, CharClass::Word);
    match lex_token(s, i) {
        LexStep::Token { token, next } => {
            if s[i] == '"' {
                lemma_token_at_within(s, token.kind, i + 1, next - 1, i);
                lemma_byte_offset_grows(s, next - 1, next);
            } else {
                lemma_token_at_within(s, token.kind, i, next, i);
            }
        },
        LexStep::Fail { error, at } => {},
    }
}

/// The token at `k` is no end marker, starts at or after byte offset
/// `from`, and ends at or before the start of the token after it.
pub open spec fn stands_in_order(toks: Seq<TokenView>, k: int, from: int) -> bool {
    &&& toks[k].kind != TokenKind::Eof
    &&& from <= toks[k].pos
    &&& toks[k].end() <= toks[k + 1].pos
}

/// The tokens `toks` are `acc` and then tokens scanned from index `i`
/// on: in source order, without overlap, closed by one end marker.
pub open spec fn in_order_after(s: Seq<char>, i: int, acc: Seq<TokenView>, toks: Seq<TokenView>) -> bool {
    &&& toks.len() > acc.len()
    &&& toks.take(acc.len() as int) == acc
    &&& toks.last().kind == TokenKind::Eof
    &&& toks.last().lexeme.len() == 0
    &&& toks.last().pos == byte_len(s)
    &&& forall|k: int|
        acc.len() <= k < toks.len() - 1 ==> #[trigger] stands_in_order(
            toks,
            k,
            byte_offset(s, i) as int,
        )
}

proof fn lemma_in_order_step(
    s: Seq<char>,
    i: int,
    next: int,
    acc: Seq<TokenView>,
    token: TokenView,
    toks: Seq<TokenView>,
)
    requires
        0 <= i <= next <= s.len(),
        in_order_after(s, next, acc.push(token), toks),
        token.kind != TokenKind::Eof,
        token.pos == byte_offset(s, i),
        token.end() <= byte_offset(s, next),
    ensures
        in_order_after(s, i, acc, toks),
{
    let acc2 = acc.push(token);
    let n = acc.len() as int;
    lemma_byte_offset_grows(s, i, next);
    lemma_byte_offset_bounds(s, next);
    assert forall|k: int| 0 <= k <= n implies toks[k] == acc2[k] by {
        assert(toks.take(acc2.len() as int)[k] == acc2[k]);
    }
    assert(toks.take(n) =~= acc);
    assert(toks[n] == token);
    assert forall|k: int| n <= k < toks.len() - 1 implies #[trigger] stands_in_order(
        toks,
        k,
        byte_offset(s, i) as int,
    ) by {
        if k == n {
            if n + 1 < toks.len() - 1 {
                assert(stands_in_order(toks, n + 1, byte_offset(s, next) as int));
            }
        } else {
            assert(stands_in_order(toks, k, byte_offset(s, next) as int));
        }
    }
}

proof fn lemma_lex_from_in_order(s: Seq<char>, i: int, acc: Seq<TokenView>)
    requires
        0 <= i <= s.len(),
        byte_len(s) <= usize::MAX,
    ensures
        lex_from(s, i, acc).result matches Ok(toks) ==> in_order_after(s, i, acc, toks),
    decreases s.len() - i,
{
    if i == s.len() {
        let toks = lex_from(s, i, acc).result->Ok_0;
        assert(toks.take(acc.len() as int) =~= acc);
    } else if is_space(s[i]) {
        lemma_lex_from_in_order(s, i + 1, acc);
        lemma_byte_offset_grows(s, i, i + 1);
        if lex_from(s, i, acc).result is Ok {
            let toks = lex_from(s, i, acc).result->Ok_0;
            assert forall|k: int| acc.len() <= k < toks.len() - 1 implies #[trigger] stands_in_order(
                toks,
                k,
                byte_offset(s, i) as int,
            ) by {
                assert(stands_in_order(toks, k, byte_offset(s, i + 1) as int));
            }
        }
    } else {
        lemma_lex_token_placed(s, i);
        match lex_token(s, i) {
            LexStep::Token { token, next } => {
                lemma_lex_from_in_order(s, next, acc.push(token));
                if lex_from(s, i, acc).result is Ok {
                    lemma_in_order_step(s, i, next, acc, token, lex_from(s, i, acc).result->Ok_0);
                }
            },
            LexStep::Fail { error, at } => {},
        }
    }
}

/// The tokens of a text stand in source order and do not overlap, and
/// they end in exactly one end marker, which is empty and stands at the
/// final byte offset.
pub proof fn law_tokens_in_order_with_one_end_marker(s: Seq<char>)
    requires
        byte_len(s) <= usize::MAX,
    ensures
        lex(s) matches Ok(toks) ==> {
            &&& toks.len() >= 1
            &&& toks.last().kind == TokenKind::Eof
            &&& toks.last().lexeme.len() == 0
            &&& toks.last().pos == byte_len(s)
            &&& forall|k: int| 0 <= k < toks.len() - 1 ==> #[trigger] stands_in_order(toks, k, 0)
        },
{
    lemma_lex_from_in_order(s, 0, Seq::empty());
    lemma_byte_offset_bounds(s, 0);
}

/// The two-character token that `a` and `b` spell, if any.
fn match_pair(a: char, b: char) -> (kind: Option<TokenKind>)
    ensures
        kind == pair_kind(a, b),
{
    if a == ':' && b == '[' {
        Some(TokenKind::BlockExprStart)
    } else if a == ']' && b == ':' {
        Some(TokenKind::BlockExprEnd)
    } else if a == ']' && b == '[' {
        Some(TokenKind::BlockExprChain)
    } else if a == ':' && b == '{' {
        Some(TokenKind::BlockStmtStart)
    } else if a == '}' && b == ':' {
        Some(TokenKind::BlockStmtEnd)
    } else if a == '}' && b == '{' {
        Some(TokenKind::BlockStmtChain)
    } else if a == ':' && b == '(' {
        Some(TokenKind::BlockFuncStart)
    } else if a == ')' && b == ':' {
        Some(TokenKind::BlockFuncEnd)
    } else if a == ')' && b == '(' {
        Some(TokenKind::BlockFuncChain)
    } else if a == ':' && b == '<' {
        Some(TokenKind::BlockArrayStart)
    } else if a == '>' && b == ':' {
        Some(TokenKind::BlockArrayEnd)
    } else if a == '>' && b == '<' {
        Some(TokenKind::BlockArrayChain)
    } else if a == '?' && b == '=' {
        Some(TokenKind::Guard)
    } else if a == '=' && b == ';' {
        Some(TokenKind::DefineEmpty)
    } else if a == '|' && b == '>' {
        Some(TokenKind::Pipe)
    } else if a == '=' && b == '=' {
        Some(TokenKind::Eq)
    } else if a == '!' && b == '=' {
        Some(TokenKind::Ne)
    } else if a == '<' && b == '=' {
        Some(TokenKind::Le)
    } else if a == '>' && b == '=' {
        Some(TokenKind::Ge)
    } else if a == '&' && b == '?' {
        Some(TokenKind::And)
    } else if a == '|' && b == '?' {
        Some(TokenKind::Or)
    } else if a == '!' && b == '?' {
        Some(TokenKind::Not)
    } else if a == '-' && b == '>' {
        Some(TokenKind::ArrowR)
    } else if a == '<' && b == '-' {
        Some(TokenKind::ArrowL)
    } else if a == ':' && b == ':' {
        Some(TokenKind::Has)
    } else if a == ':' && b == '=' {
        Some(TokenKind::Bind)
    } else if a == ':' && b == '?' {
        Some(TokenKind::Present)
    } else if a == ':' && b == '>' {
        Some(TokenKind::Cast)
    } else {
        None
    }
}

/// The one-character token that `c` spells, if any.
fn match_char(c: char) -> (kind: Option<TokenKind>)
    ensures
        kind == single_kind(c),
{
    if c == ':' {
        Some(TokenKind::Colon)
    } else if c == '=' {
        Some(TokenKind::Define)
    } else if c == '+' {
        Some(TokenKind::Add)
    } else if c == '-' {
        Some(TokenKind::Sub)
    } else if c == '*' {
        Some(TokenKind::Mul)
    } else if c == '/' {
        Some(TokenKind::Div)
    } else if c == '%' {
        Some(TokenKind::Mod)
    } else if c == '>' {
        Some(TokenKind::Gt)
    } else if c == '<' {
        Some(TokenKind::Lt)
    } else if c == '(' {
        Some(TokenKind::LParen)
    } else if c == ')' {
        Some(TokenKind::RParen)
    } else if c == ',' {
        Some(TokenKind::Comma)
    } else if c == ';' {
        Some(TokenKind::Semicolon)
    } else {
        None
    }
}

/// Whether `chars[from..to]` is the word `word`.
pub fn match_str(chars: &Vec<char>, from: usize, to: usize, word: &[char]) -> (b: bool)
    requires
        from <= to <= chars@.len(),
    ensures
        b == (chars@.subrange(from as int, to as int) == word@),
{
    let ghost run = chars@.subrange(from as int, to as int);
    if to - from != word.len() {
        return false;
    }
    let mut k: usize = 0;
    while k < word.len()
        invariant
            from <= to <= chars@.len(),
            to - from == word@.len(),
            run == chars@.subrange(from as int, to as int),
            k <= word@.len(),
            forall|m: int| 0 <= m < k ==> run[m] == word@[m],
        decreases word@.len() - k,
    {
        if chars[from + k] != word[k] {
            assert(run[k as int] != word@[k as int]);
            return false;
        }
        k += 1;
    }
    assert(run =~= word@);
    true
}

/// Keyword or plain identifier, for the word `chars[from..to]`.
pub fn kind_of_word(chars: &Vec<char>, from: usize, to: usize) -> (kind: TokenKind)
    requires
        from <= to <= chars@.len(),
    ensures
        kind == word_kind(chars@.subrange(from as int, to as int)),
{
    let kw_num: [char; 3] = ['n', 'u', 'm'];
    let kw_dec: [char; 3] = ['d', 'e', 'c'];
    let kw_flag: [char; 4] = ['f', 'l', 'a', 'g'];
    let kw_text: [char; 4] = ['t', 'e', 'x', 't'];
    let kw_void: [char; 4] = ['v', 'o', 'i', 'd'];
    let kw_fn: [char; 2] = ['f', 'n'];
    let kw_ret: [char; 3] = ['r', 'e', 't'];
    let kw_loc: [char; 3] = ['l', 'o', 'c'];
    assert(kw_num@ =~= seq!['n', 'u', 'm']);
    assert(kw_dec@ =~= seq!['d', 'e', 'c']);
    assert(kw_flag@ =~= seq!['f', 'l', 'a', 'g']);
    assert(kw_text@ =~= seq!['t', 'e', 'x', 't']);
    assert(kw_void@ =~= seq!['v', 'o', 'i', 'd']);
    assert(kw_fn@ =~= seq!['f', 'n']);
    assert(kw_ret@ =~= seq!['r', 'e', 't']);
    assert(kw_loc@ =~= seq!['l', 'o', 'c']);
    if match_str(chars, from, to, kw_num.as_slice()) {
        TokenKind::KwNum
    } else if match_str(chars, from, to, kw_dec.as_slice()) {
        TokenKind::KwDec
    } else if match_str(chars, from, to, kw_flag.as_slice()) {
        TokenKind::KwFlag
    } else if match_str(chars, from, to, kw_text.as_slice()) {
        TokenKind::KwText
    } else if match_str(chars, from, to, kw_void.as_slice()) {
        TokenKind::KwVoid
    } else if match_str(chars, from, to, kw_fn.as_slice()) {
        TokenKind::KwFn
    } else if match_str(chars, from, to, kw_ret.as_slice()) {
        TokenKind::KwRet
    } else if match_str(chars, from, to, kw_loc.as_slice()) {
        TokenKind::KwLoc
    } else {
        TokenKind::Ident
    }
}

/// Where the lexer stands: a character index and the byte offset of that
/// character.
struct Cursor {
    index: usize,
    pos: usize,
}

pub struct Lexer {
    chars: Vec<char>,
    at: Cursor,
}

impl Lexer {
    #[verifier::type_invariant]
    spec fn inv(self) -> bool {
        &&& self.at.index <= self.chars@.len()
        &&& self.at.pos == byte_offset(self.chars@, self.at.index as int)
        &&& byte_len(self.chars@) <= usize::MAX
    }

    /// The text being lexed.
    pub closed spec fn text(&self) -> Seq<char> {
        self.chars@
    }

    /// Index of the next character to be read.
    pub closed spec fn cursor(&self) -> int {
        self.at.index as int
    }

    pub fn new(src: &str) -> (lexer: Lexer)
        ensures
            lexer.text() == src@,
            lexer.cursor() == 0,
    {
        let chars = to_chars(src);
        let n = str_byte_len(src);
        proof {
            lemma_byte_offset_bounds(chars@, 0);
        }
        Lexer { chars, at: Cursor { index: 0, pos: 0 } }
    }

    fn eof(&self) -> (b: bool)
        ensures
            b == (self.cursor() >= self.text().len()),
    {
        self.at.index >= self.chars.len()
    }

    fn peek_char(&self) -> (c: char)
        requires
            self.cursor() < self.text().len(),
        ensures
            c == self.text()[self.cursor()],
    {
        self.chars[self.at.index]
    }

    fn bump_char(&mut self)
        requires
            old(self).cursor() < old(self).text().len(),
        ensures
            final(self).text() == old(self).text(),
            final(self).cursor() == old(self).cursor() + 1,
    {
        proof {
            use_type_invariant(&*self);
            lemma_byte_offset_step(self.chars@, self.at.index as int);
        }
        let w = char_width(self.chars[self.at.index]);
        assert(self.at.index < self.chars.len());
        self.at = Cursor { index: self.at.index + 1, pos: self.at.pos + w };
    }

    /// Advances past the longest run of `class` characters.
    fn read_while(&mut self, class: CharClass)
        ensures
            final(self).text() == old(self).text(),
            final(self).cursor() == run_end(old(self).text(), old(self).cursor(), class),
    {
        proof {
            use_type_invariant(&*self);
        }
        while !self.eof() && class.test(self.peek_char())
            invariant
                self.text() == old(self).text(),
                old(self).cursor() <= self.cursor() <= self.text().len(),
                run_end(self.text(), self.cursor(), class) == run_end(
                    old(self).text(),
                    old(self).cursor(),
                    class,
                ),
            decreases self.text().len() - self.cursor(),
        {
            self.bump_char();
        }
    }
    /// The token record for `chars[from..to]`, starting at byte offset `pos`.
    fn tok(&self, kind: TokenKind, from: usize, to: usize, pos: usize) -> (t: Token)
        requires
            from <= to <= self.text().len(),
        ensures
            t@ == (TokenView { kind, lexeme: self.text().subrange(from as int, to as int), pos }),
    {
        Token { kind, lexeme: string_from_chars(&self.chars, from, to), pos }
    }

    /// Keyword or plain identifier, for the word `chars[from..to]`.
    fn word_kind(&self, from: usize, to: usize) -> (kind: TokenKind)
        requires
            from <= to <= self.text().len(),
        ensures
            kind == word_kind(self.text().subrange(from as int, to as int)),
    {
        kind_of_word(&self.chars, from, to)
    }

    /// Scans the token at the cursor, which stands on a character that is
    /// not white space.
    fn next_token(&mut self) -> (r: Result<Token, LexError>)
        requires
            old(self).cursor() < old(self).text().len(),
        ensures
            final(self).text() == old(self).text(),
            match lex_token(old(self).text(), old(self).cursor()) {
                LexStep::Token { token, next } => r matches Ok(t) && t@ == token
                    && final(self).cursor() == next && t@.end() <= byte_len(old(self).text()),
                LexStep::Fail { error, at } => r == Err::<Token, LexError>(error)
                    && final(self).cursor() == at,
            },
    {
        proof {
            use_type_invariant(&*self);
        }
        let ghost s = self.chars@;
        let start: usize = self.at.index;
        let pos: usize = self.at.pos;
        let ch = self.peek_char();
        proof {
            lemma_lex_token_advances(s, start as int);
            lemma_run_end_bounds(s, start as int, CharClass::Digit);
            lemma_run_end_bounds(s, start as int, CharClass::Word);
            lemma_run_end_bounds(s, start + 1, CharClass::TextBody);
        }
        if CharClass::Digit.test(ch) {
            self.read_while(CharClass::Digit);
            let dot: usize = self.at.index;
            proof {
                use_type_invariant(&*self);
                if dot + 1 <= s.len() {
                    lemma_run_end_bounds(s, dot + 1, CharClass::Digit);
                }
                lemma_run_end_bounds(s, dot as int, CharClass::Word);
            }
            if !self.eof() && self.peek_char() == '.' {
                let dot_pos: usize = self.at.pos;
                self.bump_char();
                if self.eof() || !CharClass::Digit.test(self.peek_char()) {
                    return Err(LexError::UnexpectedChar { ch: '.', pos: dot_pos });
                }
                self.read_while(CharClass::Digit);
                proof {
                    lemma_token_at_within(
                        s,
                        TokenKind::DecLit,
                        start as int,
                        self.at.index as int,
                        start as int,
                    );
                }
                return Ok(self.tok(TokenKind::DecLit, start, self.at.index, pos));
            }
            if !self.eof() {
                let next = self.peek_char();
                if (next >= 'a' && next <= 'z') || (next >= 'A' && next <= 'Z') || next == '_' {
                    self.read_while(CharClass::Word);
                    proof {
                        lemma_token_at_within(
                            s,
                            TokenKind::Ident,
                            start as int,
                            self.at.index as int,
                            start as int,
                        );
                    }
                    return Ok(self.tok(TokenKind::Ident, start, self.at.index, pos));
                }
            }
            proof {
                lemma_token_at_within(
                    s,
                    TokenKind::NumLit,
                    start as int,
                    self.at.index as int,
                    start as int,
                );
            }
            return Ok(self.tok(TokenKind::NumLit, start, self.at.index, pos));
        }
        if (ch >= 'a' && ch <= 'z') || (ch >= 'A' && ch <= 'Z') || ch == '_' {
            self.read_while(CharClass::Word);
            let kind = self.word_kind(start, self.at.index);
            proof {
                lemma_token_at_within(s, kind, start as int, self.at.index as int, start as int);
            }
            return Ok(self.tok(kind, start, self.at.index, pos));
        }
        if ch == '"' {
            return self.read_text(start, pos);
        }
        assert(start < self.chars.len());
        if start + 1 < self.chars.len() {
            match match_pair(ch, self.chars[start + 1]) {
                Some(kind) => {
                    self.bump_char();
                    self.bump_char();
                    proof {
                        lemma_token_at_within(s, kind, start as int, start + 2, start as int);
                    }
                    return Ok(self.tok(kind, start, start + 2, pos));
                },
                None => {},
            }
        }
        match match_char(ch) {
            Some(kind) => {
                self.bump_char();
                proof {
                    lemma_token_at_within(s, kind, start as int, start + 1, start as int);
                }
                Ok(self.tok(kind, start, start + 1, pos))
            },
            None => Err(LexError::UnexpectedChar { ch, pos }),
        }
    }

    /// Reads a text literal whose opening quote stands at the cursor, at
    /// index `start` and byte offset `pos`.
    fn read_text(&mut self, start: usize, pos: usize) -> (r: Result<Token, LexError>)
        requires
            old(self).cursor() == start,
            start < old(self).text().len(),
            old(self).text()[start as int] == '"',
            pos == byte_offset(old(self).text(), start as int),
        ensures
            final(self).text() == old(self).text(),
            match lex_token(old(self).text(), start as int) {
                LexStep::Token { token, next } => r matches Ok(t) && t@ == token
                    && final(self).cursor() == next && t@.end() <= byte_len(old(self).text()),
                LexStep::Fail { error, at } => r == Err::<Token, LexError>(error)
                    && final(self).cursor() == at,
            },
    {
        let ghost s = self.chars@;
        proof {
            use_type_invariant(&*self);
            lemma_run_end_bounds(s, start + 1, CharClass::TextBody);
        }
        self.bump_char();
        self.read_while(CharClass::TextBody);
        if self.eof() {
            return Err(LexError::UnterminatedText { pos });
        }
        let close: usize = self.at.index;
        proof {
            lemma_token_at_within(s, TokenKind::TextLit, start + 1, close as int, start as int);
        }
        let token = self.tok(TokenKind::TextLit, start + 1, close, pos);
        self.bump_char();
        Ok(token)
    }

    /// Lexes the rest of the text: the tokens in source order, closed by one
    /// end marker, or the first lexical error.
    pub fn tokenize(&mut self) -> (r: Result<Vec<Token>, LexError>)
        ensures
            final(self).text() == old(self).text(),
            final(self).cursor() == lex_from(
                old(self).text(),
                old(self).cursor(),
                Seq::empty(),
            ).cursor,
            match r {
                Ok(tokens) => {
                    &&& lex_from(old(self).text(), old(self).cursor(), Seq::empty()).result == Ok::<
                        Seq<TokenView>,
                        LexError,
                    >(token_views(tokens@))
                    &&& tokens_within(token_views(tokens@), byte_len(old(self).text()) as int)
                    &&& byte_len(old(self).text()) <= usize::MAX
                },
                Err(e) => lex_from(old(self).text(), old(self).cursor(), Seq::empty()).result
                    == Err::<Seq<TokenView>, LexError>(e),
            },
    {
        let ghost s = self.chars@;
        let ghost goal = lex_from(s, self.at.index as int, Seq::empty());
        let mut tokens: Vec<Token> = Vec::new();
        proof {
            use_type_invariant(&*self);
            assert(token_views(tokens@) =~= Seq::empty());
        }
        loop
            invariant
                self.text() == s,
                s == old(self).text(),
                goal == lex_from(s, old(self).cursor(), Seq::empty()),
                0 <= self.cursor() <= s.len(),
                byte_len(s) <= usize::MAX,
                lex_from(s, self.cursor(), token_views(tokens@)) == goal,
                tokens_within(token_views(tokens@), byte_len(s) as int),
            ensures
                self.text() == s,
                self.cursor() == s.len(),
                lex_from(s, self.cursor(), token_views(tokens@)) == goal,
                tokens_within(token_views(tokens@), byte_len(s) as int),
                byte_len(s) <= usize::MAX,
            decreases s.len() - self.cursor(),
        {
            proof {
                lemma_lex_from_skips_space(s, self.cursor(), token_views(tokens@));
                lemma_run_end_bounds(s, self.cursor(), CharClass::Space);
            }
            self.read_while(CharClass::Space);
            if self.eof() {
                proof {
                    use_type_invariant(&*self);
                }
                break;
            }
            let ghost before = self.cursor();
            let ghost acc = token_views(tokens@);
            proof {
                lemma_lex_token_advances(s, before);
            }
            match self.next_token() {
                Ok(token) => {
                    tokens.push(token);
                    proof {
                        assert(token_views(tokens@) =~= acc.push(token@));
                    }
                },
                Err(e) => {
                    return Err(e);
                },
            }
        }
        proof {
            use_type_invariant(&*self);
            lemma_byte_offset_bounds(s, s.len() as int);
        }
        let ghost acc = token_views(tokens@);
        tokens.push(Token { kind: TokenKind::Eof, lexeme: String::new(), pos: self.at.pos });
        proof {
            assert(token_views(tokens@) =~= acc.push(tokens@.last()@));
            crate::compiler::text::lemma_byte_len_empty();
        }
        Ok(tokens)
    }
}

} // verus!
