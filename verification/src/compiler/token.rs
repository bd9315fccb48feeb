//! The closed vocabulary of lexical kinds and the token record.

use vstd::prelude::*;
use crate::compiler::text::byte_len;

verus! {

#[derive(Debug, Clone, Copy, PartialEq, Eq, Structural)]
pub enum TokenKind {
    // ===== Identifiers & literals =====
    Ident,
    /// Whole number literal.
    NumLit,
    /// Decimal literal, `digits.digits`.
    DecLit,
    /// Quoted text, without the quotes.
    TextLit,
    // ===== Keywords (value types) =====
    KwNum,
    KwDec,
    KwFlag,
    KwText,
    KwVoid,
    // ===== Keywords (flow) =====
    KwFn,
    KwRet,
    KwLoc,
    // ===== Colon family =====
    /// `:`
    Colon,
    /// `::`
    Has,
    /// `:?`
    Present,
    /// `:>`, the operator of the bind statement.
    Cast,
    // ===== Arithmetic =====
    /// `+`
    Add,
    /// `-`
    Sub,
    /// `*`
    Mul,
    /// `/`
    Div,
    /// `%`
    Mod,
    // ===== Comparison =====
    /// `==`
    Eq,
    /// `!=`
    Ne,
    /// `<`
    Lt,
    /// `<=`
    Le,
    /// `>`
    Gt,
    /// `>=`
    Ge,
    // ===== Logical =====
    /// `&?`
    And,
    /// `|?`
    Or,
    /// `!?`
    Not,
    // ===== Flow =====
    /// `|>`
    Pipe,
    /// `->`
    ArrowR,
    /// `<-`
    ArrowL,
    // ===== Statement operators =====
    /// `=`
    Define,
    /// `=;`
    DefineEmpty,
    /// `:=`, the operator of the copy statement.
    Bind,
    /// `?=`
    Guard,
    // ===== Punctuation =====
    /// `(`
    LParen,
    /// `)`
    RParen,
    /// `,`
    Comma,
    /// `;`
    Semicolon,
    // ===== Blocks =====
    /// `:{`
    BlockStmtStart,
    /// `}:`
    BlockStmtEnd,
    /// `}{`
    BlockStmtChain,
    /// `:[`
    BlockExprStart,
    /// `]:`
    BlockExprEnd,
    /// `][`
    BlockExprChain,
    /// `:(`
    BlockFuncStart,
    /// `):`
    BlockFuncEnd,
    /// `)(`
    BlockFuncChain,
    /// `:<`
    BlockArrayStart,
    /// `>:`
    BlockArrayEnd,
    /// `><`
    BlockArrayChain,
    // ===== Special =====
    /// End of input.
    Eof,
}

#[derive(Debug, Clone, PartialEq, Eq)]
pub struct Token {
    pub kind: TokenKind,
    /// The token's own text, copied out of the source.
    pub lexeme: String,
    /// Byte offset of the token's first character.
    pub pos: usize,
}

/// What a token is, with its text as a character sequence.
pub struct TokenView {
    pub kind: TokenKind,
    pub lexeme: Seq<char>,
    pub pos: usize,
}

impl View for Token {
    type V = TokenView;

    open spec fn view(&self) -> TokenView {
        TokenView { kind: self.kind, lexeme: self.lexeme@, pos: self.pos }
    }
}

impl TokenView {
    /// Byte offset just past the token's text.
    pub open spec fn end(self) -> int {
        self.pos + byte_len(self.lexeme)
    }
}

/// The views of a run of tokens.
pub open spec fn token_views(tokens: Seq<Token>) -> Seq<TokenView> {
    tokens.map_values(|t: Token| t@)
}

} // verus!
