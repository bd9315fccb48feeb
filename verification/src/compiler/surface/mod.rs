//! The canonical surface form of expressions and of define, copy, bind
//! and guard statements, and the proof that lexing and parsing that form
//! gives the tree back.

pub mod words;
pub mod form;
pub mod expression;
pub mod statement;
pub mod source;
