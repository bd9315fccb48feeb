//! Front end of the Druim language: lexer, structure-first parser,
//! diagnostics with a caret renderer, and the evaluator's environment model.

pub mod compiler;
