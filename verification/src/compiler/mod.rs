pub mod text;
pub mod token;
pub mod lexer;
pub mod error;
pub mod ast;
pub mod diagnostic;
pub mod messages;
pub mod grammar;
pub mod parser;
pub mod surface;
pub mod driver;
pub mod semantics;
