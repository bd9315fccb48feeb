//! The front end as one step: source text in, a program or the one
//! diagnostic of the first defect out.

use vstd::prelude::*;
use crate::compiler::ast::{Program, ProgramView};
use crate::compiler::diagnostic::{render_styled, rendered};
use crate::compiler::error::{Diagnostic, DiagnosticView, Source};
use crate::compiler::grammar::parse_program;
use crate::compiler::lexer::{lex, tokens_within, Lexer};
use crate::compiler::parser::Parser;
use crate::compiler::token::token_views;

verus! {

/// What the front end makes of a text: a lexical error is reported as its
/// diagnostic before any parsing begins; else the tokens are parsed from
/// the start.
pub open spec fn front_end(text: Seq<char>) -> Result<ProgramView, DiagnosticView> {
    match lex(text) {
        Err(e) => Err(e.diagnostic()),
        Ok(tokens) => match parse_program(tokens, 0) {
            Ok((program, _)) => Ok(program),
            Err(d) => Err(d),
        },
    }
}

/// Lexes and parses `text`.
pub fn parse_text(text: &str) -> (r: Result<Program, Diagnostic>)
    ensures
        match front_end(text@) {
            Ok(program) => r matches Ok(p) && p@ == program,
            Err(d) => r matches Err(e) && e@ == d,
        },
{
    let mut lexer = Lexer::new(text);
    let tokens = match lexer.tokenize() {
        Ok(tokens) => tokens,
        Err(e) => {
            return Err(e.to_diagnostic());
        },
    };
    assert(tokens_within(token_views(tokens@), usize::MAX as int)) by {
        assert forall|k: int| 0 <= k < token_views(tokens@).len() implies (#[trigger] token_views(
            tokens@,
        )[k]).end() <= usize::MAX by {}
    }
    let mut parser = Parser::new(tokens.as_slice());
    parser.parse_program()
}

/// Lexes and parses `text`; gives the program, or the diagnostic of the
/// first defect rendered against the text, with colour codes where
/// `ansi` is set.
pub fn check_text(text: &str, ansi: bool) -> (r: Result<Program, String>)
    ensures
        match front_end(text@) {
            Ok(program) => r matches Ok(p) && p@ == program,
            Err(d) => r matches Err(out) && out@ == rendered(d, text@, ansi),
        },
{
    match parse_text(text) {
        Ok(program) => Ok(program),
        Err(diagnostic) => {
            let source = Source::new(text.to_owned());
            Err(render_styled(&diagnostic, &source, ansi))
        },
    }
}

} // verus!
