//! The texts of the parser's diagnostics: one message per defect, each
//! paired with a help text that shows an example.

use vstd::prelude::*;

verus! {

pub const UNEXPECTED_CHARACTER: &'static str = "unexpected character";

pub const UNEXPECTED_CHARACTER_HELP: &'static str =
    "This character starts no Druim token.";

pub const UNTERMINATED_TEXT: &'static str = "unterminated text literal";

pub const UNTERMINATED_TEXT_HELP: &'static str =
    "Druim expected a closing `\"` for this text literal.\nExample: `\"hello\"`";

pub const STATEMENT_END_HELP: &'static str =
    "Druim expected a semicolon `;` to end the statement here.\nSplit this into multiple statements.";

pub const UNTERMINATED_RETURN: &'static str = "unterminated return statement";

pub const UNTERMINATED_RETURN_HELP: &'static str =
    "Druim expected a semicolon `;` to terminate this return statement.\nExamples:\n`ret;`\n`ret 42;`";

pub const INVALID_RETURN: &'static str = "invalid return statement";

pub const RETURN_CHAIN_HELP: &'static str =
    "Return statements cannot be chained.\nReturn values must be a value expression or function call.\nStatements are not allowed inside `ret`.\nExample: `ret x + 1;`";

pub const INVALID_DEFINE_EMPTY: &'static str = "invalid define empty statement";

pub const DEFINE_EMPTY_START_HELP: &'static str =
    "Druim define empty statements must start with an identifier, directly followed by `=;`.\nExample: `x =;`";

pub const DEFINE_EMPTY_CHAIN_HELP: &'static str =
    "Druim statement operators cannot be chained.\nSplit this into multiple statements.\nExample: `a =; b = 1;`";

pub const UNTERMINATED_DEFINE: &'static str = "unterminated define statement";

pub const UNTERMINATED_DEFINE_HELP: &'static str =
    "Druim expected a semicolon `;` to terminate this define statement.\nExample: `x = 42;`";

pub const INVALID_DEFINE: &'static str = "invalid define statement";

pub const DEFINE_START_HELP: &'static str =
    "Druim define statements must start with an identifier, directly followed by `=`.\nExample: `x = 42;`";

pub const DEFINE_VALUE_HELP: &'static str =
    "A define statement requires a value after `=`.\nDid you mean to use the empty define operator?\nExample: `x =;`";

pub const DEFINE_CHAIN_HELP: &'static str =
    "Define statements cannot be chained.\nSplit this into multiple statements.\nIf you intended to assign from another identifier, use `:=`.\nExample: `a := b;`";

pub const DEFINE_IDENT_HELP: &'static str =
    "Define statements cannot assign directly from another identifier.\nUse `:=` to copy from an identifier.\nExample: `a := b;`";

pub const UNTERMINATED_COPY: &'static str = "unterminated copy statement";

pub const UNTERMINATED_COPY_HELP: &'static str =
    "Druim expected a semicolon `;` to terminate this copy statement.\nExample: `a := b;`";

pub const INVALID_COPY: &'static str = "invalid copy statement";

pub const COPY_START_HELP: &'static str =
    "Copy statements must begin with an identifier, directly followed by `:=`.\nExample: `a := b;`";

pub const COPY_TARGET_HELP: &'static str =
    "Copy statements require an identifier after `:=`.\nExample: `a := b;`";

pub const COPY_CHAIN_HELP: &'static str =
    "Copy statements cannot be chained.\nSplit this into multiple statements.\nExample:\n`a := b; c := d;`";

pub const UNTERMINATED_BIND: &'static str = "unterminated bind statement";

pub const UNTERMINATED_BIND_HELP: &'static str =
    "Druim expected a semicolon `;` to terminate this bind statement.\nExample: `a :> b;`";

pub const INVALID_BIND: &'static str = "invalid bind statement";

pub const BIND_START_HELP: &'static str =
    "Bind statements must begin with an identifier, directly followed by `:>`.\nExample: `a :> b;`";

pub const BIND_TARGET_HELP: &'static str =
    "Bind statements require an identifier after `:>`.\nExample: `a :> b;`";

pub const BIND_CHAIN_HELP: &'static str =
    "Bind statements cannot be chained.\nSplit this into multiple statements.\nExample:\n`a :> b; c :> d;`";

pub const UNTERMINATED_GUARD: &'static str = "unterminated guard statement";

pub const UNTERMINATED_GUARD_HELP: &'static str =
    "Druim expected a semicolon `;` to terminate this guard statement.\nExample: `x ?= y;`";

pub const INVALID_GUARD: &'static str = "invalid guard statement";

pub const GUARD_START_HELP: &'static str =
    "Guard statements must begin with an identifier, directly followed by `?=`.\nExample: `x ?= y;`";

pub const GUARD_VALUE_HELP: &'static str =
    "A guard statement requires a value after `?=`.\nDid you mean to use DefineEmpty?\nExample: `a =;`";

pub const GUARD_CHAIN_HELP: &'static str =
    "Guard statements cannot be chained.\nGuard branches must be values, not statements.\nSplit this into separate statements.";

pub const GUARD_BRANCH_HELP: &'static str =
    "Expected a value after `:` in guard statement.\nExample: `x ?= y : z;`";

pub const UNTERMINATED_BLOCK: &'static str = "unterminated block structure";

pub const UNTERMINATED_BLOCK_HELP: &'static str =
    "Druim expected a closing block delimiter `}:`.";

pub const UNTERMINATED_FUNCTION: &'static str = "unterminated function structure";

pub const UNTERMINATED_FUNCTION_HELP: &'static str =
    "Druim expected a closing function delimiter `):`.";

pub const INVALID_FUNCTION: &'static str = "invalid function structure";

pub const FUNCTION_NAME_HELP: &'static str =
    "Druim expected a function name after the `fn` keyword.";

pub const INVALID_FUNCTION_NAME: &'static str = "invalid function name";

pub const SNAKE_CASE_HELP: &'static str =
    "Function names in Druim must use snake_case (lowercase letters and underscores).";

pub const FUNCTION_PARAMS_HELP: &'static str =
    "Druim expected a parameter block starting with `:(` after the function name.";

pub const INCOMPLETE_FUNCTION: &'static str = "incomplete function definition";

pub const FUNCTION_BODY_HELP: &'static str =
    "Druim requires at least one function body before the closing `):`.";

pub const INVALID_PARAMETER: &'static str = "invalid function parameter";

pub const PARAMETER_LOC_HELP: &'static str =
    "`loc` is not allowed in function parameter declarations.";

pub const PARAMETER_NAME_HELP: &'static str =
    "Function parameters must begin with an identifier.\nExamples: `x`, `x = 10`";

pub const INVALID_DEFAULT: &'static str = "invalid default parameter";

pub const DEFAULT_VALUE_HELP: &'static str =
    "Default parameters require a value.\nExample: `x = 10`";

pub const INVALID_PARAMETER_LIST: &'static str = "invalid function parameter list";

pub const PARAMETER_LIST_HELP: &'static str =
    "Parameters must be separated by commas and terminated with `)(`.";

pub const INVALID_VALUE: &'static str = "invalid value expression";

pub const BARE_IDENT_HELP: &'static str =
    "A bare identifier is not a value.\nUse a function call, copy (`:=`), or bind (`:>`) instead.";

pub const OPERATOR_VALUE_HELP: &'static str =
    "Statement operators are not valid values.\nUse them as complete statements ending with `;`.";

pub const CONSTRUCT_VALUE_HELP: &'static str =
    "This construct cannot be used as a value.\nIt must appear in its own statement context.";

pub const UNEXPECTED_VALUE_TOKEN: &'static str = "unexpected token in value expression";

pub const VALUE_HELP: &'static str = "Druim expected a value here.";

pub const UNEXPECTED_END: &'static str = "unexpected end of input";

pub const VALUE_END_HELP: &'static str = "Druim expected a value expression here.";

pub const CALL_END_HELP: &'static str = "Druim expected a function call.";

pub const UNEXPECTED_TOKEN: &'static str = "unexpected token";

pub const CLOSING_PAREN: &'static str = "`)`";

pub const INVALID_CALL: &'static str = "invalid function call";

pub const CALL_NAME_HELP: &'static str =
    "Druim expected a function name before the call parentheses.\nExample: `foo(1, 2)`";

pub const CALL_OPEN_HELP: &'static str =
    "Druim expected `(` after the function name.\nExample: `foo(1)`";

pub const CALL_ARGS_HELP: &'static str =
    "Function arguments must be separated by commas and closed with `)`.";

pub const UNTERMINATED_CALL: &'static str = "unterminated function call statement";

pub const UNTERMINATED_CALL_HELP: &'static str =
    "Druim expected a semicolon `;` to terminate this function call.\nExample: `do_work();`";

pub const INVALID_CALL_STATEMENT: &'static str = "invalid function call statement";

pub const CALL_START_HELP: &'static str =
    "Function call statements must begin with an identifier.\nExample: `do_work();`";

pub const CALL_BARE_HELP: &'static str =
    "A bare identifier is not a valid statement.\nDid you mean to call a function?\nExample: `do_work();`";

pub const CALL_CHAIN_HELP: &'static str =
    "Function call statements cannot be chained with other statement operators.\nSplit this into multiple statements.";

/// The message and help texts by which the copy and the bind statement,
/// which share one shape, differ.
pub struct AliasTexts {
    pub unterminated: &'static str,
    pub unterminated_help: &'static str,
    pub invalid: &'static str,
    pub start_help: &'static str,
    pub target_help: &'static str,
    pub chain_help: &'static str,
}

/// The texts of the copy statement where `copy` holds, else those of the
/// bind statement.
pub open spec fn alias_texts(copy: bool) -> AliasTexts {
    if copy {
        AliasTexts {
            unterminated: UNTERMINATED_COPY,
            unterminated_help: UNTERMINATED_COPY_HELP,
            invalid: INVALID_COPY,
            start_help: COPY_START_HELP,
            target_help: COPY_TARGET_HELP,
            chain_help: COPY_CHAIN_HELP,
        }
    } else {
        AliasTexts {
            unterminated: UNTERMINATED_BIND,
            unterminated_help: UNTERMINATED_BIND_HELP,
            invalid: INVALID_BIND,
            start_help: BIND_START_HELP,
            target_help: BIND_TARGET_HELP,
            chain_help: BIND_CHAIN_HELP,
        }
    }
}

pub fn texts_of_alias(copy: bool) -> (texts: AliasTexts)
    ensures
        texts == alias_texts(copy),
{
    if copy {
        AliasTexts {
            unterminated: UNTERMINATED_COPY,
            unterminated_help: UNTERMINATED_COPY_HELP,
            invalid: INVALID_COPY,
            start_help: COPY_START_HELP,
            target_help: COPY_TARGET_HELP,
            chain_help: COPY_CHAIN_HELP,
        }
    } else {
        AliasTexts {
            unterminated: UNTERMINATED_BIND,
            unterminated_help: UNTERMINATED_BIND_HELP,
            invalid: INVALID_BIND,
            start_help: BIND_START_HELP,
            target_help: BIND_TARGET_HELP,
            chain_help: BIND_CHAIN_HELP,
        }
    }
}

} // verus!
