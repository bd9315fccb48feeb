//! The fixed rules by which a runtime value reduces to true or false.

use vstd::prelude::*;
use crate::compiler::lexer::is_digit;
use crate::compiler::semantics::value::{Value, ValueView};
use crate::compiler::text::to_chars;

verus! {

/// Result of evaluating truth: always explicit, never undefined.
#[derive(Debug, Clone, Copy, PartialEq, Eq, Structural)]
pub enum Truth {
    True,
    False,
}

impl Truth {
    #[verifier::when_used_as_spec(spec_as_bool)]
    pub fn as_bool(self) -> (b: bool)
        ensures
            b == self.spec_as_bool(),
    {
        match self {
            Truth::True => true,
            Truth::False => false,
        }
    }

    pub open spec fn spec_as_bool(self) -> bool {
        self == Truth::True
    }
}

/// A decimal numeral without its optional leading sign.
pub open spec fn numeral_body(s: Seq<char>) -> Seq<char> {
    if s.len() > 0 && (s[0] == '+' || s[0] == '-') {
        s.skip(1)
    } else {
        s
    }
}

/// `s` writes a decimal number: an optional sign, then digits with at most
/// one decimal point among them, and at least one digit.
pub open spec fn is_numeral(s: Seq<char>) -> bool {
    let body = numeral_body(s);
    &&& forall|i: int| 0 <= i < body.len() ==> is_digit(#[trigger] body[i]) || body[i] == '.'
    &&& forall|i: int, j: int|
        0 <= i < j < body.len() ==> !(#[trigger] body[i] == '.' && #[trigger] body[j] == '.')
    &&& exists|i: int| 0 <= i < body.len() && is_digit(#[trigger] body[i])
}

/// `s` writes a decimal number other than zero: a numeral with a digit
/// that is not `0`.
pub open spec fn is_nonzero_numeral(s: Seq<char>) -> bool {
    is_numeral(s) && exists|i: int|
        0 <= i < numeral_body(s).len() && '1' <= #[trigger] numeral_body(s)[i] <= '9'
}

/// The truth of a value: a flag mirrors its value; the empty value is
/// false; a number is true unless it is zero; a decimal is true where its
/// text writes a number other than zero; a text is true unless it is
/// empty; a function is true.
pub open spec fn truth(v: ValueView) -> bool {
    match v {
        ValueView::Flag(b) => b,
        ValueView::Void => false,
        ValueView::Num(n) => n != 0,
        ValueView::Dec(d) => is_nonzero_numeral(d),
        ValueView::Text(t) => t.len() != 0,
        ValueView::Func(_) => true,
    }
}

/// Whether the decimal text `d` writes a number other than zero.
fn decimal_is_nonzero(d: &str) -> (b: bool)
    ensures
        b == is_nonzero_numeral(d@),
{
    let chars = to_chars(d);
    let ghost s = chars@;
    let ghost body = numeral_body(s);
    let start: usize = if chars.len() > 0 && (chars[0] == '+' || chars[0] == '-') {
        1
    } else {
        0
    };
    let mut i: usize = start;
    let mut dots: usize = 0;
    let mut digit = false;
    let mut nonzero = false;
    while i < chars.len()
        invariant
            s == chars@,
            s == d@,
            body == numeral_body(s),
            start <= i <= s.len(),
            body.len() == s.len() - start,
            forall|k: int| 0 <= k < body.len() ==> #[trigger] body[k] == s[k + start],
            dots <= 1,
            dots <= i,
            forall|k: int| 0 <= k < i - start ==> is_digit(#[trigger] body[k]) || body[k] == '.',
            dots == 0 ==> forall|k: int| 0 <= k < i - start ==> #[trigger] body[k] != '.',
            dots == 1 ==> exists|k: int| 0 <= k < i - start && #[trigger] body[k] == '.',
            forall|a: int, b: int|
                0 <= a < b < i - start ==> !(#[trigger] body[a] == '.' && #[trigger] body[b]
                    == '.'),
            digit <==> exists|k: int| 0 <= k < i - start && is_digit(#[trigger] body[k]),
            nonzero <==> exists|k: int| 0 <= k < i - start && '1' <= #[trigger] body[k] <= '9',
        decreases s.len() - i,
    {
        let c = chars[i];
        let ghost at = i - start;
        assert(body[at] == c);
        if c == '.' {
            if dots == 1 {
                proof {
                    let k = choose|k: int| 0 <= k < i - start && #[trigger] body[k] == '.';
                    assert(body[k] == '.' && body[at] == '.');
                }
                return false;
            }
            dots = 1;
        } else if c >= '0' && c <= '9' {
            digit = true;
            if c != '0' {
                nonzero = true;
            }
        } else {
            assert(!(is_digit(body[at]) || body[at] == '.'));
            return false;
        }
        i += 1;
    }
    digit && nonzero
}

/// Determines the truth value of a runtime value.
pub fn truth_of(value: &Value) -> (t: Truth)
    ensures
        t.as_bool() == truth(value@),
{
    match value {
        Value::Flag(b) => {
            if *b {
                Truth::True
            } else {
                Truth::False
            }
        },
        Value::Void => Truth::False,
        Value::Num(n) => {
            if *n == 0 {
                Truth::False
            } else {
                Truth::True
            }
        },
        Value::Dec(d) => {
            if decimal_is_nonzero(d.as_str()) {
                Truth::True
            } else {
                Truth::False
            }
        },
        Value::Text(t) => {
            if t.as_str().is_empty() {
                Truth::False
            } else {
                Truth::True
            }
        },
        Value::Func(_) => Truth::True,
    }
}

} // verus!
