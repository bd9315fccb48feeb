use druim::compiler::ast::Literal;
use druim::compiler::semantics::truth::{truth_of, Truth};
use druim::compiler::semantics::value::Value;

#[test]
fn flag_truth_evaluates_explicitly() {
    assert_eq!(truth_of(&Value::Flag(true)), Truth::True);
    assert_eq!(truth_of(&Value::Flag(false)), Truth::False);
}

#[test]
fn emp_is_always_false() {
    assert_eq!(truth_of(&Value::Void), Truth::False);
}

#[test]
fn numeric_truth_rules() {
    assert_eq!(truth_of(&Value::Num(0)), Truth::False);
    assert_eq!(truth_of(&Value::Num(1)), Truth::True);
    assert_eq!(truth_of(&Value::Num(-1)), Truth::True);
}

#[test]
fn decimal_truth_rules() {
    assert_eq!(truth_of(&Value::Dec("0".into())), Truth::False);
    assert_eq!(truth_of(&Value::Dec("0.0".into())), Truth::False);
    assert_eq!(truth_of(&Value::Dec("00.000".into())), Truth::False);

    assert_eq!(truth_of(&Value::Dec("1.0".into())), Truth::True);
    assert_eq!(truth_of(&Value::Dec("-0.5".into())), Truth::True);
}

#[test]
fn text_truth_rules() {
    assert_eq!(truth_of(&Value::Text("".into())), Truth::False);
    assert_eq!(truth_of(&Value::Text("a".into())), Truth::True);
    assert_eq!(truth_of(&Value::Text("0".into())), Truth::True);
}

#[test]
fn malformed_decimal_text_is_false() {
    for text in ["", ".", "+", "-", "1.2.3", "1a", "a1", " 1", "1 ", "--1", "1-", "0.0.0"] {
        assert_eq!(truth_of(&Value::Dec(text.into())), Truth::False, "{text:?}");
    }
    for text in ["5.", ".5", "+5", "-5", "0.001", "100", "+0.10"] {
        assert_eq!(truth_of(&Value::Dec(text.into())), Truth::True, "{text:?}");
    }
    for text in ["0.", ".0", "-0", "+0.0", "000"] {
        assert_eq!(truth_of(&Value::Dec(text.into())), Truth::False, "{text:?}");
    }
}

#[test]
fn truth_as_bool() {
    assert!(Truth::True.as_bool());
    assert!(!Truth::False.as_bool());
}

#[test]
fn values_come_from_literals_unchanged() {
    assert_eq!(Value::from_literal(&Literal::Num(-7)), Value::Num(-7));
    assert_eq!(Value::from_literal(&Literal::Dec("1.50".into())), Value::Dec("1.50".into()));
    assert_eq!(Value::from_literal(&Literal::Flag(true)), Value::Flag(true));
    assert_eq!(Value::from_literal(&Literal::Text("hi".into())), Value::Text("hi".into()));
    assert_eq!(Value::from_literal(&Literal::Void), Value::Void);
}
