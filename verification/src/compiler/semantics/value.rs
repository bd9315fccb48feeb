//! Runtime values: the evaluated form of expressions.

use vstd::prelude::*;
use crate::compiler::ast::{
    clone_params, clone_stmts, param_views, stmt_views, Literal, LiteralView, Param, ParamView,
    Stmt, StmtView,
};

verus! {

/// A user-defined function value: what a `fn` statement introduces.
#[derive(Debug, PartialEq)]
pub struct Function {
    pub name: String,
    pub params: Vec<Param>,
    pub bodies: Vec<Stmt>,
}

#[derive(Debug, PartialEq)]
pub enum Value {
    /// Integer value.
    Num(i64),
    /// Decimal value, kept as text to preserve precision.
    Dec(String),
    /// Boolean value.
    Flag(bool),
    /// Text value.
    Text(String),
    /// Explicit absence of a value.
    Void,
    /// User-defined function value.
    Func(Function),
}

pub struct FunctionView {
    pub name: Seq<char>,
    pub params: Seq<ParamView>,
    pub bodies: Seq<StmtView>,
}

pub enum ValueView {
    Num(i64),
    Dec(Seq<char>),
    Flag(bool),
    Text(Seq<char>),
    Void,
    Func(FunctionView),
}

impl View for Function {
    type V = FunctionView;

    open spec fn view(&self) -> FunctionView {
        FunctionView {
            name: self.name@,
            params: param_views(self.params@),
            bodies: stmt_views(self.bodies@),
        }
    }
}

impl View for Value {
    type V = ValueView;

    open spec fn view(&self) -> ValueView {
        match self {
            Value::Num(n) => ValueView::Num(*n),
            Value::Dec(d) => ValueView::Dec(d@),
            Value::Flag(b) => ValueView::Flag(*b),
            Value::Text(t) => ValueView::Text(t@),
            Value::Void => ValueView::Void,
            Value::Func(f) => ValueView::Func(f@),
        }
    }
}

impl LiteralView {
    /// The value a literal stands for: the same data, with no evaluation
    /// or coercion.
    pub open spec fn value(self) -> ValueView {
        match self {
            LiteralView::Num(n) => ValueView::Num(n),
            LiteralView::Dec(d) => ValueView::Dec(d),
            LiteralView::Flag(b) => ValueView::Flag(b),
            LiteralView::Text(t) => ValueView::Text(t),
            LiteralView::Void => ValueView::Void,
        }
    }
}

impl Value {
    /// Constructs a runtime value from a literal.
    pub fn from_literal(lit: &Literal) -> (v: Self)
        ensures
            v@ == lit@.value(),
    {
        match lit {
            Literal::Num(n) => Value::Num(*n),
            Literal::Dec(d) => Value::Dec(d.clone()),
            Literal::Flag(b) => Value::Flag(*b),
            Literal::Text(t) => Value::Text(t.clone()),
            Literal::Void => Value::Void,
        }
    }
}

impl Clone for Function {
    fn clone(&self) -> (copy: Self)
        ensures
            copy@ == self@,
    {
        Function {
            name: self.name.clone(),
            params: clone_params(&self.params),
            bodies: clone_stmts(&self.bodies),
        }
    }
}

impl Clone for Value {
    fn clone(&self) -> (copy: Self)
        ensures
            copy@ == self@,
    {
        match self {
            Value::Num(n) => Value::Num(*n),
            Value::Dec(d) => Value::Dec(d.clone()),
            Value::Flag(b) => Value::Flag(*b),
            Value::Text(t) => Value::Text(t.clone()),
            Value::Void => Value::Void,
            Value::Func(f) => Value::Func(f.clone()),
        }
    }
}

} // verus!
