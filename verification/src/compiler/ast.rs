//! The syntax tree: value nodes (`Expr`), statement nodes (`Stmt`) and the
//! program that owns them, each with a mathematical view.

use vstd::prelude::*;

verus! {

#[derive(Debug, PartialEq)]
pub enum Literal {
    /// Integer number.
    Num(i64),
    /// Decimal number, kept as text to preserve precision.
    Dec(String),
    /// Boolean value.
    Flag(bool),
    /// Text value.
    Text(String),
    /// Explicit absence of a value.
    Void,
}

#[derive(Debug, PartialEq)]
pub enum Expr {
    // ===== Atoms =====
    Ident(String),
    Lit(Literal),
    // ===== Unary =====
    Not(Box<Expr>),
    Neg(Box<Expr>),
    // ===== Arithmetic =====
    Add(Box<Expr>, Box<Expr>),
    Sub(Box<Expr>, Box<Expr>),
    Mul(Box<Expr>, Box<Expr>),
    Div(Box<Expr>, Box<Expr>),
    Mod(Box<Expr>, Box<Expr>),
    // ===== Comparison =====
    Eq(Box<Expr>, Box<Expr>),
    Ne(Box<Expr>, Box<Expr>),
    Lt(Box<Expr>, Box<Expr>),
    Le(Box<Expr>, Box<Expr>),
    Gt(Box<Expr>, Box<Expr>),
    Ge(Box<Expr>, Box<Expr>),
    // ===== Logical =====
    And(Box<Expr>, Box<Expr>),
    Or(Box<Expr>, Box<Expr>),
    // ===== Colon family =====
    /// `lhs :: rhs`
    Has(Box<Expr>, Box<Expr>),
    /// `lhs :? rhs`
    Present(Box<Expr>, Box<Expr>),
    // ===== Flow =====
    /// `lhs |> rhs`
    Pipe(Box<Expr>, Box<Expr>),
    // ===== Calls =====
    Call { callee: Box<Expr>, args: Vec<Expr> },
}

/// A function parameter: `name` or `name = default`.
#[derive(Debug, PartialEq)]
pub struct Param {
    pub name: String,
    pub default: Option<Expr>,
}

#[derive(Debug, PartialEq)]
#[allow(inconsistent_fields)]
pub enum Stmt {
    /// `:{ stmt* }{ stmt* }:`. The chain token joins segments; the block
    /// holds their statements as one sequence.
    Block { stmts: Vec<Stmt> },
    /// `fn name :( params )( body )( body ):`. Each body is a `Block`.
    Func { name: String, params: Vec<Param>, bodies: Vec<Stmt> },
    /// `ret;` or `ret value;`
    Return { value: Option<Expr> },
    /// `name = value;`
    Define { name: String, value: Expr },
    /// `name =;`
    DefineEmpty { name: String },
    /// `name := target;`
    Copy { name: String, target: String },
    /// `name :> target;`
    Bind { name: String, target: String },
    /// `target ?= branch : branch;`
    Guard { target: String, branches: Vec<Expr> },
    /// `callee(args);`
    Call { callee: Expr, args: Vec<Expr> },
}

#[derive(Debug, PartialEq)]
pub struct Program {
    pub stmts: Vec<Stmt>,
}

pub enum LiteralView {
    Num(i64),
    Dec(Seq<char>),
    Flag(bool),
    Text(Seq<char>),
    Void,
}

pub enum ExprView {
    Ident(Seq<char>),
    Lit(LiteralView),
    Not(Box<ExprView>),
    Neg(Box<ExprView>),
    Add(Box<ExprView>, Box<ExprView>),
    Sub(Box<ExprView>, Box<ExprView>),
    Mul(Box<ExprView>, Box<ExprView>),
    Div(Box<ExprView>, Box<ExprView>),
    Mod(Box<ExprView>, Box<ExprView>),
    Eq(Box<ExprView>, Box<ExprView>),
    Ne(Box<ExprView>, Box<ExprView>),
    Lt(Box<ExprView>, Box<ExprView>),
    Le(Box<ExprView>, Box<ExprView>),
    Gt(Box<ExprView>, Box<ExprView>),
    Ge(Box<ExprView>, Box<ExprView>),
    And(Box<ExprView>, Box<ExprView>),
    Or(Box<ExprView>, Box<ExprView>),
    Has(Box<ExprView>, Box<ExprView>),
    Present(Box<ExprView>, Box<ExprView>),
    Pipe(Box<ExprView>, Box<ExprView>),
    Call { callee: Box<ExprView>, args: Seq<ExprView> },
}

pub struct ParamView {
    pub name: Seq<char>,
    pub default: Option<ExprView>,
}

#[allow(inconsistent_fields)]
pub enum StmtView {
    Block { stmts: Seq<StmtView> },
    Func { name: Seq<char>, params: Seq<ParamView>, bodies: Seq<StmtView> },
    Return { value: Option<ExprView> },
    Define { name: Seq<char>, value: ExprView },
    DefineEmpty { name: Seq<char> },
    Copy { name: Seq<char>, target: Seq<char> },
    Bind { name: Seq<char>, target: Seq<char> },
    Guard { target: Seq<char>, branches: Seq<ExprView> },
    Call { callee: ExprView, args: Seq<ExprView> },
}

pub struct ProgramView {
    pub stmts: Seq<StmtView>,
}

impl View for Literal {
    type V = LiteralView;

    open spec fn view(&self) -> LiteralView {
        match self {
            Literal::Num(n) => LiteralView::Num(*n),
            Literal::Dec(d) => LiteralView::Dec(d@),
            Literal::Flag(b) => LiteralView::Flag(*b),
            Literal::Text(t) => LiteralView::Text(t@),
            Literal::Void => LiteralView::Void,
        }
    }
}

impl Expr {
    /// The expression as a tree over character sequences.
    pub open spec fn model(self) -> ExprView
        decreases self,
    {
        match self {
            Expr::Ident(name) => ExprView::Ident(name@),
            Expr::Lit(lit) => ExprView::Lit(lit@),
            Expr::Not(e) => ExprView::Not(Box::new((*e).model())),
            Expr::Neg(e) => ExprView::Neg(Box::new((*e).model())),
            Expr::Add(l, r) => ExprView::Add(Box::new((*l).model()), Box::new((*r).model())),
            Expr::Sub(l, r) => ExprView::Sub(Box::new((*l).model()), Box::new((*r).model())),
            Expr::Mul(l, r) => ExprView::Mul(Box::new((*l).model()), Box::new((*r).model())),
            Expr::Div(l, r) => ExprView::Div(Box::new((*l).model()), Box::new((*r).model())),
            Expr::Mod(l, r) => ExprView::Mod(Box::new((*l).model()), Box::new((*r).model())),
            Expr::Eq(l, r) => ExprView::Eq(Box::new((*l).model()), Box::new((*r).model())),
            Expr::Ne(l, r) => ExprView::Ne(Box::new((*l).model()), Box::new((*r).model())),
            Expr::Lt(l, r) => ExprView::Lt(Box::new((*l).model()), Box::new((*r).model())),
            Expr::Le(l, r) => ExprView::Le(Box::new((*l).model()), Box::new((*r).model())),
            Expr::Gt(l, r) => ExprView::Gt(Box::new((*l).model()), Box::new((*r).model())),
            Expr::Ge(l, r) => ExprView::Ge(Box::new((*l).model()), Box::new((*r).model())),
            Expr::And(l, r) => ExprView::And(Box::new((*l).model()), Box::new((*r).model())),
            Expr::Or(l, r) => ExprView::Or(Box::new((*l).model()), Box::new((*r).model())),
            Expr::Has(l, r) => ExprView::Has(Box::new((*l).model()), Box::new((*r).model())),
            Expr::Present(l, r) => ExprView::Present(
                Box::new((*l).model()),
                Box::new((*r).model()),
            ),
            Expr::Pipe(l, r) => ExprView::Pipe(Box::new((*l).model()), Box::new((*r).model())),
            Expr::Call { callee, args } => ExprView::Call {
                callee: Box::new((*callee).model()),
                args: Seq::new(
                    args@.len(),
                    |i: int|
                        if 0 <= i < args@.len() {
                            args@[i].model()
                        } else {
                            ExprView::Lit(LiteralView::Void)
                        },
                ),
            },
        }
    }
}

impl View for Expr {
    type V = ExprView;

    open spec fn view(&self) -> ExprView {
        self.model()
    }
}

/// The views of a run of expressions.
pub open spec fn expr_views(exprs: Seq<Expr>) -> Seq<ExprView> {
    Seq::new(
        exprs.len(),
        |i: int|
            if 0 <= i < exprs.len() {
                exprs[i].model()
            } else {
                ExprView::Lit(LiteralView::Void)
            },
    )
}

impl View for Param {
    type V = ParamView;

    open spec fn view(&self) -> ParamView {
        ParamView {
            name: self.name@,
            default: match self.default {
                Some(e) => Some(e@),
                None => None,
            },
        }
    }
}

pub open spec fn param_views(params: Seq<Param>) -> Seq<ParamView> {
    params.map_values(|p: Param| p@)
}

impl Stmt {
    /// The statement as a tree over character sequences.
    pub open spec fn model(self) -> StmtView
        decreases self,
    {
        match self {
            Stmt::Block { stmts } => StmtView::Block {
                stmts: Seq::new(
                    stmts@.len(),
                    |i: int|
                        if 0 <= i < stmts@.len() {
                            stmts@[i].model()
                        } else {
                            StmtView::Return { value: None }
                        },
                ),
            },
            Stmt::Func { name, params, bodies } => StmtView::Func {
                name: name@,
                params: param_views(params@),
                bodies: Seq::new(
                    bodies@.len(),
                    |i: int|
                        if 0 <= i < bodies@.len() {
                            bodies@[i].model()
                        } else {
                            StmtView::Return { value: None }
                        },
                ),
            },
            Stmt::Return { value } => StmtView::Return {
                value: match value {
                    Some(e) => Some(e@),
                    None => None,
                },
            },
            Stmt::Define { name, value } => StmtView::Define { name: name@, value: value@ },
            Stmt::DefineEmpty { name } => StmtView::DefineEmpty { name: name@ },
            Stmt::Copy { name, target } => StmtView::Copy { name: name@, target: target@ },
            Stmt::Bind { name, target } => StmtView::Bind { name: name@, target: target@ },
            Stmt::Guard { target, branches } => StmtView::Guard {
                target: target@,
                branches: expr_views(branches@),
            },
            Stmt::Call { callee, args } => StmtView::Call {
                callee: callee@,
                args: expr_views(args@),
            },
        }
    }
}

impl View for Stmt {
    type V = StmtView;

    open spec fn view(&self) -> StmtView {
        self.model()
    }
}

/// The views of a run of statements.
pub open spec fn stmt_views(stmts: Seq<Stmt>) -> Seq<StmtView> {
    Seq::new(
        stmts.len(),
        |i: int|
            if 0 <= i < stmts.len() {
                stmts[i].model()
            } else {
                StmtView::Return { value: None }
            },
    )
}

impl View for Program {
    type V = ProgramView;

    open spec fn view(&self) -> ProgramView {
        ProgramView { stmts: stmt_views(self.stmts@) }
    }
}

/// The view of a call's arguments is the views of the arguments.
pub proof fn lemma_call_view(callee: Expr, args: Vec<Expr>)
    ensures
        (Expr::Call { callee: Box::new(callee), args })@ == (ExprView::Call {
            callee: Box::new(callee@),
            args: expr_views(args@),
        }),
{
    let e = Expr::Call { callee: Box::new(callee), args };
    assert(e.model()->Call_args =~= expr_views(args@));
}

pub proof fn lemma_block_view(stmts: Vec<Stmt>)
    ensures
        (Stmt::Block { stmts })@ == (StmtView::Block { stmts: stmt_views(stmts@) }),
{
    let b = Stmt::Block { stmts };
    assert(b.model()->Block_stmts =~= stmt_views(stmts@));
}

pub proof fn lemma_func_view(name: String, params: Vec<Param>, bodies: Vec<Stmt>)
    ensures
        (Stmt::Func { name, params, bodies })@ == (StmtView::Func {
            name: name@,
            params: param_views(params@),
            bodies: stmt_views(bodies@),
        }),
{
    let f = Stmt::Func { name, params, bodies };
    assert(f.model()->Func_bodies =~= stmt_views(bodies@));
}

/// The views of no nodes are no views.
pub proof fn lemma_views_empty()
    ensures
        expr_views(Seq::<Expr>::empty()) == Seq::<ExprView>::empty(),
        stmt_views(Seq::<Stmt>::empty()) == Seq::<StmtView>::empty(),
        param_views(Seq::<Param>::empty()) == Seq::<ParamView>::empty(),
{
    assert(expr_views(Seq::<Expr>::empty()) =~= Seq::<ExprView>::empty());
    assert(stmt_views(Seq::<Stmt>::empty()) =~= Seq::<StmtView>::empty());
    assert(param_views(Seq::<Param>::empty()) =~= Seq::<ParamView>::empty());
}

pub proof fn lemma_expr_views_push(exprs: Seq<Expr>, e: Expr)
    ensures
        expr_views(exprs.push(e)) == expr_views(exprs).push(e@),
{
    assert(expr_views(exprs.push(e)) =~= expr_views(exprs).push(e@));
}

pub proof fn lemma_stmt_views_push(stmts: Seq<Stmt>, s: Stmt)
    ensures
        stmt_views(stmts.push(s)) == stmt_views(stmts).push(s@),
{
    assert(stmt_views(stmts.push(s)) =~= stmt_views(stmts).push(s@));
}

pub proof fn lemma_param_views_push(params: Seq<Param>, p: Param)
    ensures
        param_views(params.push(p)) == param_views(params).push(p@),
{
    assert(param_views(params.push(p)) =~= param_views(params).push(p@));
}

impl Clone for Literal {
    fn clone(&self) -> (copy: Self)
        ensures
            copy@ == self@,
    {
        match self {
            Literal::Num(n) => Literal::Num(*n),
            Literal::Dec(d) => Literal::Dec(d.clone()),
            Literal::Flag(b) => Literal::Flag(*b),
            Literal::Text(t) => Literal::Text(t.clone()),
            Literal::Void => Literal::Void,
        }
    }
}

/// A copy of each expression of `exprs`, in order.
pub fn clone_exprs(exprs: &Vec<Expr>) -> (copy: Vec<Expr>)
    ensures
        expr_views(copy@) == expr_views(exprs@),
    decreases exprs,
{
    let mut copy: Vec<Expr> = Vec::new();
    let mut i: usize = 0;
    while i < exprs.len()
        invariant
            i <= exprs@.len(),
            copy@.len() == i,
            forall|k: int| 0 <= k < i ==> (#[trigger] copy@[k])@ == exprs@[k]@,
        decreases exprs@.len() - i,
    {
        let e = exprs[i].clone();
        copy.push(e);
        i += 1;
    }
    assert(expr_views(copy@) =~= expr_views(exprs@));
    copy
}

impl Clone for Expr {
    fn clone(&self) -> (copy: Self)
        ensures
            copy@ == self@,
        decreases self,
    {
        match self {
            Expr::Ident(name) => Expr::Ident(name.clone()),
            Expr::Lit(lit) => Expr::Lit(lit.clone()),
            Expr::Not(e) => Expr::Not(Box::new((&**e).clone())),
            Expr::Neg(e) => Expr::Neg(Box::new((&**e).clone())),
            Expr::Add(l, r) => Expr::Add(Box::new((&**l).clone()), Box::new((&**r).clone())),
            Expr::Sub(l, r) => Expr::Sub(Box::new((&**l).clone()), Box::new((&**r).clone())),
            Expr::Mul(l, r) => Expr::Mul(Box::new((&**l).clone()), Box::new((&**r).clone())),
            Expr::Div(l, r) => Expr::Div(Box::new((&**l).clone()), Box::new((&**r).clone())),
            Expr::Mod(l, r) => Expr::Mod(Box::new((&**l).clone()), Box::new((&**r).clone())),
            Expr::Eq(l, r) => Expr::Eq(Box::new((&**l).clone()), Box::new((&**r).clone())),
            Expr::Ne(l, r) => Expr::Ne(Box::new((&**l).clone()), Box::new((&**r).clone())),
            Expr::Lt(l, r) => Expr::Lt(Box::new((&**l).clone()), Box::new((&**r).clone())),
            Expr::Le(l, r) => Expr::Le(Box::new((&**l).clone()), Box::new((&**r).clone())),
            Expr::Gt(l, r) => Expr::Gt(Box::new((&**l).clone()), Box::new((&**r).clone())),
            Expr::Ge(l, r) => Expr::Ge(Box::new((&**l).clone()), Box::new((&**r).clone())),
            Expr::And(l, r) => Expr::And(Box::new((&**l).clone()), Box::new((&**r).clone())),
            Expr::Or(l, r) => Expr::Or(Box::new((&**l).clone()), Box::new((&**r).clone())),
            Expr::Has(l, r) => Expr::Has(Box::new((&**l).clone()), Box::new((&**r).clone())),
            Expr::Present(l, r) => Expr::Present(
                Box::new((&**l).clone()),
                Box::new((&**r).clone()),
            ),
            Expr::Pipe(l, r) => Expr::Pipe(Box::new((&**l).clone()), Box::new((&**r).clone())),
            Expr::Call { callee, args } => {
                let callee = (&**callee).clone();
                let copied = clone_exprs(args);
                proof {
                    lemma_call_view(callee, copied);
                    assert(self.model()->Call_args =~= expr_views(args@));
                }
                Expr::Call { callee: Box::new(callee), args: copied }
            },
        }
    }
}

impl Clone for Param {
    fn clone(&self) -> (copy: Self)
        ensures
            copy@ == self@,
    {
        Param {
            name: self.name.clone(),
            default: match &self.default {
                Some(e) => Some(e.clone()),
                None => None,
            },
        }
    }
}

/// A copy of each parameter of `params`, in order.
pub fn clone_params(params: &Vec<Param>) -> (copy: Vec<Param>)
    ensures
        param_views(copy@) == param_views(params@),
{
    let mut copy: Vec<Param> = Vec::new();
    let mut i: usize = 0;
    while i < params.len()
        invariant
            i <= params@.len(),
            copy@.len() == i,
            forall|k: int| 0 <= k < i ==> (#[trigger] copy@[k])@ == params@[k]@,
        decreases params@.len() - i,
    {
        let p = params[i].clone();
        copy.push(p);
        i += 1;
    }
    assert(param_views(copy@) =~= param_views(params@));
    copy
}

/// A copy of each statement of `stmts`, in order.
pub fn clone_stmts(stmts: &Vec<Stmt>) -> (copy: Vec<Stmt>)
    ensures
        stmt_views(copy@) == stmt_views(stmts@),
    decreases stmts,
{
    let mut copy: Vec<Stmt> = Vec::new();
    let mut i: usize = 0;
    while i < stmts.len()
        invariant
            i <= stmts@.len(),
            copy@.len() == i,
            forall|k: int| 0 <= k < i ==> (#[trigger] copy@[k])@ == stmts@[k]@,
        decreases stmts@.len() - i,
    {
        let s = stmts[i].clone();
        copy.push(s);
        i += 1;
    }
    assert(stmt_views(copy@) =~= stmt_views(stmts@));
    copy
}

impl Clone for Stmt {
    fn clone(&self) -> (copy: Self)
        ensures
            copy@ == self@,
        decreases self,
    {
        match self {
            Stmt::Block { stmts } => {
                let copied = clone_stmts(stmts);
                proof {
                    lemma_block_view(copied);
                    lemma_block_view(*stmts);
                }
                Stmt::Block { stmts: copied }
            },
            Stmt::Func { name, params, bodies } => {
                let name_copy = name.clone();
                let params_copy = clone_params(params);
                let bodies_copy = clone_stmts(bodies);
                proof {
                    lemma_func_view(name_copy, params_copy, bodies_copy);
                    lemma_func_view(*name, *params, *bodies);
                }
                Stmt::Func { name: name_copy, params: params_copy, bodies: bodies_copy }
            },
            Stmt::Return { value } => Stmt::Return {
                value: match value {
                    Some(e) => Some(e.clone()),
                    None => None,
                },
            },
            Stmt::Define { name, value } => Stmt::Define {
                name: name.clone(),
                value: value.clone(),
            },
            Stmt::DefineEmpty { name } => Stmt::DefineEmpty { name: name.clone() },
            Stmt::Copy { name, target } => Stmt::Copy {
                name: name.clone(),
                target: target.clone(),
            },
            Stmt::Bind { name, target } => Stmt::Bind {
                name: name.clone(),
                target: target.clone(),
            },
            Stmt::Guard { target, branches } => Stmt::Guard {
                target: target.clone(),
                branches: clone_exprs(branches),
            },
            Stmt::Call { callee, args } => Stmt::Call {
                callee: callee.clone(),
                args: clone_exprs(args),
            },
        }
    }
}

impl Clone for Program {
    fn clone(&self) -> (copy: Self)
        ensures
            copy@ == self@,
    {
        Program { stmts: clone_stmts(&self.stmts) }
    }
}

} // verus!
