//! The tree-walking evaluator: runs the nodes of a program in order
//! against an environment.

use vstd::prelude::*;
use crate::compiler::ast::{
    clone_params, clone_stmts, expr_views, lemma_block_view, lemma_func_view, stmt_views, Expr,
    ExprView, Program, Stmt, StmtView,
};
use crate::compiler::semantics::env::{Env, EnvView};
use crate::compiler::semantics::truth::{truth, truth_of};
use crate::compiler::semantics::value::{Function, FunctionView, Value, ValueView};

verus! {

/// What stops an evaluation.
#[derive(Debug, Clone, Copy, PartialEq, Eq, Structural)]
pub enum Fault {
    /// A copy statement names a target that is not bound.
    MissingCopyTarget,
    /// A bind statement names a target that is not bound.
    MissingBindTarget,
    /// A return statement ran outside of a function.
    ReturnOutsideFunction,
}

/// How control leaves a statement.
#[derive(Debug)]
pub enum Control {
    Continue,
    Return(Value),
}

/// The outcome of running a statement: the environment it leaves, with
/// the value carried where it returns, or the fault that stopped it.
pub enum Flow {
    Continue(EnvView),
    Return(EnvView, ValueView),
    Fault(Fault),
}

/// The value of an expression: a literal stands for its value, a name
/// for its current value or the empty value where it is unbound; every
/// other expression has the empty value.
pub open spec fn value_of(env: EnvView, e: ExprView) -> ValueView {
    match e {
        ExprView::Lit(lit) => lit.value(),
        ExprView::Ident(name) => match env.value_of(name) {
            Some(v) => v,
            None => ValueView::Void,
        },
        _ => ValueView::Void,
    }
}

/// The value of the first branch from `i` on whose value is true; the
/// empty value where there is none.
pub open spec fn first_true(env: EnvView, branches: Seq<ExprView>, i: int) -> ValueView
    decreases branches.len() - i,
{
    if !(0 <= i < branches.len()) {
        ValueView::Void
    } else if truth(value_of(env, branches[i])) {
        value_of(env, branches[i])
    } else {
        first_true(env, branches, i + 1)
    }
}

/// Runs one statement in `env`.
pub open spec fn run(env: EnvView, s: StmtView) -> Flow
    decreases s, 0int,
{
    match s {
        StmtView::Define { name, value } => Flow::Continue(env.define(name, value_of(env, value))),
        StmtView::DefineEmpty { name } => Flow::Continue(env.define(name, ValueView::Void)),
        StmtView::Copy { name, target } => match env.resolve(target) {
            Some(slot) => Flow::Continue(env.bind(name, slot)),
            None => Flow::Fault(Fault::MissingCopyTarget),
        },
        StmtView::Bind { name, target } => match env.value_of(target) {
            Some(v) => Flow::Continue(env.define(name, v)),
            None => Flow::Fault(Fault::MissingBindTarget),
        },
        StmtView::Guard { target, branches } => Flow::Continue(
            env.define(target, first_true(env, branches, 0)),
        ),
        StmtView::Return { value } => Flow::Return(
            env,
            match value {
                Some(e) => value_of(env, e),
                None => ValueView::Void,
            },
        ),
        StmtView::Block { stmts } => close_scope(run_from(env.push_scope(), stmts, 0)),
        StmtView::Func { name, params, bodies } => Flow::Continue(
            env.define(name, ValueView::Func(FunctionView { name, params, bodies })),
        ),
        StmtView::Call { callee, args } => Flow::Continue(env),
    }
}

/// Runs the statements of a block from `i` on, in order; a return or a
/// fault skips the rest.
pub open spec fn run_from(env: EnvView, stmts: Seq<StmtView>, i: int) -> Flow
    decreases stmts, stmts.len() - i,
{
    if !(0 <= i < stmts.len()) {
        Flow::Continue(env)
    } else {
        match run(env, stmts[i]) {
            Flow::Continue(next) => run_from(next, stmts, i + 1),
            other => other,
        }
    }
}

/// Leaves the scope of a block after its statements have run.
pub open spec fn close_scope(flow: Flow) -> Flow {
    match flow {
        Flow::Continue(env) => Flow::Continue(env.pop_scope()),
        Flow::Return(env, v) => Flow::Return(env.pop_scope(), v),
        Flow::Fault(f) => Flow::Fault(f),
    }
}

/// Runs one node of a program: a return that reaches the top is a fault.
pub open spec fn eval(env: EnvView, s: StmtView) -> Result<EnvView, Fault> {
    match run(env, s) {
        Flow::Continue(next) => Ok(next),
        Flow::Return(_, _) => Err(Fault::ReturnOutsideFunction),
        Flow::Fault(f) => Err(f),
    }
}

/// Runs the nodes of a program from `i` on, in order.
pub open spec fn eval_from(env: EnvView, stmts: Seq<StmtView>, i: int) -> Result<EnvView, Fault>
    decreases stmts.len() - i,
{
    if !(0 <= i < stmts.len()) {
        Ok(env)
    } else {
        match eval(env, stmts[i]) {
            Ok(next) => eval_from(next, stmts, i + 1),
            Err(f) => Err(f),
        }
    }
}

/// What the exec result `r` and the environment `after` must be for the
/// outcome `flow`.
pub open spec fn control_agrees(r: Result<Control, Fault>, after: EnvView, flow: Flow) -> bool {
    match flow {
        Flow::Continue(env) => r matches Ok(Control::Continue) && after == env,
        Flow::Return(env, v) => r matches Ok(Control::Return(x)) && x@ == v && after == env,
        Flow::Fault(f) => r == Err::<Control, Fault>(f),
    }
}

pub struct Evaluator {
    env: Env,
}

impl Evaluator {
    /// The environment the evaluator holds.
    pub closed spec fn env(&self) -> EnvView {
        self.env@
    }

    /// The environment is well formed and has a scope to define in.
    pub open spec fn wf(&self) -> bool {
        self.env().wf() && self.env().scopes.len() > 0
    }

    pub fn new() -> (ev: Self)
        ensures
            ev.env() == EnvView::fresh(),
            ev.wf(),
    {
        Self { env: Env::new() }
    }

    /// The current value of `name`, if it is defined.
    pub fn get(&self, name: &str) -> (value: Option<Value>)
        requires
            self.wf(),
        ensures
            match self.env().value_of(name@) {
                Some(v) => value matches Some(x) && x@ == v,
                None => value is None,
            },
    {
        self.env.get_value(name)
    }

    fn eval_value(&self, node: &Expr) -> (v: Value)
        requires
            self.wf(),
        ensures
            v@ == value_of(self.env(), node@),
    {
        match node {
            Expr::Lit(lit) => Value::from_literal(lit),
            Expr::Ident(name) => match self.env.get_value(name.as_str()) {
                Some(v) => v,
                None => Value::Void,
            },
            _ => Value::Void,
        }
    }

    /// The value of the first true branch.
    fn eval_guard(&self, branches: &Vec<Expr>) -> (v: Value)
        requires
            self.wf(),
        ensures
            v@ == first_true(self.env(), expr_views(branches@), 0),
    {
        let ghost views = expr_views(branches@);
        let mut i: usize = 0;
        while i < branches.len()
            invariant
                self.wf(),
                i <= branches@.len(),
                views == expr_views(branches@),
                first_true(self.env(), views, i as int) == first_true(self.env(), views, 0),
            decreases branches@.len() - i,
        {
            let v = self.eval_value(&branches[i]);
            if truth_of(&v).as_bool() {
                return v;
            }
            i += 1;
        }
        Value::Void
    }

    fn eval_node_ctrl(&mut self, node: &Stmt) -> (r: Result<Control, Fault>)
        requires
            old(self).wf(),
        ensures
            final(self).wf(),
            control_agrees(r, final(self).env(), run(old(self).env(), node@)),
            r is Ok ==> final(self).env().scopes.len() == old(self).env().scopes.len(),
            r is Err ==> final(self).env().scopes.len() >= old(self).env().scopes.len(),
        decreases node,
    {
        match node {
            Stmt::Define { name, value } => {
                let v = self.eval_value(value);
                self.env.define(name.clone(), v);
                Ok(Control::Continue)
            },
            Stmt::DefineEmpty { name } => {
                self.env.define(name.clone(), Value::Void);
                Ok(Control::Continue)
            },
            Stmt::Copy { name, target } => {
                match self.env.copy(name.clone(), target.as_str()) {
                    Ok(_) => Ok(Control::Continue),
                    Err(_) => Err(Fault::MissingCopyTarget),
                }
            },
            Stmt::Bind { name, target } => {
                match self.env.get_value(target.as_str()) {
                    Some(v) => {
                        self.env.define(name.clone(), v);
                        Ok(Control::Continue)
                    },
                    None => Err(Fault::MissingBindTarget),
                }
            },
            Stmt::Guard { target, branches } => {
                let result = self.eval_guard(branches);
                self.env.define(target.clone(), result);
                Ok(Control::Continue)
            },
            Stmt::Return { value } => {
                let v = match value {
                    Some(e) => self.eval_value(e),
                    None => Value::Void,
                };
                Ok(Control::Return(v))
            },
            Stmt::Block { stmts } => {
                proof {
                    lemma_block_view(*stmts);
                }
                let ghost views = stmt_views(stmts@);
                let ghost entry = self.env();
                let ghost goal = run_from(entry.push_scope(), views, 0);
                self.env.push_scope();
                let mut i: usize = 0;
                while i < stmts.len()
                    invariant
                        self.wf(),
                        i <= stmts@.len(),
                        views == stmt_views(stmts@),
                        entry.scopes.len() > 0,
                        self.env().scopes.len() == entry.scopes.len() + 1,
                        goal == run_from(self.env(), views, i as int),
                        run(entry, node@) == close_scope(goal),
                        entry == old(self).env(),
                        decreases_to!(node => stmts),
                    decreases stmts@.len() - i,
                {
                    match self.eval_node_ctrl(&stmts[i])? {
                        Control::Continue => {},
                        Control::Return(v) => {
                            self.env.pop_scope();
                            return Ok(Control::Return(v));
                        },
                    }
                    i += 1;
                }
                self.env.pop_scope();
                Ok(Control::Continue)
            },
            Stmt::Func { name, params, bodies } => {
                let function = Function {
                    name: name.clone(),
                    params: clone_params(params),
                    bodies: clone_stmts(bodies),
                };
                proof {
                    lemma_func_view(*name, *params, *bodies);
                }
                self.env.define(name.clone(), Value::Func(function));
                Ok(Control::Continue)
            },
            Stmt::Call { callee, args } => Ok(Control::Continue),
        }
    }

    /// Runs one node; stops with the fault where the node does not run
    /// through.
    pub fn try_eval_node(&mut self, node: &Stmt) -> (r: Result<(), Fault>)
        requires
            old(self).wf(),
        ensures
            final(self).wf(),
            match eval(old(self).env(), node@) {
                Ok(env) => r is Ok && final(self).env() == env,
                Err(f) => r == Err::<(), Fault>(f),
            },
    {
        match self.eval_node_ctrl(node)? {
            Control::Continue => Ok(()),
            Control::Return(_) => Err(Fault::ReturnOutsideFunction),
        }
    }

    /// Runs one node that is known to run through.
    pub fn eval_node(&mut self, node: &Stmt)
        requires
            old(self).wf(),
            eval(old(self).env(), node@) is Ok,
        ensures
            final(self).wf(),
            Ok::<EnvView, Fault>(final(self).env()) == eval(old(self).env(), node@),
    {
        let _ = self.try_eval_node(node);
    }

    /// Runs the nodes of a program in order; stops at the first fault.
    pub fn try_eval_program(&mut self, program: &Program) -> (r: Result<(), Fault>)
        requires
            old(self).wf(),
        ensures
            final(self).wf(),
            match eval_from(old(self).env(), program@.stmts, 0) {
                Ok(env) => r is Ok && final(self).env() == env,
                Err(f) => r == Err::<(), Fault>(f),
            },
    {
        let ghost views = program@.stmts;
        let ghost goal = eval_from(self.env(), views, 0);
        let mut i: usize = 0;
        while i < program.stmts.len()
            invariant
                self.wf(),
                i <= program.stmts@.len(),
                views == stmt_views(program.stmts@),
                goal == eval_from(old(self).env(), views, 0),
                goal == eval_from(self.env(), views, i as int),
            decreases program.stmts@.len() - i,
        {
            self.try_eval_node(&program.stmts[i])?;
            i += 1;
        }
        Ok(())
    }

    /// Runs the nodes of a program that is known to run through.
    pub fn eval_program(&mut self, program: &Program)
        requires
            old(self).wf(),
            eval_from(old(self).env(), program@.stmts, 0) is Ok,
        ensures
            final(self).wf(),
            Ok::<EnvView, Fault>(final(self).env()) == eval_from(
                old(self).env(),
                program@.stmts,
                0,
            ),
    {
        let _ = self.try_eval_program(program);
    }
}

} // verus!
