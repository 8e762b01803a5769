//! Running statements.

use super::env::{env_assign, env_define, env_get};
use super::eval::{item_at, iterable_items, list_index};
use super::heap::State;
use super::semantics::{
    assigned, block_run, bound, executed, for_run, if_run, item_bound, navigated, stepped,
    stmts_executed, turns_run, while_run, written,
};
use super::show::type_label;
use super::value::{
    fail, lemma_vals_empty, lemma_vals_push, seen, share, val, vals, Closure, ClosureKind, Env,
    Scope, Stop, Val, Value,
};
use super::{destructure_tuple, Flow, Interp};
use crate::ast::{
    Assign, Binder, Binding, Block, Expr, ExprKind, ForStmt, IfStmt, Stmt, StmtKind, Target,
    TargetSeg, WhileStmt,
};
use crate::text::{cat2, cat3, cat5};
use crate::token::Span;
use std::rc::Rc;
use vstd::prelude::*;
use vstd::string::*;

verus! {

broadcast use {lemma_vals_push, lemma_vals_empty};

impl Interp {
    /// Run a statement.
    pub fn exec_stmt(&mut self, fuel: u64, stmt: &Stmt, env: Env) -> (r: Result<Flow, Stop>)
        ensures
            final(self).cx() == old(self).cx(),
            (seen(r), final(self).state@) == executed(
                old(self).cx(),
                fuel as nat,
                *stmt,
                env,
                old(self).state@,
            ),
        decreases fuel, 0nat,
    {
        if fuel == 0 {
            return Err(Stop::Budget);
        }
        let f = fuel - 1;
        match &stmt.kind {
            StmtKind::Binding(b) => {
                let v = self.eval(f, &b.value, env)?;
                bind_value(&mut self.state, b, v, stmt.span, env)?;
                Ok(Flow::Normal(Value::Unit))
            },
            StmtKind::Assign(a) => {
                self.exec_assign(f, a, env)?;
                Ok(Flow::Normal(Value::Unit))
            },
            StmtKind::Return(opt) => match opt {
                Some(e) => {
                    let v = self.eval(f, e, env)?;
                    Ok(Flow::Return(v))
                },
                None => Ok(Flow::Return(Value::Unit)),
            },
            StmtKind::Break => Ok(Flow::Break),
            StmtKind::Continue => Ok(Flow::Continue),
            StmtKind::Expr(e) => {
                if let ExprKind::Match(m) = &e.kind {
                    self.exec_match(f, m, e.span, env)
                } else {
                    let v = self.eval(f, e, env)?;
                    Ok(Flow::Normal(v))
                }
            },
            StmtKind::If(s) => self.exec_if(f, s, env),
            StmtKind::While(s) => self.exec_while(f, s, env),
            StmtKind::For(s) => self.exec_for(f, s, env),
            StmtKind::Fn(decl) => {
                let closure = Closure { kind: ClosureKind::Function(share(decl)), env };
                env_define(
                    &mut self.state,
                    env,
                    decl.name.as_str(),
                    Value::Closure(Rc::new(closure)),
                    false,
                );
                Ok(Flow::Normal(Value::Unit))
            },
            StmtKind::Struct(_) => Ok(Flow::Normal(Value::Unit)),
            StmtKind::Enum(_) => Ok(Flow::Normal(Value::Unit)),
            StmtKind::Impl(_) => Ok(Flow::Normal(Value::Unit)),
            StmtKind::Trait(_) => Ok(Flow::Normal(Value::Unit)),
        }
    }

    /// Run a block in a scope of its own.
    fn exec_block(&mut self, fuel: u64, block: &Block, parent: Env) -> (r: Result<Flow, Stop>)
        ensures
            final(self).cx() == old(self).cx(),
            (seen(r), final(self).state@) == block_run(
                old(self).cx(),
                fuel as nat,
                *block,
                parent,
                old(self).state@,
            ),
        decreases fuel, 2nat,
    {
        let scope = Scope::child(&mut self.state, parent);
        self.exec_stmts(fuel, &block.stmts, scope)
    }

    /// Run statements in a scope, until one does not end normally.
    pub fn exec_stmts(&mut self, fuel: u64, stmts: &Vec<Stmt>, env: Env) -> (r: Result<
        Flow,
        Stop,
    >)
        ensures
            final(self).cx() == old(self).cx(),
            (seen(r), final(self).state@) == stmts_executed(
                old(self).cx(),
                fuel as nat,
                stmts@,
                0,
                Val::Unit,
                env,
                old(self).state@,
            ),
        decreases fuel, 1nat,
    {
        let ghost cx = self.cx();
        let ghost start = self.state@;
        let mut last = Value::Unit;
        let mut i: usize = 0;
        while i < stmts.len()
            invariant
                i <= stmts.len(),
                cx == old(self).cx() && start == old(self).state@,
                self.cx() == cx,
                stmts_executed(
                    cx,
                    fuel as nat,
                    stmts@,
                    i as nat,
                    last@,
                    env,
                    self.state@,
                ) == stmts_executed(cx, fuel as nat, stmts@, 0, Val::Unit, env, start),
            decreases stmts.len() - i,
        {
            match self.exec_stmt(fuel, &stmts[i], env)? {
                Flow::Normal(v) => {
                    last = v;
                },
                other => {
                    return Ok(other);
                },
            }
            i = i + 1;
        }
        Ok(Flow::Normal(last))
    }

    fn exec_if(&mut self, fuel: u64, s: &IfStmt, env: Env) -> (r: Result<Flow, Stop>)
        ensures
            final(self).cx() == old(self).cx(),
            (seen(r), final(self).state@) == if_run(
                old(self).cx(),
                fuel as nat,
                *s,
                0,
                env,
                old(self).state@,
            ),
        decreases fuel, 3nat,
    {
        let ghost cx = self.cx();
        let ghost start = self.state@;
        let mut i: usize = 0;
        while i < s.arms.len()
            invariant
                i <= s.arms.len(),
                cx == old(self).cx() && start == old(self).state@,
                self.cx() == cx,
                if_run(cx, fuel as nat, *s, i as nat, env, self.state@) == if_run(
                    cx,
                    fuel as nat,
                    *s,
                    0,
                    env,
                    start,
                ),
            decreases s.arms.len() - i,
        {
            if self.eval_bool_cond(fuel, &s.arms[i].0, env)? {
                return self.exec_block(fuel, &s.arms[i].1, env);
            }
            i = i + 1;
        }
        match &s.else_body {
            Some(b) => self.exec_block(fuel, b, env),
            None => Ok(Flow::Normal(Value::Unit)),
        }
    }

    fn exec_while(&mut self, fuel: u64, s: &WhileStmt, env: Env) -> (r: Result<Flow, Stop>)
        ensures
            final(self).cx() == old(self).cx(),
            (seen(r), final(self).state@) == while_run(
                old(self).cx(),
                fuel as nat,
                *s,
                env,
                old(self).state@,
            ),
        decreases fuel, 0nat,
    {
        let ghost cx = self.cx();
        let ghost start = self.state@;
        let mut left: u64 = fuel;
        while left > 0
            invariant
                left <= fuel,
                cx == old(self).cx() && start == old(self).state@,
                self.cx() == cx,
                while_run(cx, left as nat, *s, env, self.state@) == while_run(
                    cx,
                    fuel as nat,
                    *s,
                    env,
                    start,
                ),
            decreases left,
        {
            left = left - 1;
            if !self.eval_bool_cond(left, &s.cond, env)? {
                return Ok(Flow::Normal(Value::Unit));
            }
            match self.exec_block(left, &s.body, env)? {
                Flow::Normal(_) => {},
                Flow::Continue => {},
                Flow::Break => {
                    return Ok(Flow::Normal(Value::Unit));
                },
                Flow::Return(v) => {
                    return Ok(Flow::Return(v));
                },
            }
        }
        Err(Stop::Budget)
    }

    fn exec_for(&mut self, fuel: u64, s: &ForStmt, env: Env) -> (r: Result<Flow, Stop>)
        ensures
            final(self).cx() == old(self).cx(),
            (seen(r), final(self).state@) == for_run(
                old(self).cx(),
                fuel as nat,
                *s,
                env,
                old(self).state@,
            ),
        decreases fuel, 4nat,
    {
        let iter_v = self.eval(fuel, &s.iter, env)?;
        let items = iterable_items(&self.state, &iter_v, s.iter.span)?;
        let ghost cx = self.cx();
        let mut i: usize = 0;
        while i < items.len()
            invariant
                i <= items.len(),
                cx == old(self).cx(),
                self.cx() == cx,
                turns_run(cx, fuel as nat, *s, vals(items@), i as nat, env, self.state@)
                    == for_run(cx, fuel as nat, *s, env, old(self).state@),
            decreases items.len() - i,
        {
            let scope = Scope::child(&mut self.state, env);
            bind_item(&mut self.state, &s.binder, &items[i], scope, s.iter.span)?;
            match self.exec_stmts(fuel, &s.body.stmts, scope)? {
                Flow::Normal(_) => {},
                Flow::Continue => {},
                Flow::Break => {
                    return Ok(Flow::Normal(Value::Unit));
                },
                Flow::Return(v) => {
                    return Ok(Flow::Return(v));
                },
            }
            i = i + 1;
        }
        Ok(Flow::Normal(Value::Unit))
    }

    /// Run an assignment.
    fn exec_assign(&mut self, fuel: u64, a: &Assign, env: Env) -> (r: Result<(), Stop>)
        ensures
            final(self).cx() == old(self).cx(),
            (seen(r), final(self).state@) == assigned(
                old(self).cx(),
                fuel as nat,
                *a,
                env,
                old(self).state@,
            ),
        decreases fuel, 3nat,
    {
        let new_val = self.eval(fuel, &a.value, env)?;
        let target = &a.target;
        if target.path.len() == 0 {
            match env_assign(&mut self.state, env, target.base.as_str(), new_val) {
                Ok(true) => Ok(()),
                Ok(false) => Err(
                    fail(
                        cat3("cannot assign to undefined name `", target.base.as_str(), "`"),
                        target.span,
                    ),
                ),
                Err(_) => Err(
                    fail(
                        cat3("cannot reassign `val` binding `", target.base.as_str(), "`"),
                        target.span,
                    ),
                ),
            }
        } else {
            let base = match env_get(&self.state, env, target.base.as_str()) {
                Some(b) => b,
                None => {
                    return Err(
                        fail(
                            cat3(
                                "cannot assign to undefined name `",
                                target.base.as_str(),
                                "`",
                            ),
                            target.span,
                        ),
                    );
                },
            };
            let container = self.navigate(fuel, base, target, env)?;
            self.assign_last(
                fuel,
                &container,
                &target.path[target.path.len() - 1],
                new_val,
                target.span,
                env,
            )
        }
    }

    /// The container that holds the last segment of a target's path.
    fn navigate(&mut self, fuel: u64, base: Value, target: &Target, env: Env) -> (r: Result<
        Value,
        Stop,
    >)
        ensures
            final(self).cx() == old(self).cx(),
            (seen(r), final(self).state@) == navigated(
                old(self).cx(),
                fuel as nat,
                base@,
                target.path@,
                0,
                target.span,
                env,
                old(self).state@,
            ),
        decreases fuel, 2nat,
    {
        let ghost cx = self.cx();
        let ghost start = self.state@;
        let ghost from = base@;
        let mut container = base;
        let mut i: usize = 0;
        while i < target.path.len() && i + 1 < target.path.len()
            invariant
                i <= target.path.len(),
                from == base@,
                cx == old(self).cx() && start == old(self).state@,
                self.cx() == cx,
                navigated(
                    cx,
                    fuel as nat,
                    container@,
                    target.path@,
                    i as nat,
                    target.span,
                    env,
                    self.state@,
                ) == navigated(
                    cx,
                    fuel as nat,
                    from,
                    target.path@,
                    0,
                    target.span,
                    env,
                    start,
                ),
            decreases target.path.len() - i,
        {
            container = self.navigate_seg(fuel, &container, &target.path[i], target.span, env)?;
            i = i + 1;
        }
        Ok(container)
    }

    /// One step along the path of a target.
    fn navigate_seg(
        &mut self,
        fuel: u64,
        container: &Value,
        seg: &TargetSeg,
        span: Span,
        env: Env,
    ) -> (r: Result<Value, Stop>)
        ensures
            final(self).cx() == old(self).cx(),
            (seen(r), final(self).state@) == stepped(
                old(self).cx(),
                fuel as nat,
                container@,
                *seg,
                span,
                env,
                old(self).state@,
            ),
        decreases fuel, 1nat,
    {
        match seg {
            TargetSeg::Field(name) => match container {
                Value::Struct(at) => {
                    let blank = super::show::blank_instance();
                    let inst = match self.state.instance(*at) {
                        Some(inst) => inst,
                        None => &blank,
                    };
                    match inst.fields.get(name.as_str()) {
                        Some(v) => Ok(v.clone()),
                        None => Err(
                            fail(cat3("struct has no field `", name.as_str(), "`"), span),
                        ),
                    }
                },
                other => Err(
                    fail(
                        cat2(
                            cat3("cannot access field `", name.as_str(), "` on ").as_str(),
                            type_label(other),
                        ),
                        span,
                    ),
                ),
            },
            TargetSeg::Index(e) => {
                let idx = self.eval(fuel, e, env)?;
                item_at(&self.state, container, &idx, span)
            },
        }
    }

    /// Write a value at the last segment of a path.
    fn assign_last(
        &mut self,
        fuel: u64,
        container: &Value,
        seg: &TargetSeg,
        new_val: Value,
        span: Span,
        env: Env,
    ) -> (r: Result<(), Stop>)
        ensures
            final(self).cx() == old(self).cx(),
            (seen(r), final(self).state@) == written(
                old(self).cx(),
                fuel as nat,
                container@,
                *seg,
                new_val@,
                span,
                env,
                old(self).state@,
            ),
        decreases fuel, 1nat,
    {
        match seg {
            TargetSeg::Field(name) => match container {
                Value::Struct(at) => {
                    let blank = super::show::blank_instance();
                    let inst = match self.state.instance(*at) {
                        Some(inst) => inst,
                        None => &blank,
                    };
                    if !inst.fields.contains(name.as_str()) {
                        return Err(
                            fail(
                                cat5(
                                    "struct `",
                                    inst.struct_name.as_str(),
                                    "` has no field `",
                                    name.as_str(),
                                    "`",
                                ),
                                span,
                            ),
                        );
                    }
                    self.state.set_field(*at, name.clone(), new_val);
                    Ok(())
                },
                other => Err(
                    fail(
                        cat2(
                            cat3("cannot set field `", name.as_str(), "` on ").as_str(),
                            type_label(other),
                        ),
                        span,
                    ),
                ),
            },
            TargetSeg::Index(e) => {
                let idx = self.eval(fuel, e, env)?;
                match container {
                    Value::List(at) => {
                        let len = self.state.list_len(*at);
                        let i = list_index(&idx, len, span)?;
                        self.state.set_item(*at, i, new_val);
                        Ok(())
                    },
                    other => Err(
                        fail(cat2("cannot index-assign into ", type_label(other)), span),
                    ),
                }
            },
        }
    }
}

/// Do what a binding does with its value.
fn bind_value(state: &mut State, b: &Binding, v: Value, span: Span, env: Env) -> (r: Result<
    (),
    Stop,
>)
    ensures
        (seen(r), final(state)@) == bound(*b, v@, span, env, old(state)@),
{
    match &b.binder {
        Binder::Tuple(names) => destructure_tuple(state, names, &v, env, b.is_val, span),
        Binder::Name(name) => {
            if !b.is_val && b.ty.is_none() {
                match env_assign(state, env, name.as_str(), v.clone()) {
                    Ok(true) => Ok(()),
                    Ok(false) => {
                        env_define(state, env, name.as_str(), v, false);
                        Ok(())
                    },
                    Err(_) => Err(
                        fail(
                            cat3("cannot reassign `val` binding `", name.as_str(), "`"),
                            span,
                        ),
                    ),
                }
            } else {
                env_define(state, env, name.as_str(), v, b.is_val);
                Ok(())
            }
        },
    }
}

/// Bind a loop's binder to an item.
fn bind_item(state: &mut State, b: &Binder, item: &Value, scope: Env, span: Span) -> (r: Result<
    (),
    Stop,
>)
    ensures
        (seen(r), final(state)@) == item_bound(*b, item@, scope, span, old(state)@),
{
    match b {
        Binder::Name(n) => {
            env_define(state, scope, n.as_str(), item.clone(), false);
            Ok(())
        },
        Binder::Tuple(names) => destructure_tuple(state, names, item, scope, false, span),
    }
}

} // verus!
