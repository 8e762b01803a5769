//! Evaluating expressions.

use super::collections::{map_insert, set_insert};
use super::env::{env_define, env_get};
use super::heap::{pair_vals, State};
use super::ops::{apply_unary, eval_arith, eval_compare, eval_range};
use super::semantics::{
    binary_evaluated, binder_bound, comprehension_evaluated, condition, enum_named, evaluated,
    gathered, index_evaluated, index_place, indexed, items_evaluated, iterated, member_evaluated,
    member_of, members_evaluated, nothing_gathered, operated, pairs_evaluated, text_built, tried,
    turns_gathered, Gathered,
};
use super::show::{show, type_label, values_equal};
use super::value::{
    fail, lemma_vals_empty, lemma_vals_push, seen, seen_vals, share, vals, Closure, ClosureKind,
    Env, Halt, Scope, Stop, Val, Value,
};
use super::{as_bool, destructure_tuple, try_unwind_sentinel, Interp};
use crate::ast::{
    Arg, BinOp, Comprehension, ComprehensionBinder, ComprehensionOutput, EnumDecl, Expr, ExprKind,
    StrSeg, StringLit,
};
use crate::integer::{is_negative, to_usize};
use crate::text::{cat2, cat3, cat5, count_text, lemma_texts_empty, lemma_texts_push, same_text};
use crate::token::Span;
use std::rc::Rc;
use vstd::prelude::*;
use vstd::string::*;

verus! {

broadcast use {lemma_vals_push, lemma_vals_empty, lemma_texts_push, lemma_texts_empty};

/// What a result made of several pairs says.
pub open spec fn seen_pairs(r: Result<Vec<(Value, Value)>, Stop>) -> Result<Seq<(Val, Val)>, Halt> {
    match r {
        Ok(ps) => Ok(pair_vals(ps@)),
        Err(s) => Err(s@),
    }
}

/// What a comprehension has gathered.
pub struct Gathering {
    pub list: Vec<Value>,
    pub set: Vec<Value>,
    pub map: Vec<(Value, Value)>,
}

impl View for Gathering {
    type V = Gathered;

    open spec fn view(&self) -> Gathered {
        Gathered { list: vals(self.list@), set: vals(self.set@), map: pair_vals(self.map@) }
    }
}

impl Interp {
    /// The value of an expression.
    pub fn eval(&mut self, fuel: u64, expr: &Expr, env: Env) -> (r: Result<Value, Stop>)
        ensures
            final(self).cx() == old(self).cx(),
            (seen(r), final(self).state@) == evaluated(
                old(self).cx(),
                fuel as nat,
                *expr,
                env,
                old(self).state@,
            ),
        decreases fuel, 0nat,
    {
        if fuel == 0 {
            return Err(Stop::Budget);
        }
        let f = fuel - 1;
        match &expr.kind {
            ExprKind::Int(n) => Ok(Value::Int(n.clone())),
            ExprKind::Float(bits) => Ok(Value::Float(*bits)),
            ExprKind::Bool(b) => Ok(Value::Bool(*b)),
            ExprKind::Null => Ok(Value::Null),
            ExprKind::Str(lit) => {
                let s = self.eval_string_lit(f, lit, env)?;
                Ok(Value::Str(s))
            },
            ExprKind::Name(name) => match env_get(&self.state, env, name.as_str()) {
                Some(v) => Ok(v),
                None => Err(fail(cat3("undefined name `", name.as_str(), "`"), expr.span)),
            },
            ExprKind::SelfExpr => match env_get(&self.state, env, "self") {
                Some(v) => Ok(v),
                None => Err(fail("`self` is not bound here".to_owned(), expr.span)),
            },
            ExprKind::Try(inner) => {
                let v = self.eval(f, inner, env)?;
                self.eval_try(v, expr.span)
            },
            ExprKind::List(elems) => {
                let items = self.eval_items(f, elems, env)?;
                Ok(Value::List(self.state.new_list(items)))
            },
            ExprKind::Lambda(l) => {
                let closure = Closure { kind: ClosureKind::Lambda(share(l)), env };
                Ok(Value::Closure(Rc::new(closure)))
            },
            ExprKind::Ternary { then, cond, otherwise } => {
                if self.eval_bool_cond(f, cond, env)? {
                    self.eval(f, then, env)
                } else {
                    self.eval(f, otherwise, env)
                }
            },
            ExprKind::Unary { op, operand } => {
                let v = self.eval(f, operand, env)?;
                apply_unary(*op, &v, operand.span)
            },
            ExprKind::Binary { op, lhs, rhs } => self.eval_binary(
                f,
                *op,
                lhs,
                rhs,
                expr.span,
                env,
            ),
            ExprKind::Call { callee, args } => self.eval_call(f, callee, args, expr.span, env),
            ExprKind::Index { base, index } => self.eval_index(f, base, index, expr.span, env),
            ExprKind::Member { base, name, safe } => self.eval_member(
                f,
                base,
                name.as_str(),
                *safe,
                expr.span,
                env,
            ),
            ExprKind::Match(m) => self.eval_match(f, m, expr.span, env),
            ExprKind::MapLit(pairs) => {
                let entries = self.eval_pairs(f, pairs, env)?;
                Ok(Value::MapRef(self.state.new_map(entries)))
            },
            ExprKind::SetLit(items) => {
                let members = self.eval_members(f, items, env)?;
                Ok(Value::SetRef(self.state.new_set(members)))
            },
            ExprKind::Tuple(items) => {
                let vs = self.eval_items(f, items, env)?;
                Ok(Value::Tuple(Rc::new(vs)))
            },
            ExprKind::Comprehension(c) => self.eval_comprehension(f, c, expr.span, env),
        }
    }

    /// What `try` gives on a value.
    fn eval_try(&mut self, v: Value, span: Span) -> (r: Result<Value, Stop>)
        ensures
            final(self).cx() == old(self).cx(),
            (seen(r), final(self).state@) == tried(v@, span, old(self).state@),
    {
        match &v {
            Value::Enum(e) => {
                if same_text(e.enum_name.as_str(), "Result") {
                    assert(vals(e.payload@).len() == e.payload@.len());
                    if same_text(e.variant.as_str(), "Ok") {
                        if e.payload.len() > 0 {
                            Ok(e.payload[0].clone())
                        } else {
                            Ok(Value::Unit)
                        }
                    } else if same_text(e.variant.as_str(), "Err") {
                        self.state.propagate(v.clone());
                        Err(Stop::Error(try_unwind_sentinel(span)))
                    } else {
                        Err(fail("`try` expects a `Result` (`Ok`/`Err`)".to_owned(), span))
                    }
                } else {
                    Err(
                        fail("`try` can only be applied to a `Result` value".to_owned(), span),
                    )
                }
            },
            _ => Err(fail("`try` can only be applied to a `Result` value".to_owned(), span)),
        }
    }

    /// The value of a condition, which must be a Boolean.
    pub fn eval_bool_cond(&mut self, fuel: u64, cond: &Expr, env: Env) -> (r: Result<
        bool,
        Stop,
    >)
        ensures
            final(self).cx() == old(self).cx(),
            (seen(r), final(self).state@) == condition(
                old(self).cx(),
                fuel as nat,
                *cond,
                env,
                old(self).state@,
            ),
        decreases fuel, 1nat,
    {
        match self.eval(fuel, cond, env)? {
            Value::Bool(b) => Ok(b),
            other => Err(
                fail(cat2("condition must be Bool, found ", type_label(&other)), cond.span),
            ),
        }
    }

    /// The value of each expression.
    fn eval_items(&mut self, fuel: u64, elems: &Vec<Expr>, env: Env) -> (r: Result<
        Vec<Value>,
        Stop,
    >)
        ensures
            final(self).cx() == old(self).cx(),
            (seen_vals(r), final(self).state@) == items_evaluated(
                old(self).cx(),
                fuel as nat,
                elems@,
                0,
                Seq::empty(),
                env,
                old(self).state@,
            ),
        decreases fuel, 1nat,
    {
        let ghost cx = self.cx();
        let ghost start = self.state@;
        let mut out: Vec<Value> = Vec::new();
        let mut i: usize = 0;
        while i < elems.len()
            invariant
                i <= elems.len(),
                cx == old(self).cx() && start == old(self).state@,
                self.cx() == cx,
                items_evaluated(
                    cx,
                    fuel as nat,
                    elems@,
                    i as nat,
                    vals(out@),
                    env,
                    self.state@,
                ) == items_evaluated(cx, fuel as nat, elems@, 0, Seq::empty(), env, start),
            decreases elems.len() - i,
        {
            out.push(self.eval(fuel, &elems[i], env)?);
            i = i + 1;
        }
        Ok(out)
    }

    /// The members of a set literal.
    fn eval_members(&mut self, fuel: u64, elems: &Vec<Expr>, env: Env) -> (r: Result<
        Vec<Value>,
        Stop,
    >)
        ensures
            final(self).cx() == old(self).cx(),
            (seen_vals(r), final(self).state@) == members_evaluated(
                old(self).cx(),
                fuel as nat,
                elems@,
                0,
                Seq::empty(),
                env,
                old(self).state@,
            ),
        decreases fuel, 1nat,
    {
        let ghost cx = self.cx();
        let ghost start = self.state@;
        let mut out: Vec<Value> = Vec::new();
        let mut i: usize = 0;
        while i < elems.len()
            invariant
                i <= elems.len(),
                cx == old(self).cx() && start == old(self).state@,
                self.cx() == cx,
                members_evaluated(
                    cx,
                    fuel as nat,
                    elems@,
                    i as nat,
                    vals(out@),
                    env,
                    self.state@,
                ) == members_evaluated(cx, fuel as nat, elems@, 0, Seq::empty(), env, start),
            decreases elems.len() - i,
        {
            let v = self.eval(fuel, &elems[i], env)?;
            set_insert(&self.state, fuel, &mut out, v)?;
            i = i + 1;
        }
        Ok(out)
    }

    /// The pairs of a map literal.
    fn eval_pairs(&mut self, fuel: u64, pairs: &Vec<(Expr, Expr)>, env: Env) -> (r: Result<
        Vec<(Value, Value)>,
        Stop,
    >)
        ensures
            final(self).cx() == old(self).cx(),
            (seen_pairs(r), final(self).state@) == pairs_evaluated(
                old(self).cx(),
                fuel as nat,
                pairs@,
                0,
                Seq::empty(),
                env,
                old(self).state@,
            ),
        decreases fuel, 1nat,
    {
        let ghost cx = self.cx();
        let ghost start = self.state@;
        let mut out: Vec<(Value, Value)> = Vec::new();
        assert(pair_vals(out@) =~= Seq::<(Val, Val)>::empty());
        let mut i: usize = 0;
        while i < pairs.len()
            invariant
                i <= pairs.len(),
                cx == old(self).cx() && start == old(self).state@,
                self.cx() == cx,
                pairs_evaluated(
                    cx,
                    fuel as nat,
                    pairs@,
                    i as nat,
                    pair_vals(out@),
                    env,
                    self.state@,
                ) == pairs_evaluated(cx, fuel as nat, pairs@, 0, Seq::empty(), env, start),
            decreases pairs.len() - i,
        {
            let k = self.eval(fuel, &pairs[i].0, env)?;
            let v = self.eval(fuel, &pairs[i].1, env)?;
            map_insert(&self.state, fuel, &mut out, k, v)?;
            i = i + 1;
        }
        Ok(out)
    }

    /// The text of a string literal.
    fn eval_string_lit(&mut self, fuel: u64, lit: &StringLit, env: Env) -> (r: Result<String, Stop>)
        ensures
            final(self).cx() == old(self).cx(),
            (seen(r), final(self).state@) == text_built(
                old(self).cx(),
                fuel as nat,
                lit.parts@,
                0,
                Seq::empty(),
                env,
                old(self).state@,
            ),
        decreases fuel, 1nat,
    {
        let ghost cx = self.cx();
        let ghost start = self.state@;
        let mut out = String::new();
        let mut i: usize = 0;
        while i < lit.parts.len()
            invariant
                i <= lit.parts.len(),
                cx == old(self).cx() && start == old(self).state@,
                self.cx() == cx,
                text_built(cx, fuel as nat, lit.parts@, i as nat, out@, env, self.state@)
                    == text_built(cx, fuel as nat, lit.parts@, 0, Seq::empty(), env, start),
            decreases lit.parts.len() - i,
        {
            match &lit.parts[i] {
                StrSeg::Text(t) => {
                    out.append(t.as_str());
                },
                StrSeg::Expr(e) => {
                    let v = self.eval(fuel, e, env)?;
                    let s = show(&self.state, &self.floats, fuel, &v)?;
                    out.append(s.as_str());
                },
            }
            i = i + 1;
        }
        Ok(out)
    }

    /// The value of a binary expression.
    fn eval_binary(
        &mut self,
        fuel: u64,
        op: BinOp,
        lhs: &Expr,
        rhs: &Expr,
        span: Span,
        env: Env,
    ) -> (r: Result<Value, Stop>)
        ensures
            final(self).cx() == old(self).cx(),
            (seen(r), final(self).state@) == binary_evaluated(
                old(self).cx(),
                fuel as nat,
                op,
                *lhs,
                *rhs,
                span,
                env,
                old(self).state@,
            ),
        decreases fuel, 2nat,
    {
        match op {
            BinOp::And => {
                let l = self.eval(fuel, lhs, env)?;
                let lb = as_bool(&l, lhs.span, "and")?;
                if !lb {
                    return Ok(Value::Bool(false));
                }
                let r = self.eval(fuel, rhs, env)?;
                let rb = as_bool(&r, rhs.span, "and")?;
                Ok(Value::Bool(rb))
            },
            BinOp::Or => {
                let l = self.eval(fuel, lhs, env)?;
                let lb = as_bool(&l, lhs.span, "or")?;
                if lb {
                    return Ok(Value::Bool(true));
                }
                let r = self.eval(fuel, rhs, env)?;
                let rb = as_bool(&r, rhs.span, "or")?;
                Ok(Value::Bool(rb))
            },
            _ => {
                let l = self.eval(fuel, lhs, env)?;
                let r = self.eval(fuel, rhs, env)?;
                self.operate(fuel, op, &l, &r, span)
            },
        }
    }

    /// `l op r` for an operator that evaluates both sides.
    fn operate(&mut self, fuel: u64, op: BinOp, l: &Value, r: &Value, span: Span) -> (res: Result<
        Value,
        Stop,
    >)
        requires
            op != BinOp::And,
            op != BinOp::Or,
        ensures
            final(self).cx() == old(self).cx(),
            (seen(res), final(self).state@) == operated(
                old(self).cx(),
                fuel as nat,
                op,
                l@,
                r@,
                span,
                old(self).state@,
            ),
    {
        match op {
            BinOp::Eq | BinOp::Is => match values_equal(&self.state, fuel, l, r) {
                Some(b) => Ok(Value::Bool(b)),
                None => Err(Stop::Budget),
            },
            BinOp::NotEq | BinOp::IsNot => match values_equal(&self.state, fuel, l, r) {
                Some(b) => Ok(Value::Bool(!b)),
                None => Err(Stop::Budget),
            },
            BinOp::Lt | BinOp::LtEq | BinOp::Gt | BinOp::GtEq => eval_compare(
                &self.state,
                &self.registry,
                fuel,
                op,
                l,
                r,
                span,
            ),
            BinOp::Add | BinOp::Sub | BinOp::Mul | BinOp::Div | BinOp::Rem | BinOp::Pow =>
                eval_arith(&self.floats, op, l, r, span),
            _ => match eval_range(op, l, r, span) {
                Ok(items) => Ok(Value::List(self.state.new_list(items))),
                Err(s) => Err(s),
            },
        }
    }

    /// The value of an index expression.
    fn eval_index(&mut self, fuel: u64, base: &Expr, index: &Expr, span: Span, env: Env) -> (r:
        Result<Value, Stop>)
        ensures
            final(self).cx() == old(self).cx(),
            (seen(r), final(self).state@) == index_evaluated(
                old(self).cx(),
                fuel as nat,
                *base,
                *index,
                span,
                env,
                old(self).state@,
            ),
        decreases fuel, 1nat,
    {
        let base_v = self.eval(fuel, base, env)?;
        let idx_v = self.eval(fuel, index, env)?;
        item_at(&self.state, &base_v, &idx_v, span)
    }

    /// The value of `base.name` or `base?.name`.
    fn eval_member(
        &mut self,
        fuel: u64,
        base: &Expr,
        name: &str,
        safe: bool,
        span: Span,
        env: Env,
    ) -> (r: Result<Value, Stop>)
        ensures
            final(self).cx() == old(self).cx(),
            (seen(r), final(self).state@) == member_evaluated(
                old(self).cx(),
                fuel as nat,
                *base,
                name@,
                safe,
                span,
                env,
                old(self).state@,
            ),
        decreases fuel, 4nat,
    {
        if safe {
            let base_v = self.eval(fuel, base, env)?;
            if let Value::Null = &base_v {
                return Ok(Value::Null);
            }
            return member_value(&self.state, &base_v, name, span);
        }
        match self.named_enum(base, env) {
            Some(decl) => {
                let args: Vec<Arg> = Vec::new();
                self.construct_variant(fuel, &decl.1, decl.0.as_str(), name, &args, span, env)
            },
            None => {
                let base_v = self.eval(fuel, base, env)?;
                member_value(&self.state, &base_v, name, span)
            },
        }
    }

    /// The enum that an expression names.
    pub fn named_enum(&self, e: &Expr, env: Env) -> (r: Option<(String, Rc<EnumDecl>)>)
        ensures
            match r {
                Some(d) => enum_named(self.cx(), *e, env, self.state@) == Some((d.0@, d.1@)),
                None => enum_named(self.cx(), *e, env, self.state@) is None,
            },
    {
        match &e.kind {
            ExprKind::Name(n) => match env_get(&self.state, env, n.as_str()) {
                Some(_) => None,
                None => match self.registry.enums.get(n.as_str()) {
                    Some(decl) => Some((n.clone(), share(decl))),
                    None => None,
                },
            },
            _ => None,
        }
    }

    /// The value of a comprehension.
    fn eval_comprehension(&mut self, fuel: u64, c: &Comprehension, span: Span, env: Env) -> (r:
        Result<Value, Stop>)
        ensures
            final(self).cx() == old(self).cx(),
            (seen(r), final(self).state@) == comprehension_evaluated(
                old(self).cx(),
                fuel as nat,
                *c,
                span,
                env,
                old(self).state@,
            ),
        decreases fuel, 3nat,
    {
        let iter_v = self.eval(fuel, &c.iter, env)?;
        let items = iterable_items(&self.state, &iter_v, c.iter.span)?;
        let g = self.gather_turns(fuel, c, &items, span, env)?;
        Ok(
            match &c.output {
                ComprehensionOutput::List(_) => Value::List(self.state.new_list(g.list)),
                ComprehensionOutput::SetOut(_) => Value::SetRef(self.state.new_set(g.set)),
                ComprehensionOutput::MapOut { .. } => Value::MapRef(self.state.new_map(g.map)),
            },
        )
    }

    fn gather_turns(
        &mut self,
        fuel: u64,
        c: &Comprehension,
        items: &Vec<Value>,
        span: Span,
        env: Env,
    ) -> (r: Result<Gathering, Stop>)
        ensures
            final(self).cx() == old(self).cx(),
            (seen(r), final(self).state@) == turns_gathered(
                old(self).cx(),
                fuel as nat,
                *c,
                vals(items@),
                0,
                nothing_gathered(),
                span,
                env,
                old(self).state@,
            ),
        decreases fuel, 2nat,
    {
        let ghost cx = self.cx();
        let ghost start = self.state@;
        let mut g = Gathering { list: Vec::new(), set: Vec::new(), map: Vec::new() };
        assert(g@.map =~= nothing_gathered().map);
        let mut i: usize = 0;
        while i < items.len()
            invariant
                i <= items.len(),
                cx == old(self).cx() && start == old(self).state@,
                self.cx() == cx,
                turns_gathered(
                    cx,
                    fuel as nat,
                    *c,
                    vals(items@),
                    i as nat,
                    g@,
                    span,
                    env,
                    self.state@,
                ) == turns_gathered(
                    cx,
                    fuel as nat,
                    *c,
                    vals(items@),
                    0,
                    nothing_gathered(),
                    span,
                    env,
                    start,
                ),
            decreases items.len() - i,
        {
            let scope = Scope::child(&mut self.state, env);
            bind_binder(&mut self.state, &c.binder, &items[i], scope, span)?;
            let passed = match &c.cond {
                Some(cond) => self.eval_bool_cond(fuel, cond, scope)?,
                None => true,
            };
            if passed {
                g = self.gather(fuel, &c.output, g, scope)?;
            }
            i = i + 1;
        }
        Ok(g)
    }

    fn gather(&mut self, fuel: u64, output: &ComprehensionOutput, so_far: Gathering, scope: Env) -> (r:
        Result<Gathering, Stop>)
        ensures
            final(self).cx() == old(self).cx(),
            (seen(r), final(self).state@) == gathered(
                old(self).cx(),
                fuel as nat,
                *output,
                so_far@,
                scope,
                old(self).state@,
            ),
        decreases fuel, 1nat,
    {
        let mut g = so_far;
        match output {
            ComprehensionOutput::List(e) => {
                let v = self.eval(fuel, e, scope)?;
                g.list.push(v);
            },
            ComprehensionOutput::SetOut(e) => {
                let v = self.eval(fuel, e, scope)?;
                set_insert(&self.state, fuel, &mut g.set, v)?;
            },
            ComprehensionOutput::MapOut { key, value } => {
                let k = self.eval(fuel, key, scope)?;
                let v = self.eval(fuel, value, scope)?;
                map_insert(&self.state, fuel, &mut g.map, k, v)?;
            },
        }
        Ok(g)
    }
}

/// Bind a comprehension's binder to an item.
fn bind_binder(
    state: &mut State,
    binder: &ComprehensionBinder,
    item: &Value,
    scope: Env,
    span: Span,
) -> (r: Result<(), Stop>)
    ensures
        (seen(r), final(state)@) == binder_bound(*binder, item@, scope, span, old(state)@),
{
    match binder {
        ComprehensionBinder::Name(n) => {
            env_define(state, scope, n.as_str(), item.clone(), false);
            Ok(())
        },
        ComprehensionBinder::Tuple(names) => destructure_tuple(
            state,
            names,
            item,
            scope,
            false,
            span,
        ),
    }
}

/// The items that a loop runs over.
pub fn iterable_items(state: &State, v: &Value, span: Span) -> (r: Result<Vec<Value>, Stop>)
    ensures
        seen_vals(r) == iterated(v@, span, state@),
{
    match v {
        Value::List(at) => Ok(state.list_items(*at)),
        other => Err(fail(cat2("cannot iterate over ", type_label(other)), span)),
    }
}

/// The place that an index value names in a list of `len` items.
pub fn list_index(idx: &Value, len: usize, span: Span) -> (r: Result<usize, Stop>)
    ensures
        seen(r) == index_place(idx@, len as nat, span),
        r matches Ok(i) ==> i < len,
{
    match idx {
        Value::Int(n) => {
            if is_negative(n) {
                return Err(
                    fail(cat2("list index out of bounds: ", n.to_text().as_str()), span),
                );
            }
            match to_usize(n) {
                None => Err(
                    fail(cat2("list index out of bounds: ", n.to_text().as_str()), span),
                ),
                Some(i) => {
                    if i >= len {
                        return Err(
                            fail(
                                cat5(
                                    "list index out of bounds: ",
                                    count_text(i).as_str(),
                                    " (len ",
                                    count_text(len).as_str(),
                                    ")",
                                ),
                                span,
                            ),
                        );
                    }
                    Ok(i)
                },
            }
        },
        other => Err(fail(cat2("list index must be Int, found ", type_label(other)), span)),
    }
}

/// The item of a list at an index.
pub fn item_at(state: &State, base: &Value, idx: &Value, span: Span) -> (r: Result<
    Value,
    Stop,
>)
    ensures
        seen(r) == indexed(base@, idx@, span, state@),
{
    match base {
        Value::List(at) => {
            let none: Vec<Value> = Vec::new();
            let items = match state.list(*at) {
                Some(items) => items,
                None => &none,
            };
            assert(vals(items@).len() == items@.len());
            let i = list_index(idx, items.len(), span)?;
            Ok(items[i].clone())
        },
        other => Err(fail(cat2("cannot index ", type_label(other)), span)),
    }
}

/// The field of a struct.
fn member_value(state: &State, base: &Value, name: &str, span: Span) -> (r: Result<Value, Stop>)
    ensures
        seen(r) == member_of(base@, name@, span, state@),
{
    match base {
        Value::Struct(at) => {
            let blank = super::show::blank_instance();
            let inst = match state.instance(*at) {
                Some(inst) => inst,
                None => &blank,
            };
            match inst.fields.get(name) {
                Some(v) => Ok(v.clone()),
                None => Err(
                    fail(
                        cat5(
                            "struct `",
                            inst.struct_name.as_str(),
                            "` has no field `",
                            name,
                            "`",
                        ),
                        span,
                    ),
                ),
            }
        },
        other => Err(
            fail(
                cat2(cat3("cannot access `.", name, "` on ").as_str(), type_label(other)),
                span,
            ),
        ),
    }
}

} // verus!
