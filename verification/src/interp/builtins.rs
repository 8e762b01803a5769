//! The functions of the prelude and the built-in methods.

use super::collections::{
    arg0, arg1, arg2, as_count, as_list, as_set, entry_index, enumerate_values, extreme,
    insert_all, item_index, keep_common, map_entries, map_insert, map_keys, map_values,
    reverse_values, set_insert, skip_values, sort_values, sum_values, take_values, zip_values,
};
use super::heap::pair_vals;
use super::semantics::{
    builtin_called, builtin_method_called, filtered, folded, is_plain_list_method, list_called,
    list_callback, list_plain, list_with_arg, map_called, mapped, method_args_evaluated, predicate,
    result_made, set_called, sought, str_called,
};
use super::show::{show_items, type_label};
use super::value::{
    clone_values, fail, lemma_vals_empty, lemma_vals_push, opt_val, seen, seen_vals, vals, Builtin,
    Env, EnumInstance, Halt, Stop, Val, Value,
};
use super::{no_method, Interp};
use crate::ast::Arg;
use crate::integer::from_usize;
use crate::text::{cat2, cat3, cat5, join, lemma_texts_empty, lemma_texts_push, same_text, Order};
use crate::token::Span;
use std::rc::Rc;
use vstd::prelude::*;
use vstd::string::*;

verus! {

broadcast use {lemma_vals_push, lemma_vals_empty, lemma_texts_push, lemma_texts_empty};

/// What an optional value in a result says.
pub open spec fn seen_opt(r: Result<Option<Value>, Stop>) -> Result<Option<Val>, Halt> {
    match r {
        Ok(v) => Ok(opt_val(v)),
        Err(s) => Err(s@),
    }
}

fn one_value(v: Value) -> (r: Vec<Value>)
    ensures
        vals(r@) == seq![v@],
{
    let mut out: Vec<Value> = Vec::new();
    out.push(v);
    assert(vals(out@) =~= seq![v@]);
    out
}

fn two_values(a: Value, b: Value) -> (r: Vec<Value>)
    ensures
        vals(r@) == seq![a@, b@],
{
    let mut out: Vec<Value> = Vec::new();
    out.push(a);
    out.push(b);
    assert(vals(out@) =~= seq![a@, b@]);
    out
}

/// Build an instance of the prelude's `Result`.
fn construct_result_variant(variant: &str, args: &Vec<Value>, span: Span) -> (r: Result<
    Value,
    Stop,
>)
    ensures
        seen(r) == result_made(variant@, vals(args@), span),
{
    assert(vals(args@).len() == args@.len());
    if args.len() != 1 {
        return Err(fail(cat3("`", variant, "` takes exactly one argument"), span));
    }
    let inst = EnumInstance {
        enum_name: "Result".to_owned(),
        variant: variant.to_owned(),
        payload: one_value(args[0].clone()),
        payload_names: Vec::new(),
    };
    Ok(Value::Enum(Rc::new(inst)))
}

impl Interp {
    /// Call a function of the prelude.
    pub fn call_builtin(&mut self, fuel: u64, b: Builtin, args: Vec<Value>, span: Span) -> (r:
        Result<Value, Stop>)
        ensures
            final(self).cx() == old(self).cx(),
            (seen(r), final(self).state@) == builtin_called(
                old(self).cx(),
                fuel as nat,
                b,
                vals(args@),
                span,
                old(self).state@,
            ),
    {
        assert(vals(args@).len() == args@.len());
        match b {
            Builtin::Print => {
                let parts = show_items(&self.state, &self.floats, fuel, &args)?;
                self.state.print_line(join(&parts, " "), span);
                Ok(Value::Unit)
            },
            Builtin::Panic => {
                if args.len() == 0 {
                    return Err(fail("panic: panic".to_owned(), span));
                }
                let msg = self.panic_message(fuel, &args[0])?;
                Err(fail(cat2("panic: ", msg.as_str()), span))
            },
            Builtin::EmptySet => {
                if args.len() != 0 {
                    return Err(
                        fail(
                            "`Set()` takes no arguments; use `{a, b, …}` for a non-empty set".to_owned(),
                            span,
                        ),
                    );
                }
                Ok(Value::SetRef(self.state.new_set(Vec::new())))
            },
            Builtin::MakeOk => construct_result_variant("Ok", &args, span),
            Builtin::MakeErr => construct_result_variant("Err", &args, span),
        }
    }

    /// Call a built-in method.
    pub fn call_builtin_method(
        &mut self,
        fuel: u64,
        recv: &Value,
        name: &str,
        args: &Vec<Arg>,
        span: Span,
        env: Env,
    ) -> (r: Result<Value, Stop>)
        ensures
            final(self).cx() == old(self).cx(),
            (seen(r), final(self).state@) == builtin_method_called(
                old(self).cx(),
                fuel as nat,
                recv@,
                name@,
                args@,
                span,
                env,
                old(self).state@,
            ),
        decreases fuel, 9nat,
    {
        let arg_vals = self.eval_builtin_args(fuel, name, args, span, env)?;
        match recv {
            Value::List(at) => self.list_method(fuel, *at, name, &arg_vals, span),
            Value::MapRef(at) => self.map_method(fuel, *at, name, &arg_vals, span),
            Value::SetRef(at) => self.set_method(fuel, *at, name, &arg_vals, span),
            Value::Str(s) => str_method(s, name, &arg_vals, span),
            other => Err(Stop::Error(no_method(type_label(other), name, span))),
        }
    }

    /// The values of a built-in method's arguments, of which none may be named.
    fn eval_builtin_args(
        &mut self,
        fuel: u64,
        method: &str,
        args: &Vec<Arg>,
        span: Span,
        env: Env,
    ) -> (r: Result<Vec<Value>, Stop>)
        ensures
            final(self).cx() == old(self).cx(),
            (seen_vals(r), final(self).state@) == method_args_evaluated(
                old(self).cx(),
                fuel as nat,
                method@,
                args@,
                0,
                Seq::empty(),
                span,
                env,
                old(self).state@,
            ),
        decreases fuel, 1nat,
    {
        let ghost cx = self.cx();
        let ghost start = self.state@;
        let mut out: Vec<Value> = Vec::new();
        let mut i: usize = 0;
        while i < args.len()
            invariant
                i <= args.len(),
                cx == old(self).cx() && start == old(self).state@,
                self.cx() == cx,
                method_args_evaluated(
                    cx,
                    fuel as nat,
                    method@,
                    args@,
                    i as nat,
                    vals(out@),
                    span,
                    env,
                    self.state@,
                ) == method_args_evaluated(
                    cx,
                    fuel as nat,
                    method@,
                    args@,
                    0,
                    Seq::empty(),
                    span,
                    env,
                    start,
                ),
            decreases args.len() - i,
        {
            match &args[i] {
                Arg::Positional(e) => {
                    out.push(self.eval(fuel, e, env)?);
                },
                Arg::Named { name, .. } => {
                    return Err(
                        fail(
                            cat5(
                                "built-in method `.",
                                method,
                                "` takes positional arguments only; named argument `",
                                name.as_str(),
                                "` is not allowed",
                            ),
                            span,
                        ),
                    );
                },
            }
            i = i + 1;
        }
        Ok(out)
    }

    /// Call a predicate on an item.
    fn apply_predicate(&mut self, fuel: u64, p: &Value, item: Value, span: Span) -> (r: Result<
        bool,
        Stop,
    >)
        ensures
            final(self).cx() == old(self).cx(),
            (seen(r), final(self).state@) == predicate(
                old(self).cx(),
                fuel as nat,
                p@,
                item@,
                span,
                old(self).state@,
            ),
        decreases fuel, 5nat,
    {
        match self.apply(fuel, p, one_value(item), span)? {
            Value::Bool(b) => Ok(b),
            other => Err(
                fail(cat2("predicate must return Bool, found ", type_label(&other)), span),
            ),
        }
    }

    fn map_items(&mut self, fuel: u64, g: &Value, items: &Vec<Value>, span: Span) -> (r: Result<
        Vec<Value>,
        Stop,
    >)
        ensures
            final(self).cx() == old(self).cx(),
            (seen_vals(r), final(self).state@) == mapped(
                old(self).cx(),
                fuel as nat,
                g@,
                vals(items@),
                0,
                Seq::empty(),
                span,
                old(self).state@,
            ),
        decreases fuel, 6nat,
    {
        let ghost cx = self.cx();
        let ghost start = self.state@;
        let mut out: Vec<Value> = Vec::new();
        let mut i: usize = 0;
        while i < items.len()
            invariant
                i <= items.len(),
                cx == old(self).cx() && start == old(self).state@,
                self.cx() == cx,
                mapped(
                    cx,
                    fuel as nat,
                    g@,
                    vals(items@),
                    i as nat,
                    vals(out@),
                    span,
                    self.state@,
                ) == mapped(cx, fuel as nat, g@, vals(items@), 0, Seq::empty(), span, start),
            decreases items.len() - i,
        {
            let v = self.apply(fuel, g, one_value(items[i].clone()), span)?;
            out.push(v);
            i = i + 1;
        }
        Ok(out)
    }

    fn filter_items(&mut self, fuel: u64, p: &Value, items: &Vec<Value>, span: Span) -> (r: Result<
        Vec<Value>,
        Stop,
    >)
        ensures
            final(self).cx() == old(self).cx(),
            (seen_vals(r), final(self).state@) == filtered(
                old(self).cx(),
                fuel as nat,
                p@,
                vals(items@),
                0,
                Seq::empty(),
                span,
                old(self).state@,
            ),
        decreases fuel, 6nat,
    {
        let ghost cx = self.cx();
        let ghost start = self.state@;
        let mut out: Vec<Value> = Vec::new();
        let mut i: usize = 0;
        while i < items.len()
            invariant
                i <= items.len(),
                cx == old(self).cx() && start == old(self).state@,
                self.cx() == cx,
                filtered(
                    cx,
                    fuel as nat,
                    p@,
                    vals(items@),
                    i as nat,
                    vals(out@),
                    span,
                    self.state@,
                ) == filtered(cx, fuel as nat, p@, vals(items@), 0, Seq::empty(), span, start),
            decreases items.len() - i,
        {
            if self.apply_predicate(fuel, p, items[i].clone(), span)? {
                out.push(items[i].clone());
            }
            i = i + 1;
        }
        Ok(out)
    }

    fn fold_items(
        &mut self,
        fuel: u64,
        g: &Value,
        items: &Vec<Value>,
        from: usize,
        init: Value,
        span: Span,
    ) -> (r: Result<Value, Stop>)
        requires
            from <= items@.len(),
        ensures
            final(self).cx() == old(self).cx(),
            (seen(r), final(self).state@) == folded(
                old(self).cx(),
                fuel as nat,
                g@,
                vals(items@),
                from as nat,
                init@,
                span,
                old(self).state@,
            ),
        decreases fuel, 6nat,
    {
        let ghost cx = self.cx();
        let ghost start = self.state@;
        let ghost first = init@;
        let mut acc = init;
        let mut i: usize = from;
        while i < items.len()
            invariant
                i <= items.len(),
                first == init@,
                cx == old(self).cx() && start == old(self).state@,
                self.cx() == cx,
                folded(
                    cx,
                    fuel as nat,
                    g@,
                    vals(items@),
                    i as nat,
                    acc@,
                    span,
                    self.state@,
                ) == folded(cx, fuel as nat, g@, vals(items@), from as nat, first, span, start),
            decreases items.len() - i,
        {
            acc = self.apply(fuel, g, two_values(acc, items[i].clone()), span)?;
            i = i + 1;
        }
        Ok(acc)
    }

    fn seek_item(&mut self, fuel: u64, p: &Value, items: &Vec<Value>, want: bool, span: Span) -> (r:
        Result<Option<Value>, Stop>)
        ensures
            final(self).cx() == old(self).cx(),
            (seen_opt(r), final(self).state@) == sought(
                old(self).cx(),
                fuel as nat,
                p@,
                vals(items@),
                0,
                want,
                span,
                old(self).state@,
            ),
        decreases fuel, 6nat,
    {
        let ghost cx = self.cx();
        let ghost start = self.state@;
        let mut i: usize = 0;
        while i < items.len()
            invariant
                i <= items.len(),
                cx == old(self).cx() && start == old(self).state@,
                self.cx() == cx,
                sought(
                    cx,
                    fuel as nat,
                    p@,
                    vals(items@),
                    i as nat,
                    want,
                    span,
                    self.state@,
                ) == sought(cx, fuel as nat, p@, vals(items@), 0, want, span, start),
            decreases items.len() - i,
        {
            if self.apply_predicate(fuel, p, items[i].clone(), span)? == want {
                return Ok(Some(items[i].clone()));
            }
            i = i + 1;
        }
        Ok(None)
    }

    /// The methods of a list that call back.
    fn list_callback_method(
        &mut self,
        fuel: u64,
        at: usize,
        name: &str,
        args: &Vec<Value>,
        span: Span,
    ) -> (r: Option<Result<Value, Stop>>)
        ensures
            final(self).cx() == old(self).cx(),
            match r {
                Some(res) => list_callback(
                    old(self).cx(),
                    fuel as nat,
                    at,
                    name@,
                    vals(args@),
                    span,
                    old(self).state@,
                ) == Some((seen(res), final(self).state@)),
                None => list_callback(
                    old(self).cx(),
                    fuel as nat,
                    at,
                    name@,
                    vals(args@),
                    span,
                    old(self).state@,
                ) is None && final(self).state@ == old(self).state@,
            },
        decreases fuel, 7nat,
    {
        if same_text(name, "fold") {
            let (init, g) = match arg2(name, args, span) {
                Ok(two) => two,
                Err(s) => {
                    return Some(Err(s));
                },
            };
            let items = self.state.list_items(at);
            return Some(self.fold_items(fuel, &g, &items, 0, init, span));
        }
        let known = same_text(name, "map") || same_text(name, "filter") || same_text(
            name,
            "reduce",
        ) || same_text(name, "any") || same_text(name, "all") || same_text(name, "find");
        if !known {
            return None;
        }
        let g = match arg1(name, args, span) {
            Ok(g) => g,
            Err(s) => {
                return Some(Err(s));
            },
        };
        let items = self.state.list_items(at);
        assert(vals(items@).len() == items@.len());
        if same_text(name, "map") {
            return Some(
                match self.map_items(fuel, &g, &items, span) {
                    Ok(out) => Ok(Value::List(self.state.new_list(out))),
                    Err(s) => Err(s),
                },
            );
        }
        if same_text(name, "filter") {
            return Some(
                match self.filter_items(fuel, &g, &items, span) {
                    Ok(out) => Ok(Value::List(self.state.new_list(out))),
                    Err(s) => Err(s),
                },
            );
        }
        if same_text(name, "reduce") {
            if items.len() == 0 {
                return Some(
                    Err(fail("`reduce` on an empty list has no result".to_owned(), span)),
                );
            }
            let first = items[0].clone();
            return Some(self.fold_items(fuel, &g, &items, 1, first, span));
        }
        let want = !same_text(name, "all");
        let hit = match self.seek_item(fuel, &g, &items, want, span) {
            Ok(hit) => hit,
            Err(s) => {
                return Some(Err(s));
            },
        };
        if same_text(name, "any") {
            return Some(Ok(Value::Bool(hit.is_some())));
        }
        if same_text(name, "all") {
            return Some(Ok(Value::Bool(hit.is_none())));
        }
        Some(
            Ok(
                match hit {
                    Some(v) => v,
                    None => Value::Null,
                },
            ),
        )
    }

    /// The methods of a list that take one argument and do not call back.
    fn list_arg_method(
        &mut self,
        fuel: u64,
        at: usize,
        name: &str,
        args: &Vec<Value>,
        span: Span,
    ) -> (r: Option<Result<Value, Stop>>)
        ensures
            final(self).cx() == old(self).cx(),
            match r {
                Some(res) => list_with_arg(
                    fuel as nat,
                    at,
                    name@,
                    vals(args@),
                    span,
                    old(self).state@,
                ) == Some((seen(res), final(self).state@)),
                None => list_with_arg(
                    fuel as nat,
                    at,
                    name@,
                    vals(args@),
                    span,
                    old(self).state@,
                ) is None && final(self).state@ == old(self).state@,
            },
    {
        let known = same_text(name, "contains") || same_text(name, "take") || same_text(
            name,
            "skip",
        ) || same_text(name, "zip") || same_text(name, "append");
        if !known {
            return None;
        }
        let x = match arg1(name, args, span) {
            Ok(x) => x,
            Err(s) => {
                return Some(Err(s));
            },
        };
        let none: Vec<Value> = Vec::new();
        let items = match self.state.list(at) {
            Some(items) => items,
            None => &none,
        };
        if same_text(name, "contains") {
            return Some(
                match item_index(&self.state, fuel, items, &x) {
                    Some(hit) => Ok(Value::Bool(hit.is_some())),
                    None => Err(Stop::Budget),
                },
            );
        }
        let out = if same_text(name, "take") {
            match as_count(&x, name, span) {
                Ok(n) => take_values(items, n),
                Err(s) => {
                    return Some(Err(s));
                },
            }
        } else if same_text(name, "skip") {
            match as_count(&x, name, span) {
                Ok(n) => skip_values(items, n),
                Err(s) => {
                    return Some(Err(s));
                },
            }
        } else if same_text(name, "zip") {
            match as_list(&x, name, span) {
                Ok(other) => zip_values(items, &self.state.list_items(other)),
                Err(s) => {
                    return Some(Err(s));
                },
            }
        } else {
            self.state.push_item(at, x);
            return Some(Ok(Value::Unit));
        };
        Some(Ok(Value::List(self.state.new_list(out))))
    }

    /// The methods of a list that take no argument.
    fn list_plain_method(&mut self, fuel: u64, at: usize, name: &str, span: Span) -> (r: Result<
        Value,
        Stop,
    >)
        requires
            is_plain_list_method(name@),
        ensures
            final(self).cx() == old(self).cx(),
            (seen(r), final(self).state@) == list_plain(
                old(self).cx(),
                fuel as nat,
                at,
                name@,
                span,
                old(self).state@,
            ),
    {
        let none: Vec<Value> = Vec::new();
        let items = match self.state.list(at) {
            Some(items) => items,
            None => &none,
        };
        assert(vals(items@).len() == items@.len());
        if same_text(name, "sum") {
            return sum_values(&self.floats, items, span);
        }
        if same_text(name, "count") || same_text(name, "len") {
            return Ok(Value::Int(from_usize(items.len())));
        }
        if same_text(name, "is_empty") {
            return Ok(Value::Bool(items.len() == 0));
        }
        if same_text(name, "first") {
            return Ok(
                if items.len() > 0 {
                    items[0].clone()
                } else {
                    Value::Null
                },
            );
        }
        if same_text(name, "last") {
            return Ok(
                if items.len() > 0 {
                    items[items.len() - 1].clone()
                } else {
                    Value::Null
                },
            );
        }
        if same_text(name, "min") {
            return extreme(&self.state, &self.registry, fuel, items, Order::Less, span);
        }
        if same_text(name, "max") {
            return extreme(&self.state, &self.registry, fuel, items, Order::Greater, span);
        }
        let out = if same_text(name, "enumerate") {
            enumerate_values(items)
        } else if same_text(name, "reverse") {
            reverse_values(items)
        } else if same_text(name, "sorted") {
            sort_values(&self.state, &self.registry, fuel, items, span)?
        } else if same_text(name, "sort") {
            let out = sort_values(&self.state, &self.registry, fuel, items, span)?;
            self.state.set_list(at, out);
            return Ok(Value::Unit);
        } else if same_text(name, "collect") {
            clone_values(items)
        } else {
            return Ok(
                match self.state.pop_item(at) {
                    Some(v) => v,
                    None => Value::Null,
                },
            );
        };
        Ok(Value::List(self.state.new_list(out)))
    }

    /// Call a method on a list.
    pub fn list_method(
        &mut self,
        fuel: u64,
        at: usize,
        name: &str,
        args: &Vec<Value>,
        span: Span,
    ) -> (r: Result<Value, Stop>)
        ensures
            final(self).cx() == old(self).cx(),
            (seen(r), final(self).state@) == list_called(
                old(self).cx(),
                fuel as nat,
                at,
                name@,
                vals(args@),
                span,
                old(self).state@,
            ),
        decreases fuel, 8nat,
    {
        if let Some(res) = self.list_callback_method(fuel, at, name, args, span) {
            return res;
        }
        if let Some(res) = self.list_arg_method(fuel, at, name, args, span) {
            return res;
        }
        if plain_list_method(name) {
            arg0(name, args, span)?;
            return self.list_plain_method(fuel, at, name, span);
        }
        Err(Stop::Error(no_method("List", name, span)))
    }

    /// Call a method on a map.
    pub fn map_method(
        &mut self,
        fuel: u64,
        at: usize,
        name: &str,
        args: &Vec<Value>,
        span: Span,
    ) -> (r: Result<Value, Stop>)
        ensures
            final(self).cx() == old(self).cx(),
            (seen(r), final(self).state@) == map_called(
                fuel as nat,
                at,
                name@,
                vals(args@),
                span,
                old(self).state@,
            ),
    {
        if same_text(name, "insert") {
            let (k, v) = arg2(name, args, span)?;
            let mut pairs = self.state.map_pairs(at);
            map_insert(&self.state, fuel, &mut pairs, k, v)?;
            self.state.set_map(at, pairs);
            return Ok(Value::Unit);
        }
        let none: Vec<(Value, Value)> = Vec::new();
        assert(pair_vals(none@) =~= Seq::<(Val, Val)>::empty());
        let pairs = match self.state.map(at) {
            Some(pairs) => pairs,
            None => &none,
        };
        assert(pair_vals(pairs@).len() == pairs@.len());
        if same_text(name, "get") || same_text(name, "contains") || same_text(name, "has") {
            let k = arg1(name, args, span)?;
            let hit = match entry_index(&self.state, fuel, pairs, &k) {
                Some(hit) => hit,
                None => {
                    return Err(Stop::Budget);
                },
            };
            if same_text(name, "get") {
                return Ok(
                    match hit {
                        Some(j) => pairs[j].1.clone(),
                        None => Value::Null,
                    },
                );
            }
            return Ok(Value::Bool(hit.is_some()));
        }
        let out = if same_text(name, "keys") {
            arg0(name, args, span)?;
            map_keys(pairs)
        } else if same_text(name, "values") {
            arg0(name, args, span)?;
            map_values(pairs)
        } else if same_text(name, "items") {
            arg0(name, args, span)?;
            map_entries(pairs)
        } else if same_text(name, "len") {
            arg0(name, args, span)?;
            return Ok(Value::Int(from_usize(pairs.len())));
        } else {
            return Err(Stop::Error(no_method("Map", name, span)));
        };
        Ok(Value::List(self.state.new_list(out)))
    }

    /// Call a method on a set.
    pub fn set_method(
        &mut self,
        fuel: u64,
        at: usize,
        name: &str,
        args: &Vec<Value>,
        span: Span,
    ) -> (r: Result<Value, Stop>)
        ensures
            final(self).cx() == old(self).cx(),
            (seen(r), final(self).state@) == set_called(
                fuel as nat,
                at,
                name@,
                vals(args@),
                span,
                old(self).state@,
            ),
    {
        if same_text(name, "insert") {
            let x = arg1(name, args, span)?;
            let mut items = self.state.set_items(at);
            set_insert(&self.state, fuel, &mut items, x)?;
            self.state.set_set(at, items);
            return Ok(Value::Unit);
        }
        let none: Vec<Value> = Vec::new();
        let items = match self.state.set(at) {
            Some(items) => items,
            None => &none,
        };
        assert(vals(items@).len() == items@.len());
        if same_text(name, "contains") {
            let x = arg1(name, args, span)?;
            return match item_index(&self.state, fuel, items, &x) {
                Some(hit) => Ok(Value::Bool(hit.is_some())),
                None => Err(Stop::Budget),
            };
        }
        let out = if same_text(name, "union") {
            let x = arg1(name, args, span)?;
            let other = as_set(&x, name, span)?;
            insert_all(&self.state, fuel, clone_values(items), &self.state.set_items(other))?
        } else if same_text(name, "intersect") {
            let x = arg1(name, args, span)?;
            let other = as_set(&x, name, span)?;
            keep_common(&self.state, fuel, items, &self.state.set_items(other))?
        } else if same_text(name, "len") {
            arg0(name, args, span)?;
            return Ok(Value::Int(from_usize(items.len())));
        } else {
            return Err(Stop::Error(no_method("Set", name, span)));
        };
        Ok(Value::SetRef(self.state.new_set(out)))
    }
}

/// Whether a list has a method of this name that takes no argument.
fn plain_list_method(name: &str) -> (r: bool)
    ensures
        r == is_plain_list_method(name@),
{
    same_text(name, "sum") || same_text(name, "count") || same_text(name, "len") || same_text(
        name,
        "is_empty",
    ) || same_text(name, "first") || same_text(name, "last") || same_text(name, "min")
        || same_text(name, "max") || same_text(name, "enumerate") || same_text(name, "reverse")
        || same_text(name, "sorted") || same_text(name, "sort") || same_text(name, "collect")
        || same_text(name, "pop_last")
}

/// Call a method on a text.
pub fn str_method(s: &String, name: &str, args: &Vec<Value>, span: Span) -> (r: Result<
    Value,
    Stop,
>)
    ensures
        seen(r) == str_called(s@, name@, vals(args@), span),
{
    if same_text(name, "len") {
        arg0(name, args, span)?;
        return Ok(Value::Int(from_usize(s.as_str().unicode_len())));
    }
    Err(Stop::Error(no_method("String", name, span)))
}

} // verus!
