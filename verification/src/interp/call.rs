//! Calls, construction and method dispatch.

use super::env::{env_define, env_get, root_of};
use super::semantics::{
    all_named, all_positional, applied, arg_named, args_evaluated, args_filled, args_split,
    arity_halt, call_bound, call_evaluated, closure_called, fields_by_name, fields_in_order,
    function_called, member_called, method_called, missing_field, named_in_place, no_payload,
    panic_text, param_count, params_bound, params_filled, payload_by_name, payload_count_halt,
    payload_in_order, payload_made, payload_positional, required_from, struct_finished, struct_made,
    struct_named, variant_made, Payloads,
};
use super::show::{show, type_label, variant_place};
use super::value::{
    fail, lemma_vals_empty, lemma_vals_push, seen, seen_vals, share, vals, Closure, ClosureKind,
    Env, EnumInstance, Scope, Stop, StructInstance, Val, Value,
};
use super::{arity_error, bind_all, no_method, Interp};
use crate::ast::{payload_shape, Arg, EnumDecl, Expr, ExprKind, FnDecl, Param, Payload, StructDecl};
use crate::name_map::NameMap;
use crate::text::{
    cat2, cat3, cat5, count_text, lemma_texts_empty, lemma_texts_push, same_text, texts,
};
use crate::token::Span;
use std::rc::Rc;
use vstd::prelude::*;
use vstd::string::*;

verus! {

broadcast use {lemma_vals_push, lemma_vals_empty, lemma_texts_push, lemma_texts_empty};

/// Payload values and their names.
pub struct PayloadParts {
    pub values: Vec<Value>,
    pub names: Vec<String>,
}

impl View for PayloadParts {
    type V = Payloads;

    open spec fn view(&self) -> Payloads {
        Payloads { values: vals(self.values@), names: texts(self.names@) }
    }
}

/// Arguments sorted into those by position and those by name.
pub struct SplitArgs {
    pub pos: Vec<Value>,
    pub named: NameMap<Value>,
}

impl View for SplitArgs {
    type V = (Seq<Val>, Seq<(Seq<char>, Val)>);

    open spec fn view(&self) -> (Seq<Val>, Seq<(Seq<char>, Val)>) {
        (vals(self.pos@), self.named@)
    }
}

/// How many parameters a call fills.
fn count_params(params: &Vec<Param>) -> (r: usize)
    ensures
        r == param_count(params@, 0),
{
    let mut n: usize = 0;
    let mut i: usize = 0;
    while i < params.len()
        invariant
            n <= i <= params.len(),
            n + param_count(params@, i as nat) == param_count(params@, 0),
        decreases params.len() - i,
    {
        if let Param::Named { .. } = &params[i] {
            n = n + 1;
        }
        i = i + 1;
    }
    n
}

/// How many of them come before the first that has a default.
pub fn required_count(params: &Vec<Param>) -> (r: usize)
    ensures
        r == required_from(params@, 0),
{
    let mut n: usize = 0;
    let mut i: usize = 0;
    while i < params.len()
        invariant
            n <= i <= params.len(),
            n + required_from(params@, i as nat) == required_from(params@, 0),
        decreases params.len() - i,
    {
        match &params[i] {
            Param::SelfRecv => {},
            Param::Named { default, .. } => {
                if default.is_some() {
                    return n;
                }
                n = n + 1;
            },
        }
        i = i + 1;
    }
    n
}

fn arity_stop(fn_name: &str, params: &Vec<Param>, got: usize, span: Span) -> (r: Stop)
    ensures
        r@ == arity_halt(fn_name@, params@, got as nat, span),
{
    Stop::Error(arity_error(fn_name, required_count(params), count_params(params), got, span))
}

fn args_all_named(args: &Vec<Arg>) -> (r: bool)
    ensures
        r == all_named(args@),
{
    let mut i: usize = 0;
    while i < args.len()
        invariant
            i <= args.len(),
            forall|j: int| 0 <= j < i ==> (#[trigger] args@[j]) is Named,
        decreases args.len() - i,
    {
        if let Arg::Positional(_) = &args[i] {
            assert(!(args@[i as int] is Named));
            return false;
        }
        i = i + 1;
    }
    true
}

fn args_all_positional(args: &Vec<Arg>) -> (r: bool)
    ensures
        r == all_positional(args@),
{
    let mut i: usize = 0;
    while i < args.len()
        invariant
            i <= args.len(),
            forall|j: int| 0 <= j < i ==> (#[trigger] args@[j]) is Positional,
        decreases args.len() - i,
    {
        if let Arg::Named { .. } = &args[i] {
            assert(!(args@[i as int] is Positional));
            return false;
        }
        i = i + 1;
    }
    true
}

/// The first argument that is given by this name.
fn find_named<'a>(args: &'a Vec<Arg>, name: &str) -> (r: Option<&'a Expr>)
    ensures
        match r {
            Some(e) => arg_named(args@, name@, 0) == Some(*e),
            None => arg_named(args@, name@, 0) is None,
        },
{
    let mut i: usize = 0;
    while i < args.len()
        invariant
            i <= args.len(),
            arg_named(args@, name@, i as nat) == arg_named(args@, name@, 0),
        decreases args.len() - i,
    {
        if let Arg::Named { name: n, value } = &args[i] {
            if same_text(n.as_str(), name) {
                return Some(value);
            }
        }
        i = i + 1;
    }
    None
}

impl Interp {
    /// The value of a call expression.
    pub fn eval_call(
        &mut self,
        fuel: u64,
        callee: &Expr,
        args: &Vec<Arg>,
        span: Span,
        env: Env,
    ) -> (r: Result<Value, Stop>)
        ensures
            final(self).cx() == old(self).cx(),
            (seen(r), final(self).state@) == call_evaluated(
                old(self).cx(),
                fuel as nat,
                *callee,
                args@,
                span,
                env,
                old(self).state@,
            ),
        decreases fuel, 12nat,
    {
        if let ExprKind::Member { base, name, safe } = &callee.kind {
            return self.eval_member_call(fuel, base, name.as_str(), *safe, args, span, env);
        }
        if let Some(decl) = self.named_struct(callee, env) {
            return self.construct_struct(fuel, &decl.1, decl.0.as_str(), args, span, env);
        }
        let callee_v = self.eval(fuel, callee, env)?;
        if let Value::Closure(c) = &callee_v {
            if let ClosureKind::Function(decl) = &c.kind {
                let scope = Scope::child(&mut self.state, c.env);
                return self.call_function(fuel, decl, args, scope, span, env);
            }
        }
        let arg_vals = self.eval_positional_args(fuel, args, span, env)?;
        self.apply(fuel, &callee_v, arg_vals, span)
    }

    /// The struct that an expression names.
    fn named_struct(&self, e: &Expr, env: Env) -> (r: Option<(String, Rc<StructDecl>)>)
        ensures
            match r {
                Some(d) => struct_named(self.cx(), *e, env, self.state@) == Some((d.0@, d.1@)),
                None => struct_named(self.cx(), *e, env, self.state@) is None,
            },
    {
        match &e.kind {
            ExprKind::Name(n) => match env_get(&self.state, env, n.as_str()) {
                Some(_) => None,
                None => match self.registry.structs.get(n.as_str()) {
                    Some(decl) => Some((n.clone(), share(decl))),
                    None => None,
                },
            },
            _ => None,
        }
    }

    /// Call a declared function or method in the given scope.
    fn call_function(
        &mut self,
        fuel: u64,
        decl: &Rc<FnDecl>,
        args: &Vec<Arg>,
        scope: Env,
        span: Span,
        env: Env,
    ) -> (r: Result<Value, Stop>)
        ensures
            final(self).cx() == old(self).cx(),
            (seen(r), final(self).state@) == function_called(
                old(self).cx(),
                fuel as nat,
                **decl,
                args@,
                scope,
                span,
                env,
                old(self).state@,
            ),
        decreases fuel, 3nat,
    {
        self.bind_call(fuel, &decl.params, args, scope, decl.name.as_str(), span, env)?;
        let body = self.exec_stmts(fuel, &decl.body.stmts, scope);
        self.finish_body(body, "`break`/`continue` outside a loop", span)
    }

    /// The value of `base.name(args)` or `base?.name(args)`.
    fn eval_member_call(
        &mut self,
        fuel: u64,
        base: &Expr,
        name: &str,
        safe: bool,
        args: &Vec<Arg>,
        span: Span,
        env: Env,
    ) -> (r: Result<Value, Stop>)
        ensures
            final(self).cx() == old(self).cx(),
            (seen(r), final(self).state@) == member_called(
                old(self).cx(),
                fuel as nat,
                *base,
                name@,
                safe,
                args@,
                span,
                env,
                old(self).state@,
            ),
        decreases fuel, 11nat,
    {
        if !safe {
            if let Some(decl) = self.named_enum(base, env) {
                return self.construct_variant(
                    fuel,
                    &decl.1,
                    decl.0.as_str(),
                    name,
                    args,
                    span,
                    env,
                );
            }
        }
        let recv = self.eval(fuel, base, env)?;
        let is_null = if let Value::Null = &recv {
            true
        } else {
            false
        };
        if safe && is_null {
            return Ok(Value::Null);
        }
        if same_text(name, "or_else") {
            let arg_vals = self.eval_positional_args(fuel, args, span, env)?;
            assert(vals(arg_vals@).len() == arg_vals@.len());
            if arg_vals.len() != 1 {
                return Err(fail("`.or_else` takes exactly one argument".to_owned(), span));
            }
            return Ok(
                if is_null {
                    arg_vals[0].clone()
                } else {
                    recv
                },
            );
        }
        self.call_method(fuel, recv, name, args, span, env)
    }

    /// The values of arguments, of which none may be named.
    fn eval_positional_args(&mut self, fuel: u64, args: &Vec<Arg>, span: Span, env: Env) -> (r:
        Result<Vec<Value>, Stop>)
        ensures
            final(self).cx() == old(self).cx(),
            (seen_vals(r), final(self).state@) == args_evaluated(
                old(self).cx(),
                fuel as nat,
                args@,
                0,
                Seq::empty(),
                span,
                env,
                old(self).state@,
            ),
        decreases fuel, 1nat,
    {
        let ghost cx = self.cx();
        let ghost start = self.state@;
        let mut out: Vec<Value> = Vec::new();
        let mut i: usize = 0;
        while i < args.len()
            invariant
                i <= args.len(),
                cx == old(self).cx() && start == old(self).state@,
                self.cx() == cx,
                args_evaluated(
                    cx,
                    fuel as nat,
                    args@,
                    i as nat,
                    vals(out@),
                    span,
                    env,
                    self.state@,
                ) == args_evaluated(cx, fuel as nat, args@, 0, Seq::empty(), span, env, start),
            decreases args.len() - i,
        {
            match &args[i] {
                Arg::Positional(e) => {
                    out.push(self.eval(fuel, e, env)?);
                },
                Arg::Named { name, .. } => {
                    return Err(
                        fail(
                            cat3(
                                "named argument `",
                                name.as_str(),
                                "` is only valid in construction",
                            ),
                            span,
                        ),
                    );
                },
            }
            i = i + 1;
        }
        Ok(out)
    }

    /// Call a value with values.
    pub fn apply(&mut self, fuel: u64, callee: &Value, args: Vec<Value>, span: Span) -> (r:
        Result<Value, Stop>)
        ensures
            final(self).cx() == old(self).cx(),
            (seen(r), final(self).state@) == applied(
                old(self).cx(),
                fuel as nat,
                callee@,
                vals(args@),
                span,
                old(self).state@,
            ),
        decreases fuel, 4nat,
    {
        match callee {
            Value::Closure(c) => self.call_closure(fuel, c, args, span),
            Value::Builtin(b) => self.call_builtin(fuel, *b, args, span),
            other => Err(fail(cat2(type_label(other), " is not callable"), span)),
        }
    }

    /// Call a closure with values.
    pub fn call_closure(
        &mut self,
        fuel: u64,
        closure: &Closure,
        args: Vec<Value>,
        span: Span,
    ) -> (r: Result<Value, Stop>)
        ensures
            final(self).cx() == old(self).cx(),
            (seen(r), final(self).state@) == closure_called(
                old(self).cx(),
                fuel as nat,
                closure@,
                vals(args@),
                span,
                old(self).state@,
            ),
        decreases fuel, 3nat,
    {
        let scope = Scope::child(&mut self.state, closure.env);
        match &closure.kind {
            ClosureKind::Function(decl) => {
                self.bind_params(fuel, &decl.params, &args, scope, decl.name.as_str(), span)?;
                let body = self.exec_stmts(fuel, &decl.body.stmts, scope);
                self.finish_body(body, "`break`/`continue` outside a loop", span)
            },
            ClosureKind::Lambda(l) => {
                assert(vals(args@).len() == args@.len());
                if args.len() != l.params.len() {
                    return Err(
                        fail(
                            cat2(
                                cat3(
                                    "lambda expects ",
                                    count_text(l.params.len()).as_str(),
                                    " argument(s), got ",
                                ).as_str(),
                                count_text(args.len()).as_str(),
                            ),
                            span,
                        ),
                    );
                }
                bind_all(&mut self.state, scope, &l.params, &args, false);
                match self.eval(fuel, &l.body, scope) {
                    Ok(v) => Ok(v),
                    Err(s) => self.intercept_propagation(s),
                }
            },
        }
    }

    /// Bind parameters to values; defaults fill what is left.
    fn bind_params(
        &mut self,
        fuel: u64,
        params: &Vec<Param>,
        args: &Vec<Value>,
        scope: Env,
        fn_name: &str,
        span: Span,
    ) -> (r: Result<(), Stop>)
        ensures
            final(self).cx() == old(self).cx(),
            (seen(r), final(self).state@) == params_bound(
                old(self).cx(),
                fuel as nat,
                params@,
                vals(args@),
                scope,
                fn_name@,
                span,
                old(self).state@,
            ),
        decreases fuel, 2nat,
    {
        assert(vals(args@).len() == args@.len());
        if args.len() < required_count(params) || args.len() > count_params(params) {
            return Err(arity_stop(fn_name, params, args.len(), span));
        }
        let ghost cx = self.cx();
        let ghost start = self.state@;
        let mut k: usize = 0;
        let mut i: usize = 0;
        while i < params.len()
            invariant
                k <= i <= params.len(),
                vals(args@).len() == args@.len(),
                cx == old(self).cx() && start == old(self).state@,
                self.cx() == cx,
                params_filled(
                    cx,
                    fuel as nat,
                    params@,
                    i as nat,
                    k as nat,
                    vals(args@),
                    scope,
                    fn_name@,
                    span,
                    self.state@,
                ) == params_bound(
                    cx,
                    fuel as nat,
                    params@,
                    vals(args@),
                    scope,
                    fn_name@,
                    span,
                    start,
                ),
            decreases params.len() - i,
        {
            match &params[i] {
                Param::SelfRecv => {},
                Param::Named { name, default, .. } => {
                    let v = if k < args.len() {
                        args[k].clone()
                    } else {
                        match default {
                            Some(e) => self.eval(fuel, e, scope)?,
                            None => {
                                return Err(arity_stop(fn_name, params, args.len(), span));
                            },
                        }
                    };
                    env_define(&mut self.state, scope, name.as_str(), v, false);
                    k = k + 1;
                },
            }
            i = i + 1;
        }
        Ok(())
    }

    /// Sort the arguments of a call into those by position and those by name.
    fn split_args(
        &mut self,
        fuel: u64,
        args: &Vec<Arg>,
        fn_name: &str,
        span: Span,
        env: Env,
    ) -> (r: Result<SplitArgs, Stop>)
        ensures
            final(self).cx() == old(self).cx(),
            (seen(r), final(self).state@) == args_split(
                old(self).cx(),
                fuel as nat,
                args@,
                0,
                Seq::empty(),
                Seq::empty(),
                fn_name@,
                span,
                env,
                old(self).state@,
            ),
        decreases fuel, 1nat,
    {
        let ghost cx = self.cx();
        let ghost start = self.state@;
        let mut pos: Vec<Value> = Vec::new();
        let mut named: NameMap<Value> = NameMap::new();
        let mut i: usize = 0;
        while i < args.len()
            invariant
                i <= args.len(),
                cx == old(self).cx() && start == old(self).state@,
                self.cx() == cx,
                args_split(
                    cx,
                    fuel as nat,
                    args@,
                    i as nat,
                    vals(pos@),
                    named@,
                    fn_name@,
                    span,
                    env,
                    self.state@,
                ) == args_split(
                    cx,
                    fuel as nat,
                    args@,
                    0,
                    Seq::empty(),
                    Seq::empty(),
                    fn_name@,
                    span,
                    env,
                    start,
                ),
            decreases args.len() - i,
        {
            match &args[i] {
                Arg::Positional(e) => {
                    if named.len() > 0 {
                        return Err(
                            fail(
                                cat3(
                                    "`",
                                    fn_name,
                                    "`: positional argument after a named argument",
                                ),
                                span,
                            ),
                        );
                    }
                    pos.push(self.eval(fuel, e, env)?);
                },
                Arg::Named { name, value } => {
                    if named.contains(name.as_str()) {
                        return Err(
                            fail(
                                cat5("`", fn_name, "`: duplicate argument `", name.as_str(), "`"),
                                span,
                            ),
                        );
                    }
                    let v = self.eval(fuel, value, env)?;
                    named.insert(name.clone(), v);
                },
            }
            i = i + 1;
        }
        Ok(SplitArgs { pos, named })
    }

    /// Bind parameters to arguments by position, then by name, then to defaults.
    fn fill_args(
        &mut self,
        fuel: u64,
        params: &Vec<Param>,
        split: SplitArgs,
        scope: Env,
        fn_name: &str,
        span: Span,
    ) -> (r: Result<NameMap<Value>, Stop>)
        ensures
            final(self).cx() == old(self).cx(),
            (seen(r), final(self).state@) == args_filled(
                old(self).cx(),
                fuel as nat,
                params@,
                0,
                0,
                split@.0,
                split@.1,
                scope,
                fn_name@,
                span,
                old(self).state@,
            ),
        decreases fuel, 1nat,
    {
        let ghost cx = self.cx();
        let ghost start = self.state@;
        let ghost whole = split@;
        let pos = split.pos;
        let mut named = split.named;
        assert(vals(pos@).len() == pos@.len());
        let mut k: usize = 0;
        let mut i: usize = 0;
        while i < params.len()
            invariant
                k <= i <= params.len(),
                whole == split@,
                vals(pos@).len() == pos@.len(),
                cx == old(self).cx() && start == old(self).state@,
                self.cx() == cx,
                args_filled(
                    cx,
                    fuel as nat,
                    params@,
                    i as nat,
                    k as nat,
                    vals(pos@),
                    named@,
                    scope,
                    fn_name@,
                    span,
                    self.state@,
                ) == args_filled(
                    cx,
                    fuel as nat,
                    params@,
                    0,
                    0,
                    whole.0,
                    whole.1,
                    scope,
                    fn_name@,
                    span,
                    start,
                ),
            decreases params.len() - i,
        {
            match &params[i] {
                Param::SelfRecv => {},
                Param::Named { name, default, .. } => {
                    let v = if k < pos.len() {
                        if named.contains(name.as_str()) {
                            return Err(
                                fail(
                                    cat5(
                                        "`",
                                        fn_name,
                                        "`: argument `",
                                        name.as_str(),
                                        "` given both positionally and by name",
                                    ),
                                    span,
                                ),
                            );
                        }
                        k = k + 1;
                        pos[k - 1].clone()
                    } else if named.contains(name.as_str()) {
                        match named.remove(name.as_str()) {
                            Some(v) => v,
                            None => Value::Unit,
                        }
                    } else {
                        match default {
                            Some(e) => self.eval(fuel, e, scope)?,
                            None => {
                                return Err(
                                    fail(
                                        cat5(
                                            "`",
                                            fn_name,
                                            "`: missing argument `",
                                            name.as_str(),
                                            "`",
                                        ),
                                        span,
                                    ),
                                );
                            },
                        }
                    };
                    env_define(&mut self.state, scope, name.as_str(), v, false);
                },
            }
            i = i + 1;
        }
        Ok(named)
    }

    /// Bind the parameters of a function to the arguments of a call.
    fn bind_call(
        &mut self,
        fuel: u64,
        params: &Vec<Param>,
        args: &Vec<Arg>,
        scope: Env,
        fn_name: &str,
        span: Span,
        env: Env,
    ) -> (r: Result<(), Stop>)
        ensures
            final(self).cx() == old(self).cx(),
            (seen(r), final(self).state@) == call_bound(
                old(self).cx(),
                fuel as nat,
                params@,
                args@,
                scope,
                fn_name@,
                span,
                env,
                old(self).state@,
            ),
        decreases fuel, 2nat,
    {
        let split = self.split_args(fuel, args, fn_name, span, env)?;
        assert(vals(split.pos@).len() == split.pos@.len());
        if split.pos.len() > count_params(params) {
            return Err(arity_stop(fn_name, params, split.pos.len(), span));
        }
        let left = self.fill_args(fuel, params, split, scope, fn_name, span)?;
        if left.len() > 0 {
            assert(left@[0] == (left.entries@[0].0@, left.entries@[0].1@));
            return Err(
                fail(
                    cat5(
                        "`",
                        fn_name,
                        "` has no parameter named `",
                        left.entries[0].0.as_str(),
                        "`",
                    ),
                    span,
                ),
            );
        }
        Ok(())
    }

    /// The message of a `panic` or a failed `.expect`.
    pub fn panic_message(&self, fuel: u64, v: &Value) -> (r: Result<String, Stop>)
        ensures
            seen(r) == panic_text(self.cx(), fuel as nat, v@, self.state@),
    {
        match v {
            Value::Str(s) => Ok(s.clone()),
            other => show(&self.state, &self.floats, fuel, other),
        }
    }

    /// Call a method on a value.
    fn call_method(
        &mut self,
        fuel: u64,
        recv: Value,
        name: &str,
        args: &Vec<Arg>,
        span: Span,
        env: Env,
    ) -> (r: Result<Value, Stop>)
        ensures
            final(self).cx() == old(self).cx(),
            (seen(r), final(self).state@) == method_called(
                old(self).cx(),
                fuel as nat,
                recv@,
                name@,
                args@,
                span,
                env,
                old(self).state@,
            ),
        decreases fuel, 10nat,
    {
        if same_text(name, "expect") {
            let arg_vals = self.eval_positional_args(fuel, args, span, env)?;
            assert(vals(arg_vals@).len() == arg_vals@.len());
            if arg_vals.len() != 1 {
                return Err(fail("`.expect` takes exactly one argument".to_owned(), span));
            }
            if let Value::Null = &recv {
                let msg = self.panic_message(fuel, &arg_vals[0])?;
                return Err(fail(cat2("panic: ", msg.as_str()), span));
            }
            return Ok(recv);
        }
        let owner: String = match &recv {
            Value::Struct(at) => match self.state.instance(*at) {
                Some(inst) => inst.struct_name.clone(),
                None => String::new(),
            },
            Value::Enum(e) => e.enum_name.clone(),
            _ => {
                return self.call_builtin_method(fuel, &recv, name, args, span, env);
            },
        };
        let method = match self.registry.method(owner.as_str(), name) {
            Some(m) => m,
            None => {
                return Err(Stop::Error(no_method(owner.as_str(), name, span)));
            },
        };
        let root = root_of(&self.state, env);
        let scope = Scope::child(&mut self.state, root);
        env_define(&mut self.state, scope, "self", recv, false);
        self.call_function(fuel, &method, args, scope, span, env)
    }

    /// Build a struct.
    fn construct_struct(
        &mut self,
        fuel: u64,
        decl: &Rc<StructDecl>,
        name: &str,
        args: &Vec<Arg>,
        span: Span,
        env: Env,
    ) -> (r: Result<Value, Stop>)
        ensures
            final(self).cx() == old(self).cx(),
            (seen(r), final(self).state@) == struct_made(
                old(self).cx(),
                fuel as nat,
                decl@,
                name@,
                args@,
                span,
                env,
                old(self).state@,
            ),
        decreases fuel, 2nat,
    {
        let order = field_names(decl);
        let named = args_all_named(args);
        if args.len() > 0 && !named && !args_all_positional(args) {
            return Err(
                fail(
                    cat3("`", name, "` construction mixes positional and named arguments"),
                    span,
                ),
            );
        }
        let fields = if args.len() > 0 && named {
            self.named_fields(fuel, &order, args, name, span, env)?
        } else {
            if args.len() != order.len() {
                return Err(
                    fail(
                        cat2(
                            cat5(
                                "struct `",
                                name,
                                "` expects ",
                                count_text(order.len()).as_str(),
                                " field(s), got ",
                            ).as_str(),
                            count_text(args.len()).as_str(),
                        ),
                        span,
                    ),
                );
            }
            self.ordered_fields(fuel, &order, args, env)?
        };
        let mut i: usize = 0;
        while i < order.len()
            invariant
                i <= order.len(),
                texts(order@) == decl@.fields,
                self.cx() == old(self).cx(),
                struct_finished(decl@, name@, (Ok(fields@), self.state@), span) == struct_made(
                    old(self).cx(),
                    fuel as nat,
                    decl@,
                    name@,
                    args@,
                    span,
                    env,
                    old(self).state@,
                ),
                missing_field(decl@.fields, fields@, i as nat) == missing_field(
                    decl@.fields,
                    fields@,
                    0,
                ),
            decreases order.len() - i,
        {
            assert(decl@.fields[i as int] == order@[i as int]@);
            if !fields.contains(order[i].as_str()) {
                return Err(
                    fail(
                        cat5(
                            "struct `",
                            name,
                            "` is missing field `",
                            order[i].as_str(),
                            "`",
                        ),
                        span,
                    ),
                );
            }
            i = i + 1;
        }
        let inst = StructInstance { struct_name: name.to_owned(), fields, field_order: order };
        Ok(Value::Struct(self.state.new_struct(inst)))
    }

    fn named_fields(
        &mut self,
        fuel: u64,
        order: &Vec<String>,
        args: &Vec<Arg>,
        name: &str,
        span: Span,
        env: Env,
    ) -> (r: Result<NameMap<Value>, Stop>)
        ensures
            final(self).cx() == old(self).cx(),
            (seen(r), final(self).state@) == fields_by_name(
                old(self).cx(),
                fuel as nat,
                texts(order@),
                args@,
                0,
                Seq::empty(),
                name@,
                span,
                env,
                old(self).state@,
            ),
        decreases fuel, 1nat,
    {
        let ghost cx = self.cx();
        let ghost start = self.state@;
        let mut fields: NameMap<Value> = NameMap::new();
        let mut i: usize = 0;
        while i < args.len()
            invariant
                i <= args.len(),
                cx == old(self).cx() && start == old(self).state@,
                self.cx() == cx,
                fields_by_name(
                    cx,
                    fuel as nat,
                    texts(order@),
                    args@,
                    i as nat,
                    fields@,
                    name@,
                    span,
                    env,
                    self.state@,
                ) == fields_by_name(
                    cx,
                    fuel as nat,
                    texts(order@),
                    args@,
                    0,
                    Seq::empty(),
                    name@,
                    span,
                    env,
                    start,
                ),
            decreases args.len() - i,
        {
            match &args[i] {
                Arg::Named { name: field, value } => {
                    if !super::registry::has_text(order, field.as_str()) {
                        return Err(
                            fail(
                                cat5("struct `", name, "` has no field `", field.as_str(), "`"),
                                span,
                            ),
                        );
                    }
                    let v = self.eval(fuel, value, env)?;
                    fields.insert(field.clone(), v);
                },
                Arg::Positional(_) => {},
            }
            i = i + 1;
        }
        Ok(fields)
    }

    fn ordered_fields(&mut self, fuel: u64, order: &Vec<String>, args: &Vec<Arg>, env: Env) -> (r:
        Result<NameMap<Value>, Stop>)
        ensures
            final(self).cx() == old(self).cx(),
            (seen(r), final(self).state@) == fields_in_order(
                old(self).cx(),
                fuel as nat,
                texts(order@),
                args@,
                0,
                Seq::empty(),
                env,
                old(self).state@,
            ),
        decreases fuel, 1nat,
    {
        let ghost cx = self.cx();
        let ghost start = self.state@;
        let mut fields: NameMap<Value> = NameMap::new();
        let mut i: usize = 0;
        while i < args.len() && i < order.len()
            invariant
                i <= args.len(),
                cx == old(self).cx() && start == old(self).state@,
                self.cx() == cx,
                fields_in_order(
                    cx,
                    fuel as nat,
                    texts(order@),
                    args@,
                    i as nat,
                    fields@,
                    env,
                    self.state@,
                ) == fields_in_order(
                    cx,
                    fuel as nat,
                    texts(order@),
                    args@,
                    0,
                    Seq::empty(),
                    env,
                    start,
                ),
            decreases args.len() - i,
        {
            match &args[i] {
                Arg::Positional(e) => {
                    let v = self.eval(fuel, e, env)?;
                    fields.insert(order[i].clone(), v);
                },
                Arg::Named { .. } => {},
            }
            i = i + 1;
        }
        Ok(fields)
    }

    /// Build a variant.
    pub fn construct_variant(
        &mut self,
        fuel: u64,
        decl: &Rc<EnumDecl>,
        enum_name: &str,
        variant: &str,
        args: &Vec<Arg>,
        span: Span,
        env: Env,
    ) -> (r: Result<Value, Stop>)
        ensures
            final(self).cx() == old(self).cx(),
            (seen(r), final(self).state@) == variant_made(
                old(self).cx(),
                fuel as nat,
                decl@,
                enum_name@,
                variant@,
                args@,
                span,
                env,
                old(self).state@,
            ),
        decreases fuel, 3nat,
    {
        let mut at: usize = 0;
        while at < decl.variants.len() && !same_text(decl.variants[at].name.as_str(), variant)
            invariant
                at <= decl.variants.len(),
                variant_place(decl@.variants, variant@, at as nat) == variant_place(
                    decl@.variants,
                    variant@,
                    0,
                ),
            decreases decl.variants.len() - at,
        {
            at = at + 1;
        }
        if at >= decl.variants.len() {
            return Err(
                fail(cat5("enum `", enum_name, "` has no variant `", variant, "`"), span),
            );
        }
        assert(decl@.variants[at as int] == decl.variants@[at as int]@);
        let parts = self.build_payload(
            fuel,
            &decl.variants[at].payload,
            variant,
            args,
            span,
            env,
        )?;
        let inst = EnumInstance {
            enum_name: enum_name.to_owned(),
            variant: variant.to_owned(),
            payload: parts.values,
            payload_names: parts.names,
        };
        Ok(Value::Enum(Rc::new(inst)))
    }

    fn build_payload(
        &mut self,
        fuel: u64,
        payload: &Option<Payload>,
        variant: &str,
        args: &Vec<Arg>,
        span: Span,
        env: Env,
    ) -> (r: Result<PayloadParts, Stop>)
        ensures
            final(self).cx() == old(self).cx(),
            (seen(r), final(self).state@) == payload_made(
                old(self).cx(),
                fuel as nat,
                payload_shape(*payload),
                variant@,
                args@,
                span,
                env,
                old(self).state@,
            ),
        decreases fuel, 2nat,
    {
        match payload {
            None => {
                if args.len() > 0 {
                    return Err(fail(cat3("variant `", variant, "` takes no payload"), span));
                }
                Ok(PayloadParts { values: Vec::new(), names: Vec::new() })
            },
            Some(Payload::Positional(types)) => {
                if args.len() != types.len() {
                    return Err(
                        payload_count_stop(
                            variant,
                            types.len(),
                            " value(s), got ",
                            args.len(),
                            span,
                        ),
                    );
                }
                self.positional_payload(fuel, variant, args, span, env)
            },
            Some(Payload::Named(named_types)) => {
                let names = payload_names(named_types);
                if args.len() != names.len() {
                    return Err(
                        payload_count_stop(
                            variant,
                            names.len(),
                            " field(s), got ",
                            args.len(),
                            span,
                        ),
                    );
                }
                if args_all_named(args) && args.len() > 0 {
                    self.named_payload(fuel, variant, &names, args, span, env)
                } else if !args_named_in_place(&names, args) {
                    Err(
                        fail(
                            cat3(
                                "`",
                                variant,
                                "` construction mixes positional and named arguments",
                            ),
                            span,
                        ),
                    )
                } else {
                    self.ordered_payload(fuel, &names, args, env)
                }
            },
        }
    }

    fn positional_payload(
        &mut self,
        fuel: u64,
        variant: &str,
        args: &Vec<Arg>,
        span: Span,
        env: Env,
    ) -> (r: Result<PayloadParts, Stop>)
        ensures
            final(self).cx() == old(self).cx(),
            (seen(r), final(self).state@) == payload_positional(
                old(self).cx(),
                fuel as nat,
                variant@,
                args@,
                0,
                no_payload(),
                span,
                env,
                old(self).state@,
            ),
        decreases fuel, 1nat,
    {
        let ghost cx = self.cx();
        let ghost start = self.state@;
        let mut parts = PayloadParts { values: Vec::new(), names: Vec::new() };
        let mut i: usize = 0;
        while i < args.len()
            invariant
                i <= args.len(),
                cx == old(self).cx() && start == old(self).state@,
                self.cx() == cx,
                payload_positional(
                    cx,
                    fuel as nat,
                    variant@,
                    args@,
                    i as nat,
                    parts@,
                    span,
                    env,
                    self.state@,
                ) == payload_positional(
                    cx,
                    fuel as nat,
                    variant@,
                    args@,
                    0,
                    no_payload(),
                    span,
                    env,
                    start,
                ),
            decreases args.len() - i,
        {
            match &args[i] {
                Arg::Positional(e) => {
                    let v = self.eval(fuel, e, env)?;
                    parts.values.push(v);
                },
                Arg::Named { name, .. } => {
                    return Err(
                        fail(
                            cat5(
                                "variant `",
                                variant,
                                "` has positional payload; `",
                                name.as_str(),
                                ":` is invalid",
                            ),
                            span,
                        ),
                    );
                },
            }
            i = i + 1;
        }
        Ok(parts)
    }

    fn named_payload(
        &mut self,
        fuel: u64,
        variant: &str,
        names: &Vec<String>,
        args: &Vec<Arg>,
        span: Span,
        env: Env,
    ) -> (r: Result<PayloadParts, Stop>)
        ensures
            final(self).cx() == old(self).cx(),
            (seen(r), final(self).state@) == payload_by_name(
                old(self).cx(),
                fuel as nat,
                variant@,
                texts(names@),
                args@,
                0,
                no_payload(),
                span,
                env,
                old(self).state@,
            ),
        decreases fuel, 1nat,
    {
        let ghost cx = self.cx();
        let ghost start = self.state@;
        let mut parts = PayloadParts { values: Vec::new(), names: Vec::new() };
        let mut i: usize = 0;
        while i < names.len()
            invariant
                i <= names.len(),
                cx == old(self).cx() && start == old(self).state@,
                self.cx() == cx,
                payload_by_name(
                    cx,
                    fuel as nat,
                    variant@,
                    texts(names@),
                    args@,
                    i as nat,
                    parts@,
                    span,
                    env,
                    self.state@,
                ) == payload_by_name(
                    cx,
                    fuel as nat,
                    variant@,
                    texts(names@),
                    args@,
                    0,
                    no_payload(),
                    span,
                    env,
                    start,
                ),
            decreases names.len() - i,
        {
            assert(texts(names@)[i as int] == names@[i as int]@);
            match find_named(args, names[i].as_str()) {
                Some(e) => {
                    let v = self.eval(fuel, e, env)?;
                    parts.values.push(v);
                    parts.names.push(names[i].clone());
                },
                None => {
                    return Err(
                        fail(
                            cat5(
                                "variant `",
                                variant,
                                "` is missing field `",
                                names[i].as_str(),
                                "`",
                            ),
                            span,
                        ),
                    );
                },
            }
            i = i + 1;
        }
        Ok(parts)
    }

    fn ordered_payload(&mut self, fuel: u64, names: &Vec<String>, args: &Vec<Arg>, env: Env) -> (r:
        Result<PayloadParts, Stop>)
        ensures
            final(self).cx() == old(self).cx(),
            (seen(r), final(self).state@) == payload_in_order(
                old(self).cx(),
                fuel as nat,
                texts(names@),
                args@,
                0,
                no_payload(),
                env,
                old(self).state@,
            ),
        decreases fuel, 1nat,
    {
        let ghost cx = self.cx();
        let ghost start = self.state@;
        let mut parts = PayloadParts { values: Vec::new(), names: Vec::new() };
        let mut i: usize = 0;
        while i < args.len() && i < names.len()
            invariant
                i <= args.len(),
                cx == old(self).cx() && start == old(self).state@,
                self.cx() == cx,
                payload_in_order(
                    cx,
                    fuel as nat,
                    texts(names@),
                    args@,
                    i as nat,
                    parts@,
                    env,
                    self.state@,
                ) == payload_in_order(
                    cx,
                    fuel as nat,
                    texts(names@),
                    args@,
                    0,
                    no_payload(),
                    env,
                    start,
                ),
            decreases args.len() - i,
        {
            assert(texts(names@)[i as int] == names@[i as int]@);
            let e = match &args[i] {
                Arg::Positional(e) => e,
                Arg::Named { value, .. } => value,
            };
            let v = self.eval(fuel, e, env)?;
            parts.values.push(v);
            parts.names.push(names[i].clone());
            i = i + 1;
        }
        Ok(parts)
    }
}

/// Whether each argument by name stands at the place of its name.
fn args_named_in_place(names: &Vec<String>, args: &Vec<Arg>) -> (r: bool)
    ensures
        r == named_in_place(texts(names@), args@),
{
    let mut i: usize = 0;
    while i < args.len() && i < names.len()
        invariant
            i <= args.len(),
            i <= names.len(),
            named_in_place(texts(names@), args@.take(i as int)),
        decreases args.len() - i,
    {
        if let Arg::Named { name, .. } = &args[i] {
            if !same_text(name.as_str(), names[i].as_str()) {
                assert(args@[i as int]->name@ != texts(names@)[i as int]);
                return false;
            }
        }
        i = i + 1;
        assert forall|j: int|
            0 <= j < args@.take(i as int).len() && j < texts(names@).len() implies (
        (#[trigger] args@.take(i as int)[j]) matches Arg::Named { name, .. } ==> name@ == texts(
            names@,
        )[j]) by {
            if j < i - 1 {
                assert(args@.take(i - 1)[j] == args@[j]);
            }
        }
    }
    assert forall|j: int| 0 <= j < args@.len() && j < texts(names@).len() implies (
    (#[trigger] args@[j]) matches Arg::Named { name, .. } ==> name@ == texts(names@)[j]) by {
        assert(args@.take(i as int)[j] == args@[j]);
    }
    true
}

/// The names of a struct's fields.
fn field_names(decl: &Rc<StructDecl>) -> (r: Vec<String>)
    ensures
        texts(r@) == decl@.fields,
{
    let mut out: Vec<String> = Vec::new();
    let mut i: usize = 0;
    while i < decl.fields.len()
        invariant
            i <= decl.fields.len(),
            texts(out@) == decl@.fields.take(i as int),
        decreases decl.fields.len() - i,
    {
        out.push(decl.fields[i].name.clone());
        i = i + 1;
        assert(decl@.fields.take(i as int) =~= decl@.fields.take(i - 1).push(decl@.fields[i - 1]));
    }
    assert(decl@.fields.take(i as int) =~= decl@.fields);
    out
}

/// The names of a payload's values.
fn payload_names(named: &Vec<(String, crate::ast::Type)>) -> (r: Vec<String>)
    ensures
        texts(r@) == Seq::new(named@.len(), |i: int| named@[i].0@),
{
    let mut out: Vec<String> = Vec::new();
    let ghost all = Seq::new(named@.len(), |i: int| named@[i].0@);
    let mut i: usize = 0;
    while i < named.len()
        invariant
            i <= named.len(),
            all == Seq::new(named@.len(), |i: int| named@[i].0@),
            texts(out@) == all.take(i as int),
        decreases named.len() - i,
    {
        out.push(named[i].0.clone());
        i = i + 1;
        assert(all.take(i as int) =~= all.take(i - 1).push(all[i - 1]));
    }
    assert(all.take(i as int) =~= all);
    out
}

fn payload_count_stop(variant: &str, want: usize, what: &str, got: usize, span: Span) -> (r: Stop)
    ensures
        r@ == payload_count_halt(variant@, want as nat, what@, got as nat, span),
{
    fail(
        cat2(
            cat5("variant `", variant, "` expects ", count_text(want).as_str(), what).as_str(),
            count_text(got).as_str(),
        ),
        span,
    )
}

} // verus!
