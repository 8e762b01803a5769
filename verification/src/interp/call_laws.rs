//! Laws of calls: what is bound, where the body runs, and what comes back.

use super::env::{outermost, resolved};
use super::semantics::{
    applied, args_evaluated, args_filled, args_split, builtin_called, builtin_method_called, call_bound, call_evaluated, closure_called, declared_type, enum_named,
    evaluated, executed, function_called, member_called, method_called, param_count, params_bound,
    params_filled, required_from, stmts_executed, struct_named,
};
use super::value::{failure, BindingVal, ClosureVal, Env, Halt, Val, World};
use super::{body_ended, bound_all, main_called, no_method_message, Cx, FlowVal, Out};
use crate::ast::{Arg, Expr, ExprKind, FnDecl, Lambda, Param, Stmt, StmtKind};
use crate::name_map::{bind, law_lookup_after_bind, lookup, lookup_from, place_from};
use crate::text::texts;
use crate::token::Span;
use vstd::prelude::*;
use vstd::string::*;

verus! {

// ---------------------------------------------------------------------------
// Names bound to values
// ---------------------------------------------------------------------------

proof fn bound_all_keeps(
    w: World,
    scope: Env,
    names: Seq<Seq<char>>,
    items: Seq<Val>,
    is_val: bool,
    i: nat,
    name: Seq<char>,
)
    requires
        scope < w.scopes.len(),
        forall|j: int| i <= j < names.len() ==> names[j] != name,
    ensures
        ({
            let after = bound_all(w, scope, names, items, is_val, i);
            &&& after.scopes.len() == w.scopes.len()
            &&& lookup(after.scopes[scope as int].vars, name) == lookup(
                w.scopes[scope as int].vars,
                name,
            )
            &&& after.scopes[scope as int].parent == w.scopes[scope as int].parent
        }),
    decreases names.len() - i,
{
    if i < names.len() && i < items.len() {
        let b = BindingVal { value: items[i as int], is_val };
        assert(names[i as int] != name);
        law_lookup_after_bind(w.scopes[scope as int].vars, names[i as int], b, name);
        let next = w.with_var(scope, names[i as int], items[i as int], is_val);
        bound_all_keeps(next, scope, names, items, is_val, i + 1, name);
    }
}

proof fn bound_all_binds(
    w: World,
    scope: Env,
    names: Seq<Seq<char>>,
    items: Seq<Val>,
    is_val: bool,
    i: nat,
    k: int,
)
    requires
        scope < w.scopes.len(),
        names.len() == items.len(),
        i <= k < names.len(),
        forall|j: int| k < j < names.len() ==> names[j] != names[k],
    ensures
        ({
            let after = bound_all(w, scope, names, items, is_val, i);
            &&& after.scopes.len() == w.scopes.len()
            &&& lookup(after.scopes[scope as int].vars, names[k]) == Some(
                BindingVal { value: items[k], is_val },
            )
        }),
    decreases names.len() - i,
{
    let b = BindingVal { value: items[i as int], is_val };
    law_lookup_after_bind(w.scopes[scope as int].vars, names[i as int], b, names[i as int]);
    let next = w.with_var(scope, names[i as int], items[i as int], is_val);
    if i == k {
        bound_all_keeps(next, scope, names, items, is_val, i + 1, names[k]);
    } else {
        bound_all_binds(next, scope, names, items, is_val, i + 1, k);
    }
}

/// Names that are bound to as many values have each its own value afterwards, the
/// last of several of one name; any other name of the scope has what it had.
pub proof fn law_each_name_has_its_value(
    w: World,
    scope: Env,
    names: Seq<Seq<char>>,
    items: Seq<Val>,
    is_val: bool,
    k: int,
    other: Seq<char>,
)
    requires
        scope < w.scopes.len(),
        names.len() == items.len(),
    ensures
        0 <= k < names.len() && (forall|j: int| k < j < names.len() ==> names[j] != names[k])
            ==> resolved(bound_all(w, scope, names, items, is_val, 0), scope, names[k]) == Some(
            items[k],
        ),
        !names.contains(other) ==> lookup(
            bound_all(w, scope, names, items, is_val, 0).scopes[scope as int].vars,
            other,
        ) == lookup(w.scopes[scope as int].vars, other),
{
    if 0 <= k < names.len() && (forall|j: int| k < j < names.len() ==> names[j] != names[k]) {
        bound_all_binds(w, scope, names, items, is_val, 0, k);
    }
    if !names.contains(other) {
        assert forall|j: int| 0 <= j < names.len() implies names[j] != other by {}
        bound_all_keeps(w, scope, names, items, is_val, 0, other);
    }
}

// ---------------------------------------------------------------------------
// Arguments
// ---------------------------------------------------------------------------

/// Whether arguments by position are evaluated one behind the other, to these values.
pub open spec fn args_give(
    cx: Cx,
    fuel: nat,
    args: Seq<Arg>,
    env: Env,
    ws: Seq<World>,
    vs: Seq<Val>,
) -> bool {
    ws.len() == args.len() + 1 && vs.len() == args.len() && forall|j: int, n: int|
        #![trigger ws[j], ws[n]]
        0 <= j < args.len() && n == j + 1 ==> (args[j] matches Arg::Positional(e) && evaluated(
            cx,
            fuel,
            e,
            env,
            ws[j],
        ) == (Ok::<Val, Halt>(vs[j]), ws[n]))
}

/// The names of the parameters that a call fills.
pub open spec fn param_names(params: Seq<Param>) -> Seq<Seq<char>>
    decreases params.len(),
{
    if params.len() == 0 {
        Seq::empty()
    } else {
        match params[0] {
            Param::SelfRecv => param_names(params.skip(1)),
            Param::Named { name, .. } => seq![name@] + param_names(params.skip(1)),
        }
    }
}

proof fn split_positional(
    cx: Cx,
    fuel: nat,
    args: Seq<Arg>,
    i: nat,
    fn_name: Seq<char>,
    span: Span,
    env: Env,
    ws: Seq<World>,
    vs: Seq<Val>,
)
    requires
        args_give(cx, fuel, args, env, ws, vs),
        i <= args.len(),
    ensures
        args_split(
            cx,
            fuel,
            args,
            i,
            vs.take(i as int),
            Seq::empty(),
            fn_name,
            span,
            env,
            ws[i as int],
        ) == (
            Ok::<(Seq<Val>, Seq<(Seq<char>, Val)>), Halt>((vs, Seq::empty())),
            ws.last(),
        ),
    decreases args.len() - i,
{
    if i < args.len() {
        let n = i as int + 1;
        assert(ws[i as int] == ws[i as int] && ws[n] == ws[n]);
        assert(vs.take(n) =~= vs.take(i as int).push(vs[i as int]));
        split_positional(cx, fuel, args, i + 1, fn_name, span, env, ws, vs);
    } else {
        assert(vs.take(i as int) =~= vs);
    }
}

proof fn names_skip(params: Seq<Param>, i: nat)
    requires
        i < params.len(),
    ensures
        params.skip(i as int).len() > 0,
        params.skip(i as int)[0] == params[i as int],
        params.skip(i as int).skip(1) == params.skip((i + 1) as int),
{
    assert(params.skip(i as int).skip(1) =~= params.skip((i + 1) as int));
}

proof fn fill_positional(
    cx: Cx,
    fuel: nat,
    params: Seq<Param>,
    i: nat,
    k: nat,
    vs: Seq<Val>,
    names: Seq<Seq<char>>,
    scope: Env,
    fn_name: Seq<char>,
    span: Span,
    w: World,
)
    requires
        i <= params.len(),
        k <= vs.len(),
        names.len() == vs.len(),
        param_names(params.skip(i as int)) == names.skip(k as int),
    ensures
        args_filled(cx, fuel, params, i, k, vs, Seq::empty(), scope, fn_name, span, w) == (
            Ok::<Seq<(Seq<char>, Val)>, Halt>(Seq::empty()),
            bound_all(w, scope, names, vs, false, k),
        ),
        params_filled(cx, fuel, params, i, k, vs, scope, fn_name, span, w) == (
            Ok::<(), Halt>(()),
            bound_all(w, scope, names, vs, false, k),
        ),
    decreases params.len() - i,
{
    let rest = params.skip(i as int);
    if i < params.len() {
        names_skip(params, i);
        match params[i as int] {
            Param::SelfRecv => {
                fill_positional(cx, fuel, params, i + 1, k, vs, names, scope, fn_name, span, w);
            },
            Param::Named { name, .. } => {
                let more = param_names(params.skip((i + 1) as int));
                assert(names.skip(k as int) == seq![name@] + more);
                assert(names.skip(k as int).len() == 1 + more.len());
                assert(k < names.len());
                assert(names.skip(k as int)[0] == names[k as int]);
                assert(names.skip((k + 1) as int) =~= names.skip(k as int).skip(1));
                assert(names.skip(k as int).skip(1) =~= more);
                let next = w.with_var(scope, name@, vs[k as int], false);
                fill_positional(
                    cx,
                    fuel,
                    params,
                    i + 1,
                    k + 1,
                    vs,
                    names,
                    scope,
                    fn_name,
                    span,
                    next,
                );
            },
        }
    } else {
        assert(rest.len() == 0);
        assert(names.skip(k as int).len() == 0);
    }
}

proof fn count_is(params: Seq<Param>, i: nat)
    requires
        i <= params.len(),
    ensures
        param_count(params, i) == param_names(params.skip(i as int)).len(),
        required_from(params, i) <= param_count(params, i),
    decreases params.len() - i,
{
    if i < params.len() {
        names_skip(params, i);
        count_is(params, i + 1);
    } else {
        assert(params.skip(i as int).len() == 0);
    }
}

/// A call with as many arguments by position as there are parameters evaluates them
/// from left to right, in the caller's scope, and binds each parameter to the value
/// at its place, in the function's scope.
pub proof fn law_positional_arguments(
    cx: Cx,
    fuel: nat,
    params: Seq<Param>,
    args: Seq<Arg>,
    scope: Env,
    fn_name: Seq<char>,
    span: Span,
    env: Env,
    ws: Seq<World>,
    vs: Seq<Val>,
)
    requires
        args_give(cx, fuel, args, env, ws, vs),
        args.len() == param_names(params).len(),
    ensures
        call_bound(cx, fuel, params, args, scope, fn_name, span, env, ws[0]) == (
            Ok::<(), Halt>(()),
            bound_all(ws.last(), scope, param_names(params), vs, false, 0),
        ),
{
    assert(vs.take(0) =~= Seq::<Val>::empty());
    split_positional(cx, fuel, args, 0, fn_name, span, env, ws, vs);
    assert(params.skip(0) =~= params);
    assert(param_names(params).skip(0) =~= param_names(params));
    count_is(params, 0);
    fill_positional(
        cx,
        fuel,
        params,
        0,
        0,
        vs,
        param_names(params),
        scope,
        fn_name,
        span,
        ws.last(),
    );
}

/// More arguments by position than there are parameters are refused.
pub proof fn law_too_many_arguments(
    cx: Cx,
    fuel: nat,
    params: Seq<Param>,
    args: Seq<Arg>,
    scope: Env,
    fn_name: Seq<char>,
    span: Span,
    env: Env,
    ws: Seq<World>,
    vs: Seq<Val>,
)
    requires
        args_give(cx, fuel, args, env, ws, vs),
        args.len() > param_names(params).len(),
    ensures
        call_bound(cx, fuel, params, args, scope, fn_name, span, env, ws[0]).0 is Err,
{
    assert(vs.take(0) =~= Seq::<Val>::empty());
    split_positional(cx, fuel, args, 0, fn_name, span, env, ws, vs);
    assert(params.skip(0) =~= params);
    count_is(params, 0);
}

// ---------------------------------------------------------------------------
// Arguments by name, and defaults
// ---------------------------------------------------------------------------

/// What a parameter gets that is behind the arguments by position: the argument of its
/// name, else its default, evaluated in the function's scope, where the parameters
/// before it are bound. One that has neither is missing.
pub proof fn law_parameter_by_name_or_default(
    cx: Cx,
    fuel: nat,
    params: Seq<Param>,
    i: nat,
    pos: Seq<Val>,
    named: Seq<(Seq<char>, Val)>,
    scope: Env,
    fn_name: Seq<char>,
    span: Span,
    w: World,
)
    requires
        i < params.len(),
        params[i as int] is Named,
    ensures
        ({
            let name = params[i as int]->name@;
            let default = params[i as int]->default;
            let all = args_filled(
                cx,
                fuel,
                params,
                i,
                pos.len(),
                pos,
                named,
                scope,
                fn_name,
                span,
                w,
            );
            match lookup(named, name) {
                Some(v) => all == args_filled(
                    cx,
                    fuel,
                    params,
                    i + 1,
                    pos.len(),
                    pos,
                    crate::name_map::unbind(named, name),
                    scope,
                    fn_name,
                    span,
                    w.with_var(scope, name, v, false),
                ),
                None => match default {
                    Some(e) => match evaluated(cx, fuel, e, scope, w) {
                        (Ok(v), w1) => all == args_filled(
                            cx,
                            fuel,
                            params,
                            i + 1,
                            pos.len(),
                            pos,
                            named,
                            scope,
                            fn_name,
                            span,
                            w1.with_var(scope, name, v, false),
                        ),
                        (Err(h), w1) => all == (Err::<Seq<(Seq<char>, Val)>, Halt>(h), w1),
                    },
                    None => all == (
                        Err::<Seq<(Seq<char>, Val)>, Halt>(
                            failure("`"@ + fn_name + "`: missing argument `"@ + name + "`"@, span),
                        ),
                        w,
                    ),
                },
            }
        }),
{
}

/// What a parameter gets while there are arguments by position: the next of them. One
/// that is given by name too is an error.
pub proof fn law_parameter_by_position(
    cx: Cx,
    fuel: nat,
    params: Seq<Param>,
    i: nat,
    k: nat,
    pos: Seq<Val>,
    named: Seq<(Seq<char>, Val)>,
    scope: Env,
    fn_name: Seq<char>,
    span: Span,
    w: World,
)
    requires
        i < params.len(),
        params[i as int] is Named,
        k < pos.len(),
    ensures
        ({
            let name = params[i as int]->name@;
            let all = args_filled(cx, fuel, params, i, k, pos, named, scope, fn_name, span, w);
            &&& lookup(named, name) is Some ==> all.0 is Err && all.1 == w
            &&& lookup(named, name) is None ==> all == args_filled(
                cx,
                fuel,
                params,
                i + 1,
                k + 1,
                pos,
                named,
                scope,
                fn_name,
                span,
                w.with_var(scope, name, pos[k as int], false),
            )
        }),
{
}

/// Whether arguments by name are evaluated one behind the other, to these values.
pub open spec fn named_give(
    cx: Cx,
    fuel: nat,
    args: Seq<Arg>,
    env: Env,
    ws: Seq<World>,
    names: Seq<Seq<char>>,
    vs: Seq<Val>,
) -> bool {
    ws.len() == args.len() + 1 && vs.len() == args.len() && names.len() == args.len() && forall|
        j: int,
        n: int,
    |
        #![trigger ws[j], ws[n]]
        0 <= j < args.len() && n == j + 1 ==> (args[j] matches Arg::Named { name, value } && name@
            == names[j] && evaluated(cx, fuel, value, env, ws[j]) == (
            Ok::<Val, Halt>(vs[j]),
            ws[n],
        ))
}

/// Names with their values.
pub open spec fn pairs_of(names: Seq<Seq<char>>, vs: Seq<Val>, k: nat) -> Seq<(Seq<char>, Val)> {
    Seq::new(k, |i: int| (names[i], vs[i]))
}

proof fn none_bound(names: Seq<Seq<char>>, vs: Seq<Val>, k: nat, i: nat, name: Seq<char>)
    requires
        i <= k <= names.len(),
        forall|j: int| 0 <= j < k ==> names[j] != name,
    ensures
        lookup_from(pairs_of(names, vs, k), name, i) is None,
        place_from(pairs_of(names, vs, k), name, i) == k,
    decreases k - i,
{
    if i < k {
        none_bound(names, vs, k, i + 1, name);
    }
}

proof fn split_named(
    cx: Cx,
    fuel: nat,
    args: Seq<Arg>,
    i: nat,
    fn_name: Seq<char>,
    span: Span,
    env: Env,
    ws: Seq<World>,
    names: Seq<Seq<char>>,
    vs: Seq<Val>,
)
    requires
        named_give(cx, fuel, args, env, ws, names, vs),
        names.no_duplicates(),
        i <= args.len(),
    ensures
        args_split(
            cx,
            fuel,
            args,
            i,
            Seq::empty(),
            pairs_of(names, vs, i),
            fn_name,
            span,
            env,
            ws[i as int],
        ) == (
            Ok::<(Seq<Val>, Seq<(Seq<char>, Val)>), Halt>(
                (Seq::empty(), pairs_of(names, vs, args.len())),
            ),
            ws.last(),
        ),
    decreases args.len() - i,
{
    if i < args.len() {
        let n = i as int + 1;
        let (here, next) = (ws[i as int], ws[n]);
        assert(args[i as int] matches Arg::Named { name, value } && name@ == names[i as int]
            && evaluated(cx, fuel, value, env, here) == (Ok::<Val, Halt>(vs[i as int]), next));
        none_bound(names, vs, i, 0, names[i as int]);
        let more = pairs_of(names, vs, i + 1);
        assert(bind(pairs_of(names, vs, i), names[i as int], vs[i as int]) =~= more);
        split_named(cx, fuel, args, i + 1, fn_name, span, env, ws, names, vs);
    }
}

/// Arguments by name are evaluated from left to right, and each is taken under its
/// name, whatever their order is.
pub proof fn law_named_arguments(
    cx: Cx,
    fuel: nat,
    args: Seq<Arg>,
    fn_name: Seq<char>,
    span: Span,
    env: Env,
    ws: Seq<World>,
    names: Seq<Seq<char>>,
    vs: Seq<Val>,
)
    requires
        named_give(cx, fuel, args, env, ws, names, vs),
        names.no_duplicates(),
    ensures
        args_split(cx, fuel, args, 0, Seq::empty(), Seq::empty(), fn_name, span, env, ws[0]) == (
            Ok::<(Seq<Val>, Seq<(Seq<char>, Val)>), Halt>(
                (Seq::empty(), pairs_of(names, vs, args.len())),
            ),
            ws.last(),
        ),
{
    assert(pairs_of(names, vs, 0) =~= Seq::<(Seq<char>, Val)>::empty());
    split_named(cx, fuel, args, 0, fn_name, span, env, ws, names, vs);
}

/// An argument by position behind one by name, and a name that comes twice, are errors;
/// so is an argument by name that no parameter took.
pub proof fn law_misplaced_arguments(
    cx: Cx,
    fuel: nat,
    args: Seq<Arg>,
    i: nat,
    pos: Seq<Val>,
    named: Seq<(Seq<char>, Val)>,
    params: Seq<Param>,
    scope: Env,
    fn_name: Seq<char>,
    span: Span,
    env: Env,
    w: World,
)
    ensures
        i < args.len() && args[i as int] is Positional && named.len() > 0 ==> args_split(
            cx,
            fuel,
            args,
            i,
            pos,
            named,
            fn_name,
            span,
            env,
            w,
        ).0 is Err,
        i < args.len() && args[i as int] is Named && lookup(named, args[i as int]->name@) is Some
            ==> args_split(cx, fuel, args, i, pos, named, fn_name, span, env, w).0 is Err,
        ({
            let split = args_split(
                cx,
                fuel,
                args,
                0,
                Seq::empty(),
                Seq::empty(),
                fn_name,
                span,
                env,
                w,
            );
            let filled = args_filled(
                cx,
                fuel,
                params,
                0,
                0,
                split.0->Ok_0.0,
                split.0->Ok_0.1,
                scope,
                fn_name,
                span,
                split.1,
            );
            split.0 is Ok && filled.0 is Ok && filled.0->Ok_0.len() > 0 ==> call_bound(
                cx,
                fuel,
                params,
                args,
                scope,
                fn_name,
                span,
                env,
                w,
            ).0 is Err
        }),
{
}

// ---------------------------------------------------------------------------
// Functions
// ---------------------------------------------------------------------------

/// What a body gives as the value of its call: what it returns, else the value of its
/// last statement. A `break` or `continue` that leaves it is an error. An error ends
/// the call, but for an `Err` that `try` sends on its way, which is the value.
pub open spec fn value_of_body(body: Out<FlowVal>, span: Span) -> Out<Val> {
    match body.0 {
        Ok(FlowVal::Return(v)) => (Ok(v), body.1),
        Ok(FlowVal::Normal(v)) => (Ok(v), body.1),
        Ok(_) => (Err(failure("`break`/`continue` outside a loop"@, span)), body.1),
        Err(Halt::Error(d)) => match body.1.propagating {
            Some(v) => (Ok(v), body.1.with_propagating(None)),
            None => (Err(Halt::Error(d)), body.1),
        },
        Err(h) => (Err(h), body.1),
    }
}

proof fn body_value(body: Out<FlowVal>, span: Span)
    ensures
        body_ended(body, super::semantics::loop_message(), span) == value_of_body(body, span),
{
}

/// A call of a name that is bound to a function evaluates the arguments, binds the
/// parameters in a new scope inside the one where the function was declared, runs
/// the body there, and gives its value.
pub proof fn law_function_call(
    cx: Cx,
    fuel: nat,
    e: Expr,
    env: Env,
    w: World,
    decl: FnDecl,
    home: Env,
    ws: Seq<World>,
    vs: Seq<Val>,
)
    requires
        fuel > 1,
        e.kind is Call,
        e.kind->Call_callee.kind is Name,
        resolved(w, env, e.kind->Call_callee.kind->Name_0@) == Some(
            Val::Closure(ClosureVal::Function(decl, home)),
        ),
        args_give(cx, (fuel - 1) as nat, e.kind->Call_args@, env, ws, vs),
        ws[0] == w.add_scope(Some(home)),
        vs.len() == param_names(decl.params@).len(),
    ensures
        ({
            let scope = w.next_scope();
            let bound = bound_all(ws.last(), scope, param_names(decl.params@), vs, false, 0);
            evaluated(cx, fuel, e, env, w) == value_of_body(
                stmts_executed(
                    cx,
                    (fuel - 1) as nat,
                    decl.body.stmts@,
                    0,
                    Val::Unit,
                    scope,
                    bound,
                ),
                e.span,
            )
        }),
{
    let f = (fuel - 1) as nat;
    let scope = w.next_scope();
    let args = e.kind->Call_args@;
    let callee = *e.kind->Call_callee;
    law_positional_arguments(
        cx,
        f,
        decl.params@,
        args,
        scope,
        decl.name@,
        e.span,
        env,
        ws,
        vs,
    );
    assert(evaluated(cx, fuel, e, env, w) == call_evaluated(cx, f, callee, args, e.span, env, w));
    assert(evaluated(cx, f, callee, env, w) == (
        Ok::<Val, Halt>(Val::Closure(ClosureVal::Function(decl, home))),
        w,
    ));
    assert(struct_named(cx, callee, env, w) is None);
    assert(call_evaluated(cx, f, callee, args, e.span, env, w) == function_called(
        cx,
        f,
        decl,
        args,
        scope,
        e.span,
        env,
        w.add_scope(Some(home)),
    ));
    let bound = bound_all(ws.last(), scope, param_names(decl.params@), vs, false, 0);
    body_value(stmts_executed(cx, f, decl.body.stmts@, 0, Val::Unit, scope, bound), e.span);
}

/// A function that is called with values, as `main` and callbacks are, does the same.
pub proof fn law_closure_call(
    cx: Cx,
    fuel: nat,
    decl: FnDecl,
    home: Env,
    vs: Seq<Val>,
    span: Span,
    w: World,
)
    requires
        vs.len() == param_names(decl.params@).len(),
    ensures
        ({
            let scope = w.next_scope();
            let bound = bound_all(
                w.add_scope(Some(home)),
                scope,
                param_names(decl.params@),
                vs,
                false,
                0,
            );
            applied(
                cx,
                fuel,
                Val::Closure(ClosureVal::Function(decl, home)),
                vs,
                span,
                w,
            ) == value_of_body(
                stmts_executed(cx, fuel, decl.body.stmts@, 0, Val::Unit, scope, bound),
                span,
            )
        }),
{
    let scope = w.next_scope();
    let params = decl.params@;
    let opened = w.add_scope(Some(home));
    assert(params.skip(0) =~= params);
    assert(param_names(params).skip(0) =~= param_names(params));
    count_is(params, 0);
    fill_positional(
        cx,
        fuel,
        params,
        0,
        0,
        vs,
        param_names(params),
        scope,
        decl.name@,
        span,
        opened,
    );
    let c = ClosureVal::Function(decl, home);
    assert(applied(cx, fuel, Val::Closure(c), vs, span, w) == closure_called(
        cx,
        fuel,
        c,
        vs,
        span,
        w,
    ));
    let bound = bound_all(opened, scope, param_names(params), vs, false, 0);
    assert(params_bound(cx, fuel, params, vs, scope, decl.name@, span, opened) == (
        Ok::<(), Halt>(()),
        bound,
    ));
    body_value(stmts_executed(cx, fuel, decl.body.stmts@, 0, Val::Unit, scope, bound), span);
}

/// A lambda that is called with as many values as it has parameters gives the value of
/// its body, in a new scope inside the one where it was made, where each parameter
/// has the value at its place. With another number of values it is an error.
pub proof fn law_lambda_call(
    cx: Cx,
    fuel: nat,
    l: Lambda,
    home: Env,
    vs: Seq<Val>,
    span: Span,
    w: World,
)
    ensures
        ({
            let scope = w.next_scope();
            let bound = bound_all(
                w.add_scope(Some(home)),
                scope,
                texts(l.params@),
                vs,
                false,
                0,
            );
            let called = applied(
                cx,
                fuel,
                Val::Closure(ClosureVal::Lambda(l, home)),
                vs,
                span,
                w,
            );
            let body = evaluated(cx, fuel, *l.body, scope, bound);
            &&& vs.len() != l.params@.len() ==> called.0 is Err
            &&& vs.len() == l.params@.len() && body.0 is Ok ==> called == body
            &&& vs.len() == l.params@.len() && body.0 is Err && body.1.propagating is None
                ==> called == body
        }),
{
    let c = ClosureVal::Lambda(l, home);
    assert(applied(cx, fuel, Val::Closure(c), vs, span, w) == closure_called(
        cx,
        fuel,
        c,
        vs,
        span,
        w,
    ));
}

/// A function is bound where it is declared, with the scope of its declaration; a
/// lambda is a value with the scope where it stands.
pub proof fn law_functions_are_values(
    cx: Cx,
    fuel: nat,
    s: Stmt,
    e: Expr,
    env: Env,
    w: World,
)
    requires
        fuel > 0,
        env < w.scopes.len(),
    ensures
        s.kind matches StmtKind::Fn(decl) ==> {
            let after = executed(cx, fuel, s, env, w);
            &&& after.0 == Ok::<FlowVal, Halt>(FlowVal::Normal(Val::Unit))
            &&& resolved(after.1, env, decl.name@) == Some(
                Val::Closure(ClosureVal::Function(*decl, env)),
            )
        },
        e.kind matches ExprKind::Lambda(l) ==> evaluated(cx, fuel, e, env, w) == (
            Ok::<Val, Halt>(Val::Closure(ClosureVal::Lambda(*l, env))),
            w,
        ),
{
    if let StmtKind::Fn(decl) = s.kind {
        let v = fn_value(decl, env);
        let b = BindingVal { value: v, is_val: false };
        law_lookup_after_bind(w.scopes[env as int].vars, decl.name@, b, decl.name@);
    }
}

spec fn fn_value(decl: std::rc::Rc<FnDecl>, env: Env) -> Val {
    Val::Closure(ClosureVal::Function(*decl, env))
}

// ---------------------------------------------------------------------------
// Methods
// ---------------------------------------------------------------------------

/// The type whose declared methods a value has: a struct that of its instance, an enum
/// value that of the enum that it was built from.
pub open spec fn type_of(v: Val, w: World) -> Option<Seq<char>> {
    match v {
        Val::Struct(at) => Some(w.instance(at).name),
        Val::Enum(e) => Some(e.enum_name),
        _ => None,
    }
}

/// Methods are looked up on just that type.
pub proof fn law_methods_are_of_the_type(v: Val, w: World)
    ensures
        declared_type(v, w) == type_of(v, w),
{
}

/// Whether an expression is a call of a method on a value: not of a variant, and not
/// of the two methods that every value has.
pub open spec fn calls_method(
    cx: Cx,
    fuel: nat,
    e: Expr,
    env: Env,
    w: World,
    name: Seq<char>,
    recv: Val,
    after: World,
) -> bool {
    e.kind matches ExprKind::Call { callee, .. } && (callee.kind matches ExprKind::Member {
        base,
        name: n,
        safe,
    } && {
        &&& n@ == name
        &&& name != "expect"@
        &&& name != "or_else"@
        &&& safe ==> !(recv is Null)
        &&& !safe ==> enum_named(cx, *base, env, w) is None
        &&& evaluated(cx, fuel, *base, env, w) == (Ok::<Val, Halt>(recv), after)
    })
}

proof fn method_is(
    cx: Cx,
    fuel: nat,
    e: Expr,
    env: Env,
    w: World,
    name: Seq<char>,
    recv: Val,
    after: World,
)
    requires
        fuel > 0,
        calls_method(cx, (fuel - 1) as nat, e, env, w, name, recv, after),
    ensures
        evaluated(cx, fuel, e, env, w) == method_called(
            cx,
            (fuel - 1) as nat,
            recv,
            name,
            e.kind->Call_args@,
            e.span,
            env,
            after,
        ),
{
    let f = (fuel - 1) as nat;
    let callee = *e.kind->Call_callee;
    let args = e.kind->Call_args@;
    let base = *callee.kind->Member_base;
    assert(evaluated(cx, fuel, e, env, w) == call_evaluated(cx, f, callee, args, e.span, env, w));
    assert(call_evaluated(cx, f, callee, args, e.span, env, w) == member_called(
        cx,
        f,
        base,
        name,
        callee.kind->Member_safe,
        args,
        e.span,
        env,
        w,
    ));
}

/// A call of a method on a struct or an enum value whose type has a declared method of
/// that name runs the body of that method, in a new scope inside the outermost one,
/// where `self` is the value and each parameter has its argument, and gives the
/// value of the body.
pub proof fn law_declared_method_runs(
    cx: Cx,
    fuel: nat,
    e: Expr,
    env: Env,
    w: World,
    name: Seq<char>,
    recv: Val,
    after: World,
    owner: Seq<char>,
    decl: FnDecl,
    ws: Seq<World>,
    vs: Seq<Val>,
)
    requires
        fuel > 1,
        calls_method(cx, (fuel - 1) as nat, e, env, w, name, recv, after),
        type_of(recv, after) == Some(owner),
        cx.reg.method(owner, name) == Some(decl),
        args_give(cx, (fuel - 1) as nat, e.kind->Call_args@, env, ws, vs),
        ws[0] == after.add_scope(Some(outermost(after, env))).with_var(
            after.next_scope(),
            "self"@,
            recv,
            false,
        ),
        vs.len() == param_names(decl.params@).len(),
    ensures
        ({
            let scope = after.next_scope();
            let bound = bound_all(ws.last(), scope, param_names(decl.params@), vs, false, 0);
            evaluated(cx, fuel, e, env, w) == value_of_body(
                stmts_executed(
                    cx,
                    (fuel - 1) as nat,
                    decl.body.stmts@,
                    0,
                    Val::Unit,
                    scope,
                    bound,
                ),
                e.span,
            )
        }),
{
    let f = (fuel - 1) as nat;
    let scope = after.next_scope();
    let args = e.kind->Call_args@;
    law_methods_are_of_the_type(recv, after);
    method_is(cx, fuel, e, env, w, name, recv, after);
    law_positional_arguments(
        cx,
        f,
        decl.params@,
        args,
        scope,
        decl.name@,
        e.span,
        env,
        ws,
        vs,
    );
    assert(method_called(cx, f, recv, name, args, e.span, env, after) == function_called(
        cx,
        f,
        decl,
        args,
        scope,
        e.span,
        env,
        ws[0],
    ));
    let bound = bound_all(ws.last(), scope, param_names(decl.params@), vs, false, 0);
    body_value(stmts_executed(cx, f, decl.body.stmts@, 0, Val::Unit, scope, bound), e.span);
}

/// On entering a method, `self` is the value that it was called on, and the scope
/// around is the outermost one, whatever scope the call stands in.
pub proof fn law_self_is_the_receiver(w: World, env: Env, recv: Val)
    requires
        w.scopes.len() < usize::MAX,
    ensures
        ({
            let scope = w.next_scope();
            let opened = w.add_scope(Some(outermost(w, env))).with_var(scope, "self"@, recv, false);
            &&& resolved(opened, scope, "self"@) == Some(recv)
            &&& opened.scopes[scope as int].parent == Some(outermost(w, env))
            &&& opened.scopes.len() == w.scopes.len() + 1
            &&& forall|i: int| 0 <= i < w.scopes.len() ==> #[trigger] opened.scopes[i] == w.scopes[i]
        }),
{
    let scope = w.next_scope();
    let b = BindingVal { value: recv, is_val: false };
    let opened = w.add_scope(Some(outermost(w, env)));
    law_lookup_after_bind(opened.scopes[scope as int].vars, "self"@, b, "self"@);
}

/// A struct or an enum value has no methods but the declared ones: a call of another
/// is an error that names the type and the method.
pub proof fn law_undeclared_method(
    cx: Cx,
    fuel: nat,
    e: Expr,
    env: Env,
    w: World,
    name: Seq<char>,
    recv: Val,
    after: World,
    owner: Seq<char>,
)
    requires
        fuel > 1,
        calls_method(cx, (fuel - 1) as nat, e, env, w, name, recv, after),
        type_of(recv, after) == Some(owner),
        cx.reg.method(owner, name) is None,
    ensures
        evaluated(cx, fuel, e, env, w) == (
            Err::<Val, Halt>(failure("`"@ + owner + "` has no method `"@ + name + "`"@, e.span)),
            after,
        ),
{
    law_methods_are_of_the_type(recv, after);
    method_is(cx, fuel, e, env, w, name, recv, after);
    assert(no_method_message(owner, name) == "`"@ + owner + "` has no method `"@ + name + "`"@);
}

// ---------------------------------------------------------------------------
// `main`
// ---------------------------------------------------------------------------

/// When the top-level statements are done, `main` is called if it is a function without
/// parameters, and its error is the error of the run.
pub proof fn law_main_is_called(
    cx: Cx,
    fuel: nat,
    stmts: Seq<Stmt>,
    root: Env,
    w: World,
    decl: FnDecl,
    home: Env,
)
    requires
        resolved(w, root, "main"@) == Some(Val::Closure(ClosureVal::Function(decl, home))),
        decl.params@.len() == 0,
    ensures
        ({
            let scope = w.next_scope();
            let body = stmts_executed(
                cx,
                fuel,
                decl.body.stmts@,
                0,
                Val::Unit,
                scope,
                w.add_scope(Some(home)),
            );
            let done = main_called(cx, fuel, stmts, root, w);
            &&& (body.0 matches Ok(flow) && (flow is Normal || flow is Return)) ==> done == (
                Ok::<(), Halt>(()),
                body.1,
            )
            &&& body.0 matches Err(h) ==> body.1.propagating is None ==> done == (
                Err::<(), Halt>(h),
                body.1,
            )
        }),
{
    let span = super::main_span_from(stmts, 0);
    let none = Seq::<Val>::empty();
    let scope = w.next_scope();
    let opened = w.add_scope(Some(home));
    assert(param_names(decl.params@) =~= Seq::<Seq<char>>::empty());
    law_closure_call(cx, fuel, decl, home, none, span, w);
    assert(bound_all(opened, scope, param_names(decl.params@), none, false, 0) == opened);
    let c = ClosureVal::Function(decl, home);
    assert(applied(cx, fuel, Val::Closure(c), none, span, w) == closure_called(
        cx,
        fuel,
        c,
        none,
        span,
        w,
    ));
}

// ---------------------------------------------------------------------------
// Calls of other values
// ---------------------------------------------------------------------------

/// A call of a value evaluates what is called, then the arguments from left to right,
/// and then calls it with their values: a lambda, a function of the prelude, or an
/// error if it cannot be called.
pub proof fn law_value_call(
    cx: Cx,
    fuel: nat,
    e: Expr,
    env: Env,
    w: World,
    callee: Val,
    ws: Seq<World>,
    vs: Seq<Val>,
)
    requires
        fuel > 0,
        e.kind is Call,
        !(e.kind->Call_callee.kind is Member),
        struct_named(cx, *e.kind->Call_callee, env, w) is None,
        ws.len() > 0,
        evaluated(cx, (fuel - 1) as nat, *e.kind->Call_callee, env, w) == (
            Ok::<Val, Halt>(callee),
            ws[0],
        ),
        !(callee matches Val::Closure(c) && c is Function),
        args_give(cx, (fuel - 1) as nat, e.kind->Call_args@, env, ws, vs),
    ensures
        evaluated(cx, fuel, e, env, w) == applied(
            cx,
            (fuel - 1) as nat,
            callee,
            vs,
            e.span,
            ws.last(),
        ),
        !(callee is Closure) && !(callee is Builtin) ==> evaluated(cx, fuel, e, env, w).0 is Err,
        callee matches Val::Builtin(b) ==> evaluated(cx, fuel, e, env, w) == builtin_called(
            cx,
            (fuel - 1) as nat,
            b,
            vs,
            e.span,
            ws.last(),
        ),
{
    let f = (fuel - 1) as nat;
    let args = e.kind->Call_args@;
    assert(vs.take(0) =~= Seq::<Val>::empty());
    to_arg(cx, f, args, e.span, env, ws, vs, 0);
    assert(evaluated(cx, fuel, e, env, w) == call_evaluated(
        cx,
        f,
        *e.kind->Call_callee,
        args,
        e.span,
        env,
        w,
    ));
    assert(applied(cx, f, callee, vs, e.span, ws.last()) == applied(
        cx,
        f,
        callee,
        vs,
        e.span,
        ws.last(),
    ));
}

proof fn to_arg(
    cx: Cx,
    fuel: nat,
    args: Seq<Arg>,
    span: Span,
    env: Env,
    ws: Seq<World>,
    vs: Seq<Val>,
    i: nat,
)
    requires
        args_give(cx, fuel, args, env, ws, vs),
        i <= args.len(),
    ensures
        args_evaluated(cx, fuel, args, i, vs.take(i as int), span, env, ws[i as int]) == (
            Ok::<Seq<Val>, Halt>(vs),
            ws.last(),
        ),
    decreases args.len() - i,
{
    if i < args.len() {
        let n = i as int + 1;
        let (here, next) = (ws[i as int], ws[n]);
        assert(args[i as int] matches Arg::Positional(e) && evaluated(cx, fuel, e, env, here) == (
            Ok::<Val, Halt>(vs[i as int]),
            next,
        ));
        assert(vs.take(n) =~= vs.take(i as int).push(vs[i as int]));
        to_arg(cx, fuel, args, span, env, ws, vs, i + 1);
    } else {
        assert(vs.take(i as int) =~= vs);
    }
}

/// However its arguments come, a call of a declared function binds its parameters in a
/// new scope inside the one of its declaration, runs its body there and gives its
/// value; if the parameters cannot be bound, that error is the error of the call.
pub proof fn law_function_runs_its_body(
    cx: Cx,
    fuel: nat,
    e: Expr,
    env: Env,
    w: World,
    decl: FnDecl,
    home: Env,
    mid: World,
)
    requires
        fuel > 0,
        e.kind is Call,
        !(e.kind->Call_callee.kind is Member),
        struct_named(cx, *e.kind->Call_callee, env, w) is None,
        evaluated(cx, (fuel - 1) as nat, *e.kind->Call_callee, env, w) == (
            Ok::<Val, Halt>(Val::Closure(ClosureVal::Function(decl, home))),
            mid,
        ),
    ensures
        ({
            let f = (fuel - 1) as nat;
            let scope = mid.next_scope();
            let bound = call_bound(
                cx,
                f,
                decl.params@,
                e.kind->Call_args@,
                scope,
                decl.name@,
                e.span,
                env,
                mid.add_scope(Some(home)),
            );
            &&& bound.0 is Ok ==> evaluated(cx, fuel, e, env, w) == value_of_body(
                stmts_executed(cx, f, decl.body.stmts@, 0, Val::Unit, scope, bound.1),
                e.span,
            )
            &&& bound.0 matches Err(h) ==> evaluated(cx, fuel, e, env, w) == (
                Err::<Val, Halt>(h),
                bound.1,
            )
        }),
{
    let f = (fuel - 1) as nat;
    let scope = mid.next_scope();
    let args = e.kind->Call_args@;
    let opened = mid.add_scope(Some(home));
    assert(evaluated(cx, fuel, e, env, w) == call_evaluated(
        cx,
        f,
        *e.kind->Call_callee,
        args,
        e.span,
        env,
        w,
    ));
    assert(call_evaluated(cx, f, *e.kind->Call_callee, args, e.span, env, w) == function_called(
        cx,
        f,
        decl,
        args,
        scope,
        e.span,
        env,
        opened,
    ));
    let bound = call_bound(cx, f, decl.params@, args, scope, decl.name@, e.span, env, opened);
    body_value(stmts_executed(cx, f, decl.body.stmts@, 0, Val::Unit, scope, bound.1), e.span);
}

/// A method call on a value that is no struct and no enum value is of a built-in
/// method.
pub proof fn law_builtin_method_runs(
    cx: Cx,
    fuel: nat,
    e: Expr,
    env: Env,
    w: World,
    name: Seq<char>,
    recv: Val,
    after: World,
)
    requires
        fuel > 0,
        calls_method(cx, (fuel - 1) as nat, e, env, w, name, recv, after),
        type_of(recv, after) is None,
    ensures
        evaluated(cx, fuel, e, env, w) == builtin_method_called(
            cx,
            (fuel - 1) as nat,
            recv,
            name,
            e.kind->Call_args@,
            e.span,
            env,
            after,
        ),
{
    let f = (fuel - 1) as nat;
    method_is(cx, fuel, e, env, w, name, recv, after);
    assert(method_called(cx, f, recv, name, e.kind->Call_args@, e.span, env, after)
        == builtin_method_called(
        cx,
        f,
        recv,
        name,
        e.kind->Call_args@,
        e.span,
        env,
        after,
    ));
}

/// A function that is called with fewer values than it has parameters gives the others
/// their defaults, in order, each evaluated in the function's scope; without a
/// default it is an error. More values than parameters are an error.
pub proof fn law_closure_defaults(
    cx: Cx,
    fuel: nat,
    params: Seq<Param>,
    i: nat,
    args: Seq<Val>,
    scope: Env,
    fn_name: Seq<char>,
    span: Span,
    w: World,
)
    ensures
        i < params.len() && params[i as int] is Named ==> {
            let all = params_filled(
                cx,
                fuel,
                params,
                i,
                args.len(),
                args,
                scope,
                fn_name,
                span,
                w,
            );
            match params[i as int]->default {
                None => all.0 is Err,
                Some(e) => {
                    let got = evaluated(cx, fuel, e, scope, w);
                    &&& got.0 matches Err(h) ==> all == (Err::<(), Halt>(h), got.1)
                    &&& got.0 matches Ok(v) ==> all == params_filled(
                        cx,
                        fuel,
                        params,
                        i + 1,
                        args.len() + 1,
                        args,
                        scope,
                        fn_name,
                        span,
                        got.1.with_var(scope, params[i as int]->name@, v, false),
                    )
                },
            }
        },
        args.len() > param_names(params).len() ==> params_bound(
            cx,
            fuel,
            params,
            args,
            scope,
            fn_name,
            span,
            w,
        ).0 is Err,
{
    assert(params.skip(0) =~= params);
    count_is(params, 0);
}

/// An `Err` that `try` sends on its way out of a lambda's body is the value of the call
/// of the lambda.
pub proof fn law_lambda_takes_err(
    cx: Cx,
    fuel: nat,
    l: Lambda,
    home: Env,
    vs: Seq<Val>,
    span: Span,
    w: World,
    v: Val,
)
    requires
        vs.len() == l.params@.len(),
        ({
            let scope = w.next_scope();
            let bound = bound_all(w.add_scope(Some(home)), scope, texts(l.params@), vs, false, 0);
            let body = evaluated(cx, fuel, *l.body, scope, bound);
            (body.0 matches Err(h) && h is Error) && body.1.propagating == Some(v)
        }),
    ensures
        applied(cx, fuel, Val::Closure(ClosureVal::Lambda(l, home)), vs, span, w).0 == Ok::<
            Val,
            Halt,
        >(v),
        applied(
            cx,
            fuel,
            Val::Closure(ClosureVal::Lambda(l, home)),
            vs,
            span,
            w,
        ).1.propagating is None,
{
    let c = ClosureVal::Lambda(l, home);
    assert(applied(cx, fuel, Val::Closure(c), vs, span, w) == closure_called(
        cx,
        fuel,
        c,
        vs,
        span,
        w,
    ));
}

} // verus!
