//! Laws of the language.

use super::collections::{keys_of, skipped, taken, values_of, zipped};
use super::env::{reassigned, resolved};
use super::float::{is_infinite, is_nan, Answers};
use super::ops::{arith_result, mixed_message, range_items};
use super::semantics::{
    args_evaluated, assigned, binary_evaluated, call_evaluated, closure_called, condition,
    enum_named, evaluated, executed, indexed, list_plain, list_with_arg, member_called,
    member_evaluated, member_of, method_called, operated, result_value, tried, val_message,
};
use super::show::{equal, float_text, label_of};
use super::value::{failure, BindingVal, Builtin, ClosureVal, Env, Halt, Val, World};
use super::{body_ended, bound_all, first_world, unwind_message, Cx, FlowVal};
use crate::ast::{Arg, Assign, BinOp, Binding, Expr, ExprKind, Lambda, Stmt};
use crate::name_map::{bind, law_lookup_after_bind, lookup};
use crate::text::texts;
use crate::token::Span;
use vstd::prelude::*;
use vstd::string::*;

verus! {

// ---------------------------------------------------------------------------
// Operators
// ---------------------------------------------------------------------------

proof fn lemma_binary(cx: Cx, fuel: nat, e: Expr, env: Env, w: World)
    requires
        fuel > 0,
        e.kind is Binary,
    ensures
        evaluated(cx, fuel, e, env, w) == binary_evaluated(
            cx,
            (fuel - 1) as nat,
            e.kind->Binary_op,
            *e.kind->Binary_lhs,
            *e.kind->Binary_rhs,
            e.span,
            env,
            w,
        ),
{
}

/// `and` whose left side is false, and `or` whose left side is true, do not
/// evaluate the right side.
pub proof fn law_short_circuit(cx: Cx, fuel: nat, e: Expr, env: Env, w: World)
    requires
        fuel > 0,
        e.kind is Binary,
        e.kind->Binary_op == BinOp::And || e.kind->Binary_op == BinOp::Or,
        evaluated(cx, (fuel - 1) as nat, *e.kind->Binary_lhs, env, w).0 == Ok::<Val, Halt>(
            Val::Bool(e.kind->Binary_op == BinOp::Or),
        ),
    ensures
        evaluated(cx, fuel, e, env, w) == evaluated(
            cx,
            (fuel - 1) as nat,
            *e.kind->Binary_lhs,
            env,
            w,
        ),
{
    lemma_binary(cx, fuel, e, env, w);
}

/// The operands of `and` and `or` must be Booleans.
pub proof fn law_logic_needs_bool(cx: Cx, fuel: nat, e: Expr, env: Env, w: World)
    requires
        fuel > 0,
        e.kind is Binary,
        e.kind->Binary_op == BinOp::And || e.kind->Binary_op == BinOp::Or,
    ensures
        evaluated(cx, (fuel - 1) as nat, *e.kind->Binary_lhs, env, w).0 matches Ok(v)
            && !(v is Bool) ==> evaluated(cx, fuel, e, env, w).0 is Err,
        evaluated(cx, fuel, e, env, w).0 matches Ok(v) ==> v is Bool,
{
    lemma_binary(cx, fuel, e, env, w);
}

/// `is` means what `==` means, and `is not` what `!=` means.
pub proof fn law_is_means_equal(cx: Cx, fuel: nat, l: Val, r: Val, span: Span, w: World)
    ensures
        operated(cx, fuel, BinOp::Is, l, r, span, w) == operated(
            cx,
            fuel,
            BinOp::Eq,
            l,
            r,
            span,
            w,
        ),
        operated(cx, fuel, BinOp::IsNot, l, r, span, w) == operated(
            cx,
            fuel,
            BinOp::NotEq,
            l,
            r,
            span,
            w,
        ),
{
}

/// `!=` holds just where `==` does not, and neither changes anything.
pub proof fn law_not_equal_is_negation(cx: Cx, fuel: nat, l: Val, r: Val, span: Span, w: World)
    ensures
        match operated(cx, fuel, BinOp::Eq, l, r, span, w).0 {
            Ok(Val::Bool(b)) => operated(cx, fuel, BinOp::NotEq, l, r, span, w) == (
                Ok::<Val, Halt>(Val::Bool(!b)),
                w,
            ),
            Ok(_) => false,
            Err(h) => h is Budget && operated(cx, fuel, BinOp::NotEq, l, r, span, w) == (
                Err::<Val, Halt>(h),
                w,
            ),
        },
        operated(cx, fuel, BinOp::Eq, l, r, span, w).1 == w,
{
}

/// Functions equal nothing, not even themselves.
pub proof fn law_functions_equal_nothing(w: World, fuel: nat, f: Val, v: Val)
    requires
        fuel > 0,
        f is Closure || f is Builtin,
    ensures
        equal(w, fuel, f, v) == Some(false),
        equal(w, fuel, v, f) == Some(false),
{
}

/// A NaN equals nothing, not even itself; a float that is none equals itself.
pub proof fn law_float_equality(w: World, fuel: nat, a: u64, b: u64)
    requires
        fuel > 0,
    ensures
        is_nan(a) ==> equal(w, fuel, Val::Float(a), Val::Float(b)) == Some(false),
        !is_nan(a) ==> equal(w, fuel, Val::Float(a), Val::Float(a)) == Some(true),
        equal(w, fuel, Val::Float(a), Val::Float(b)) == equal(
            w,
            fuel,
            Val::Float(b),
            Val::Float(a),
        ),
{
}

/// Integers and floats do not mix in arithmetic.
pub proof fn law_no_coercion(cx: Cx, op: BinOp, n: int, x: u64, span: Span)
    ensures
        arith_result(cx.ans, op, Val::Int(n), Val::Float(x), span) == Err::<Val, Halt>(
            failure(mixed_message(), span),
        ),
        arith_result(cx.ans, op, Val::Float(x), Val::Int(n), span) == Err::<Val, Halt>(
            failure(mixed_message(), span),
        ),
{
}

/// `a..=b` is `a..b` and then `b`, unless it is empty.
pub proof fn law_inclusive_range(a: int, b: int)
    ensures
        a <= b ==> range_items(a, b, true) == range_items(a, b, false).push(Val::Int(b)),
        a > b ==> range_items(a, b, true) == Seq::<Val>::empty(),
{
    if a <= b {
        assert(range_items(a, b, true) =~= range_items(a, b, false).push(Val::Int(b)));
    } else {
        assert(range_items(a, b, true) =~= Seq::<Val>::empty());
    }
}

// ---------------------------------------------------------------------------
// Rendering
// ---------------------------------------------------------------------------

/// A finite float is never shown as an integer would be: it has a point or an
/// exponent.
pub proof fn law_float_shows_point(ans: Answers, bits: u64)
    requires
        !is_nan(bits),
        !is_infinite(bits),
    ensures
        float_text(ans, bits) matches Ok(s) ==> s.contains('.') || s.contains('e') || s.contains(
            'E',
        ),
{
    reveal_strlit(".0");
    if let Some(s) = ans.text_answer(bits) {
        let longer = s + ".0"@;
        assert(longer[s.len() as int] == '.');
        assert(longer.contains('.'));
    }
}

// ---------------------------------------------------------------------------
// Conditions
// ---------------------------------------------------------------------------

/// A condition is the Boolean that its expression gives; any other value is an
/// error, whatever it is.
pub proof fn law_conditions_are_bool(cx: Cx, fuel: nat, e: Expr, env: Env, w: World)
    ensures
        match evaluated(cx, fuel, e, env, w).0 {
            Ok(Val::Bool(b)) => condition(cx, fuel, e, env, w).0 == Ok::<bool, Halt>(b),
            Ok(v) => condition(cx, fuel, e, env, w).0 == Err::<bool, Halt>(
                failure("condition must be Bool, found "@ + label_of(v), e.span),
            ),
            Err(h) => condition(cx, fuel, e, env, w).0 == Err::<bool, Halt>(h),
        },
        condition(cx, fuel, e, env, w).1 == evaluated(cx, fuel, e, env, w).1,
{
}

// ---------------------------------------------------------------------------
// Names
// ---------------------------------------------------------------------------

/// A name that was just bound in a scope means that value there.
pub proof fn law_bound_name_resolves(w: World, env: Env, name: Seq<char>, v: Val, is_val: bool)
    requires
        env < w.scopes.len(),
    ensures
        resolved(w.with_var(env, name, v, is_val), env, name) == Some(v),
{
    law_lookup_after_bind(
        w.scopes[env as int].vars,
        name,
        BindingVal { value: v, is_val },
        name,
    );
}

/// Binding a name changes what no other name means, in any scope.
pub proof fn law_binding_keeps_other_names(
    w: World,
    env: Env,
    name: Seq<char>,
    v: Val,
    is_val: bool,
    at: Env,
    other: Seq<char>,
)
    requires
        other != name,
    ensures
        resolved(w.with_var(env, name, v, is_val), at, other) == resolved(w, at, other),
    decreases at,
{
    if env < w.scopes.len() {
        law_lookup_after_bind(
            w.scopes[env as int].vars,
            name,
            BindingVal { value: v, is_val },
            other,
        );
    }
    if let Some(p) = w.enclosing(at) {
        law_binding_keeps_other_names(w, env, name, v, is_val, p, other);
    }
}

/// Binding a name in a scope changes what nothing means in an older scope.
pub proof fn law_inner_binding_stays_inside(
    w: World,
    env: Env,
    name: Seq<char>,
    v: Val,
    is_val: bool,
    at: Env,
    other: Seq<char>,
)
    requires
        at < env,
    ensures
        resolved(w.with_var(env, name, v, is_val), at, other) == resolved(w, at, other),
    decreases at,
{
    if let Some(p) = w.enclosing(at) {
        law_inner_binding_stays_inside(w, env, name, v, is_val, p, other);
    }
}

/// Reassigning a name gives it the new value; where no scope binds it, or the
/// innermost that does bound it with `val`, nothing changes.
pub proof fn law_reassignment(w: World, env: Env, name: Seq<char>, v: Val)
    ensures
        match reassigned(w, env, name, v) {
            (Ok(true), w1) => resolved(w, env, name) is Some && resolved(w1, env, name) == Some(v),
            (Ok(false), w1) => resolved(w, env, name) is None && w1 == w,
            (Err(_), w1) => resolved(w, env, name) is Some && w1 == w,
        },
    decreases env,
{
    match lookup(w.scope(env).vars, name) {
        Some(b) => {
            assert(env < w.scopes.len()) by {
                if env >= w.scopes.len() {
                    assert(w.scope(env).vars.len() == 0);
                }
            }
            law_bound_name_resolves(w, env, name, v, false);
        },
        None => {
            if let Some(p) = w.enclosing(env) {
                law_reassignment(w, p, name, v);
                let w1 = reassigned(w, p, name, v).1;
                lemma_reassigned_below(w, p, name, v, env);
            }
        },
    }
}

/// Reassigning from a scope leaves the newer scopes as they are.
proof fn lemma_reassigned_below(w: World, env: Env, name: Seq<char>, v: Val, at: Env)
    requires
        env < at,
    ensures
        reassigned(w, env, name, v).1.scope(at) == w.scope(at),
    decreases env,
{
    match lookup(w.scope(env).vars, name) {
        Some(_) => {},
        None => {
            if let Some(p) = w.enclosing(env) {
                lemma_reassigned_below(w, p, name, v, at);
            }
        },
    }
}

/// The binding that a name has: that of the innermost scope that binds it.
pub open spec fn binding_of(w: World, env: Env, name: Seq<char>) -> Option<BindingVal>
    decreases env,
{
    match lookup(w.scope(env).vars, name) {
        Some(b) => Some(b),
        None => match w.enclosing(env) {
            Some(p) => binding_of(w, p, name),
            None => None,
        },
    }
}

proof fn lemma_val_refused(w: World, env: Env, name: Seq<char>, v: Val)
    requires
        binding_of(w, env, name) matches Some(b) && b.is_val,
    ensures
        reassigned(w, env, name, v) == (Err::<bool, ()>(()), w),
    decreases env,
{
    if lookup(w.scope(env).vars, name) is None {
        if let Some(p) = w.enclosing(env) {
            lemma_val_refused(w, p, name, v);
        }
    }
}

/// A name bound with `val` cannot be given another value: `x = e` is an error
/// once `e` has its value, and nothing else happens.
pub proof fn law_val_is_final(cx: Cx, fuel: nat, s: Stmt, env: Env, w: World)
    requires
        fuel > 0,
        s.kind is Binding,
        !s.kind->Binding_0.is_val,
        s.kind->Binding_0.ty is None,
        s.kind->Binding_0.binder is Name,
        evaluated(cx, (fuel - 1) as nat, s.kind->Binding_0.value, env, w).0 is Ok,
        binding_of(
            evaluated(cx, (fuel - 1) as nat, s.kind->Binding_0.value, env, w).1,
            env,
            s.kind->Binding_0.binder->Name_0@,
        ) matches Some(b) && b.is_val,
    ensures
        executed(cx, fuel, s, env, w) == (
            Err::<FlowVal, Halt>(
                failure(val_message(s.kind->Binding_0.binder->Name_0@), s.span),
            ),
            evaluated(cx, (fuel - 1) as nat, s.kind->Binding_0.value, env, w).1,
        ),
{
    let b = s.kind->Binding_0;
    let out = evaluated(cx, (fuel - 1) as nat, b.value, env, w);
    lemma_val_refused(out.1, env, b.binder->Name_0@, out.0->Ok_0);
}

/// `val (a, b) = e` binds each name with `val`, and `(a, b)` bound otherwise binds
/// none so: what is bound last under a name counts.
pub proof fn law_tuple_binds_as_told(
    w: World,
    scope: Env,
    names: Seq<Seq<char>>,
    items: Seq<Val>,
    is_val: bool,
    k: int,
)
    requires
        scope < w.scopes.len(),
        0 <= k < names.len(),
        names.len() == items.len(),
    ensures
        binding_of(bound_all(w, scope, names, items, is_val, 0), scope, names[k]) matches Some(b)
            && b.is_val == is_val,
{
    lemma_tuple_bound(w, scope, names, items, is_val, 0, names[k]);
}

proof fn lemma_tuple_bound(
    w: World,
    scope: Env,
    names: Seq<Seq<char>>,
    items: Seq<Val>,
    is_val: bool,
    i: nat,
    name: Seq<char>,
)
    requires
        scope < w.scopes.len(),
        names.len() == items.len(),
        (exists|j: int| i <= j < names.len() && names[j] == name) || (lookup(
            w.scopes[scope as int].vars,
            name,
        ) matches Some(b) && b.is_val == is_val),
    ensures
        ({
            let after = bound_all(w, scope, names, items, is_val, i);
            &&& after.scopes.len() == w.scopes.len()
            &&& lookup(after.scopes[scope as int].vars, name) matches Some(b) && b.is_val == is_val
        }),
    decreases names.len() - i,
{
    if i < names.len() {
        let b = BindingVal { value: items[i as int], is_val };
        let w1 = w.with_var(scope, names[i as int], items[i as int], is_val);
        law_lookup_after_bind(w.scopes[scope as int].vars, names[i as int], b, name);
        lemma_tuple_bound(w1, scope, names, items, is_val, i + 1, name);
    }
}

/// The same of an assignment to the bare name.
pub proof fn law_val_is_final_in_assignment(cx: Cx, fuel: nat, a: Assign, env: Env, w: World)
    requires
        a.target.path@.len() == 0,
        evaluated(cx, fuel, a.value, env, w).0 is Ok,
        binding_of(
            evaluated(cx, fuel, a.value, env, w).1,
            env,
            a.target.base@,
        ) matches Some(b) && b.is_val,
    ensures
        assigned(cx, fuel, a, env, w) == (
            Err::<(), Halt>(failure(val_message(a.target.base@), a.target.span)),
            evaluated(cx, fuel, a.value, env, w).1,
        ),
{
    let out = evaluated(cx, fuel, a.value, env, w);
    lemma_val_refused(out.1, env, a.target.base@, out.0->Ok_0);
}

proof fn lemma_new_scope_adds_nothing(w: World, parent: Option<Env>, at: Env, name: Seq<char>)
    requires
        at < w.scopes.len(),
    ensures
        resolved(w.add_scope(parent), at, name) == resolved(w, at, name),
    decreases at,
{
    let w1 = w.add_scope(parent);
    assert(w1.scope(at) == w.scope(at));
    if let Some(p) = w.enclosing(at) {
        lemma_new_scope_adds_nothing(w, parent, p, name);
    }
}

/// In a new scope every name means what it means in the scope around it.
pub proof fn law_new_scope_sees_outer_names(w: World, parent: Env, name: Seq<char>)
    requires
        parent < w.scopes.len() <= usize::MAX,
    ensures
        resolved(w.add_scope(Some(parent)), w.next_scope(), name) == resolved(w, parent, name),
{
    let w1 = w.add_scope(Some(parent));
    let inner = w.next_scope();
    assert(w1.scope(inner).vars.len() == 0);
    assert(w1.enclosing(inner) == Some(parent));
    lemma_new_scope_adds_nothing(w, Some(parent), parent, name);
}

/// A function sees the names around it as they are when it is called, not as they
/// were when it was made: `() -> x` gives what `x` means in the world of the call.
pub proof fn law_closures_capture_by_reference(
    cx: Cx,
    fuel: nat,
    l: Lambda,
    home: Env,
    span: Span,
    w: World,
)
    requires
        fuel > 0,
        home < w.scopes.len() <= usize::MAX,
        l.params@.len() == 0,
        l.body.kind is Name,
        resolved(w, home, l.body.kind->Name_0@) is Some,
    ensures
        closure_called(cx, fuel, ClosureVal::Lambda(l, home), Seq::empty(), span, w).0 == Ok::<
            Val,
            Halt,
        >(resolved(w, home, l.body.kind->Name_0@)->0),
{
    let w1 = w.add_scope(Some(home));
    law_new_scope_sees_outer_names(w, home, l.body.kind->Name_0@);
    assert(bound_all(w1, w.next_scope(), texts(l.params@), Seq::empty(), false, 0) == w1);
    assert(evaluated(cx, fuel, *l.body, w.next_scope(), w1).0 == Ok::<Val, Halt>(
        resolved(w, home, l.body.kind->Name_0@)->0,
    ));
}

/// `print`, `panic`, `Set`, `Ok` and `Err` are bound before the first statement,
/// and not with `val`: a program may give the names to something else.
pub proof fn law_prelude()
    ensures
        binding_of(first_world(), 0, "print"@) == Some(
            BindingVal { value: Val::Builtin(Builtin::Print), is_val: false },
        ),
        binding_of(first_world(), 0, "panic"@) == Some(
            BindingVal { value: Val::Builtin(Builtin::Panic), is_val: false },
        ),
        binding_of(first_world(), 0, "Set"@) == Some(
            BindingVal { value: Val::Builtin(Builtin::EmptySet), is_val: false },
        ),
        binding_of(first_world(), 0, "Ok"@) == Some(
            BindingVal { value: Val::Builtin(Builtin::MakeOk), is_val: false },
        ),
        binding_of(first_world(), 0, "Err"@) == Some(
            BindingVal { value: Val::Builtin(Builtin::MakeErr), is_val: false },
        ),
{
    reveal_strlit("print");
    reveal_strlit("panic");
    reveal_strlit("Set");
    reveal_strlit("Ok");
    reveal_strlit("Err");
    assert("print"@ != "panic"@) by {
        assert("print"@[1] != "panic"@[1]);
    }
    assert("print"@.len() == 5 && "panic"@.len() == 5 && "Set"@.len() == 3 && "Ok"@.len() == 2
        && "Err"@.len() == 3);
    assert("Set"@ != "Err"@) by {
        assert("Set"@[0] != "Err"@[0]);
    }
    let none = Seq::<(Seq<char>, BindingVal)>::empty();
    let print = BindingVal { value: Val::Builtin(Builtin::Print), is_val: false };
    let panic = BindingVal { value: Val::Builtin(Builtin::Panic), is_val: false };
    let set = BindingVal { value: Val::Builtin(Builtin::EmptySet), is_val: false };
    let ok = BindingVal { value: Val::Builtin(Builtin::MakeOk), is_val: false };
    let err = BindingVal { value: Val::Builtin(Builtin::MakeErr), is_val: false };
    let v1 = bind(none, "print"@, print);
    let v2 = bind(v1, "panic"@, panic);
    let v3 = bind(v2, "Set"@, set);
    let v4 = bind(v3, "Ok"@, ok);
    let v5 = bind(v4, "Err"@, err);
    assert(first_world().scope(0).vars == v5);
    let names = seq!["print"@, "panic"@, "Set"@, "Ok"@, "Err"@];
    assert forall|i: int| 0 <= i < 5 implies lookup(v5, #[trigger] names[i]) == (if i == 0 {
        Some(print)
    } else if i == 1 {
        Some(panic)
    } else if i == 2 {
        Some(set)
    } else if i == 3 {
        Some(ok)
    } else {
        Some(err)
    }) by {
        law_lookup_after_bind(none, "print"@, print, names[i]);
        law_lookup_after_bind(v1, "panic"@, panic, names[i]);
        law_lookup_after_bind(v2, "Set"@, set, names[i]);
        law_lookup_after_bind(v3, "Ok"@, ok, names[i]);
        law_lookup_after_bind(v4, "Err"@, err, names[i]);
    }
    assert(lookup(v5, names[0]) == Some(print));
    assert(lookup(v5, names[1]) == Some(panic));
    assert(lookup(v5, names[2]) == Some(set));
    assert(lookup(v5, names[3]) == Some(ok));
    assert(lookup(v5, names[4]) == Some(err));
}

// ---------------------------------------------------------------------------
// Null
// ---------------------------------------------------------------------------

/// `x?.name` is `null` where `x` is, and nothing else happens.
pub proof fn law_safe_member_of_null(cx: Cx, fuel: nat, e: Expr, env: Env, w: World)
    requires
        fuel > 0,
        e.kind is Member,
        e.kind->Member_safe,
        evaluated(cx, (fuel - 1) as nat, *e.kind->Member_base, env, w).0 == Ok::<Val, Halt>(
            Val::Null,
        ),
    ensures
        evaluated(cx, fuel, e, env, w) == evaluated(
            cx,
            (fuel - 1) as nat,
            *e.kind->Member_base,
            env,
            w,
        ),
{
    let f = (fuel - 1) as nat;
    if let ExprKind::Member { base, name, safe } = e.kind {
        assert(evaluated(cx, fuel, e, env, w) == member_evaluated(
            cx,
            f,
            *base,
            name@,
            safe,
            e.span,
            env,
            w,
        ));
    }
}

/// `x?.m(args)` is `null` where `x` is, and the arguments are not evaluated.
pub proof fn law_safe_call_on_null(cx: Cx, fuel: nat, e: Expr, env: Env, w: World)
    requires
        fuel > 0,
        e.kind is Call,
        e.kind->Call_callee.kind is Member,
        e.kind->Call_callee.kind->Member_safe,
        evaluated(cx, (fuel - 1) as nat, *e.kind->Call_callee.kind->Member_base, env, w).0 == Ok::<
            Val,
            Halt,
        >(Val::Null),
    ensures
        evaluated(cx, fuel, e, env, w) == evaluated(
            cx,
            (fuel - 1) as nat,
            *e.kind->Call_callee.kind->Member_base,
            env,
            w,
        ),
{
    let f = (fuel - 1) as nat;
    if let ExprKind::Call { callee, args } = e.kind {
        let called = call_evaluated(cx, f, *callee, args@, e.span, env, w);
        assert(evaluated(cx, fuel, e, env, w) == called);
        if let ExprKind::Member { base, name, safe } = callee.kind {
            assert(called == member_called(cx, f, *base, name@, safe, args@, e.span, env, w));
        }
    }
}

/// `x.or_else(d)` is `x`, unless that is `null`: then it is `d`.
pub proof fn law_or_else(
    cx: Cx,
    fuel: nat,
    base: Expr,
    args: Seq<Arg>,
    span: Span,
    env: Env,
    w: World,
)
    requires
        evaluated(cx, fuel, base, env, w).0 is Ok,
        enum_named(cx, base, env, w) is None,
        args_evaluated(
            cx,
            fuel,
            args,
            0,
            Seq::empty(),
            span,
            env,
            evaluated(cx, fuel, base, env, w).1,
        ).0 matches Ok(vs) && vs.len() == 1,
    ensures
        member_called(cx, fuel, base, "or_else"@, false, args, span, env, w).0 == Ok::<Val, Halt>(
            if evaluated(cx, fuel, base, env, w).0->Ok_0 is Null {
                args_evaluated(
                    cx,
                    fuel,
                    args,
                    0,
                    Seq::empty(),
                    span,
                    env,
                    evaluated(cx, fuel, base, env, w).1,
                ).0->Ok_0[0]
            } else {
                evaluated(cx, fuel, base, env, w).0->Ok_0
            },
        ),
{
}

/// `v.expect(message)` is `v`, unless that is `null`: then it is an error that
/// carries the message.
pub proof fn law_expect(
    cx: Cx,
    fuel: nat,
    v: Val,
    args: Seq<Arg>,
    span: Span,
    env: Env,
    w: World,
)
    requires
        args_evaluated(cx, fuel, args, 0, Seq::empty(), span, env, w).0 matches Ok(vs) && vs.len()
            == 1 && vs[0] is Str,
    ensures
        method_called(cx, fuel, v, "expect"@, args, span, env, w).0 == (if v is Null {
            Err::<Val, Halt>(
                failure(
                    "panic: "@ + args_evaluated(
                        cx,
                        fuel,
                        args,
                        0,
                        Seq::empty(),
                        span,
                        env,
                        w,
                    ).0->Ok_0[0]->Str_0,
                    span,
                ),
            )
        } else {
            Ok::<Val, Halt>(v)
        }),
{
}

// ---------------------------------------------------------------------------
// Results
// ---------------------------------------------------------------------------

/// `try` takes the value out of an `Ok`.
pub proof fn law_try_ok(v: Val, span: Span, w: World)
    ensures
        tried(result_value("Ok"@, v), span, w) == (Ok::<Val, Halt>(v), w),
{
}

/// `try` on an `Err` ends the call around it, whose value is that `Err`.
pub proof fn law_try_err(v: Val, span: Span, w: World, message: Seq<char>, call: Span)
    ensures
        tried(result_value("Err"@, v), span, w).0 == Err::<Val, Halt>(
            failure(unwind_message(), span),
        ),
        body_ended(
            (
                Err::<FlowVal, Halt>(failure(unwind_message(), span)),
                tried(result_value("Err"@, v), span, w).1,
            ),
            message,
            call,
        ) == (Ok::<Val, Halt>(result_value("Err"@, v)), w.with_propagating(None)),
{
    reveal_strlit("Ok");
    reveal_strlit("Err");
    assert("Ok"@.len() != "Err"@.len());
}

// ---------------------------------------------------------------------------
// Lists
// ---------------------------------------------------------------------------

/// The first `n` items and the rest make up the list.
pub proof fn law_take_and_skip(items: Seq<Val>, n: nat)
    ensures
        taken(items, n) + skipped(items, n) == items,
{
    assert(taken(items, n) + skipped(items, n) =~= items);
}

/// Reversing twice gives the list back.
pub proof fn law_reverse_twice(items: Seq<Val>)
    ensures
        items.reverse().reverse() == items,
{
    assert(items.reverse().reverse() =~= items);
}

/// What is written at a place of a list is read there, and the other places stay.
pub proof fn law_item_write_then_read(w: World, at: usize, i: int, v: Val, span: Span)
    requires
        at < w.lists.len(),
        0 <= i < w.list(at).len(),
        i <= usize::MAX,
    ensures
        indexed(
            Val::List(at),
            Val::Int(i),
            span,
            w.with_list(at, w.list(at).update(i, v)),
        ) == Ok::<Val, Halt>(v),
        forall|j: int|
            0 <= j < w.list(at).len() && j <= usize::MAX && j != i ==> #[trigger] indexed(
                Val::List(at),
                Val::Int(j),
                span,
                w.with_list(at, w.list(at).update(i, v)),
            ) == indexed(Val::List(at), Val::Int(j), span, w),
{
}

/// What is written to a field is read from it, and the other fields stay.
pub proof fn law_field_write_then_read(
    w: World,
    at: usize,
    name: Seq<char>,
    v: Val,
    other: Seq<char>,
    span: Span,
)
    requires
        at < w.structs.len(),
    ensures
        member_of(Val::Struct(at), name, span, w.with_field(at, name, v)) == Ok::<Val, Halt>(v),
        other != name ==> member_of(Val::Struct(at), other, span, w.with_field(at, name, v))
            == member_of(Val::Struct(at), other, span, w),
{
    law_lookup_after_bind(w.structs[at as int].fields, name, v, other);
}

/// `xs.append(x)` and then `xs.pop_last()` gives `x`, and the list is as it was.
pub proof fn law_append_then_pop(cx: Cx, fuel: nat, at: usize, x: Val, span: Span, w: World)
    requires
        at < w.lists.len(),
    ensures
        list_with_arg(fuel, at, "append"@, seq![x], span, w) == Some(
            (Ok::<Val, Halt>(Val::Unit), w.with_list(at, w.list(at).push(x))),
        ),
        list_plain(
            cx,
            fuel,
            at,
            "pop_last"@,
            span,
            w.with_list(at, w.list(at).push(x)),
        ) == (Ok::<Val, Halt>(x), w),
{
    reveal_strlit("append");
    reveal_strlit("pop_last");
    reveal_strlit("contains");
    reveal_strlit("take");
    reveal_strlit("skip");
    reveal_strlit("zip");
    reveal_strlit("sum");
    reveal_strlit("count");
    reveal_strlit("len");
    reveal_strlit("is_empty");
    reveal_strlit("first");
    reveal_strlit("last");
    reveal_strlit("min");
    reveal_strlit("max");
    reveal_strlit("enumerate");
    reveal_strlit("reverse");
    reveal_strlit("sorted");
    reveal_strlit("sort");
    reveal_strlit("collect");
    assert("append"@.len() == 6);
    assert("pop_last"@.len() == 8);
    assert("is_empty"@[0] != "pop_last"@[0]);
    assert("contains"@.len() == 8 && "enumerate"@.len() == 9);
    let w1 = w.with_list(at, w.list(at).push(x));
    assert(w1.list(at).drop_last() =~= w.list(at));
    assert(w1.with_list(at, w.list(at)).lists =~= w.lists);
}

/// Zipping the keys of a map with its values gives its items back.
pub proof fn law_keys_and_values(pairs: Seq<(Val, Val)>)
    ensures
        zipped(keys_of(pairs), values_of(pairs)) == super::collections::entries_of(pairs),
{
    assert(zipped(keys_of(pairs), values_of(pairs)) =~= super::collections::entries_of(pairs));
}

} // verus!
