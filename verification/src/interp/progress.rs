//! What every evaluation keeps: the world stays valid and only grows, and an
//! `Err` that `try` sends on its way has arrived whenever evaluation gives a
//! value.

use super::collections::{
    best_from, count_arg, entries_of, entry_place, enumerated, float_sum, insert_place, int_sum,
    kept, keys_of, list_arg, no_args, one_arg, put_all, put_item, put_pair, set_arg, skipped,
    sorted_from, taken, two_args, values_of, zipped,
};
use super::env::{outermost, reassigned, resolved};
use super::float::Answers;
use super::ops::range_result;
use super::places::{
    declared, declared_add, declared_on, fit_closure, fit_flow, fit_gathered, fit_items, fit_named,
    fit_option, fit_pairs, fit_payload, fit_split, fits, fits_on, grows, grows_on, grows_self,
    items_empty, items_on, items_push, lookup_fits, named_bind, named_on, named_unbind, on_add_list,
    on_add_map, on_add_scope, on_add_set, on_add_struct, on_with_field, on_with_line, on_with_list,
    on_with_map, on_with_propagating, on_with_set, on_with_var, open_scope, pairs_on, scope_on,
    valid, valid_instance, valid_list, valid_lookup, valid_map, valid_set,
};
use super::registry::Decls;
use super::semantics::{
    all_matched, all_named, all_positional, any_matched, applied, arg_named, arg_value,
    args_evaluated, args_filled, args_split, arity_halt, arms_run, assigned, binary_evaluated,
    binder_bound, block_run, bound, builtin_called, builtin_method_called, call_bound,
    call_evaluated, closure_called, comprehension_evaluated, condition, declared_type, enum_named,
    evaluated, executed, fields_by_name, fields_in_order, filtered, folded, for_run,
    function_called, gathered, if_run, index_evaluated, is_plain_list_method, item_bound,
    items_evaluated, iterated, list_callback, list_called, list_plain, list_with_arg, loop_goes_on,
    loop_message, map_called, mapped, match_evaluated, match_run, matched, member_called,
    member_evaluated, members_evaluated, method_args_evaluated, method_called, navigated,
    no_payload, nothing_gathered, operated, pairs_evaluated, param_count, params_bound,
    params_filled, payload_by_name, payload_in_order, payload_made, payload_positional, predicate,
    required_from, set_called, sought, stepped, stmts_executed, str_called, struct_finished,
    struct_made, struct_named, text_built, tried, turns_gathered, turns_run, variant_made,
    while_run, written, Gathered, Payloads,
};
use super::show::{shown, variant_place};
use super::value::{Builtin, ClosureVal, Env, Halt, StructVal, Val, World};
use super::{
    body_ended, bool_of, bound_all, destructured, first_world, intercepted, main_span_from,
    program_cx, program_run, top_executed, Cx, FlowVal, Out,
};
use crate::ast::{
    Arg, Assign, BinOp, Binder, Binding, Block, Comprehension, ComprehensionBinder,
    ComprehensionOutput, EnumShape, Expr, ExprKind, FnDecl, ForStmt, IfStmt, MatchArm, MatchExpr,
    Param, Pattern, PatternKind, PayloadShape, Stmt, StmtKind, StrSeg, StructShape, TargetSeg,
    WhileStmt,
};
use crate::name_map::{bind, lookup, unbind};
use crate::text::{texts, Order};
use crate::token::Span;
use vstd::prelude::*;

verus! {

broadcast use {
    declared_on, grows_self, grows_on, fits_on, items_on, pairs_on, named_on, scope_on, items_empty,
    items_push, named_bind, named_unbind, lookup_fits, valid_list, valid_map, valid_set,
    valid_instance, valid_lookup, on_add_list, on_add_map, on_add_set, on_add_struct, on_add_scope,
    on_with_list, on_with_map, on_with_set, on_with_field, on_with_var, on_with_line,
    on_with_propagating,
};

/// An outcome that keeps the world valid and only lets it grow, and that leaves
/// no `Err` on its way where it gives a value and there was none before.
pub open spec fn sound<T>(w: World, out: Out<T>) -> bool {
    &&& valid(out.1)
    &&& grows(w, out.1)
    &&& out.0 is Ok && w.propagating is None ==> out.1.propagating is None
}

pub open spec fn sound_val(w: World, out: Out<Val>) -> bool {
    sound(w, out) && (out.0 matches Ok(v) ==> fits(out.1, v))
}

pub open spec fn sound_items(w: World, out: Out<Seq<Val>>) -> bool {
    sound(w, out) && (out.0 matches Ok(vs) ==> fit_items(out.1, vs))
}

pub open spec fn sound_pairs(w: World, out: Out<Seq<(Val, Val)>>) -> bool {
    sound(w, out) && (out.0 matches Ok(ps) ==> fit_pairs(out.1, ps))
}

pub open spec fn sound_named(w: World, out: Out<Seq<(Seq<char>, Val)>>) -> bool {
    sound(w, out) && (out.0 matches Ok(fs) ==> fit_named(out.1, fs))
}

pub open spec fn sound_gathered(w: World, out: Out<Gathered>) -> bool {
    sound(w, out) && (out.0 matches Ok(g) ==> fit_gathered(out.1, g))
}

pub open spec fn sound_payload(w: World, out: Out<Payloads>) -> bool {
    sound(w, out) && (out.0 matches Ok(p) ==> fit_payload(out.1, p))
}

pub open spec fn sound_flow(w: World, out: Out<FlowVal>) -> bool {
    sound(w, out) && (out.0 matches Ok(flow) ==> fit_flow(out.1, flow))
}

pub open spec fn sound_option(w: World, out: Out<Option<Val>>) -> bool {
    sound(w, out) && (out.0 matches Ok(v) ==> fit_option(out.1, v))
}

pub open spec fn sound_split(w: World, out: Out<(Seq<Val>, Seq<(Seq<char>, Val)>)>) -> bool {
    sound(w, out) && (out.0 matches Ok(s) ==> fit_split(out.1, s))
}

pub open spec fn sound_some(w: World, out: Option<Out<Val>>) -> bool {
    out matches Some(o) ==> sound_val(w, o)
}

/// The same of a step that cannot fail and leaves no trace of its own.
pub open spec fn calm(w: World, later: World) -> bool {
    &&& valid(later)
    &&& grows(w, later)
    &&& later.propagating == w.propagating
    &&& later.structs.len() == w.structs.len()
}

// ---------------------------------------------------------------------------
// Names and patterns
// ---------------------------------------------------------------------------

proof fn keep_resolved(w: World, env: Env, name: Seq<char>)
    requires
        valid(w),
    ensures
        resolved(w, env, name) matches Some(v) ==> fits(w, v),
    decreases env,
{
    if lookup(w.scope(env).vars, name) is None {
        if let Some(p) = w.enclosing(env) {
            keep_resolved(w, p, name);
        }
    }
}

proof fn keep_reassigned(w: World, env: Env, name: Seq<char>, value: Val)
    requires
        valid(w),
        fits(w, value),
    ensures
        calm(w, reassigned(w, env, name, value).1),
    decreases env,
{
    if lookup(w.scope(env).vars, name) is None {
        if let Some(p) = w.enclosing(env) {
            keep_reassigned(w, p, name, value);
        }
    }
}

proof fn keep_outermost(w: World, env: Env)
    requires
        open_scope(w, env),
    ensures
        open_scope(w, outermost(w, env)),
    decreases env,
{
    if let Some(p) = w.enclosing(env) {
        keep_outermost(w, p);
    }
}

proof fn keep_bound_all(
    w: World, scope: Env, names: Seq<Seq<char>>, items: Seq<Val>, is_val: bool, i: nat,
)
    requires
        valid(w),
        fit_items(w, items),
    ensures
        calm(w, bound_all(w, scope, names, items, is_val, i)),
    decreases names.len() - i,
{
    if i < names.len() && i < items.len() {
        assert(fits(w, items[i as int]));
        let w1 = w.with_var(scope, names[i as int], items[i as int], is_val);
        keep_bound_all(w1, scope, names, items, is_val, i + 1);
    }
}

proof fn keep_destructured(
    names: Seq<Seq<char>>, v: Val, scope: Env, is_val: bool, span: Span, w: World,
)
    requires
        valid(w),
        fits(w, v),
    ensures
        sound(w, destructured(names, v, scope, is_val, span, w)),
        destructured(names, v, scope, is_val, span, w).1.propagating == w.propagating,
        destructured(names, v, scope, is_val, span, w).1.structs.len() == w.structs.len(),
{
    if let Val::Tuple(items) = v {
        keep_bound_all(w, scope, names, items, is_val, 0);
    }
}

proof fn keep_binder_bound(b: ComprehensionBinder, item: Val, scope: Env, span: Span, w: World)
    requires
        valid(w),
        fits(w, item),
    ensures
        sound(w, binder_bound(b, item, scope, span, w)),
        binder_bound(b, item, scope, span, w).1.structs.len() == w.structs.len(),
{
    if let ComprehensionBinder::Tuple(names) = b {
        keep_destructured(texts(names@), item, scope, false, span, w);
    }
}

proof fn keep_item_bound(b: Binder, item: Val, scope: Env, span: Span, w: World)
    requires
        valid(w),
        fits(w, item),
    ensures
        sound(w, item_bound(b, item, scope, span, w)),
        item_bound(b, item, scope, span, w).1.structs.len() == w.structs.len(),
{
    if let Binder::Tuple(names) = b {
        keep_destructured(texts(names@), item, scope, false, span, w);
    }
}

proof fn keep_bound(b: Binding, v: Val, span: Span, env: Env, w: World)
    requires
        valid(w),
        fits(w, v),
    ensures
        sound(w, bound(b, v, span, env, w)),
        bound(b, v, span, env, w).1.structs.len() == w.structs.len(),
{
    match b.binder {
        Binder::Tuple(names) => {
            keep_destructured(texts(names@), v, env, b.is_val, span, w);
        },
        Binder::Name(name) => {
            keep_reassigned(w, env, name@, v);
        },
    }
}

proof fn keep_matched(pat: Pattern, v: Val, scope: Env, w: World)
    requires
        valid(w),
        fits(w, v),
    ensures
        calm(w, matched(pat, v, scope, w).1),
    decreases pat, 0nat,
{
    match pat.kind {
        PatternKind::Variant { enum_name, name, subs } => match v {
            Val::Enum(e) => {
                keep_all_matched(subs@, e.payload, 0, scope, w);
            },
            _ => {},
        },
        PatternKind::Or(alts) => {
            keep_any_matched(alts@, v, 0, scope, w);
        },
        PatternKind::Tuple(elems) => match v {
            Val::Tuple(items) => {
                keep_all_matched(elems@, items, 0, scope, w);
            },
            _ => {},
        },
        _ => {},
    }
}

proof fn keep_all_matched(pats: Seq<Pattern>, vs: Seq<Val>, i: nat, scope: Env, w: World)
    requires
        valid(w),
        fit_items(w, vs),
    ensures
        calm(w, all_matched(pats, vs, i, scope, w).1),
    decreases pats, pats.len() - i,
{
    if i < pats.len() && i < vs.len() {
        assert(fits(w, vs[i as int]));
        keep_matched(pats[i as int], vs[i as int], scope, w);
        let w1 = matched(pats[i as int], vs[i as int], scope, w).1;
        keep_all_matched(pats, vs, i + 1, scope, w1);
    }
}

proof fn keep_any_matched(pats: Seq<Pattern>, v: Val, i: nat, scope: Env, w: World)
    requires
        valid(w),
        fits(w, v),
    ensures
        calm(w, any_matched(pats, v, i, scope, w).1),
    decreases pats, pats.len() - i,
{
    if i < pats.len() {
        keep_matched(pats[i as int], v, scope, w);
        let w1 = matched(pats[i as int], v, scope, w).1;
        keep_any_matched(pats, v, i + 1, scope, w1);
    }
}

// ---------------------------------------------------------------------------
// Values and collections
// ---------------------------------------------------------------------------

proof fn keep_entry_place(w: World, fuel: nat, pairs: Seq<(Val, Val)>, k: Val, j: nat)
    ensures
        entry_place(w, fuel, pairs, k, j) matches Some(Some(at)) ==> at < pairs.len(),
    decreases pairs.len() - j,
{
    if j < pairs.len() {
        keep_entry_place(w, fuel, pairs, k, j + 1);
    }
}

proof fn keep_put_pair(w: World, fuel: nat, pairs: Seq<(Val, Val)>, k: Val, v: Val)
    requires
        fit_pairs(w, pairs),
        fits(w, k),
        fits(w, v),
    ensures
        put_pair(w, fuel, pairs, k, v) matches Ok(more) ==> fit_pairs(w, more),
{
    keep_entry_place(w, fuel, pairs, k, 0);
}

proof fn keep_put_item(w: World, fuel: nat, items: Seq<Val>, x: Val)
    requires
        fit_items(w, items),
        fits(w, x),
    ensures
        put_item(w, fuel, items, x) matches Ok(more) ==> fit_items(w, more),
{
}

proof fn keep_put_all(w: World, fuel: nat, set: Seq<Val>, items: Seq<Val>, i: nat)
    requires
        fit_items(w, set),
        fit_items(w, items),
    ensures
        put_all(w, fuel, set, items, i) matches Ok(more) ==> fit_items(w, more),
    decreases items.len() - i,
{
    if i < items.len() {
        assert(fits(w, items[i as int]));
        keep_put_item(w, fuel, set, items[i as int]);
        if let Ok(more) = put_item(w, fuel, set, items[i as int]) {
            keep_put_all(w, fuel, more, items, i + 1);
        }
    }
}

proof fn keep_kept(
    w: World, fuel: nat, items: Seq<Val>, other: Seq<Val>, i: nat, done: Seq<Val>,
)
    requires
        fit_items(w, items),
        fit_items(w, done),
    ensures
        kept(w, fuel, items, other, i, done) matches Ok(more) ==> fit_items(w, more),
    decreases items.len() - i,
{
    if i < items.len() {
        assert(fits(w, items[i as int]));
        keep_kept(w, fuel, items, other, i + 1, done);
        keep_kept(w, fuel, items, other, i + 1, done.push(items[i as int]));
    }
}

proof fn keep_float_sum(w: World, ans: Answers, items: Seq<Val>, i: nat, acc: u64, span: Span)
    ensures
        float_sum(ans, items, i, acc, span) matches Ok(v) ==> fits(w, v),
    decreases items.len() - i,
{
    if i < items.len() {
        if let Val::Float(x) = items[i as int] {
            if let Some(more) = ans.arith_answer(super::float::FloatOp::Add, acc, x) {
                keep_float_sum(w, ans, items, i + 1, more, span);
            }
        }
    }
}

proof fn keep_int_sum(w: World, items: Seq<Val>, i: nat, acc: int, span: Span)
    ensures
        int_sum(items, i, acc, span) matches Ok(v) ==> fits(w, v),
    decreases items.len() - i,
{
    if i < items.len() {
        if let Val::Int(n) = items[i as int] {
            keep_int_sum(w, items, i + 1, acc + n, span);
        }
    }
}

proof fn keep_best_from(
    reg: Decls, w: World, fuel: nat, items: Seq<Val>, i: nat, best: Val, want: Order, span: Span,
)
    requires
        fit_items(w, items),
        fits(w, best),
    ensures
        best_from(reg, w, fuel, items, i, best, want, span) matches Ok(v) ==> fits(w, v),
    decreases items.len() - i,
{
    if i < items.len() {
        assert(fits(w, items[i as int]));
        keep_best_from(reg, w, fuel, items, i + 1, best, want, span);
        keep_best_from(reg, w, fuel, items, i + 1, items[i as int], want, span);
    }
}

proof fn keep_insert_place(
    reg: Decls, w: World, fuel: nat, done: Seq<Val>, x: Val, k: nat, span: Span,
)
    ensures
        insert_place(reg, w, fuel, done, x, k, span) matches Ok(at) ==> at <= done.len(),
    decreases k,
{
    if k != 0 && k <= done.len() {
        keep_insert_place(reg, w, fuel, done, x, (k - 1) as nat, span);
    }
}

proof fn keep_sorted_from(
    reg: Decls, w: World, fuel: nat, items: Seq<Val>, i: nat, done: Seq<Val>, span: Span,
)
    requires
        fit_items(w, items),
        fit_items(w, done),
    ensures
        sorted_from(reg, w, fuel, items, i, done, span) matches Ok(vs) ==> fit_items(w, vs),
    decreases items.len() - i,
{
    if i < items.len() {
        let x = items[i as int];
        assert(fits(w, x));
        keep_insert_place(reg, w, fuel, done, x, done.len(), span);
        if let Ok(at) = insert_place(reg, w, fuel, done, x, done.len(), span) {
            let more = done.insert(at as int, x);
            assert forall|j: int| 0 <= j < more.len() implies fits(w, #[trigger] more[j]) by {
                if j < at {
                    assert(more[j] == done[j]);
                } else if j > at {
                    assert(more[j] == done[j - 1]);
                }
            }
            keep_sorted_from(reg, w, fuel, items, i + 1, more, span);
        }
    }
}

proof fn keep_tuples(w: World, ps: Seq<(Val, Val)>)
    requires
        fit_pairs(w, ps),
    ensures
        fit_items(w, keys_of(ps)),
        fit_items(w, values_of(ps)),
        fit_items(w, entries_of(ps)),
{
    assert forall|i: int| 0 <= i < ps.len() implies fits(w, #[trigger] keys_of(ps)[i]) by {
        assert(fits(w, ps[i].0));
    }
    assert forall|i: int| 0 <= i < ps.len() implies fits(w, #[trigger] values_of(ps)[i]) by {
        assert(fits(w, ps[i].1));
    }
    assert forall|i: int| 0 <= i < ps.len() implies fits(w, #[trigger] entries_of(ps)[i]) by {
        assert(fits(w, ps[i].0) && fits(w, ps[i].1));
    }
}

proof fn keep_rows(w: World, xs: Seq<Val>, ys: Seq<Val>)
    requires
        fit_items(w, xs),
        fit_items(w, ys),
    ensures
        fit_items(w, enumerated(xs)),
        fit_items(w, zipped(xs, ys)),
        fit_items(w, xs.reverse()),
{
    assert forall|i: int| 0 <= i < xs.len() implies fits(w, #[trigger] enumerated(xs)[i]) by {
        assert(fits(w, Val::Int(i)) && fits(w, xs[i]));
    }
    assert forall|i: int| 0 <= i < zipped(xs, ys).len() implies fits(
        w,
        #[trigger] zipped(xs, ys)[i],
    ) by {
        assert(fits(w, xs[i]) && fits(w, ys[i]));
    }
    assert forall|i: int| 0 <= i < xs.len() implies fits(w, #[trigger] xs.reverse()[i]) by {
        assert(fits(w, xs[xs.len() - 1 - i]));
    }
}

// ---------------------------------------------------------------------------
// Steps
// ---------------------------------------------------------------------------

proof fn keep_propagating(w: World)
    requires
        valid(w),
    ensures
        fit_option(w, w.propagating),
{
    reveal(valid);
}

proof fn keep_intercepted(h: Halt, w: World)
    requires
        valid(w),
    ensures
        valid(intercepted(h, w).1),
        grows(w, intercepted(h, w).1),
        intercepted(h, w).0 matches Ok(v) ==> fits(intercepted(h, w).1, v)
            && intercepted(h, w).1.propagating is None,
        intercepted(h, w).1.structs.len() == w.structs.len(),
{
    keep_propagating(w);
}

proof fn keep_body_ended(body: Out<FlowVal>, message: Seq<char>, span: Span)
    requires
        valid(body.1),
        body.0 matches Ok(flow) ==> fit_flow(body.1, flow),
    ensures
        valid(body_ended(body, message, span).1),
        grows(body.1, body_ended(body, message, span).1),
        body_ended(body, message, span).0 matches Ok(v) ==> fits(
            body_ended(body, message, span).1,
            v,
        ) && (body_ended(body, message, span).1.propagating is None || (body.0 is Ok
            && body_ended(body, message, span).1 == body.1)),
        body_ended(body, message, span).1.structs.len() == body.1.structs.len(),
{
    if let Err(h) = body.0 {
        keep_intercepted(h, body.1);
    }
}

proof fn keep_tried(v: Val, span: Span, w: World)
    requires
        valid(w),
        fits(w, v),
    ensures
        sound_val(w, tried(v, span, w)),
        tried(v, span, w).1.structs.len() == w.structs.len(),
{
    if let Val::Enum(e) = v {
        assert(e.payload.len() > 0 ==> fits(w, e.payload[0]));
    }
}

proof fn keep_operated(cx: Cx, fuel: nat, op: BinOp, l: Val, r: Val, span: Span, w: World)
    requires
        valid(w),
        fits(w, l),
        fits(w, r),
    ensures
        sound_val(w, operated(cx, fuel, op, l, r, span, w)),
        operated(cx, fuel, op, l, r, span, w).1.structs.len() == w.structs.len(),
{
    if let Ok(items) = range_result(op, l, r, span) {
        assert(fit_items(w, items));
    }
}

proof fn keep_builtin_called(
    cx: Cx, fuel: nat, b: Builtin, args: Seq<Val>, span: Span, w: World,
)
    requires
        valid(w),
        fit_items(w, args),
    ensures
        sound_val(w, builtin_called(cx, fuel, b, args, span, w)),
        builtin_called(cx, fuel, b, args, span, w).1.structs.len() == w.structs.len(),
{
    if args.len() == 1 {
        assert(fits(w, args[0]));
        let one = seq![args[0]];
        assert(fit_items(w, one));
    }
}

proof fn keep_list_with_arg(
    fuel: nat, at: usize, name: Seq<char>, args: Seq<Val>, span: Span, w: World,
)
    requires
        valid(w),
        fit_items(w, args),
    ensures
        sound_some(w, list_with_arg(fuel, at, name, args, span, w)),
        list_with_arg(fuel, at, name, args, span, w) matches Some(out) ==> out.1.structs.len()
            == w.structs.len(),
{
    let items = w.list(at);
    if let Ok(x) = one_arg(name, args, span) {
        assert(fits(w, args[0]));
        if let Ok(other) = list_arg(x, name, span) {
            keep_rows(w, items, w.list(other));
        }
        if let Ok(n) = count_arg(x, name, span) {
            assert(fit_items(w, taken(items, n as nat)));
            assert(fit_items(w, skipped(items, n as nat)));
        }
    }
}

proof fn keep_list_plain(cx: Cx, fuel: nat, at: usize, name: Seq<char>, span: Span, w: World)
    requires
        valid(w),
    ensures
        sound_val(w, list_plain(cx, fuel, at, name, span, w)),
        list_plain(cx, fuel, at, name, span, w).1.structs.len() == w.structs.len(),
{
    let items = w.list(at);
    keep_rows(w, items, items);
    keep_int_sum(w, items, 0, 0, span);
    keep_float_sum(w, cx.ans, items, 0, 0, span);
    keep_sorted_from(cx.reg, w, fuel, items, 0, Seq::empty(), span);
    if items.len() > 0 {
        assert(fits(w, items[0]));
        assert(fits(w, items[items.len() - 1]));
        keep_best_from(cx.reg, w, fuel, items, 1, items[0], Order::Less, span);
        keep_best_from(cx.reg, w, fuel, items, 1, items[0], Order::Greater, span);
        assert(fit_items(w, items.drop_last()));
    }
}

proof fn keep_map_called(
    fuel: nat, at: usize, name: Seq<char>, args: Seq<Val>, span: Span, w: World,
)
    requires
        valid(w),
        fit_items(w, args),
    ensures
        sound_val(w, map_called(fuel, at, name, args, span, w)),
        map_called(fuel, at, name, args, span, w).1.structs.len() == w.structs.len(),
{
    let pairs = w.map(at);
    keep_tuples(w, pairs);
    if let Ok((k, v)) = two_args(name, args, span) {
        assert(fits(w, args[0]) && fits(w, args[1]));
        keep_put_pair(w, fuel, pairs, k, v);
    }
    if let Ok(k) = one_arg(name, args, span) {
        keep_entry_place(w, fuel, pairs, k, 0);
    }
}

proof fn keep_struct_finished(
    reg: Decls, decl: StructShape, name: Seq<char>, fields: Out<Seq<(Seq<char>, Val)>>, span: Span,
)
    requires
        lookup(reg.structs, name) == Some(decl),
    ensures
        declared(reg, fields.1) ==> declared(reg, struct_finished(decl, name, fields, span).1),
{
    if declared(reg, fields.1) {
        if let Ok(fs) = fields.0 {
            declared_add(reg, fields.1, StructVal { name, fields: fs, order: decl.fields });
        }
    }
}

proof fn keep_str_called(w: World, s: Seq<char>, name: Seq<char>, args: Seq<Val>, span: Span)
    ensures
        str_called(s, name, args, span) matches Ok(v) ==> fits(w, v),
{
}

proof fn keep_set_called(
    fuel: nat, at: usize, name: Seq<char>, args: Seq<Val>, span: Span, w: World,
)
    requires
        valid(w),
        fit_items(w, args),
    ensures
        sound_val(w, set_called(fuel, at, name, args, span, w)),
        set_called(fuel, at, name, args, span, w).1.structs.len() == w.structs.len(),
{
    let items = w.set(at);
    if let Ok(x) = one_arg(name, args, span) {
        assert(fits(w, args[0]));
        keep_put_item(w, fuel, items, x);
        if let Ok(other) = set_arg(x, name, span) {
            keep_put_all(w, fuel, items, w.set(other), 0);
            keep_kept(w, fuel, items, w.set(other), 0, Seq::empty());
        }
    }
}

// ---------------------------------------------------------------------------
// Evaluation
// ---------------------------------------------------------------------------

proof fn keep_evaluated(cx: Cx, fuel: nat, e: Expr, env: Env, w: World)
    requires
        valid(w),
        open_scope(w, env),
    ensures
        sound_val(w, evaluated(cx, fuel, e, env, w)),
        declared(cx.reg, w) ==> declared(cx.reg, evaluated(cx, fuel, e, env, w).1),
    decreases fuel, 0nat, 0nat,
{
    if fuel != 0 {
        let f = (fuel - 1) as nat;
        match e.kind {
            ExprKind::Str(lit) => {
                keep_text_built(cx, f, lit.parts@, 0, Seq::empty(), env, w);
            },
            ExprKind::Name(name) => {
                keep_resolved(w, env, name@);
            },
            ExprKind::SelfExpr => {
                keep_resolved(w, env, "self"@);
            },
            ExprKind::Try(inner) => {
                keep_evaluated(cx, f, *inner, env, w);
                match evaluated(cx, f, *inner, env, w) {
                    (Ok(v), w1) => {
                        keep_tried(v, e.span, w1);
                    },
                    _ => {},
                }
            },
            ExprKind::List(elems) => {
                keep_items_evaluated(cx, f, elems@, 0, Seq::empty(), env, w);
            },
            ExprKind::Ternary { then, cond, otherwise } => {
                keep_condition(cx, f, *cond, env, w);
                match condition(cx, f, *cond, env, w) {
                    (Ok(true), w1) => {
                        keep_evaluated(cx, f, *then, env, w1);
                    },
                    (Ok(false), w1) => {
                        keep_evaluated(cx, f, *otherwise, env, w1);
                    },
                    _ => {},
                }
            },
            ExprKind::Unary { op, operand } => {
                keep_evaluated(cx, f, *operand, env, w);
            },
            ExprKind::Binary { op, lhs, rhs } => {
                keep_binary_evaluated(cx, f, op, *lhs, *rhs, e.span, env, w);
            },
            ExprKind::Call { callee, args } => {
                keep_call_evaluated(cx, f, *callee, args@, e.span, env, w);
            },
            ExprKind::Index { base, index } => {
                keep_index_evaluated(cx, f, *base, *index, e.span, env, w);
            },
            ExprKind::Member { base, name, safe } => {
                keep_member_evaluated(cx, f, *base, name@, safe, e.span, env, w);
            },
            ExprKind::Match(m) => {
                keep_match_evaluated(cx, f, m, e.span, env, w);
            },
            ExprKind::MapLit(pairs) => {
                keep_pairs_evaluated(cx, f, pairs@, 0, Seq::empty(), env, w);
            },
            ExprKind::SetLit(items) => {
                keep_members_evaluated(cx, f, items@, 0, Seq::empty(), env, w);
            },
            ExprKind::Tuple(items) => {
                keep_items_evaluated(cx, f, items@, 0, Seq::empty(), env, w);
            },
            ExprKind::Comprehension(c) => {
                keep_comprehension_evaluated(cx, f, c, e.span, env, w);
            },
            _ => {},
        }
    }
}

proof fn keep_condition(cx: Cx, fuel: nat, e: Expr, env: Env, w: World)
    requires
        valid(w),
        open_scope(w, env),
    ensures
        sound(w, condition(cx, fuel, e, env, w)),
        declared(cx.reg, w) ==> declared(cx.reg, condition(cx, fuel, e, env, w).1),
    decreases fuel, 1nat, 0nat,
{
    keep_evaluated(cx, fuel, e, env, w);
}

proof fn keep_items_evaluated(
    cx: Cx, fuel: nat, elems: Seq<Expr>, i: nat, done: Seq<Val>, env: Env, w: World,
)
    requires
        valid(w),
        fit_items(w, done),
        open_scope(w, env),
    ensures
        sound_items(w, items_evaluated(cx, fuel, elems, i, done, env, w)),
        declared(cx.reg, w) ==> declared(
            cx.reg,
            items_evaluated(cx, fuel, elems, i, done, env, w).1,
        ),
    decreases fuel, 1nat, elems.len() - i,
{
    if i < elems.len() {
        keep_evaluated(cx, fuel, elems[i as int], env, w);
        match evaluated(cx, fuel, elems[i as int], env, w) {
            (Ok(v), w1) => {
                keep_items_evaluated(cx, fuel, elems, i + 1, done.push(v), env, w1);
            },
            _ => {},
        }
    }
}

proof fn keep_members_evaluated(
    cx: Cx, fuel: nat, elems: Seq<Expr>, i: nat, done: Seq<Val>, env: Env, w: World,
)
    requires
        valid(w),
        fit_items(w, done),
        open_scope(w, env),
    ensures
        sound_items(w, members_evaluated(cx, fuel, elems, i, done, env, w)),
        declared(cx.reg, w) ==> declared(
            cx.reg,
            members_evaluated(cx, fuel, elems, i, done, env, w).1,
        ),
    decreases fuel, 1nat, elems.len() - i,
{
    if i < elems.len() {
        keep_evaluated(cx, fuel, elems[i as int], env, w);
        match evaluated(cx, fuel, elems[i as int], env, w) {
            (Ok(v), w1) => {
                keep_put_item(w1, fuel, done, v);
                match put_item(w1, fuel, done, v) {
                    Ok(more) => {
                        keep_members_evaluated(cx, fuel, elems, i + 1, more, env, w1);
                    },
                    _ => {},
                }
            },
            _ => {},
        }
    }
}

proof fn keep_pairs_evaluated(
    cx: Cx, fuel: nat, pairs: Seq<(Expr, Expr)>, i: nat, done: Seq<(Val, Val)>, env: Env,
    w: World,
)
    requires
        valid(w),
        fit_pairs(w, done),
        open_scope(w, env),
    ensures
        sound_pairs(w, pairs_evaluated(cx, fuel, pairs, i, done, env, w)),
        declared(cx.reg, w) ==> declared(
            cx.reg,
            pairs_evaluated(cx, fuel, pairs, i, done, env, w).1,
        ),
    decreases fuel, 1nat, pairs.len() - i,
{
    if i < pairs.len() {
        keep_evaluated(cx, fuel, pairs[i as int].0, env, w);
        match evaluated(cx, fuel, pairs[i as int].0, env, w) {
            (Ok(k), w1) => {
                keep_evaluated(cx, fuel, pairs[i as int].1, env, w1);
                match evaluated(cx, fuel, pairs[i as int].1, env, w1) {
                    (Ok(v), w2) => {
                        keep_put_pair(w2, fuel, done, k, v);
                        match put_pair(w2, fuel, done, k, v) {
                            Ok(more) => {
                                keep_pairs_evaluated(cx, fuel, pairs, i + 1, more, env, w2);
                            },
                            _ => {},
                        }
                    },
                    _ => {},
                }
            },
            _ => {},
        }
    }
}

proof fn keep_text_built(
    cx: Cx, fuel: nat, parts: Seq<StrSeg>, i: nat, done: Seq<char>, env: Env, w: World,
)
    requires
        valid(w),
        open_scope(w, env),
    ensures
        sound(w, text_built(cx, fuel, parts, i, done, env, w)),
        declared(cx.reg, w) ==> declared(cx.reg, text_built(cx, fuel, parts, i, done, env, w).1),
    decreases fuel, 1nat, parts.len() - i,
{
    if i < parts.len() {
        match parts[i as int] {
            StrSeg::Text(t) => {
                keep_text_built(cx, fuel, parts, i + 1, done + t@, env, w);
            },
            StrSeg::Expr(e) => {
                keep_evaluated(cx, fuel, *e, env, w);
                match evaluated(cx, fuel, *e, env, w) {
                    (Ok(v), w1) => {
                        match shown(cx.ans, w1, fuel, v) {
                            Ok(s) => {
                                keep_text_built(cx, fuel, parts, i + 1, done + s, env, w1);
                            },
                            _ => {},
                        }
                    },
                    _ => {},
                }
            },
        }
    }
}

proof fn keep_binary_evaluated(
    cx: Cx, fuel: nat, op: BinOp, lhs: Expr, rhs: Expr, span: Span, env: Env, w: World,
)
    requires
        valid(w),
        open_scope(w, env),
    ensures
        sound_val(w, binary_evaluated(cx, fuel, op, lhs, rhs, span, env, w)),
        declared(cx.reg, w) ==> declared(
            cx.reg,
            binary_evaluated(cx, fuel, op, lhs, rhs, span, env, w).1,
        ),
    decreases fuel, 2nat, 0nat,
{
    if op == BinOp::And || op == BinOp::Or {
        let word = if op == BinOp::And { "and"@ } else { "or"@ };
        keep_evaluated(cx, fuel, lhs, env, w);
        match evaluated(cx, fuel, lhs, env, w) {
            (Ok(l), w1) => {
                match bool_of(l, lhs.span, word) {
                    Ok(b) => {
                        if b != (op == BinOp::Or) {
                            keep_evaluated(cx, fuel, rhs, env, w1);
                        }
                    },
                    _ => {},
                }
            },
            _ => {},
        }
    } else {
        keep_evaluated(cx, fuel, lhs, env, w);
        match evaluated(cx, fuel, lhs, env, w) {
            (Ok(l), w1) => {
                keep_evaluated(cx, fuel, rhs, env, w1);
                match evaluated(cx, fuel, rhs, env, w1) {
                    (Ok(r), w2) => {
                        keep_operated(cx, fuel, op, l, r, span, w2);
                    },
                    _ => {},
                }
            },
            _ => {},
        }
    }
}

proof fn keep_index_evaluated(
    cx: Cx, fuel: nat, base: Expr, index: Expr, span: Span, env: Env, w: World,
)
    requires
        valid(w),
        open_scope(w, env),
    ensures
        sound_val(w, index_evaluated(cx, fuel, base, index, span, env, w)),
        declared(cx.reg, w) ==> declared(
            cx.reg,
            index_evaluated(cx, fuel, base, index, span, env, w).1,
        ),
    decreases fuel, 1nat, 0nat,
{
    keep_evaluated(cx, fuel, base, env, w);
    match evaluated(cx, fuel, base, env, w) {
        (Ok(b), w1) => {
            keep_evaluated(cx, fuel, index, env, w1);
        },
        _ => {},
    }
}

proof fn keep_member_evaluated(
    cx: Cx, fuel: nat, base: Expr, name: Seq<char>, safe: bool, span: Span, env: Env, w: World,
)
    requires
        valid(w),
        open_scope(w, env),
    ensures
        sound_val(w, member_evaluated(cx, fuel, base, name, safe, span, env, w)),
        declared(cx.reg, w) ==> declared(
            cx.reg,
            member_evaluated(cx, fuel, base, name, safe, span, env, w).1,
        ),
    decreases fuel, 4nat, 0nat,
{
    if safe {
        keep_evaluated(cx, fuel, base, env, w);
    } else {
        match enum_named(cx, base, env, w) {
            Some((enum_name, decl)) => {
                keep_variant_made(cx, fuel, decl, enum_name, name, Seq::empty(), span, env, w);
            },
            None => {
                keep_evaluated(cx, fuel, base, env, w);
            },
        }
    }
}

proof fn keep_gathered(
    cx: Cx, fuel: nat, output: ComprehensionOutput, so_far: Gathered, scope: Env, w: World,
)
    requires
        valid(w),
        fit_gathered(w, so_far),
        open_scope(w, scope),
    ensures
        sound_gathered(w, gathered(cx, fuel, output, so_far, scope, w)),
        declared(cx.reg, w) ==> declared(cx.reg, gathered(cx, fuel, output, so_far, scope, w).1),
    decreases fuel, 1nat, 0nat,
{
    match output {
        ComprehensionOutput::List(e) => {
            keep_evaluated(cx, fuel, *e, scope, w);
        },
        ComprehensionOutput::SetOut(e) => {
            keep_evaluated(cx, fuel, *e, scope, w);
            match evaluated(cx, fuel, *e, scope, w) {
                (Ok(v), w1) => {
                    keep_put_item(w1, fuel, so_far.set, v);
                },
                _ => {},
            }
        },
        ComprehensionOutput::MapOut { key, value } => {
            keep_evaluated(cx, fuel, *key, scope, w);
            match evaluated(cx, fuel, *key, scope, w) {
                (Ok(k), w1) => {
                    keep_evaluated(cx, fuel, *value, scope, w1);
                    match evaluated(cx, fuel, *value, scope, w1) {
                        (Ok(v), w2) => {
                            keep_put_pair(w2, fuel, so_far.map, k, v);
                        },
                        _ => {},
                    }
                },
                _ => {},
            }
        },
    }
}

proof fn keep_turns_gathered(
    cx: Cx, fuel: nat, c: Comprehension, items: Seq<Val>, i: nat, so_far: Gathered, span: Span,
    env: Env, w: World,
)
    requires
        valid(w),
        fit_items(w, items),
        fit_gathered(w, so_far),
        open_scope(w, env),
    ensures
        sound_gathered(w, turns_gathered(cx, fuel, c, items, i, so_far, span, env, w)),
        declared(cx.reg, w) ==> declared(
            cx.reg,
            turns_gathered(cx, fuel, c, items, i, so_far, span, env, w).1,
        ),
    decreases fuel, 2nat, items.len() - i,
{
    if i < items.len() {
        let scope = w.next_scope();
        keep_binder_bound(c.binder, items[i as int], scope, span, w.add_scope(Some(env)));
        match binder_bound(c.binder, items[i as int], scope, span, w.add_scope(Some(env))) {
            (Ok(_), w1) => {
                match c.cond {
                    Some(cond) => {
                        keep_condition(cx, fuel, *cond, scope, w1);
                    },
                    _ => {},
                }
                let passed: Out<bool> = match c.cond {
                    Some(cond) => condition(cx, fuel, *cond, scope, w1),
                    None => (Ok(true), w1),
                };
                match passed {
                    (Ok(false), w2) => {
                        keep_turns_gathered(cx, fuel, c, items, i + 1, so_far, span, env, w2);
                    },
                    (Ok(true), w2) => {
                        keep_gathered(cx, fuel, c.output, so_far, scope, w2);
                        match gathered(cx, fuel, c.output, so_far, scope, w2) {
                            (Ok(more), w3) => {
                                keep_turns_gathered(cx, fuel, c, items, i + 1, more, span, env, w3);
                            },
                            _ => {},
                        }
                    },
                    _ => {},
                }
            },
            _ => {},
        }
    }
}

proof fn keep_comprehension_evaluated(
    cx: Cx, fuel: nat, c: Comprehension, span: Span, env: Env, w: World,
)
    requires
        valid(w),
        open_scope(w, env),
    ensures
        sound_val(w, comprehension_evaluated(cx, fuel, c, span, env, w)),
        declared(cx.reg, w) ==> declared(
            cx.reg,
            comprehension_evaluated(cx, fuel, c, span, env, w).1,
        ),
    decreases fuel, 3nat, 0nat,
{
    keep_evaluated(cx, fuel, *c.iter, env, w);
    match evaluated(cx, fuel, *c.iter, env, w) {
        (Ok(v), w1) => {
            match iterated(v, c.iter.span, w1) {
                Ok(items) => {
                    keep_turns_gathered(cx, fuel, c, items, 0, nothing_gathered(), span, env, w1);
                },
                _ => {},
            }
        },
        _ => {},
    }
}

proof fn keep_args_evaluated(
    cx: Cx, fuel: nat, args: Seq<Arg>, i: nat, done: Seq<Val>, span: Span, env: Env, w: World,
)
    requires
        valid(w),
        fit_items(w, done),
        open_scope(w, env),
    ensures
        sound_items(w, args_evaluated(cx, fuel, args, i, done, span, env, w)),
        declared(cx.reg, w) ==> declared(
            cx.reg,
            args_evaluated(cx, fuel, args, i, done, span, env, w).1,
        ),
    decreases fuel, 1nat, args.len() - i,
{
    if i < args.len() {
        match args[i as int] {
            Arg::Positional(e) => {
                keep_evaluated(cx, fuel, e, env, w);
                match evaluated(cx, fuel, e, env, w) {
                    (Ok(v), w1) => {
                        keep_args_evaluated(cx, fuel, args, i + 1, done.push(v), span, env, w1);
                    },
                    _ => {},
                }
            },
            _ => {},
        }
    }
}

proof fn keep_method_args_evaluated(
    cx: Cx, fuel: nat, method: Seq<char>, args: Seq<Arg>, i: nat, done: Seq<Val>, span: Span,
    env: Env, w: World,
)
    requires
        valid(w),
        fit_items(w, done),
        open_scope(w, env),
    ensures
        sound_items(w, method_args_evaluated(cx, fuel, method, args, i, done, span, env, w)),
        declared(cx.reg, w) ==> declared(
            cx.reg,
            method_args_evaluated(cx, fuel, method, args, i, done, span, env, w).1,
        ),
    decreases fuel, 1nat, args.len() - i,
{
    if i < args.len() {
        match args[i as int] {
            Arg::Positional(e) => {
                keep_evaluated(cx, fuel, e, env, w);
                match evaluated(cx, fuel, e, env, w) {
                    (Ok(v), w1) => {
                        keep_method_args_evaluated(
                            cx, fuel, method, args, i + 1, done.push(v), span, env, w1,
                        );
                    },
                    _ => {},
                }
            },
            _ => {},
        }
    }
}

proof fn keep_params_filled(
    cx: Cx, fuel: nat, params: Seq<Param>, i: nat, k: nat, args: Seq<Val>, scope: Env,
    fn_name: Seq<char>, span: Span, w: World,
)
    requires
        valid(w),
        fit_items(w, args),
        open_scope(w, scope),
    ensures
        sound(w, params_filled(cx, fuel, params, i, k, args, scope, fn_name, span, w)),
        declared(cx.reg, w) ==> declared(
            cx.reg,
            params_filled(cx, fuel, params, i, k, args, scope, fn_name, span, w).1,
        ),
    decreases fuel, 1nat, params.len() - i,
{
    if i < params.len() {
        match params[i as int] {
            Param::SelfRecv => {
                keep_params_filled(cx, fuel, params, i + 1, k, args, scope, fn_name, span, w);
            },
            Param::Named { name, default, .. } => {
                if k >= args.len() {
                    match default {
                        Some(e) => {
                            keep_evaluated(cx, fuel, e, scope, w);
                        },
                        _ => {},
                    }
                }
                let got: Out<Val> = if k < args.len() {
                    (Ok(args[k as int]), w)
                } else {
                    match default {
                        Some(e) => evaluated(cx, fuel, e, scope, w),
                        None => (Err(arity_halt(fn_name, params, args.len(), span)), w),
                    }
                };
                match got {
                    (Ok(v), w1) => {
                        keep_params_filled(
                            cx, fuel, params, i + 1, k + 1, args, scope, fn_name, span,
                            w1.with_var(scope, name@, v, false),
                        );
                    },
                    _ => {},
                }
            },
        }
    }
}

proof fn keep_params_bound(
    cx: Cx, fuel: nat, params: Seq<Param>, args: Seq<Val>, scope: Env, fn_name: Seq<char>,
    span: Span, w: World,
)
    requires
        valid(w),
        fit_items(w, args),
        open_scope(w, scope),
    ensures
        sound(w, params_bound(cx, fuel, params, args, scope, fn_name, span, w)),
        declared(cx.reg, w) ==> declared(
            cx.reg,
            params_bound(cx, fuel, params, args, scope, fn_name, span, w).1,
        ),
    decreases fuel, 2nat, 0nat,
{
    if args.len() >= required_from(params, 0) && args.len() <= param_count(params, 0) {
        keep_params_filled(cx, fuel, params, 0, 0, args, scope, fn_name, span, w);
    }
}

proof fn keep_args_split(
    cx: Cx, fuel: nat, args: Seq<Arg>, i: nat, pos: Seq<Val>, named: Seq<(Seq<char>, Val)>,
    fn_name: Seq<char>, span: Span, env: Env, w: World,
)
    requires
        valid(w),
        fit_items(w, pos),
        fit_named(w, named),
        open_scope(w, env),
    ensures
        sound_split(w, args_split(cx, fuel, args, i, pos, named, fn_name, span, env, w)),
        declared(cx.reg, w) ==> declared(
            cx.reg,
            args_split(cx, fuel, args, i, pos, named, fn_name, span, env, w).1,
        ),
    decreases fuel, 1nat, args.len() - i,
{
    if i < args.len() {
        match args[i as int] {
            Arg::Positional(e) => {
                if named.len() <= 0 {
                    keep_evaluated(cx, fuel, e, env, w);
                    match evaluated(cx, fuel, e, env, w) {
                        (Ok(v), w1) => {
                            keep_args_split(
                                cx, fuel, args, i + 1, pos.push(v), named, fn_name, span, env, w1,
                            );
                        },
                        _ => {},
                    }
                }
            },
            Arg::Named { name, value } => {
                if !(lookup(named, name@) is Some) {
                    keep_evaluated(cx, fuel, value, env, w);
                    match evaluated(cx, fuel, value, env, w) {
                        (Ok(v), w1) => {
                            keep_args_split(
                                cx, fuel, args, i + 1, pos, bind(named, name@, v), fn_name, span,
                                env, w1,
                            );
                        },
                        _ => {},
                    }
                }
            },
        }
    }
}

proof fn keep_args_filled(
    cx: Cx, fuel: nat, params: Seq<Param>, i: nat, k: nat, pos: Seq<Val>,
    named: Seq<(Seq<char>, Val)>, scope: Env, fn_name: Seq<char>, span: Span, w: World,
)
    requires
        valid(w),
        fit_items(w, pos),
        fit_named(w, named),
        open_scope(w, scope),
    ensures
        sound_named(w, args_filled(cx, fuel, params, i, k, pos, named, scope, fn_name, span, w)),
        declared(cx.reg, w) ==> declared(
            cx.reg,
            args_filled(cx, fuel, params, i, k, pos, named, scope, fn_name, span, w).1,
        ),
    decreases fuel, 1nat, params.len() - i,
{
    if i < params.len() {
        match params[i as int] {
            Param::SelfRecv => {
                keep_args_filled(cx, fuel, params, i + 1, k, pos, named, scope, fn_name, span, w);
            },
            Param::Named { name, default, .. } => {
                if k < pos.len() {
                    if !(lookup(named, name@) is Some) {
                        keep_args_filled(
                            cx, fuel, params, i + 1, k + 1, pos, named, scope, fn_name, span,
                            w.with_var(scope, name@, pos[k as int], false),
                        );
                    }
                } else {
                    match lookup(named, name@) {
                        Some(v) => {
                            keep_args_filled(
                                cx, fuel, params, i + 1, k, pos, unbind(named, name@), scope,
                                fn_name, span, w.with_var(scope, name@, v, false),
                            );
                        },
                        None => {
                            match default {
                                Some(e) => {
                                    keep_evaluated(cx, fuel, e, scope, w);
                                    match evaluated(cx, fuel, e, scope, w) {
                                        (Ok(v), w1) => {
                                            keep_args_filled(
                                                cx, fuel, params, i + 1, k, pos, named, scope,
                                                fn_name, span,
                                                w1.with_var(scope, name@, v, false),
                                            );
                                        },
                                        _ => {},
                                    }
                                },
                                _ => {},
                            }
                        },
                    }
                }
            },
        }
    }
}

proof fn keep_call_bound(
    cx: Cx, fuel: nat, params: Seq<Param>, args: Seq<Arg>, scope: Env, fn_name: Seq<char>,
    span: Span, env: Env, w: World,
)
    requires
        valid(w),
        open_scope(w, scope),
        open_scope(w, env),
    ensures
        sound(w, call_bound(cx, fuel, params, args, scope, fn_name, span, env, w)),
        declared(cx.reg, w) ==> declared(
            cx.reg,
            call_bound(cx, fuel, params, args, scope, fn_name, span, env, w).1,
        ),
    decreases fuel, 2nat, 0nat,
{
    keep_args_split(cx, fuel, args, 0, Seq::empty(), Seq::empty(), fn_name, span, env, w);
    match args_split(cx, fuel, args, 0, Seq::empty(), Seq::empty(), fn_name, span, env, w) {
        (Ok((pos, named)), w1) => {
            if pos.len() <= param_count(params, 0) {
                keep_args_filled(cx, fuel, params, 0, 0, pos, named, scope, fn_name, span, w1);
            }
        },
        _ => {},
    }
}

proof fn keep_function_called(
    cx: Cx, fuel: nat, decl: FnDecl, args: Seq<Arg>, scope: Env, span: Span, env: Env, w: World,
)
    requires
        valid(w),
        open_scope(w, scope),
        open_scope(w, env),
    ensures
        sound_val(w, function_called(cx, fuel, decl, args, scope, span, env, w)),
        declared(cx.reg, w) ==> declared(
            cx.reg,
            function_called(cx, fuel, decl, args, scope, span, env, w).1,
        ),
    decreases fuel, 3nat, 0nat,
{
    keep_call_bound(cx, fuel, decl.params@, args, scope, decl.name@, span, env, w);
    match call_bound(cx, fuel, decl.params@, args, scope, decl.name@, span, env, w) {
        (Ok(_), w1) => {
            keep_stmts_executed(cx, fuel, decl.body.stmts@, 0, Val::Unit, scope, w1);
            keep_body_ended(
                stmts_executed(cx, fuel, decl.body.stmts@, 0, Val::Unit, scope, w1),
                loop_message(), span,
            );
        },
        _ => {},
    }
}

proof fn keep_closure_called(cx: Cx, fuel: nat, c: ClosureVal, args: Seq<Val>, span: Span, w: World)
    requires
        valid(w),
        fit_closure(w, c),
        fit_items(w, args),
    ensures
        sound_val(w, closure_called(cx, fuel, c, args, span, w)),
        declared(cx.reg, w) ==> declared(cx.reg, closure_called(cx, fuel, c, args, span, w).1),
    decreases fuel, 3nat, 0nat,
{
    let scope = w.next_scope();
    match c {
        ClosureVal::Function(decl, home) => {
            keep_params_bound(
                cx, fuel, decl.params@, args, scope, decl.name@, span, w.add_scope(Some(home)),
            );
            let w0 = w.add_scope(Some(home));
            match params_bound(cx, fuel, decl.params@, args, scope, decl.name@, span, w0) {
                (Ok(_), w1) => {
                    keep_stmts_executed(cx, fuel, decl.body.stmts@, 0, Val::Unit, scope, w1);
                    keep_body_ended(
                        stmts_executed(cx, fuel, decl.body.stmts@, 0, Val::Unit, scope, w1),
                        loop_message(), span,
                    );
                },
                _ => {},
            }
        },
        ClosureVal::Lambda(l, home) => {
            let w1 = w.add_scope(Some(home));
            if args.len() == l.params@.len() {
                keep_bound_all(w1, scope, texts(l.params@), args, false, 0);
                keep_evaluated(
                    cx, fuel, *l.body, scope, bound_all(w1, scope, texts(l.params@), args, false, 0),
                );
                let w2 = bound_all(w1, scope, texts(l.params@), args, false, 0);
                match evaluated(cx, fuel, *l.body, scope, w2) {
                    (Err(h), w2) => {
                        keep_intercepted(h, w2);
                    },
                    _ => {},
                }
            }
        },
    }
}

proof fn keep_applied(cx: Cx, fuel: nat, callee: Val, args: Seq<Val>, span: Span, w: World)
    requires
        valid(w),
        fits(w, callee),
        fit_items(w, args),
    ensures
        sound_val(w, applied(cx, fuel, callee, args, span, w)),
        declared(cx.reg, w) ==> declared(cx.reg, applied(cx, fuel, callee, args, span, w).1),
    decreases fuel, 4nat, 0nat,
{
    match callee {
        Val::Closure(c) => {
            keep_closure_called(cx, fuel, c, args, span, w);
        },
        Val::Builtin(b) => {
            keep_builtin_called(cx, fuel, b, args, span, w);
        },
        _ => {},
    }
}

proof fn keep_call_evaluated(
    cx: Cx, fuel: nat, callee: Expr, args: Seq<Arg>, span: Span, env: Env, w: World,
)
    requires
        valid(w),
        open_scope(w, env),
    ensures
        sound_val(w, call_evaluated(cx, fuel, callee, args, span, env, w)),
        declared(cx.reg, w) ==> declared(
            cx.reg,
            call_evaluated(cx, fuel, callee, args, span, env, w).1,
        ),
    decreases fuel, 11nat, 0nat,
{
    match callee.kind {
        ExprKind::Member { base, name, safe } => {
            keep_member_called(cx, fuel, *base, name@, safe, args, span, env, w);
        },
        _ => {
            match struct_named(cx, callee, env, w) {
                Some((name, decl)) => {
                    keep_struct_made(cx, fuel, decl, name, args, span, env, w);
                },
                None => {
                    keep_evaluated(cx, fuel, callee, env, w);
                    match evaluated(cx, fuel, callee, env, w) {
                        (Ok(Val::Closure(ClosureVal::Function(decl, home))), w1) => {
                            keep_function_called(
                                cx, fuel, decl, args, w1.next_scope(), span, env,
                                w1.add_scope(Some(home)),
                            );
                        },
                        (Ok(v), w1) => {
                            keep_args_evaluated(cx, fuel, args, 0, Seq::empty(), span, env, w1);
                            match args_evaluated(cx, fuel, args, 0, Seq::empty(), span, env, w1) {
                                (Ok(vs), w2) => {
                                    keep_applied(cx, fuel, v, vs, span, w2);
                                },
                                _ => {},
                            }
                        },
                        _ => {},
                    }
                },
            }
        },
    }
}

proof fn keep_member_called(
    cx: Cx, fuel: nat, base: Expr, name: Seq<char>, safe: bool, args: Seq<Arg>, span: Span,
    env: Env, w: World,
)
    requires
        valid(w),
        open_scope(w, env),
    ensures
        sound_val(w, member_called(cx, fuel, base, name, safe, args, span, env, w)),
        declared(cx.reg, w) ==> declared(
            cx.reg,
            member_called(cx, fuel, base, name, safe, args, span, env, w).1,
        ),
    decreases fuel, 10nat, 0nat,
{
    let variant_of: Option<(Seq<char>, EnumShape)> = if safe {
        None
    } else {
        enum_named(cx, base, env, w)
    };
    match variant_of {
        Some((enum_name, decl)) => {
            keep_variant_made(cx, fuel, decl, enum_name, name, args, span, env, w);
        },
        None => {
            keep_evaluated(cx, fuel, base, env, w);
            match evaluated(cx, fuel, base, env, w) {
                (Ok(recv), w1) => {
                    if !(safe && recv is Null) {
                        if name == "or_else"@ {
                            keep_args_evaluated(cx, fuel, args, 0, Seq::empty(), span, env, w1);
                        } else {
                            keep_method_called(cx, fuel, recv, name, args, span, env, w1);
                        }
                    }
                },
                _ => {},
            }
        },
    }
}

proof fn keep_method_called(
    cx: Cx, fuel: nat, recv: Val, name: Seq<char>, args: Seq<Arg>, span: Span, env: Env, w: World,
)
    requires
        valid(w),
        fits(w, recv),
        open_scope(w, env),
    ensures
        sound_val(w, method_called(cx, fuel, recv, name, args, span, env, w)),
        declared(cx.reg, w) ==> declared(
            cx.reg,
            method_called(cx, fuel, recv, name, args, span, env, w).1,
        ),
    decreases fuel, 9nat, 0nat,
{
    if name == "expect"@ {
        keep_args_evaluated(cx, fuel, args, 0, Seq::empty(), span, env, w);
    } else {
        match declared_type(recv, w) {
            None => {
                keep_builtin_method_called(cx, fuel, recv, name, args, span, env, w);
            },
            Some(owner) => {
                match cx.reg.method(owner, name) {
                    Some(decl) => {
                        let scope = w.next_scope();
                        keep_outermost(w, env);
                        let w0 = w.add_scope(Some(outermost(w, env)));
                        let w1 = w0.with_var(scope, "self"@, recv, false);
                        keep_function_called(cx, fuel, decl, args, scope, span, env, w1);
                    },
                    _ => {},
                }
            },
        }
    }
}

proof fn keep_fields_by_name(
    cx: Cx, fuel: nat, order: Seq<Seq<char>>, args: Seq<Arg>, i: nat,
    fields: Seq<(Seq<char>, Val)>, name: Seq<char>, span: Span, env: Env, w: World,
)
    requires
        valid(w),
        fit_named(w, fields),
        open_scope(w, env),
    ensures
        sound_named(w, fields_by_name(cx, fuel, order, args, i, fields, name, span, env, w)),
        declared(cx.reg, w) ==> declared(
            cx.reg,
            fields_by_name(cx, fuel, order, args, i, fields, name, span, env, w).1,
        ),
    decreases fuel, 1nat, args.len() - i,
{
    if i < args.len() {
        match args[i as int] {
            Arg::Named { name: field, value } => {
                if order.contains(field@) {
                    keep_evaluated(cx, fuel, value, env, w);
                    match evaluated(cx, fuel, value, env, w) {
                        (Ok(v), w1) => {
                            keep_fields_by_name(
                                cx, fuel, order, args, i + 1, bind(fields, field@, v), name, span,
                                env, w1,
                            );
                        },
                        _ => {},
                    }
                }
            },
            Arg::Positional(_) => {
                keep_fields_by_name(cx, fuel, order, args, i + 1, fields, name, span, env, w);
            },
        }
    }
}

proof fn keep_fields_in_order(
    cx: Cx, fuel: nat, order: Seq<Seq<char>>, args: Seq<Arg>, i: nat,
    fields: Seq<(Seq<char>, Val)>, env: Env, w: World,
)
    requires
        valid(w),
        fit_named(w, fields),
        open_scope(w, env),
    ensures
        sound_named(w, fields_in_order(cx, fuel, order, args, i, fields, env, w)),
        declared(cx.reg, w) ==> declared(
            cx.reg,
            fields_in_order(cx, fuel, order, args, i, fields, env, w).1,
        ),
    decreases fuel, 1nat, args.len() - i,
{
    if i < args.len() && i < order.len() {
        match args[i as int] {
            Arg::Positional(e) => {
                keep_evaluated(cx, fuel, e, env, w);
                match evaluated(cx, fuel, e, env, w) {
                    (Ok(v), w1) => {
                        keep_fields_in_order(
                            cx, fuel, order, args, i + 1, bind(fields, order[i as int], v), env,
                            w1,
                        );
                    },
                    _ => {},
                }
            },
            Arg::Named { .. } => {
                keep_fields_in_order(cx, fuel, order, args, i + 1, fields, env, w);
            },
        }
    }
}

proof fn keep_struct_made(
    cx: Cx, fuel: nat, decl: StructShape, name: Seq<char>, args: Seq<Arg>, span: Span, env: Env,
    w: World,
)
    requires
        valid(w),
        open_scope(w, env),
        lookup(cx.reg.structs, name) == Some(decl),
    ensures
        sound_val(w, struct_made(cx, fuel, decl, name, args, span, env, w)),
        declared(cx.reg, w) ==> declared(
            cx.reg,
            struct_made(cx, fuel, decl, name, args, span, env, w).1,
        ),
    decreases fuel, 2nat, 0nat,
{
    if !(args.len() > 0 && !all_named(args) && !all_positional(args)) {
        if args.len() > 0 && all_named(args) {
            keep_fields_by_name(cx, fuel, decl.fields, args, 0, Seq::empty(), name, span, env, w);
            keep_struct_finished(
                cx.reg, decl, name,
                fields_by_name(cx, fuel, decl.fields, args, 0, Seq::empty(), name, span, env, w),
                span,
            );
        } else {
            if args.len() == decl.fields.len() {
                keep_fields_in_order(cx, fuel, decl.fields, args, 0, Seq::empty(), env, w);
                keep_struct_finished(
                    cx.reg, decl, name,
                    fields_in_order(cx, fuel, decl.fields, args, 0, Seq::empty(), env, w), span,
                );
            }
        }
    }
}

proof fn keep_payload_positional(
    cx: Cx, fuel: nat, variant: Seq<char>, args: Seq<Arg>, i: nat, done: Payloads, span: Span,
    env: Env, w: World,
)
    requires
        valid(w),
        fit_payload(w, done),
        open_scope(w, env),
    ensures
        sound_payload(w, payload_positional(cx, fuel, variant, args, i, done, span, env, w)),
        declared(cx.reg, w) ==> declared(
            cx.reg,
            payload_positional(cx, fuel, variant, args, i, done, span, env, w).1,
        ),
    decreases fuel, 1nat, args.len() - i,
{
    if i < args.len() {
        match args[i as int] {
            Arg::Positional(e) => {
                keep_evaluated(cx, fuel, e, env, w);
                match evaluated(cx, fuel, e, env, w) {
                    (Ok(v), w1) => {
                        keep_payload_positional(
                            cx, fuel, variant, args, i + 1,
                            Payloads { values: done.values.push(v), ..done }, span, env, w1,
                        );
                    },
                    _ => {},
                }
            },
            _ => {},
        }
    }
}

proof fn keep_payload_by_name(
    cx: Cx, fuel: nat, variant: Seq<char>, names: Seq<Seq<char>>, args: Seq<Arg>, i: nat,
    done: Payloads, span: Span, env: Env, w: World,
)
    requires
        valid(w),
        fit_payload(w, done),
        open_scope(w, env),
    ensures
        sound_payload(w, payload_by_name(cx, fuel, variant, names, args, i, done, span, env, w)),
        declared(cx.reg, w) ==> declared(
            cx.reg,
            payload_by_name(cx, fuel, variant, names, args, i, done, span, env, w).1,
        ),
    decreases fuel, 1nat, names.len() - i,
{
    if i < names.len() {
        match arg_named(args, names[i as int], 0) {
            Some(e) => {
                keep_evaluated(cx, fuel, e, env, w);
                match evaluated(cx, fuel, e, env, w) {
                    (Ok(v), w1) => {
                        keep_payload_by_name(
                            cx, fuel, variant, names, args, i + 1,
                            Payloads {
                                values: done.values.push(v),
                                names: done.names.push(names[i as int]),
                            },
                            span, env, w1,
                        );
                    },
                    _ => {},
                }
            },
            _ => {},
        }
    }
}

proof fn keep_payload_in_order(
    cx: Cx, fuel: nat, names: Seq<Seq<char>>, args: Seq<Arg>, i: nat, done: Payloads, env: Env,
    w: World,
)
    requires
        valid(w),
        fit_payload(w, done),
        open_scope(w, env),
    ensures
        sound_payload(w, payload_in_order(cx, fuel, names, args, i, done, env, w)),
        declared(cx.reg, w) ==> declared(
            cx.reg,
            payload_in_order(cx, fuel, names, args, i, done, env, w).1,
        ),
    decreases fuel, 1nat, args.len() - i,
{
    if i < args.len() && i < names.len() {
        let e = arg_value(args[i as int]);
        keep_evaluated(cx, fuel, e, env, w);
        match evaluated(cx, fuel, e, env, w) {
            (Ok(v), w1) => {
                let more = Payloads {
                    values: done.values.push(v),
                    names: done.names.push(names[i as int]),
                };
                keep_payload_in_order(
                    cx, fuel, names, args, i + 1, more, env, w1,
                );
            },
            _ => {},
        }
    }
}

proof fn keep_variant_made(
    cx: Cx, fuel: nat, decl: EnumShape, enum_name: Seq<char>, variant: Seq<char>, args: Seq<Arg>,
    span: Span, env: Env, w: World,
)
    requires
        valid(w),
        open_scope(w, env),
    ensures
        sound_val(w, variant_made(cx, fuel, decl, enum_name, variant, args, span, env, w)),
        declared(cx.reg, w) ==> declared(
            cx.reg,
            variant_made(cx, fuel, decl, enum_name, variant, args, span, env, w).1,
        ),
    decreases fuel, 3nat, 0nat,
{
    let at = variant_place(decl.variants, variant, 0);
    if at < decl.variants.len() {
        keep_payload_made(cx, fuel, decl.variants[at as int].payload, variant, args, span, env, w);
    }
}

proof fn keep_payload_made(
    cx: Cx, fuel: nat, shape: PayloadShape, variant: Seq<char>, args: Seq<Arg>, span: Span,
    env: Env, w: World,
)
    requires
        valid(w),
        open_scope(w, env),
    ensures
        sound_payload(w, payload_made(cx, fuel, shape, variant, args, span, env, w)),
        declared(cx.reg, w) ==> declared(
            cx.reg,
            payload_made(cx, fuel, shape, variant, args, span, env, w).1,
        ),
    decreases fuel, 2nat, 0nat,
{
    match shape {
        PayloadShape::Positional(n) => {
            if args.len() == n {
                keep_payload_positional(cx, fuel, variant, args, 0, no_payload(), span, env, w);
            }
        },
        PayloadShape::Named(names) => {
            if args.len() == names.len() {
                if all_named(args) && args.len() > 0 {
                    keep_payload_by_name(
                        cx, fuel, variant, names, args, 0, no_payload(), span, env, w,
                    );
                } else {
                    keep_payload_in_order(cx, fuel, names, args, 0, no_payload(), env, w);
                }
            }
        },
        _ => {},
    }
}

proof fn keep_builtin_method_called(
    cx: Cx, fuel: nat, recv: Val, name: Seq<char>, args: Seq<Arg>, span: Span, env: Env, w: World,
)
    requires
        valid(w),
        fits(w, recv),
        open_scope(w, env),
    ensures
        sound_val(w, builtin_method_called(cx, fuel, recv, name, args, span, env, w)),
        declared(cx.reg, w) ==> declared(
            cx.reg,
            builtin_method_called(cx, fuel, recv, name, args, span, env, w).1,
        ),
    decreases fuel, 8nat, 0nat,
{
    keep_method_args_evaluated(cx, fuel, name, args, 0, Seq::empty(), span, env, w);
    match method_args_evaluated(cx, fuel, name, args, 0, Seq::empty(), span, env, w) {
        (Ok(vs), w1) => {
            match recv {
                Val::List(at) => {
                    keep_list_called(cx, fuel, at, name, vs, span, w1);
                },
                Val::MapRef(at) => {
                    keep_map_called(fuel, at, name, vs, span, w1);
                },
                Val::SetRef(at) => {
                    keep_set_called(fuel, at, name, vs, span, w1);
                },
                Val::Str(s) => {
                    keep_str_called(w1, s, name, vs, span);
                },
                _ => {},
            }
        },
        _ => {},
    }
}

proof fn keep_predicate(cx: Cx, fuel: nat, p: Val, item: Val, span: Span, w: World)
    requires
        valid(w),
        fits(w, p),
        fits(w, item),
    ensures
        sound(w, predicate(cx, fuel, p, item, span, w)),
        declared(cx.reg, w) ==> declared(cx.reg, predicate(cx, fuel, p, item, span, w).1),
    decreases fuel, 5nat, 0nat,
{
    keep_applied(cx, fuel, p, seq ![item], span, w);
}

proof fn keep_mapped(
    cx: Cx, fuel: nat, g: Val, items: Seq<Val>, i: nat, done: Seq<Val>, span: Span, w: World,
)
    requires
        valid(w),
        fits(w, g),
        fit_items(w, items),
        fit_items(w, done),
    ensures
        sound_items(w, mapped(cx, fuel, g, items, i, done, span, w)),
        declared(cx.reg, w) ==> declared(cx.reg, mapped(cx, fuel, g, items, i, done, span, w).1),
    decreases fuel, 6nat, items.len() - i,
{
    if i < items.len() {
        keep_applied(cx, fuel, g, seq ![items[i as int]], span, w);
        match applied(cx, fuel, g, seq ![items[i as int]], span, w) {
            (Ok(v), w1) => {
                keep_mapped(cx, fuel, g, items, i + 1, done.push(v), span, w1);
            },
            _ => {},
        }
    }
}

proof fn keep_filtered(
    cx: Cx, fuel: nat, p: Val, items: Seq<Val>, i: nat, done: Seq<Val>, span: Span, w: World,
)
    requires
        valid(w),
        fits(w, p),
        fit_items(w, items),
        fit_items(w, done),
    ensures
        sound_items(w, filtered(cx, fuel, p, items, i, done, span, w)),
        declared(cx.reg, w) ==> declared(cx.reg, filtered(cx, fuel, p, items, i, done, span, w).1),
    decreases fuel, 6nat, items.len() - i,
{
    if i < items.len() {
        keep_predicate(cx, fuel, p, items[i as int], span, w);
        match predicate(cx, fuel, p, items[i as int], span, w) {
            (Ok(true), w1) => {
                keep_filtered(cx, fuel, p, items, i + 1, done.push(items[i as int]), span, w1);
            },
            (Ok(false), w1) => {
                keep_filtered(cx, fuel, p, items, i + 1, done, span, w1);
            },
            _ => {},
        }
    }
}

proof fn keep_folded(
    cx: Cx, fuel: nat, g: Val, items: Seq<Val>, i: nat, acc: Val, span: Span, w: World,
)
    requires
        valid(w),
        fits(w, g),
        fit_items(w, items),
        fits(w, acc),
    ensures
        sound_val(w, folded(cx, fuel, g, items, i, acc, span, w)),
        declared(cx.reg, w) ==> declared(cx.reg, folded(cx, fuel, g, items, i, acc, span, w).1),
    decreases fuel, 6nat, items.len() - i,
{
    if i < items.len() {
        keep_applied(cx, fuel, g, seq ![acc, items[i as int]], span, w);
        match applied(cx, fuel, g, seq ![acc, items[i as int]], span, w) {
            (Ok(v), w1) => {
                keep_folded(cx, fuel, g, items, i + 1, v, span, w1);
            },
            _ => {},
        }
    }
}

proof fn keep_sought(
    cx: Cx, fuel: nat, p: Val, items: Seq<Val>, i: nat, want: bool, span: Span, w: World,
)
    requires
        valid(w),
        fits(w, p),
        fit_items(w, items),
    ensures
        sound_option(w, sought(cx, fuel, p, items, i, want, span, w)),
        declared(cx.reg, w) ==> declared(cx.reg, sought(cx, fuel, p, items, i, want, span, w).1),
    decreases fuel, 6nat, items.len() - i,
{
    if i < items.len() {
        keep_predicate(cx, fuel, p, items[i as int], span, w);
        match predicate(cx, fuel, p, items[i as int], span, w) {
            (Ok(b), w1) => {
                if b != want {
                    keep_sought(cx, fuel, p, items, i + 1, want, span, w1);
                }
            },
            _ => {},
        }
    }
}

proof fn keep_list_callback(
    cx: Cx, fuel: nat, at: usize, name: Seq<char>, args: Seq<Val>, span: Span, w: World,
)
    requires
        valid(w),
        fit_items(w, args),
    ensures
        sound_some(w, list_callback(cx, fuel, at, name, args, span, w)),
        declared(cx.reg, w) ==> match list_callback(cx, fuel, at, name, args, span, w) {
            Some(out) => declared(cx.reg, out.1),
            None => true,
        },
    decreases fuel, 7nat, 0nat,
{
    let items = w.list(at);
    if name == "fold"@ {
        match two_args(name, args, span) {
            Ok((init, g)) => {
                keep_folded(cx, fuel, g, items, 0, init, span, w);
            },
            _ => {},
        }
    } else {
        if name == "map"@ || name == "filter"@ || name == "reduce"@ || name == "any"@ || name
            == "all"@ || name == "find"@ {
            match one_arg(name, args, span) {
                Ok(g) => {
                    if name == "map"@ {
                        keep_mapped(cx, fuel, g, items, 0, Seq::empty(), span, w);
                    } else {
                        if name == "filter"@ {
                            keep_filtered(cx, fuel, g, items, 0, Seq::empty(), span, w);
                        } else {
                            if name == "reduce"@ {
                                if items.len() != 0 {
                                    keep_folded(cx, fuel, g, items, 1, items[0], span, w);
                                }
                            } else {
                                keep_sought(cx, fuel, g, items, 0, name != "all"@, span, w);
                            }
                        }
                    }
                },
                _ => {},
            }
        }
    }
}

proof fn keep_list_called(
    cx: Cx, fuel: nat, at: usize, name: Seq<char>, args: Seq<Val>, span: Span, w: World,
)
    requires
        valid(w),
        fit_items(w, args),
    ensures
        sound_val(w, list_called(cx, fuel, at, name, args, span, w)),
        declared(cx.reg, w) ==> declared(cx.reg, list_called(cx, fuel, at, name, args, span, w).1),
    decreases fuel, 7nat, 1nat,
{
    keep_list_callback(cx, fuel, at, name, args, span, w);
    match list_callback(cx, fuel, at, name, args, span, w) {
        None => {
            keep_list_with_arg(fuel, at, name, args, span, w);
            match list_with_arg(fuel, at, name, args, span, w) {
                None => {
                    if is_plain_list_method(name) {
                        match no_args(name, args, span) {
                            Ok(_) => {
                                keep_list_plain(cx, fuel, at, name, span, w);
                            },
                            _ => {},
                        }
                    }
                },
                _ => {},
            }
        },
        _ => {},
    }
}

proof fn keep_arms_run(
    cx: Cx, fuel: nat, arms: Seq<MatchArm>, i: nat, v: Val, span: Span, env: Env, w: World,
)
    requires
        valid(w),
        fits(w, v),
        open_scope(w, env),
    ensures
        sound_flow(w, arms_run(cx, fuel, arms, i, v, span, env, w)),
        declared(cx.reg, w) ==> declared(cx.reg, arms_run(cx, fuel, arms, i, v, span, env, w).1),
    decreases fuel, 3nat, arms.len() - i,
{
    if i < arms.len() {
        let arm = arms[i as int];
        let scope = w.next_scope();
        keep_matched(arm.pattern, v, scope, w.add_scope(Some(env)));
        match matched(arm.pattern, v, scope, w.add_scope(Some(env))) {
            (false, w1) => {
                keep_arms_run(cx, fuel, arms, i + 1, v, span, env, w1);
            },
            (true, w1) => {
                match arm.guard {
                    Some(guard) => {
                        keep_condition(cx, fuel, guard, scope, w1);
                    },
                    _ => {},
                }
                let passed: Out<bool> = match arm.guard {
                    Some(guard) => condition(cx, fuel, guard, scope, w1),
                    None => (Ok(true), w1),
                };
                match passed {
                    (Ok(true), w2) => {
                        keep_stmts_executed(cx, fuel, arm.body.stmts@, 0, Val::Unit, scope, w2);
                    },
                    (Ok(false), w2) => {
                        keep_arms_run(cx, fuel, arms, i + 1, v, span, env, w2);
                    },
                    _ => {},
                }
            },
        }
    }
}

proof fn keep_match_evaluated(cx: Cx, fuel: nat, m: MatchExpr, span: Span, env: Env, w: World)
    requires
        valid(w),
        open_scope(w, env),
    ensures
        sound_val(w, match_evaluated(cx, fuel, m, span, env, w)),
        declared(cx.reg, w) ==> declared(cx.reg, match_evaluated(cx, fuel, m, span, env, w).1),
    decreases fuel, 5nat, 0nat,
{
    keep_match_run(cx, fuel, m, span, env, w);
}

proof fn keep_match_run(cx: Cx, fuel: nat, m: MatchExpr, span: Span, env: Env, w: World)
    requires
        valid(w),
        open_scope(w, env),
    ensures
        sound_flow(w, match_run(cx, fuel, m, span, env, w)),
        declared(cx.reg, w) ==> declared(cx.reg, match_run(cx, fuel, m, span, env, w).1),
    decreases fuel, 4nat, 0nat,
{
    keep_evaluated(cx, fuel, *m.scrutinee, env, w);
    match evaluated(cx, fuel, *m.scrutinee, env, w) {
        (Ok(v), w1) => {
            keep_arms_run(cx, fuel, m.arms@, 0, v, span, env, w1);
        },
        _ => {},
    }
}

proof fn keep_executed(cx: Cx, fuel: nat, s: Stmt, env: Env, w: World)
    requires
        valid(w),
        open_scope(w, env),
    ensures
        sound_flow(w, executed(cx, fuel, s, env, w)),
        declared(cx.reg, w) ==> declared(cx.reg, executed(cx, fuel, s, env, w).1),
    decreases fuel, 0nat, 0nat,
{
    if fuel != 0 {
        let f = (fuel - 1) as nat;
        match s.kind {
            StmtKind::Binding(b) => {
                keep_evaluated(cx, f, b.value, env, w);
                match evaluated(cx, f, b.value, env, w) {
                    (Ok(v), w1) => {
                        keep_bound(b, v, s.span, env, w1);
                    },
                    _ => {},
                }
            },
            StmtKind::Assign(a) => {
                keep_assigned(cx, f, a, env, w);
            },
            StmtKind::Return(Some(e)) => {
                keep_evaluated(cx, f, e, env, w);
            },
            StmtKind::Expr(e) => {
                match e.kind {
                    ExprKind::Match(m) => {
                        keep_match_run(cx, f, m, e.span, env, w);
                    },
                    _ => {
                        keep_evaluated(cx, f, e, env, w);
                    },
                }
            },
            StmtKind::If(c) => {
                keep_if_run(cx, f, c, 0, env, w);
            },
            StmtKind::While(l) => {
                keep_while_run(cx, f, l, env, w);
            },
            StmtKind::For(l) => {
                keep_for_run(cx, f, l, env, w);
            },
            _ => {},
        }
    }
}

proof fn keep_stmts_executed(
    cx: Cx, fuel: nat, stmts: Seq<Stmt>, i: nat, last: Val, env: Env, w: World,
)
    requires
        valid(w),
        fits(w, last),
        open_scope(w, env),
    ensures
        sound_flow(w, stmts_executed(cx, fuel, stmts, i, last, env, w)),
        declared(cx.reg, w) ==> declared(
            cx.reg,
            stmts_executed(cx, fuel, stmts, i, last, env, w).1,
        ),
    decreases fuel, 1nat, stmts.len() - i,
{
    if i < stmts.len() {
        keep_executed(cx, fuel, stmts[i as int], env, w);
        match executed(cx, fuel, stmts[i as int], env, w) {
            (Ok(FlowVal::Normal(v)), w1) => {
                keep_stmts_executed(cx, fuel, stmts, i + 1, v, env, w1);
            },
            _ => {},
        }
    }
}

proof fn keep_block_run(cx: Cx, fuel: nat, b: Block, parent: Env, w: World)
    requires
        valid(w),
        open_scope(w, parent),
    ensures
        sound_flow(w, block_run(cx, fuel, b, parent, w)),
        declared(cx.reg, w) ==> declared(cx.reg, block_run(cx, fuel, b, parent, w).1),
    decreases fuel, 2nat, 0nat,
{
    keep_stmts_executed(
        cx, fuel, b.stmts@, 0, Val::Unit, w.next_scope(), w.add_scope(Some(parent)),
    );
}

proof fn keep_if_run(cx: Cx, fuel: nat, s: IfStmt, i: nat, env: Env, w: World)
    requires
        valid(w),
        open_scope(w, env),
    ensures
        sound_flow(w, if_run(cx, fuel, s, i, env, w)),
        declared(cx.reg, w) ==> declared(cx.reg, if_run(cx, fuel, s, i, env, w).1),
    decreases fuel, 3nat, s.arms@.len() - i,
{
    if i >= s.arms@.len() {
        match s.else_body {
            Some(b) => {
                keep_block_run(cx, fuel, b, env, w);
            },
            _ => {},
        }
    } else {
        keep_condition(cx, fuel, s.arms@[i as int].0, env, w);
        match condition(cx, fuel, s.arms@[i as int].0, env, w) {
            (Ok(true), w1) => {
                keep_block_run(cx, fuel, s.arms@[i as int].1, env, w1);
            },
            (Ok(false), w1) => {
                keep_if_run(cx, fuel, s, i + 1, env, w1);
            },
            _ => {},
        }
    }
}

proof fn keep_while_run(cx: Cx, fuel: nat, s: WhileStmt, env: Env, w: World)
    requires
        valid(w),
        open_scope(w, env),
    ensures
        sound_flow(w, while_run(cx, fuel, s, env, w)),
        declared(cx.reg, w) ==> declared(cx.reg, while_run(cx, fuel, s, env, w).1),
    decreases fuel, 0nat, 0nat,
{
    if fuel != 0 {
        let f = (fuel - 1) as nat;
        keep_condition(cx, f, s.cond, env, w);
        match condition(cx, f, s.cond, env, w) {
            (Ok(true), w1) => {
                keep_block_run(cx, f, s.body, env, w1);
                match block_run(cx, f, s.body, env, w1) {
                    (Ok(flow), w2) => {
                        if loop_goes_on(flow) {
                            keep_while_run(cx, f, s, env, w2);
                        }
                    },
                    _ => {},
                }
            },
            _ => {},
        }
    }
}

proof fn keep_turns_run(cx: Cx, fuel: nat, s: ForStmt, items: Seq<Val>, i: nat, env: Env, w: World)
    requires
        valid(w),
        fit_items(w, items),
        open_scope(w, env),
    ensures
        sound_flow(w, turns_run(cx, fuel, s, items, i, env, w)),
        declared(cx.reg, w) ==> declared(cx.reg, turns_run(cx, fuel, s, items, i, env, w).1),
    decreases fuel, 3nat, items.len() - i,
{
    if i < items.len() {
        let scope = w.next_scope();
        keep_item_bound(s.binder, items[i as int], scope, s.iter.span, w.add_scope(Some(env)));
        match item_bound(s.binder, items[i as int], scope, s.iter.span, w.add_scope(Some(env))) {
            (Ok(_), w1) => {
                keep_stmts_executed(cx, fuel, s.body.stmts@, 0, Val::Unit, scope, w1);
                match stmts_executed(cx, fuel, s.body.stmts@, 0, Val::Unit, scope, w1) {
                    (Ok(flow), w2) => {
                        if loop_goes_on(flow) {
                            keep_turns_run(cx, fuel, s, items, i + 1, env, w2);
                        }
                    },
                    _ => {},
                }
            },
            _ => {},
        }
    }
}

proof fn keep_for_run(cx: Cx, fuel: nat, s: ForStmt, env: Env, w: World)
    requires
        valid(w),
        open_scope(w, env),
    ensures
        sound_flow(w, for_run(cx, fuel, s, env, w)),
        declared(cx.reg, w) ==> declared(cx.reg, for_run(cx, fuel, s, env, w).1),
    decreases fuel, 4nat, 0nat,
{
    keep_evaluated(cx, fuel, s.iter, env, w);
    match evaluated(cx, fuel, s.iter, env, w) {
        (Ok(v), w1) => {
            match iterated(v, s.iter.span, w1) {
                Ok(items) => {
                    keep_turns_run(cx, fuel, s, items, 0, env, w1);
                },
                _ => {},
            }
        },
        _ => {},
    }
}

proof fn keep_stepped(
    cx: Cx, fuel: nat, container: Val, seg: TargetSeg, span: Span, env: Env, w: World,
)
    requires
        valid(w),
        fits(w, container),
        open_scope(w, env),
    ensures
        sound_val(w, stepped(cx, fuel, container, seg, span, env, w)),
        declared(cx.reg, w) ==> declared(cx.reg, stepped(cx, fuel, container, seg, span, env, w).1),
    decreases fuel, 1nat, 0nat,
{
    match seg {
        TargetSeg::Index(e) => {
            keep_evaluated(cx, fuel, e, env, w);
        },
        _ => {},
    }
}

proof fn keep_navigated(
    cx: Cx, fuel: nat, container: Val, path: Seq<TargetSeg>, i: nat, span: Span, env: Env,
    w: World,
)
    requires
        valid(w),
        fits(w, container),
        open_scope(w, env),
    ensures
        sound_val(w, navigated(cx, fuel, container, path, i, span, env, w)),
        declared(cx.reg, w) ==> declared(
            cx.reg,
            navigated(cx, fuel, container, path, i, span, env, w).1,
        ),
    decreases fuel, 2nat, path.len() - i,
{
    if i + 1 < path.len() {
        keep_stepped(cx, fuel, container, path[i as int], span, env, w);
        match stepped(cx, fuel, container, path[i as int], span, env, w) {
            (Ok(v), w1) => {
                keep_navigated(cx, fuel, v, path, i + 1, span, env, w1);
            },
            _ => {},
        }
    }
}

proof fn keep_written(
    cx: Cx, fuel: nat, container: Val, seg: TargetSeg, new: Val, span: Span, env: Env, w: World,
)
    requires
        valid(w),
        fits(w, container),
        fits(w, new),
        open_scope(w, env),
    ensures
        sound(w, written(cx, fuel, container, seg, new, span, env, w)),
        declared(cx.reg, w) ==> declared(
            cx.reg,
            written(cx, fuel, container, seg, new, span, env, w).1,
        ),
    decreases fuel, 1nat, 0nat,
{
    match seg {
        TargetSeg::Index(e) => {
            keep_evaluated(cx, fuel, e, env, w);
        },
        _ => {},
    }
}

proof fn keep_assigned(cx: Cx, fuel: nat, a: Assign, env: Env, w: World)
    requires
        valid(w),
        open_scope(w, env),
    ensures
        sound(w, assigned(cx, fuel, a, env, w)),
        declared(cx.reg, w) ==> declared(cx.reg, assigned(cx, fuel, a, env, w).1),
    decreases fuel, 3nat, 0nat,
{
    let target = a.target;
    keep_evaluated(cx, fuel, a.value, env, w);
    match evaluated(cx, fuel, a.value, env, w) {
        (Ok(new), w1) => {
            if target.path@.len() == 0 {
                keep_reassigned(w1, env, target.base@, new);
            } else {
                keep_resolved(w1, env, target.base@);
                match resolved(w1, env, target.base@) {
                    Some(base) => {
                        keep_navigated(cx, fuel, base, target.path@, 0, target.span, env, w1);
                        match navigated(cx, fuel, base, target.path@, 0, target.span, env, w1) {
                            (Ok(container), w2) => {
                                keep_written(
                                    cx, fuel, container, target.path@.last(), new, target.span,
                                    env, w2,
                                );
                            },
                            _ => {},
                        }
                    },
                    _ => {},
                }
            }
        },
        _ => {},
    }
}

// ---------------------------------------------------------------------------
// Programs
// ---------------------------------------------------------------------------

proof fn keep_top_executed(cx: Cx, fuel: nat, stmts: Seq<Stmt>, i: nat, root: Env, w: World)
    requires
        valid(w),
        open_scope(w, root),
    ensures
        sound(w, top_executed(cx, fuel, stmts, i, root, w)),
        declared(cx.reg, w) ==> declared(cx.reg, top_executed(cx, fuel, stmts, i, root, w).1),
    decreases stmts.len() - i,
{
    if i < stmts.len() {
        keep_executed(cx, fuel, stmts[i as int], root, w);
        match executed(cx, fuel, stmts[i as int], root, w) {
            (Ok(_), w1) => {
                keep_top_executed(cx, fuel, stmts, i + 1, root, w1);
            },
            _ => {},
        }
    }
}

/// The world before the first statement is valid, and the root scope is there.
pub proof fn law_first_world()
    ensures
        valid(first_world()),
        open_scope(first_world(), World::fresh().next_scope()),
        first_world().propagating is None,
        first_world().out.len() == 0,
        first_world().structs.len() == 0,
{
    let w = World::fresh();
    assert(valid(w)) by {
        reveal(valid);
    }
    let root = w.next_scope();
    let w0 = w.add_scope(None);
    let w1 = w0.with_var(root, "print"@, Val::Builtin(Builtin::Print), false);
    let w2 = w1.with_var(root, "panic"@, Val::Builtin(Builtin::Panic), false);
    let w3 = w2.with_var(root, "Set"@, Val::Builtin(Builtin::EmptySet), false);
    let w4 = w3.with_var(root, "Ok"@, Val::Builtin(Builtin::MakeOk), false);
    let w5 = w4.with_var(root, "Err"@, Val::Builtin(Builtin::MakeErr), false);
    assert(first_world() == w5);
}

/// However a run ends: nothing refers to a place that is not there, no scope or
/// struct has a name twice, the scope around a scope is an older one, and every
/// struct has the fields of its declaration. An `Err` from a `try` is still on
/// its way only where the run ended in an error.
pub proof fn law_run_keeps_world_valid(stmts: Seq<Stmt>, ans: Answers, fuel: nat)
    ensures
        valid(program_run(stmts, ans, fuel).1),
        declared(program_cx(stmts, ans).reg, program_run(stmts, ans, fuel).1),
        program_run(stmts, ans, fuel).0 is Ok ==> program_run(
            stmts,
            ans,
            fuel,
        ).1.propagating is None,
{
    law_first_world();
    let cx = program_cx(stmts, ans);
    let root = World::fresh().next_scope();
    let w = first_world();
    assert(declared(cx.reg, w)) by {
        reveal(declared);
    }
    keep_top_executed(cx, fuel, stmts, 0, root, w);
    match top_executed(cx, fuel, stmts, 0, root, w) {
        (Ok(_), w1) => {
            keep_resolved(w1, root, "main"@);
            match resolved(w1, root, "main"@) {
                Some(Val::Closure(c)) => {
                    let span = main_span_from(stmts, 0);
                    keep_closure_called(cx, fuel, c, Seq::empty(), span, w1);
                },
                _ => {},
            }
        },
        _ => {},
    }
}

/// A statement, whatever it does, takes back no printed line, removes no place,
/// and leaves every struct of its type and every scope inside the scope it was in.
pub proof fn law_statement_only_adds(cx: Cx, fuel: nat, s: Stmt, env: Env, w: World)
    requires
        valid(w),
        open_scope(w, env),
    ensures
        sound_flow(w, executed(cx, fuel, s, env, w)),
        declared(cx.reg, w) ==> declared(cx.reg, executed(cx, fuel, s, env, w).1),
{
    keep_executed(cx, fuel, s, env, w);
}

/// The same of an expression, whose value refers only to places that are there.
pub proof fn law_expression_only_adds(cx: Cx, fuel: nat, e: Expr, env: Env, w: World)
    requires
        valid(w),
        open_scope(w, env),
    ensures
        sound_val(w, evaluated(cx, fuel, e, env, w)),
        declared(cx.reg, w) ==> declared(cx.reg, evaluated(cx, fuel, e, env, w).1),
{
    keep_evaluated(cx, fuel, e, env, w);
}

} // verus!
