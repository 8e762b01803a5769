//! The budget and the host's answers play no part in what a program means.
//!
//! A run that ends in a value or in an error ends the same way, in the same
//! world, under every larger budget and every table that holds more answers. So
//! a host may start a run again with one more answer, or with a larger budget,
//! and loses nothing. Nor does a run ask what it was told, so the host gets on.
//!
//! What was printed before a run stopped is what the next one prints first. So
//! each proof here shows first that the second run only adds lines, and then
//! compares the two.

use super::collections::{
    best_from, entry_place, extreme_of, float_sum, insert_place, int_sum, item_place, kept,
    no_args, one_arg, put_all, put_item, put_pair, set_arg, sorted, sorted_from, summed, two_args,
};
use super::env::{outermost, resolved};
use super::float::{Answers, FloatOp, QuestionView};
use super::ops::{
    arith_result, compare_result, float_result, host_op, is_arith, is_comparison, operands_order,
};
use super::places::{ext, ext_push, ext_same, ext_through};
use super::printing::{
    print_applied, print_args_evaluated, print_args_filled, print_args_split, print_arms_run,
    print_assigned, print_binary_evaluated, print_binder_bound, print_block_run,
    print_body_ended, print_bound, print_bound_all, print_builtin_called,
    print_builtin_method_called, print_call_bound, print_call_evaluated, print_closure_called,
    print_comprehension_evaluated, print_condition, print_evaluated, print_executed,
    print_fields_by_name, print_fields_in_order, print_filtered, print_folded, print_for_run,
    print_function_called, print_gathered, print_if_run, print_index_evaluated,
    print_intercepted, print_item_bound, print_items_evaluated, print_list_callback,
    print_list_called, print_list_plain, print_list_with_arg, print_map_called, print_mapped,
    print_match_evaluated, print_match_run, print_matched, print_member_called,
    print_member_evaluated, print_members_evaluated, print_method_args_evaluated,
    print_method_called, print_navigated, print_operated, print_pairs_evaluated,
    print_params_bound, print_params_filled, print_payload_by_name, print_payload_in_order,
    print_payload_made, print_payload_positional, print_predicate, print_reassigned,
    print_set_called, print_sought, print_stepped, print_stmts_executed, print_struct_finished,
    print_struct_made, print_text_built, print_top_executed, print_tried, print_turns_gathered,
    print_turns_run, print_variant_made, print_while_run, print_written,
};
use super::registry::Decls;
use super::semantics::{
    all_named, all_positional, applied, arg_named, arg_value, args_evaluated, args_filled,
    args_split, arity_halt, arms_run, assigned, binary_evaluated, binder_bound, block_run,
    builtin_called, builtin_method_called, call_bound, call_evaluated, closure_called,
    comprehension_evaluated, condition, declared_type, enum_named, evaluated, executed,
    fields_by_name, fields_in_order, filtered, folded, for_run, function_called, gathered, if_run,
    index_evaluated, is_plain_list_method, item_bound, items_evaluated, iterated, list_callback,
    list_called, list_plain, list_with_arg, loop_goes_on, loop_message, map_called, mapped,
    match_evaluated, match_run, matched, member_called, member_evaluated, members_evaluated,
    method_args_evaluated, method_called, navigated, no_payload, nothing_gathered, operated,
    pairs_evaluated, panic_text, param_count, params_bound, params_filled, payload_by_name,
    payload_in_order, payload_made, payload_positional, predicate, required_from, set_called,
    sought, stepped, stmts_executed, struct_made, struct_named, text_built, turns_gathered,
    turns_run, variant_made, while_run, written, Gathered, Payloads,
};
use super::show::{
    compared, equal, field_or_unit, fields_compared, fields_equal, float_text, items_compared,
    items_equal, items_found, key_place, pairs_found, place_of, same_items, shown, shown_fields,
    shown_items, shown_named, shown_pairs, variant_place, variant_rank,
};
use super::value::{Builtin, ClosureVal, Env, Halt, Val, World};
use super::{
    bool_of, bound_all, first_world, main_span_from, program_cx, program_run, top_executed, Cx,
    FlowVal, Out,
};
use crate::ast::{
    Arg, Assign, BinOp, Block, Comprehension, ComprehensionOutput, EnumShape, Expr, ExprKind,
    FnDecl, ForStmt, IfStmt, MatchArm, MatchExpr, Param, PayloadShape, Stmt, StmtKind, StrSeg,
    StructShape, TargetSeg, WhileStmt,
};
use crate::error::Phase;
use crate::name_map::{bind, lookup, unbind};
use crate::text::{texts, Order};
use crate::token::Span;
use vstd::prelude::*;

verus! {

broadcast use {ext_same, ext_push, ext_through};

impl Cx {
    /// The same declarations, and every answer is given there too.
    pub open spec fn within(self, other: Cx) -> bool {
        other.reg == self.reg && self.ans.within(other.ans)
    }
}

/// Neither the budget nor a missing answer ended it.
pub open spec fn settled<T>(r: Result<T, Halt>) -> bool {
    match r {
        Ok(_) => true,
        Err(Halt::Error(_)) => true,
        Err(Halt::Ask(_)) => false,
        Err(Halt::Budget) => false,
    }
}

/// Whether the host has answered a question.
pub open spec fn answered(ans: Answers, q: QuestionView) -> bool {
    match q {
        QuestionView::Arith { op, a, b } => ans.arith_answer(op, a, b) is Some,
        QuestionView::Text(bits) => ans.text_answer(bits) is Some,
    }
}

/// If it ends in a question, that is an open one; if in an error, that is a
/// runtime error.
pub open spec fn ends_fair<T>(ans: Answers, r: Result<T, Halt>) -> bool {
    match r {
        Ok(_) => true,
        Err(Halt::Error(d)) => d.phase == Phase::Runtime,
        Err(Halt::Ask(q)) => !answered(ans, q),
        Err(Halt::Budget) => true,
    }
}

/// The same where nothing is asked.
pub open spec fn ends_alone<T>(r: Result<T, Halt>) -> bool {
    match r {
        Ok(_) => true,
        Err(Halt::Error(d)) => d.phase == Phase::Runtime,
        Err(Halt::Ask(_)) => false,
        Err(Halt::Budget) => true,
    }
}

/// What is settled there is the same here, and what was printed there is printed
/// here first.
pub open spec fn carried<T>(there: Out<T>, here: Out<T>) -> bool {
    &&& settled(there.0) ==> here == there
    &&& ext(there.1.out, here.1.out)
}

pub open spec fn carried_result<T>(there: Result<T, Halt>, here: Result<T, Halt>) -> bool {
    settled(there) ==> here == there
}

/// The same where only the budget can be missing, which is `None`.
pub open spec fn carried_option<T>(there: Option<T>, here: Option<T>) -> bool {
    there is Some ==> here == there
}

/// The same for a method that may be none of these.
pub open spec fn carried_some<T>(there: Option<Out<T>>, here: Option<Out<T>>) -> bool {
    match there {
        Some(out) => here is Some && carried(out, here->0),
        None => here is None,
    }
}

// ---------------------------------------------------------------------------
// Programs
// ---------------------------------------------------------------------------

proof fn carry_top_executed(
    cx: Cx, fuel: nat, stmts: Seq<Stmt>, i: nat, root: Env, w: World, cx2: Cx, fuel2: nat,
)
    requires
        cx.within(cx2),
        fuel <= fuel2,
    ensures
        carried(
            top_executed(cx, fuel, stmts, i, root, w),
            top_executed(cx2, fuel2, stmts, i, root, w),
        ),
        ends_fair(cx.ans, top_executed(cx, fuel, stmts, i, root, w).0),
    decreases stmts.len() - i,
{
    print_top_executed(cx2, fuel2, stmts, i, root, w);
    if i < stmts.len() {
        print_executed(cx2, fuel2, stmts[i as int], root, w);
        match executed(cx2, fuel2, stmts[i as int], root, w) {
            (Ok(_), w1) => {
                print_top_executed(cx2, fuel2, stmts, i + 1, root, w1);
            },
            _ => {},
        }
    }
    if i < stmts.len() {
        carry_executed(cx, fuel, stmts[i as int], root, w, cx2, fuel2);
        match executed(cx, fuel, stmts[i as int], root, w) {
            (Ok(_), w1) => {
                carry_top_executed(cx, fuel, stmts, i + 1, root, w1, cx2, fuel2);
            },
            _ => {},
        }
    }
}

/// A run that is settled is the same under a larger budget and with more
/// answers: how it ends, what it prints, and all else that it leaves.
pub proof fn law_more_fuel_and_answers(
    stmts: Seq<Stmt>,
    ans: Answers,
    fuel: nat,
    ans2: Answers,
    fuel2: nat,
)
    requires
        ans.within(ans2),
        fuel <= fuel2,
        settled(program_run(stmts, ans, fuel).0),
    ensures
        program_run(stmts, ans2, fuel2) == program_run(stmts, ans, fuel),
{
    let cx = program_cx(stmts, ans);
    let cx2 = program_cx(stmts, ans2);
    let root = World::fresh().next_scope();
    let w = first_world();
    carry_top_executed(cx, fuel, stmts, 0, root, w, cx2, fuel2);
    match top_executed(cx, fuel, stmts, 0, root, w) {
        (Ok(_), w1) => match resolved(w1, root, "main"@) {
            Some(Val::Closure(c)) => {
                let span = main_span_from(stmts, 0);
                carry_closure_called(cx, fuel, c, Seq::empty(), span, w1, cx2, fuel2);
            },
            _ => {},
        },
        _ => {},
    }
}

/// Whatever a run printed, settled or stopped, is what it prints first under a
/// larger budget and with more answers.
pub proof fn law_printed_first(
    stmts: Seq<Stmt>,
    ans: Answers,
    fuel: nat,
    ans2: Answers,
    fuel2: nat,
)
    requires
        ans.within(ans2),
        fuel <= fuel2,
    ensures
        program_run(stmts, ans, fuel).1.out.is_prefix_of(program_run(stmts, ans2, fuel2).1.out),
{
    let cx = program_cx(stmts, ans);
    let cx2 = program_cx(stmts, ans2);
    let root = World::fresh().next_scope();
    let w = first_world();
    let span = main_span_from(stmts, 0);
    carry_top_executed(cx, fuel, stmts, 0, root, w, cx2, fuel2);
    let w2 = top_executed(cx2, fuel2, stmts, 0, root, w).1;
    if let Some(Val::Closure(c)) = resolved(w2, root, "main"@) {
        print_closure_called(cx2, fuel2, c, Seq::empty(), span, w2);
    }
    let w1 = top_executed(cx, fuel, stmts, 0, root, w).1;
    if let Some(Val::Closure(c)) = resolved(w1, root, "main"@) {
        carry_closure_called(cx, fuel, c, Seq::empty(), span, w1, cx2, fuel2);
    }
    assert(ext(program_run(stmts, ans, fuel).1.out, program_run(stmts, ans2, fuel2).1.out));
    reveal(ext);
}

/// A run asks nothing that the host has answered, so each question that it ends in
/// is a new one; and its errors are runtime errors.
pub proof fn law_run_ends_fair(stmts: Seq<Stmt>, ans: Answers, fuel: nat)
    ensures
        ends_fair(ans, program_run(stmts, ans, fuel).0),
{
    let cx = program_cx(stmts, ans);
    let root = World::fresh().next_scope();
    let w = first_world();
    carry_top_executed(cx, fuel, stmts, 0, root, w, cx, fuel);
    match top_executed(cx, fuel, stmts, 0, root, w) {
        (Ok(_), w1) => match resolved(w1, root, "main"@) {
            Some(Val::Closure(c)) => {
                let span = main_span_from(stmts, 0);
                carry_closure_called(cx, fuel, c, Seq::empty(), span, w1, cx, fuel);
            },
            _ => {},
        },
        _ => {},
    }
}

/// The same of one expression: it settles once and for all.
pub proof fn law_expression_settles(
    cx: Cx,
    fuel: nat,
    e: Expr,
    env: Env,
    w: World,
    cx2: Cx,
    fuel2: nat,
)
    requires
        cx.within(cx2),
        fuel <= fuel2,
        settled(evaluated(cx, fuel, e, env, w).0),
    ensures
        evaluated(cx2, fuel2, e, env, w) == evaluated(cx, fuel, e, env, w),
{
    carry_evaluated(cx, fuel, e, env, w, cx2, fuel2);
}

// ---------------------------------------------------------------------------
// Equality, order and rendering
// ---------------------------------------------------------------------------

proof fn carry_equal(w: World, fuel: nat, a: Val, b: Val, fuel2: nat)
    requires
        fuel <= fuel2,
    ensures
        carried_option(equal(w, fuel, a, b), equal(w, fuel2, a, b)),
    decreases fuel, 0nat, 0nat,
{
    if fuel != 0 {
        let f = (fuel - 1) as nat;
        let f2 = (fuel2 - 1) as nat;
        match (a, b) {
            (Val::List(x), Val::List(y)) => {
                carry_same_items(w, f, w.list(x), w.list(y), f2);
            },
            (Val::Tuple(x), Val::Tuple(y)) => {
                carry_same_items(w, f, x, y, f2);
            },
            (Val::MapRef(x), Val::MapRef(y)) => {
                let xs = w.map(x);
                let ys = w.map(y);
                if xs.len() == ys.len() {
                    carry_pairs_found(w, f, xs, ys, 0, f2);
                }
            },
            (Val::SetRef(x), Val::SetRef(y)) => {
                let xs = w.set(x);
                let ys = w.set(y);
                if xs.len() == ys.len() {
                    carry_items_found(w, f, xs, ys, 0, f2);
                }
            },
            (Val::Struct(x), Val::Struct(y)) => {
                let xi = w.instance(x);
                let yi = w.instance(y);
                if xi.name == yi.name && xi.fields.len() == yi.fields.len() {
                    carry_fields_equal(w, f, xi.fields, yi.fields, 0, f2);
                }
            },
            (Val::Enum(x), Val::Enum(y)) => {
                if x.enum_name == y.enum_name && x.variant == y.variant {
                    carry_same_items(w, f, x.payload, y.payload, f2);
                }
            },
            _ => {},
        }
    }
}

proof fn carry_same_items(w: World, fuel: nat, xs: Seq<Val>, ys: Seq<Val>, fuel2: nat)
    requires
        fuel <= fuel2,
    ensures
        carried_option(same_items(w, fuel, xs, ys), same_items(w, fuel2, xs, ys)),
    decreases fuel, 2nat, 0nat,
{
    if xs.len() == ys.len() {
        carry_items_equal(w, fuel, xs, ys, 0, fuel2);
    }
}

proof fn carry_items_equal(w: World, fuel: nat, xs: Seq<Val>, ys: Seq<Val>, i: nat, fuel2: nat)
    requires
        fuel <= fuel2,
    ensures
        carried_option(items_equal(w, fuel, xs, ys, i), items_equal(w, fuel2, xs, ys, i)),
    decreases fuel, 1nat, xs.len() - i,
{
    if i < xs.len() && i < ys.len() {
        carry_equal(w, fuel, xs[i as int], ys[i as int], fuel2);
        match equal(w, fuel, xs[i as int], ys[i as int]) {
            Some(true) => {
                carry_items_equal(w, fuel, xs, ys, i + 1, fuel2);
            },
            _ => {},
        }
    }
}

proof fn carry_fields_equal(
    w: World, fuel: nat, xs: Seq<(Seq<char>, Val)>, ys: Seq<(Seq<char>, Val)>, i: nat, fuel2: nat,
)
    requires
        fuel <= fuel2,
    ensures
        carried_option(fields_equal(w, fuel, xs, ys, i), fields_equal(w, fuel2, xs, ys, i)),
    decreases fuel, 1nat, xs.len() - i,
{
    if i < xs.len() {
        match lookup(ys, xs[i as int].0) {
            Some(v) => {
                carry_equal(w, fuel, xs[i as int].1, v, fuel2);
                match equal(w, fuel, xs[i as int].1, v) {
                    Some(true) => {
                        carry_fields_equal(w, fuel, xs, ys, i + 1, fuel2);
                    },
                    _ => {},
                }
            },
            _ => {},
        }
    }
}

proof fn carry_place_of(w: World, fuel: nat, x: Val, ys: Seq<Val>, j: nat, fuel2: nat)
    requires
        fuel <= fuel2,
    ensures
        carried_option(place_of(w, fuel, x, ys, j), place_of(w, fuel2, x, ys, j)),
    decreases fuel, 1nat, ys.len() - j,
{
    if j < ys.len() {
        carry_equal(w, fuel, x, ys[j as int], fuel2);
        match equal(w, fuel, x, ys[j as int]) {
            Some(false) => {
                carry_place_of(w, fuel, x, ys, j + 1, fuel2);
            },
            _ => {},
        }
    }
}

proof fn carry_items_found(w: World, fuel: nat, xs: Seq<Val>, ys: Seq<Val>, i: nat, fuel2: nat)
    requires
        fuel <= fuel2,
    ensures
        carried_option(items_found(w, fuel, xs, ys, i), items_found(w, fuel2, xs, ys, i)),
    decreases fuel, 2nat, xs.len() - i,
{
    if i < xs.len() {
        carry_place_of(w, fuel, xs[i as int], ys, 0, fuel2);
        match place_of(w, fuel, xs[i as int], ys, 0) {
            Some(Some(_)) => {
                carry_items_found(w, fuel, xs, ys, i + 1, fuel2);
            },
            _ => {},
        }
    }
}

proof fn carry_key_place(w: World, fuel: nat, k: Val, ys: Seq<(Val, Val)>, j: nat, fuel2: nat)
    requires
        fuel <= fuel2,
    ensures
        carried_option(key_place(w, fuel, k, ys, j), key_place(w, fuel2, k, ys, j)),
    decreases fuel, 1nat, ys.len() - j,
{
    if j < ys.len() {
        carry_equal(w, fuel, k, ys[j as int].0, fuel2);
        match equal(w, fuel, k, ys[j as int].0) {
            Some(false) => {
                carry_key_place(w, fuel, k, ys, j + 1, fuel2);
            },
            _ => {},
        }
    }
}

proof fn carry_pairs_found(
    w: World, fuel: nat, xs: Seq<(Val, Val)>, ys: Seq<(Val, Val)>, i: nat, fuel2: nat,
)
    requires
        fuel <= fuel2,
    ensures
        carried_option(pairs_found(w, fuel, xs, ys, i), pairs_found(w, fuel2, xs, ys, i)),
    decreases fuel, 2nat, xs.len() - i,
{
    if i < xs.len() {
        carry_key_place(w, fuel, xs[i as int].0, ys, 0, fuel2);
        match key_place(w, fuel, xs[i as int].0, ys, 0) {
            Some(Some(j)) => {
                carry_equal(w, fuel, xs[i as int].1, ys[j as int].1, fuel2);
                match equal(w, fuel, xs[i as int].1, ys[j as int].1) {
                    Some(true) => {
                        carry_pairs_found(w, fuel, xs, ys, i + 1, fuel2);
                    },
                    _ => {},
                }
            },
            _ => {},
        }
    }
}

proof fn carry_compared(reg: Decls, w: World, fuel: nat, a: Val, b: Val, span: Span, fuel2: nat)
    requires
        fuel <= fuel2,
    ensures
        carried_result(compared(reg, w, fuel, a, b, span), compared(reg, w, fuel2, a, b, span)),
        ends_alone(compared(reg, w, fuel, a, b, span)),
    decreases fuel, 0nat, 0nat,
{
    if fuel != 0 {
        let f = (fuel - 1) as nat;
        let f2 = (fuel2 - 1) as nat;
        match (a, b) {
            (Val::Struct(x), Val::Struct(y)) => {
                let xi = w.instance(x);
                let yi = w.instance(y);
                if xi.name == yi.name {
                    if reg.ordered(xi.name) {
                        carry_fields_compared(
                            reg, w, f, xi.order, xi.fields, yi.fields, 0, span, f2,
                        );
                    }
                }
            },
            (Val::Enum(x), Val::Enum(y)) => {
                if x.enum_name == y.enum_name {
                    if reg.ordered(x.enum_name) {
                        let xr = variant_rank(reg, x.enum_name, x.variant);
                        let yr = variant_rank(reg, y.enum_name, y.variant);
                        if xr == yr {
                            carry_items_compared(reg, w, f, x.payload, y.payload, 0, span, f2);
                        }
                    }
                }
            },
            _ => {},
        }
    }
}

proof fn carry_fields_compared(
    reg: Decls, w: World, fuel: nat, names: Seq<Seq<char>>, xs: Seq<(Seq<char>, Val)>,
    ys: Seq<(Seq<char>, Val)>, i: nat, span: Span, fuel2: nat,
)
    requires
        fuel <= fuel2,
    ensures
        carried_result(
            fields_compared(reg, w, fuel, names, xs, ys, i, span),
            fields_compared(reg, w, fuel2, names, xs, ys, i, span),
        ),
        ends_alone(fields_compared(reg, w, fuel, names, xs, ys, i, span)),
    decreases fuel, 1nat, names.len() - i,
{
    if i < names.len() {
        carry_compared(
            reg, w, fuel, field_or_unit(xs, names[i as int]), field_or_unit(ys, names[i as int]),
            span, fuel2,
        );
        let x = field_or_unit(xs, names[i as int]);
        let y = field_or_unit(ys, names[i as int]);
        match compared(reg, w, fuel, x, y, span) {
            Ok(Order::Equal) => {
                carry_fields_compared(reg, w, fuel, names, xs, ys, i + 1, span, fuel2);
            },
            _ => {},
        }
    }
}

proof fn carry_items_compared(
    reg: Decls, w: World, fuel: nat, xs: Seq<Val>, ys: Seq<Val>, i: nat, span: Span, fuel2: nat,
)
    requires
        fuel <= fuel2,
    ensures
        carried_result(
            items_compared(reg, w, fuel, xs, ys, i, span),
            items_compared(reg, w, fuel2, xs, ys, i, span),
        ),
        ends_alone(items_compared(reg, w, fuel, xs, ys, i, span)),
    decreases fuel, 1nat, xs.len() - i,
{
    if i < xs.len() && i < ys.len() {
        carry_compared(reg, w, fuel, xs[i as int], ys[i as int], span, fuel2);
        match compared(reg, w, fuel, xs[i as int], ys[i as int], span) {
            Ok(Order::Equal) => {
                carry_items_compared(reg, w, fuel, xs, ys, i + 1, span, fuel2);
            },
            _ => {},
        }
    }
}

proof fn carry_float_text(ans: Answers, bits: u64, ans2: Answers)
    requires
        ans.within(ans2),
    ensures
        carried_result(float_text(ans, bits), float_text(ans2, bits)),
        ends_fair(ans, float_text(ans, bits)),
{
}

proof fn carry_shown(ans: Answers, w: World, fuel: nat, v: Val, ans2: Answers, fuel2: nat)
    requires
        ans.within(ans2),
        fuel <= fuel2,
    ensures
        carried_result(shown(ans, w, fuel, v), shown(ans2, w, fuel2, v)),
        ends_fair(ans, shown(ans, w, fuel, v)),
    decreases fuel, 0nat, 0nat,
{
    if fuel != 0 {
        let f = (fuel - 1) as nat;
        let f2 = (fuel2 - 1) as nat;
        match v {
            Val::Float(bits) => {
                carry_float_text(ans, bits, ans2);
            },
            Val::List(at) => {
                carry_shown_items(ans, w, f, w.list(at), 0, Seq::empty(), ans2, f2);
            },
            Val::Tuple(items) => {
                carry_shown_items(ans, w, f, items, 0, Seq::empty(), ans2, f2);
            },
            Val::MapRef(at) => {
                carry_shown_pairs(ans, w, f, w.map(at), 0, Seq::empty(), ans2, f2);
            },
            Val::SetRef(at) => {
                if w.set(at).len() != 0 {
                    carry_shown_items(ans, w, f, w.set(at), 0, Seq::empty(), ans2, f2);
                }
            },
            Val::Struct(at) => {
                carry_shown_fields(
                    ans, w, f, w.instance(at).order, w.instance(at).fields, 0, Seq::empty(), ans2,
                    f2,
                );
            },
            Val::Enum(e) => {
                if e.payload.len() != 0 {
                    if e.names.len() == e.payload.len() {
                        carry_shown_named(ans, w, f, e.names, e.payload, 0, Seq::empty(), ans2, f2);
                    } else {
                        carry_shown_items(ans, w, f, e.payload, 0, Seq::empty(), ans2, f2);
                    }
                }
            },
            _ => {},
        }
    }
}

proof fn carry_shown_items(
    ans: Answers, w: World, fuel: nat, items: Seq<Val>, i: nat, done: Seq<Seq<char>>,
    ans2: Answers, fuel2: nat,
)
    requires
        ans.within(ans2),
        fuel <= fuel2,
    ensures
        carried_result(
            shown_items(ans, w, fuel, items, i, done),
            shown_items(ans2, w, fuel2, items, i, done),
        ),
        ends_fair(ans, shown_items(ans, w, fuel, items, i, done)),
    decreases fuel, 1nat, items.len() - i,
{
    if i < items.len() {
        carry_shown(ans, w, fuel, items[i as int], ans2, fuel2);
        match shown(ans, w, fuel, items[i as int]) {
            Ok(s) => {
                carry_shown_items(ans, w, fuel, items, i + 1, done.push(s), ans2, fuel2);
            },
            _ => {},
        }
    }
}

proof fn carry_shown_pairs(
    ans: Answers, w: World, fuel: nat, pairs: Seq<(Val, Val)>, i: nat, done: Seq<Seq<char>>,
    ans2: Answers, fuel2: nat,
)
    requires
        ans.within(ans2),
        fuel <= fuel2,
    ensures
        carried_result(
            shown_pairs(ans, w, fuel, pairs, i, done),
            shown_pairs(ans2, w, fuel2, pairs, i, done),
        ),
        ends_fair(ans, shown_pairs(ans, w, fuel, pairs, i, done)),
    decreases fuel, 1nat, pairs.len() - i,
{
    if i < pairs.len() {
        carry_shown(ans, w, fuel, pairs[i as int].0, ans2, fuel2);
        match shown(ans, w, fuel, pairs[i as int].0) {
            Ok(k) => {
                carry_shown(ans, w, fuel, pairs[i as int].1, ans2, fuel2);
                match shown(ans, w, fuel, pairs[i as int].1) {
                    Ok(v) => {
                        carry_shown_pairs(
                            ans, w, fuel, pairs, i + 1, done.push(k + ": "@ + v), ans2, fuel2,
                        );
                    },
                    _ => {},
                }
            },
            _ => {},
        }
    }
}

proof fn carry_shown_named(
    ans: Answers, w: World, fuel: nat, names: Seq<Seq<char>>, items: Seq<Val>, i: nat,
    done: Seq<Seq<char>>, ans2: Answers, fuel2: nat,
)
    requires
        ans.within(ans2),
        fuel <= fuel2,
    ensures
        carried_result(
            shown_named(ans, w, fuel, names, items, i, done),
            shown_named(ans2, w, fuel2, names, items, i, done),
        ),
        ends_fair(ans, shown_named(ans, w, fuel, names, items, i, done)),
    decreases fuel, 1nat, items.len() - i,
{
    if i < items.len() && i < names.len() {
        carry_shown(ans, w, fuel, items[i as int], ans2, fuel2);
        match shown(ans, w, fuel, items[i as int]) {
            Ok(v) => {
                carry_shown_named(
                    ans, w, fuel, names, items, i + 1, done.push(names[i as int] + ": "@ + v),
                    ans2, fuel2,
                );
            },
            _ => {},
        }
    }
}

proof fn carry_shown_fields(
    ans: Answers, w: World, fuel: nat, names: Seq<Seq<char>>, fields: Seq<(Seq<char>, Val)>,
    i: nat, done: Seq<Seq<char>>, ans2: Answers, fuel2: nat,
)
    requires
        ans.within(ans2),
        fuel <= fuel2,
    ensures
        carried_result(
            shown_fields(ans, w, fuel, names, fields, i, done),
            shown_fields(ans2, w, fuel2, names, fields, i, done),
        ),
        ends_fair(ans, shown_fields(ans, w, fuel, names, fields, i, done)),
    decreases fuel, 1nat, names.len() - i,
{
    if i < names.len() {
        carry_shown(ans, w, fuel, field_or_unit(fields, names[i as int]), ans2, fuel2);
        match shown(ans, w, fuel, field_or_unit(fields, names[i as int])) {
            Ok(v) => {
                carry_shown_fields(
                    ans, w, fuel, names, fields, i + 1, done.push(names[i as int] + ": "@ + v),
                    ans2, fuel2,
                );
            },
            _ => {},
        }
    }
}

// ---------------------------------------------------------------------------
// Operators
// ---------------------------------------------------------------------------

proof fn carry_float_result(ans: Answers, op: FloatOp, a: u64, b: u64, ans2: Answers)
    requires
        ans.within(ans2),
    ensures
        carried_result(float_result(ans, op, a, b), float_result(ans2, op, a, b)),
        ends_fair(ans, float_result(ans, op, a, b)),
{
}

proof fn carry_arith_result(ans: Answers, op: BinOp, l: Val, r: Val, span: Span, ans2: Answers)
    requires
        ans.within(ans2),
    ensures
        carried_result(arith_result(ans, op, l, r, span), arith_result(ans2, op, l, r, span)),
        ends_fair(ans, arith_result(ans, op, l, r, span)),
{
    match (l, r) {
        (Val::Float(a), Val::Float(b)) => {
            carry_float_result(ans, host_op(op), a, b, ans2);
        },
        _ => {},
    }
}

proof fn carry_operands_order(
    reg: Decls, w: World, fuel: nat, l: Val, r: Val, span: Span, fuel2: nat,
)
    requires
        fuel <= fuel2,
    ensures
        carried_result(
            operands_order(reg, w, fuel, l, r, span),
            operands_order(reg, w, fuel2, l, r, span),
        ),
        ends_alone(operands_order(reg, w, fuel, l, r, span)),
{
    if (l is Struct && r is Struct) || (l is Enum && r is Enum) {
        carry_compared(reg, w, fuel, l, r, span, fuel2);
    }
}

proof fn carry_compare_result(
    reg: Decls, w: World, fuel: nat, op: BinOp, l: Val, r: Val, span: Span, fuel2: nat,
)
    requires
        fuel <= fuel2,
    ensures
        carried_result(
            compare_result(reg, w, fuel, op, l, r, span),
            compare_result(reg, w, fuel2, op, l, r, span),
        ),
        ends_alone(compare_result(reg, w, fuel, op, l, r, span)),
{
    carry_operands_order(reg, w, fuel, l, r, span, fuel2);
}

// ---------------------------------------------------------------------------
// Collections
// ---------------------------------------------------------------------------

proof fn carry_item_place(w: World, fuel: nat, items: Seq<Val>, x: Val, j: nat, fuel2: nat)
    requires
        fuel <= fuel2,
    ensures
        carried_option(item_place(w, fuel, items, x, j), item_place(w, fuel2, items, x, j)),
    decreases items.len() - j,
{
    if j < items.len() {
        carry_equal(w, fuel, items[j as int], x, fuel2);
        match equal(w, fuel, items[j as int], x) {
            Some(false) => {
                carry_item_place(w, fuel, items, x, j + 1, fuel2);
            },
            _ => {},
        }
    }
}

proof fn carry_entry_place(w: World, fuel: nat, pairs: Seq<(Val, Val)>, k: Val, j: nat, fuel2: nat)
    requires
        fuel <= fuel2,
    ensures
        carried_option(entry_place(w, fuel, pairs, k, j), entry_place(w, fuel2, pairs, k, j)),
    decreases pairs.len() - j,
{
    if j < pairs.len() {
        carry_equal(w, fuel, pairs[j as int].0, k, fuel2);
        match equal(w, fuel, pairs[j as int].0, k) {
            Some(false) => {
                carry_entry_place(w, fuel, pairs, k, j + 1, fuel2);
            },
            _ => {},
        }
    }
}

proof fn carry_put_pair(w: World, fuel: nat, pairs: Seq<(Val, Val)>, k: Val, v: Val, fuel2: nat)
    requires
        fuel <= fuel2,
    ensures
        carried_result(put_pair(w, fuel, pairs, k, v), put_pair(w, fuel2, pairs, k, v)),
        ends_alone(put_pair(w, fuel, pairs, k, v)),
{
    carry_entry_place(w, fuel, pairs, k, 0, fuel2);
}

proof fn carry_put_item(w: World, fuel: nat, items: Seq<Val>, x: Val, fuel2: nat)
    requires
        fuel <= fuel2,
    ensures
        carried_result(put_item(w, fuel, items, x), put_item(w, fuel2, items, x)),
        ends_alone(put_item(w, fuel, items, x)),
{
    carry_item_place(w, fuel, items, x, 0, fuel2);
}

proof fn carry_put_all(w: World, fuel: nat, set: Seq<Val>, items: Seq<Val>, i: nat, fuel2: nat)
    requires
        fuel <= fuel2,
    ensures
        carried_result(put_all(w, fuel, set, items, i), put_all(w, fuel2, set, items, i)),
        ends_alone(put_all(w, fuel, set, items, i)),
    decreases items.len() - i,
{
    if i < items.len() {
        carry_put_item(w, fuel, set, items[i as int], fuel2);
        match put_item(w, fuel, set, items[i as int]) {
            Ok(more) => {
                carry_put_all(w, fuel, more, items, i + 1, fuel2);
            },
            _ => {},
        }
    }
}

proof fn carry_kept(
    w: World, fuel: nat, items: Seq<Val>, other: Seq<Val>, i: nat, done: Seq<Val>, fuel2: nat,
)
    requires
        fuel <= fuel2,
    ensures
        carried_result(kept(w, fuel, items, other, i, done), kept(w, fuel2, items, other, i, done)),
        ends_alone(kept(w, fuel, items, other, i, done)),
    decreases items.len() - i,
{
    if i < items.len() {
        carry_item_place(w, fuel, other, items[i as int], 0, fuel2);
        match item_place(w, fuel, other, items[i as int], 0) {
            Some(None) => {
                carry_kept(w, fuel, items, other, i + 1, done, fuel2);
            },
            Some(Some(_)) => {
                carry_kept(w, fuel, items, other, i + 1, done.push(items[i as int]), fuel2);
            },
            _ => {},
        }
    }
}

proof fn carry_float_sum(ans: Answers, items: Seq<Val>, i: nat, acc: u64, span: Span, ans2: Answers)
    requires
        ans.within(ans2),
    ensures
        carried_result(float_sum(ans, items, i, acc, span), float_sum(ans2, items, i, acc, span)),
        ends_fair(ans, float_sum(ans, items, i, acc, span)),
    decreases items.len() - i,
{
    if i < items.len() {
        match items[i as int] {
            Val::Float(x) => {
                carry_float_result(ans, FloatOp::Add, acc, x, ans2);
                match float_result(ans, FloatOp::Add, acc, x) {
                    Ok(more) => {
                        carry_float_sum(ans, items, i + 1, more, span, ans2);
                    },
                    _ => {},
                }
            },
            _ => {},
        }
    }
}

proof fn carry_int_sum(items: Seq<Val>, i: nat, acc: int, span: Span)
    ensures
        ends_alone(int_sum(items, i, acc, span)),
    decreases items.len() - i,
{
    if i < items.len() {
        if let Val::Int(n) = items[i as int] {
            carry_int_sum(items, i + 1, acc + n, span);
        }
    }
}

proof fn carry_summed(ans: Answers, items: Seq<Val>, span: Span, ans2: Answers)
    requires
        ans.within(ans2),
    ensures
        carried_result(summed(ans, items, span), summed(ans2, items, span)),
        ends_fair(ans, summed(ans, items, span)),
{
    if items.len() != 0 {
        match items[0] {
            Val::Int(_) => {
                carry_int_sum(items, 0, 0, span);
            },
            Val::Float(_) => {
                carry_float_sum(ans, items, 0, 0, span, ans2);
            },
            _ => {},
        }
    }
}

proof fn carry_best_from(
    reg: Decls, w: World, fuel: nat, items: Seq<Val>, i: nat, best: Val, want: Order, span: Span,
    fuel2: nat,
)
    requires
        fuel <= fuel2,
    ensures
        carried_result(
            best_from(reg, w, fuel, items, i, best, want, span),
            best_from(reg, w, fuel2, items, i, best, want, span),
        ),
        ends_alone(best_from(reg, w, fuel, items, i, best, want, span)),
    decreases items.len() - i,
{
    if i < items.len() {
        carry_compared(reg, w, fuel, items[i as int], best, span, fuel2);
        match compared(reg, w, fuel, items[i as int], best, span) {
            Ok(o) => {
                carry_best_from(
                    reg, w, fuel, items, i + 1, if o == want { items[i as int] } else { best },
                    want, span, fuel2,
                );
            },
            _ => {},
        }
    }
}

proof fn carry_extreme_of(
    reg: Decls, w: World, fuel: nat, items: Seq<Val>, want: Order, span: Span, fuel2: nat,
)
    requires
        fuel <= fuel2,
    ensures
        carried_result(
            extreme_of(reg, w, fuel, items, want, span),
            extreme_of(reg, w, fuel2, items, want, span),
        ),
        ends_alone(extreme_of(reg, w, fuel, items, want, span)),
{
    if items.len() != 0 {
        carry_best_from(reg, w, fuel, items, 1, items[0], want, span, fuel2);
    }
}

proof fn carry_insert_place(
    reg: Decls, w: World, fuel: nat, done: Seq<Val>, x: Val, k: nat, span: Span, fuel2: nat,
)
    requires
        fuel <= fuel2,
    ensures
        carried_result(
            insert_place(reg, w, fuel, done, x, k, span),
            insert_place(reg, w, fuel2, done, x, k, span),
        ),
        ends_alone(insert_place(reg, w, fuel, done, x, k, span)),
    decreases k,
{
    if k != 0 && k <= done.len() {
        carry_compared(reg, w, fuel, x, done[k - 1], span, fuel2);
        match compared(reg, w, fuel, x, done[k - 1], span) {
            Ok(Order::Less) => {
                carry_insert_place(reg, w, fuel, done, x, (k - 1) as nat, span, fuel2);
            },
            _ => {},
        }
    }
}

proof fn carry_sorted_from(
    reg: Decls, w: World, fuel: nat, items: Seq<Val>, i: nat, done: Seq<Val>, span: Span,
    fuel2: nat,
)
    requires
        fuel <= fuel2,
    ensures
        carried_result(
            sorted_from(reg, w, fuel, items, i, done, span),
            sorted_from(reg, w, fuel2, items, i, done, span),
        ),
        ends_alone(sorted_from(reg, w, fuel, items, i, done, span)),
    decreases items.len() - i,
{
    if i < items.len() {
        carry_insert_place(reg, w, fuel, done, items[i as int], done.len(), span, fuel2);
        match insert_place(reg, w, fuel, done, items[i as int], done.len(), span) {
            Ok(at) => {
                carry_sorted_from(
                    reg, w, fuel, items, i + 1, done.insert(at as int, items[i as int]), span,
                    fuel2,
                );
            },
            _ => {},
        }
    }
}

proof fn carry_sorted(reg: Decls, w: World, fuel: nat, items: Seq<Val>, span: Span, fuel2: nat)
    requires
        fuel <= fuel2,
    ensures
        carried_result(sorted(reg, w, fuel, items, span), sorted(reg, w, fuel2, items, span)),
        ends_alone(sorted(reg, w, fuel, items, span)),
{
    carry_sorted_from(reg, w, fuel, items, 0, Seq::empty(), span, fuel2);
}

// ---------------------------------------------------------------------------
// Evaluation
// ---------------------------------------------------------------------------

proof fn carry_evaluated(cx: Cx, fuel: nat, e: Expr, env: Env, w: World, cx2: Cx, fuel2: nat)
    requires
        cx.within(cx2),
        fuel <= fuel2,
    ensures
        carried(evaluated(cx, fuel, e, env, w), evaluated(cx2, fuel2, e, env, w)),
        ends_fair(cx.ans, evaluated(cx, fuel, e, env, w).0),
    decreases fuel, 0nat, 0nat,
{
    print_evaluated(cx2, fuel2, e, env, w);
    if fuel2 != 0 {
        let f = (fuel2 - 1) as nat;
        match e.kind {
            ExprKind::Str(lit) => {
                print_text_built(cx2, f, lit.parts@, 0, Seq::empty(), env, w);
            },
            ExprKind::Try(inner) => {
                print_evaluated(cx2, f, *inner, env, w);
                match evaluated(cx2, f, *inner, env, w) {
                    (Ok(v), w1) => {
                        print_tried(v, e.span, w1);
                    },
                    _ => {},
                }
            },
            ExprKind::List(elems) => {
                print_items_evaluated(cx2, f, elems@, 0, Seq::empty(), env, w);
            },
            ExprKind::Ternary { then, cond, otherwise } => {
                print_condition(cx2, f, *cond, env, w);
                match condition(cx2, f, *cond, env, w) {
                    (Ok(true), w1) => {
                        print_evaluated(cx2, f, *then, env, w1);
                    },
                    (Ok(false), w1) => {
                        print_evaluated(cx2, f, *otherwise, env, w1);
                    },
                    _ => {},
                }
            },
            ExprKind::Unary { op, operand } => {
                print_evaluated(cx2, f, *operand, env, w);
            },
            ExprKind::Binary { op, lhs, rhs } => {
                print_binary_evaluated(cx2, f, op, *lhs, *rhs, e.span, env, w);
            },
            ExprKind::Call { callee, args } => {
                print_call_evaluated(cx2, f, *callee, args@, e.span, env, w);
            },
            ExprKind::Index { base, index } => {
                print_index_evaluated(cx2, f, *base, *index, e.span, env, w);
            },
            ExprKind::Member { base, name, safe } => {
                print_member_evaluated(cx2, f, *base, name@, safe, e.span, env, w);
            },
            ExprKind::Match(m) => {
                print_match_evaluated(cx2, f, m, e.span, env, w);
            },
            ExprKind::MapLit(pairs) => {
                print_pairs_evaluated(cx2, f, pairs@, 0, Seq::empty(), env, w);
            },
            ExprKind::SetLit(items) => {
                print_members_evaluated(cx2, f, items@, 0, Seq::empty(), env, w);
            },
            ExprKind::Tuple(items) => {
                print_items_evaluated(cx2, f, items@, 0, Seq::empty(), env, w);
            },
            ExprKind::Comprehension(c) => {
                print_comprehension_evaluated(cx2, f, c, e.span, env, w);
            },
            _ => {},
        }
    }
    if fuel != 0 {
        let f = (fuel - 1) as nat;
        let f2 = (fuel2 - 1) as nat;
        match e.kind {
            ExprKind::Str(lit) => {
                carry_text_built(cx, f, lit.parts@, 0, Seq::empty(), env, w, cx2, f2);
            },
            ExprKind::Try(inner) => {
                carry_evaluated(cx, f, *inner, env, w, cx2, f2);
            },
            ExprKind::List(elems) => {
                carry_items_evaluated(cx, f, elems@, 0, Seq::empty(), env, w, cx2, f2);
            },
            ExprKind::Ternary { then, cond, otherwise } => {
                carry_condition(cx, f, *cond, env, w, cx2, f2);
                match condition(cx, f, *cond, env, w) {
                    (Ok(true), w1) => {
                        carry_evaluated(cx, f, *then, env, w1, cx2, f2);
                    },
                    (Ok(false), w1) => {
                        carry_evaluated(cx, f, *otherwise, env, w1, cx2, f2);
                    },
                    _ => {},
                }
            },
            ExprKind::Unary { op, operand } => {
                carry_evaluated(cx, f, *operand, env, w, cx2, f2);
            },
            ExprKind::Binary { op, lhs, rhs } => {
                carry_binary_evaluated(cx, f, op, *lhs, *rhs, e.span, env, w, cx2, f2);
            },
            ExprKind::Call { callee, args } => {
                carry_call_evaluated(cx, f, *callee, args@, e.span, env, w, cx2, f2);
            },
            ExprKind::Index { base, index } => {
                carry_index_evaluated(cx, f, *base, *index, e.span, env, w, cx2, f2);
            },
            ExprKind::Member { base, name, safe } => {
                carry_member_evaluated(cx, f, *base, name@, safe, e.span, env, w, cx2, f2);
            },
            ExprKind::Match(m) => {
                carry_match_evaluated(cx, f, m, e.span, env, w, cx2, f2);
            },
            ExprKind::MapLit(pairs) => {
                carry_pairs_evaluated(cx, f, pairs@, 0, Seq::empty(), env, w, cx2, f2);
            },
            ExprKind::SetLit(items) => {
                carry_members_evaluated(cx, f, items@, 0, Seq::empty(), env, w, cx2, f2);
            },
            ExprKind::Tuple(items) => {
                carry_items_evaluated(cx, f, items@, 0, Seq::empty(), env, w, cx2, f2);
            },
            ExprKind::Comprehension(c) => {
                carry_comprehension_evaluated(cx, f, c, e.span, env, w, cx2, f2);
            },
            _ => {},
        }
    }
}

proof fn carry_condition(cx: Cx, fuel: nat, e: Expr, env: Env, w: World, cx2: Cx, fuel2: nat)
    requires
        cx.within(cx2),
        fuel <= fuel2,
    ensures
        carried(condition(cx, fuel, e, env, w), condition(cx2, fuel2, e, env, w)),
        ends_fair(cx.ans, condition(cx, fuel, e, env, w).0),
    decreases fuel, 1nat, 0nat,
{
    print_condition(cx2, fuel2, e, env, w);
    print_evaluated(cx2, fuel2, e, env, w);
    carry_evaluated(cx, fuel, e, env, w, cx2, fuel2);
}

proof fn carry_items_evaluated(
    cx: Cx, fuel: nat, elems: Seq<Expr>, i: nat, done: Seq<Val>, env: Env, w: World, cx2: Cx,
    fuel2: nat,
)
    requires
        cx.within(cx2),
        fuel <= fuel2,
    ensures
        carried(
            items_evaluated(cx, fuel, elems, i, done, env, w),
            items_evaluated(cx2, fuel2, elems, i, done, env, w),
        ),
        ends_fair(cx.ans, items_evaluated(cx, fuel, elems, i, done, env, w).0),
    decreases fuel, 1nat, elems.len() - i,
{
    print_items_evaluated(cx2, fuel2, elems, i, done, env, w);
    if i < elems.len() {
        print_evaluated(cx2, fuel2, elems[i as int], env, w);
        match evaluated(cx2, fuel2, elems[i as int], env, w) {
            (Ok(v), w1) => {
                print_items_evaluated(cx2, fuel2, elems, i + 1, done.push(v), env, w1);
            },
            _ => {},
        }
    }
    if i < elems.len() {
        carry_evaluated(cx, fuel, elems[i as int], env, w, cx2, fuel2);
        match evaluated(cx, fuel, elems[i as int], env, w) {
            (Ok(v), w1) => {
                carry_items_evaluated(cx, fuel, elems, i + 1, done.push(v), env, w1, cx2, fuel2);
            },
            _ => {},
        }
    }
}

proof fn carry_members_evaluated(
    cx: Cx, fuel: nat, elems: Seq<Expr>, i: nat, done: Seq<Val>, env: Env, w: World, cx2: Cx,
    fuel2: nat,
)
    requires
        cx.within(cx2),
        fuel <= fuel2,
    ensures
        carried(
            members_evaluated(cx, fuel, elems, i, done, env, w),
            members_evaluated(cx2, fuel2, elems, i, done, env, w),
        ),
        ends_fair(cx.ans, members_evaluated(cx, fuel, elems, i, done, env, w).0),
    decreases fuel, 1nat, elems.len() - i,
{
    print_members_evaluated(cx2, fuel2, elems, i, done, env, w);
    if i < elems.len() {
        print_evaluated(cx2, fuel2, elems[i as int], env, w);
        match evaluated(cx2, fuel2, elems[i as int], env, w) {
            (Ok(v), w1) => {
                match put_item(w1, fuel2, done, v) {
                    Ok(more) => {
                        print_members_evaluated(cx2, fuel2, elems, i + 1, more, env, w1);
                    },
                    _ => {},
                }
            },
            _ => {},
        }
    }
    if i < elems.len() {
        carry_evaluated(cx, fuel, elems[i as int], env, w, cx2, fuel2);
        match evaluated(cx, fuel, elems[i as int], env, w) {
            (Ok(v), w1) => {
                carry_put_item(w1, fuel, done, v, fuel2);
                match put_item(w1, fuel, done, v) {
                    Ok(more) => {
                        carry_members_evaluated(cx, fuel, elems, i + 1, more, env, w1, cx2, fuel2);
                    },
                    _ => {},
                }
            },
            _ => {},
        }
    }
}

proof fn carry_pairs_evaluated(
    cx: Cx, fuel: nat, pairs: Seq<(Expr, Expr)>, i: nat, done: Seq<(Val, Val)>, env: Env,
    w: World, cx2: Cx, fuel2: nat,
)
    requires
        cx.within(cx2),
        fuel <= fuel2,
    ensures
        carried(
            pairs_evaluated(cx, fuel, pairs, i, done, env, w),
            pairs_evaluated(cx2, fuel2, pairs, i, done, env, w),
        ),
        ends_fair(cx.ans, pairs_evaluated(cx, fuel, pairs, i, done, env, w).0),
    decreases fuel, 1nat, pairs.len() - i,
{
    print_pairs_evaluated(cx2, fuel2, pairs, i, done, env, w);
    if i < pairs.len() {
        print_evaluated(cx2, fuel2, pairs[i as int].0, env, w);
        match evaluated(cx2, fuel2, pairs[i as int].0, env, w) {
            (Ok(k), w1) => {
                print_evaluated(cx2, fuel2, pairs[i as int].1, env, w1);
                match evaluated(cx2, fuel2, pairs[i as int].1, env, w1) {
                    (Ok(v), w2) => {
                        match put_pair(w2, fuel2, done, k, v) {
                            Ok(more) => {
                                print_pairs_evaluated(cx2, fuel2, pairs, i + 1, more, env, w2);
                            },
                            _ => {},
                        }
                    },
                    _ => {},
                }
            },
            _ => {},
        }
    }
    if i < pairs.len() {
        carry_evaluated(cx, fuel, pairs[i as int].0, env, w, cx2, fuel2);
        match evaluated(cx, fuel, pairs[i as int].0, env, w) {
            (Ok(k), w1) => {
                carry_evaluated(cx, fuel, pairs[i as int].1, env, w1, cx2, fuel2);
                match evaluated(cx, fuel, pairs[i as int].1, env, w1) {
                    (Ok(v), w2) => {
                        carry_put_pair(w2, fuel, done, k, v, fuel2);
                        match put_pair(w2, fuel, done, k, v) {
                            Ok(more) => {
                                carry_pairs_evaluated(
                                    cx, fuel, pairs, i + 1, more, env, w2, cx2, fuel2,
                                );
                            },
                            _ => {},
                        }
                    },
                    _ => {},
                }
            },
            _ => {},
        }
    }
}

proof fn carry_text_built(
    cx: Cx, fuel: nat, parts: Seq<StrSeg>, i: nat, done: Seq<char>, env: Env, w: World, cx2: Cx,
    fuel2: nat,
)
    requires
        cx.within(cx2),
        fuel <= fuel2,
    ensures
        carried(
            text_built(cx, fuel, parts, i, done, env, w),
            text_built(cx2, fuel2, parts, i, done, env, w),
        ),
        ends_fair(cx.ans, text_built(cx, fuel, parts, i, done, env, w).0),
    decreases fuel, 1nat, parts.len() - i,
{
    print_text_built(cx2, fuel2, parts, i, done, env, w);
    if i < parts.len() {
        match parts[i as int] {
            StrSeg::Text(t) => {
                print_text_built(cx2, fuel2, parts, i + 1, done + t@, env, w);
            },
            StrSeg::Expr(e) => {
                print_evaluated(cx2, fuel2, *e, env, w);
                match evaluated(cx2, fuel2, *e, env, w) {
                    (Ok(v), w1) => {
                        match shown(cx2.ans, w1, fuel2, v) {
                            Ok(s) => {
                                print_text_built(cx2, fuel2, parts, i + 1, done + s, env, w1);
                            },
                            _ => {},
                        }
                    },
                    _ => {},
                }
            },
        }
    }
    if i < parts.len() {
        match parts[i as int] {
            StrSeg::Text(t) => {
                carry_text_built(cx, fuel, parts, i + 1, done + t@, env, w, cx2, fuel2);
            },
            StrSeg::Expr(e) => {
                carry_evaluated(cx, fuel, *e, env, w, cx2, fuel2);
                match evaluated(cx, fuel, *e, env, w) {
                    (Ok(v), w1) => {
                        carry_shown(cx.ans, w1, fuel, v, cx2.ans, fuel2);
                        match shown(cx.ans, w1, fuel, v) {
                            Ok(s) => {
                                carry_text_built(
                                    cx, fuel, parts, i + 1, done + s, env, w1, cx2, fuel2,
                                );
                            },
                            _ => {},
                        }
                    },
                    _ => {},
                }
            },
        }
    }
}

proof fn carry_binary_evaluated(
    cx: Cx, fuel: nat, op: BinOp, lhs: Expr, rhs: Expr, span: Span, env: Env, w: World, cx2: Cx,
    fuel2: nat,
)
    requires
        cx.within(cx2),
        fuel <= fuel2,
    ensures
        carried(
            binary_evaluated(cx, fuel, op, lhs, rhs, span, env, w),
            binary_evaluated(cx2, fuel2, op, lhs, rhs, span, env, w),
        ),
        ends_fair(cx.ans, binary_evaluated(cx, fuel, op, lhs, rhs, span, env, w).0),
    decreases fuel, 2nat, 0nat,
{
    print_binary_evaluated(cx2, fuel2, op, lhs, rhs, span, env, w);
    if op == BinOp::And || op == BinOp::Or {
        let word = if op == BinOp::And { "and"@ } else { "or"@ };
        print_evaluated(cx2, fuel2, lhs, env, w);
        match evaluated(cx2, fuel2, lhs, env, w) {
            (Ok(l), w1) => {
                match bool_of(l, lhs.span, word) {
                    Ok(b) => {
                        if b != (op == BinOp::Or) {
                            print_evaluated(cx2, fuel2, rhs, env, w1);
                        }
                    },
                    _ => {},
                }
            },
            _ => {},
        }
    } else {
        print_evaluated(cx2, fuel2, lhs, env, w);
        match evaluated(cx2, fuel2, lhs, env, w) {
            (Ok(l), w1) => {
                print_evaluated(cx2, fuel2, rhs, env, w1);
                match evaluated(cx2, fuel2, rhs, env, w1) {
                    (Ok(r), w2) => {
                        print_operated(cx2, fuel2, op, l, r, span, w2);
                    },
                    _ => {},
                }
            },
            _ => {},
        }
    }
    if op == BinOp::And || op == BinOp::Or {
        let word = if op == BinOp::And { "and"@ } else { "or"@ };
        carry_evaluated(cx, fuel, lhs, env, w, cx2, fuel2);
        match evaluated(cx, fuel, lhs, env, w) {
            (Ok(l), w1) => {
                match bool_of(l, lhs.span, word) {
                    Ok(b) => {
                        if b != (op == BinOp::Or) {
                            carry_evaluated(cx, fuel, rhs, env, w1, cx2, fuel2);
                        }
                    },
                    _ => {},
                }
            },
            _ => {},
        }
    } else {
        carry_evaluated(cx, fuel, lhs, env, w, cx2, fuel2);
        match evaluated(cx, fuel, lhs, env, w) {
            (Ok(l), w1) => {
                carry_evaluated(cx, fuel, rhs, env, w1, cx2, fuel2);
                match evaluated(cx, fuel, rhs, env, w1) {
                    (Ok(r), w2) => {
                        carry_operated(cx, fuel, op, l, r, span, w2, cx2, fuel2);
                    },
                    _ => {},
                }
            },
            _ => {},
        }
    }
}

proof fn carry_operated(
    cx: Cx, fuel: nat, op: BinOp, l: Val, r: Val, span: Span, w: World, cx2: Cx, fuel2: nat,
)
    requires
        cx.within(cx2),
        fuel <= fuel2,
    ensures
        carried(operated(cx, fuel, op, l, r, span, w), operated(cx2, fuel2, op, l, r, span, w)),
        ends_fair(cx.ans, operated(cx, fuel, op, l, r, span, w).0),
{
    print_operated(cx2, fuel2, op, l, r, span, w);
    if op == BinOp::Eq || op == BinOp::Is {
        carry_equal(w, fuel, l, r, fuel2);
    } else {
        if op == BinOp::NotEq || op == BinOp::IsNot {
            carry_equal(w, fuel, l, r, fuel2);
        } else {
            if is_comparison(op) {
                carry_compare_result(cx.reg, w, fuel, op, l, r, span, fuel2);
            } else {
                if is_arith(op) {
                    carry_arith_result(cx.ans, op, l, r, span, cx2.ans);
                }
            }
        }
    }
}

proof fn carry_index_evaluated(
    cx: Cx, fuel: nat, base: Expr, index: Expr, span: Span, env: Env, w: World, cx2: Cx,
    fuel2: nat,
)
    requires
        cx.within(cx2),
        fuel <= fuel2,
    ensures
        carried(
            index_evaluated(cx, fuel, base, index, span, env, w),
            index_evaluated(cx2, fuel2, base, index, span, env, w),
        ),
        ends_fair(cx.ans, index_evaluated(cx, fuel, base, index, span, env, w).0),
    decreases fuel, 1nat, 0nat,
{
    print_index_evaluated(cx2, fuel2, base, index, span, env, w);
    print_evaluated(cx2, fuel2, base, env, w);
    match evaluated(cx2, fuel2, base, env, w) {
        (Ok(b), w1) => {
            print_evaluated(cx2, fuel2, index, env, w1);
        },
        _ => {},
    }
    carry_evaluated(cx, fuel, base, env, w, cx2, fuel2);
    match evaluated(cx, fuel, base, env, w) {
        (Ok(b), w1) => {
            carry_evaluated(cx, fuel, index, env, w1, cx2, fuel2);
        },
        _ => {},
    }
}

proof fn carry_enum_named(cx: Cx, e: Expr, env: Env, w: World, cx2: Cx)
    requires
        cx.within(cx2),
    ensures
        carried_option(enum_named(cx, e, env, w), enum_named(cx2, e, env, w)),
{
}

proof fn carry_member_evaluated(
    cx: Cx, fuel: nat, base: Expr, name: Seq<char>, safe: bool, span: Span, env: Env, w: World,
    cx2: Cx, fuel2: nat,
)
    requires
        cx.within(cx2),
        fuel <= fuel2,
    ensures
        carried(
            member_evaluated(cx, fuel, base, name, safe, span, env, w),
            member_evaluated(cx2, fuel2, base, name, safe, span, env, w),
        ),
        ends_fair(cx.ans, member_evaluated(cx, fuel, base, name, safe, span, env, w).0),
    decreases fuel, 4nat, 0nat,
{
    print_member_evaluated(cx2, fuel2, base, name, safe, span, env, w);
    if safe {
        print_evaluated(cx2, fuel2, base, env, w);
    } else {
        match enum_named(cx2, base, env, w) {
            Some((enum_name, decl)) => {
                print_variant_made(cx2, fuel2, decl, enum_name, name, Seq::empty(), span, env, w);
            },
            None => {
                print_evaluated(cx2, fuel2, base, env, w);
            },
        }
    }
    if safe {
        carry_evaluated(cx, fuel, base, env, w, cx2, fuel2);
    } else {
        carry_enum_named(cx, base, env, w, cx2);
        match enum_named(cx, base, env, w) {
            Some((enum_name, decl)) => {
                carry_variant_made(
                    cx, fuel, decl, enum_name, name, Seq::empty(), span, env, w, cx2, fuel2,
                );
            },
            None => {
                carry_evaluated(cx, fuel, base, env, w, cx2, fuel2);
            },
        }
    }
}

proof fn carry_gathered(
    cx: Cx, fuel: nat, output: ComprehensionOutput, so_far: Gathered, scope: Env, w: World,
    cx2: Cx, fuel2: nat,
)
    requires
        cx.within(cx2),
        fuel <= fuel2,
    ensures
        carried(
            gathered(cx, fuel, output, so_far, scope, w),
            gathered(cx2, fuel2, output, so_far, scope, w),
        ),
        ends_fair(cx.ans, gathered(cx, fuel, output, so_far, scope, w).0),
    decreases fuel, 1nat, 0nat,
{
    print_gathered(cx2, fuel2, output, so_far, scope, w);
    match output {
        ComprehensionOutput::List(e) => {
            print_evaluated(cx2, fuel2, *e, scope, w);
        },
        ComprehensionOutput::SetOut(e) => {
            print_evaluated(cx2, fuel2, *e, scope, w);
        },
        ComprehensionOutput::MapOut { key, value } => {
            print_evaluated(cx2, fuel2, *key, scope, w);
            match evaluated(cx2, fuel2, *key, scope, w) {
                (Ok(k), w1) => {
                    print_evaluated(cx2, fuel2, *value, scope, w1);
                },
                _ => {},
            }
        },
    }
    match output {
        ComprehensionOutput::List(e) => {
            carry_evaluated(cx, fuel, *e, scope, w, cx2, fuel2);
        },
        ComprehensionOutput::SetOut(e) => {
            carry_evaluated(cx, fuel, *e, scope, w, cx2, fuel2);
            match evaluated(cx, fuel, *e, scope, w) {
                (Ok(v), w1) => {
                    carry_put_item(w1, fuel, so_far.set, v, fuel2);
                },
                _ => {},
            }
        },
        ComprehensionOutput::MapOut { key, value } => {
            carry_evaluated(cx, fuel, *key, scope, w, cx2, fuel2);
            match evaluated(cx, fuel, *key, scope, w) {
                (Ok(k), w1) => {
                    carry_evaluated(cx, fuel, *value, scope, w1, cx2, fuel2);
                    match evaluated(cx, fuel, *value, scope, w1) {
                        (Ok(v), w2) => {
                            carry_put_pair(w2, fuel, so_far.map, k, v, fuel2);
                        },
                        _ => {},
                    }
                },
                _ => {},
            }
        },
    }
}

proof fn carry_turns_gathered(
    cx: Cx, fuel: nat, c: Comprehension, items: Seq<Val>, i: nat, so_far: Gathered, span: Span,
    env: Env, w: World, cx2: Cx, fuel2: nat,
)
    requires
        cx.within(cx2),
        fuel <= fuel2,
    ensures
        carried(
            turns_gathered(cx, fuel, c, items, i, so_far, span, env, w),
            turns_gathered(cx2, fuel2, c, items, i, so_far, span, env, w),
        ),
        ends_fair(cx.ans, turns_gathered(cx, fuel, c, items, i, so_far, span, env, w).0),
    decreases fuel, 2nat, items.len() - i,
{
    print_turns_gathered(cx2, fuel2, c, items, i, so_far, span, env, w);
    if i < items.len() {
        let scope = w.next_scope();
        print_binder_bound(c.binder, items[i as int], scope, span, w.add_scope(Some(env)));
        match binder_bound(c.binder, items[i as int], scope, span, w.add_scope(Some(env))) {
            (Ok(_), w1) => {
                match c.cond {
                    Some(cond) => {
                        print_condition(cx2, fuel2, *cond, scope, w1);
                    },
                    _ => {},
                }
                let passed: Out<bool> = match c.cond {
                    Some(cond) => condition(cx2, fuel2, *cond, scope, w1),
                    None => (Ok(true), w1),
                };
                match passed {
                    (Ok(false), w2) => {
                        print_turns_gathered(cx2, fuel2, c, items, i + 1, so_far, span, env, w2);
                    },
                    (Ok(true), w2) => {
                        print_gathered(cx2, fuel2, c.output, so_far, scope, w2);
                        match gathered(cx2, fuel2, c.output, so_far, scope, w2) {
                            (Ok(more), w3) => {
                                print_turns_gathered(
                                    cx2, fuel2, c, items, i + 1, more, span, env, w3,
                                );
                            },
                            _ => {},
                        }
                    },
                    _ => {},
                }
            },
            _ => {},
        }
    }
    if i < items.len() {
        let scope = w.next_scope();
        match binder_bound(c.binder, items[i as int], scope, span, w.add_scope(Some(env))) {
            (Ok(_), w1) => {
                match c.cond {
                    Some(cond) => {
                        carry_condition(cx, fuel, *cond, scope, w1, cx2, fuel2);
                    },
                    _ => {},
                }
                let passed: Out<bool> = match c.cond {
                    Some(cond) => condition(cx, fuel, *cond, scope, w1),
                    None => (Ok(true), w1),
                };
                match passed {
                    (Ok(false), w2) => {
                        carry_turns_gathered(
                            cx, fuel, c, items, i + 1, so_far, span, env, w2, cx2, fuel2,
                        );
                    },
                    (Ok(true), w2) => {
                        carry_gathered(cx, fuel, c.output, so_far, scope, w2, cx2, fuel2);
                        match gathered(cx, fuel, c.output, so_far, scope, w2) {
                            (Ok(more), w3) => {
                                carry_turns_gathered(
                                    cx, fuel, c, items, i + 1, more, span, env, w3, cx2, fuel2,
                                );
                            },
                            _ => {},
                        }
                    },
                    _ => {},
                }
            },
            _ => {},
        }
    }
}

proof fn carry_comprehension_evaluated(
    cx: Cx, fuel: nat, c: Comprehension, span: Span, env: Env, w: World, cx2: Cx, fuel2: nat,
)
    requires
        cx.within(cx2),
        fuel <= fuel2,
    ensures
        carried(
            comprehension_evaluated(cx, fuel, c, span, env, w),
            comprehension_evaluated(cx2, fuel2, c, span, env, w),
        ),
        ends_fair(cx.ans, comprehension_evaluated(cx, fuel, c, span, env, w).0),
    decreases fuel, 3nat, 0nat,
{
    print_comprehension_evaluated(cx2, fuel2, c, span, env, w);
    print_evaluated(cx2, fuel2, *c.iter, env, w);
    match evaluated(cx2, fuel2, *c.iter, env, w) {
        (Ok(v), w1) => {
            match iterated(v, c.iter.span, w1) {
                Ok(items) => {
                    print_turns_gathered(
                        cx2, fuel2, c, items, 0, nothing_gathered(), span, env, w1,
                    );
                },
                _ => {},
            }
        },
        _ => {},
    }
    carry_evaluated(cx, fuel, *c.iter, env, w, cx2, fuel2);
    match evaluated(cx, fuel, *c.iter, env, w) {
        (Ok(v), w1) => {
            match iterated(v, c.iter.span, w1) {
                Ok(items) => {
                    carry_turns_gathered(
                        cx, fuel, c, items, 0, nothing_gathered(), span, env, w1, cx2, fuel2,
                    );
                },
                _ => {},
            }
        },
        _ => {},
    }
}

proof fn carry_args_evaluated(
    cx: Cx, fuel: nat, args: Seq<Arg>, i: nat, done: Seq<Val>, span: Span, env: Env, w: World,
    cx2: Cx, fuel2: nat,
)
    requires
        cx.within(cx2),
        fuel <= fuel2,
    ensures
        carried(
            args_evaluated(cx, fuel, args, i, done, span, env, w),
            args_evaluated(cx2, fuel2, args, i, done, span, env, w),
        ),
        ends_fair(cx.ans, args_evaluated(cx, fuel, args, i, done, span, env, w).0),
    decreases fuel, 1nat, args.len() - i,
{
    print_args_evaluated(cx2, fuel2, args, i, done, span, env, w);
    if i < args.len() {
        match args[i as int] {
            Arg::Positional(e) => {
                print_evaluated(cx2, fuel2, e, env, w);
                match evaluated(cx2, fuel2, e, env, w) {
                    (Ok(v), w1) => {
                        print_args_evaluated(cx2, fuel2, args, i + 1, done.push(v), span, env, w1);
                    },
                    _ => {},
                }
            },
            _ => {},
        }
    }
    if i < args.len() {
        match args[i as int] {
            Arg::Positional(e) => {
                carry_evaluated(cx, fuel, e, env, w, cx2, fuel2);
                match evaluated(cx, fuel, e, env, w) {
                    (Ok(v), w1) => {
                        carry_args_evaluated(
                            cx, fuel, args, i + 1, done.push(v), span, env, w1, cx2, fuel2,
                        );
                    },
                    _ => {},
                }
            },
            _ => {},
        }
    }
}

proof fn carry_method_args_evaluated(
    cx: Cx, fuel: nat, method: Seq<char>, args: Seq<Arg>, i: nat, done: Seq<Val>, span: Span,
    env: Env, w: World, cx2: Cx, fuel2: nat,
)
    requires
        cx.within(cx2),
        fuel <= fuel2,
    ensures
        carried(
            method_args_evaluated(cx, fuel, method, args, i, done, span, env, w),
            method_args_evaluated(cx2, fuel2, method, args, i, done, span, env, w),
        ),
        ends_fair(cx.ans, method_args_evaluated(cx, fuel, method, args, i, done, span, env, w).0),
    decreases fuel, 1nat, args.len() - i,
{
    print_method_args_evaluated(cx2, fuel2, method, args, i, done, span, env, w);
    if i < args.len() {
        match args[i as int] {
            Arg::Positional(e) => {
                print_evaluated(cx2, fuel2, e, env, w);
                match evaluated(cx2, fuel2, e, env, w) {
                    (Ok(v), w1) => {
                        print_method_args_evaluated(
                            cx2, fuel2, method, args, i + 1, done.push(v), span, env, w1,
                        );
                    },
                    _ => {},
                }
            },
            _ => {},
        }
    }
    if i < args.len() {
        match args[i as int] {
            Arg::Positional(e) => {
                carry_evaluated(cx, fuel, e, env, w, cx2, fuel2);
                match evaluated(cx, fuel, e, env, w) {
                    (Ok(v), w1) => {
                        carry_method_args_evaluated(
                            cx, fuel, method, args, i + 1, done.push(v), span, env, w1, cx2,
                            fuel2,
                        );
                    },
                    _ => {},
                }
            },
            _ => {},
        }
    }
}

proof fn carry_params_filled(
    cx: Cx, fuel: nat, params: Seq<Param>, i: nat, k: nat, args: Seq<Val>, scope: Env,
    fn_name: Seq<char>, span: Span, w: World, cx2: Cx, fuel2: nat,
)
    requires
        cx.within(cx2),
        fuel <= fuel2,
    ensures
        carried(
            params_filled(cx, fuel, params, i, k, args, scope, fn_name, span, w),
            params_filled(cx2, fuel2, params, i, k, args, scope, fn_name, span, w),
        ),
        ends_fair(cx.ans, params_filled(cx, fuel, params, i, k, args, scope, fn_name, span, w).0),
    decreases fuel, 1nat, params.len() - i,
{
    print_params_filled(cx2, fuel2, params, i, k, args, scope, fn_name, span, w);
    if i < params.len() {
        match params[i as int] {
            Param::SelfRecv => {
                print_params_filled(cx2, fuel2, params, i + 1, k, args, scope, fn_name, span, w);
            },
            Param::Named { name, default, .. } => {
                if k >= args.len() {
                    match default {
                        Some(e) => {
                            print_evaluated(cx2, fuel2, e, scope, w);
                        },
                        _ => {},
                    }
                }
                let got: Out<Val> = if k < args.len() {
                    (Ok(args[k as int]), w)
                } else {
                    match default {
                        Some(e) => evaluated(cx2, fuel2, e, scope, w),
                        None => (Err(arity_halt(fn_name, params, args.len(), span)), w),
                    }
                };
                match got {
                    (Ok(v), w1) => {
                        print_params_filled(
                            cx2, fuel2, params, i + 1, k + 1, args, scope, fn_name, span,
                            w1.with_var(scope, name@, v, false),
                        );
                    },
                    _ => {},
                }
            },
        }
    }
    if i < params.len() {
        match params[i as int] {
            Param::SelfRecv => {
                carry_params_filled(
                    cx, fuel, params, i + 1, k, args, scope, fn_name, span, w, cx2, fuel2,
                );
            },
            Param::Named { name, default, .. } => {
                if k >= args.len() {
                    match default {
                        Some(e) => {
                            carry_evaluated(cx, fuel, e, scope, w, cx2, fuel2);
                        },
                        _ => {},
                    }
                }
                let got: Out<Val> = if k < args.len() {
                    (Ok(args[k as int]), w)
                } else {
                    match default {
                        Some(e) => evaluated(cx, fuel, e, scope, w),
                        None => (Err(arity_halt(fn_name, params, args.len(), span)), w),
                    }
                };
                match got {
                    (Ok(v), w1) => {
                        carry_params_filled(
                            cx, fuel, params, i + 1, k + 1, args, scope, fn_name, span,
                            w1.with_var(scope, name@, v, false), cx2, fuel2,
                        );
                    },
                    _ => {},
                }
            },
        }
    }
}

proof fn carry_params_bound(
    cx: Cx, fuel: nat, params: Seq<Param>, args: Seq<Val>, scope: Env, fn_name: Seq<char>,
    span: Span, w: World, cx2: Cx, fuel2: nat,
)
    requires
        cx.within(cx2),
        fuel <= fuel2,
    ensures
        carried(
            params_bound(cx, fuel, params, args, scope, fn_name, span, w),
            params_bound(cx2, fuel2, params, args, scope, fn_name, span, w),
        ),
        ends_fair(cx.ans, params_bound(cx, fuel, params, args, scope, fn_name, span, w).0),
    decreases fuel, 2nat, 0nat,
{
    print_params_bound(cx2, fuel2, params, args, scope, fn_name, span, w);
    if args.len() >= required_from(params, 0) && args.len() <= param_count(params, 0) {
        print_params_filled(cx2, fuel2, params, 0, 0, args, scope, fn_name, span, w);
    }
    if args.len() >= required_from(params, 0) && args.len() <= param_count(params, 0) {
        carry_params_filled(cx, fuel, params, 0, 0, args, scope, fn_name, span, w, cx2, fuel2);
    }
}

proof fn carry_args_split(
    cx: Cx, fuel: nat, args: Seq<Arg>, i: nat, pos: Seq<Val>, named: Seq<(Seq<char>, Val)>,
    fn_name: Seq<char>, span: Span, env: Env, w: World, cx2: Cx, fuel2: nat,
)
    requires
        cx.within(cx2),
        fuel <= fuel2,
    ensures
        carried(
            args_split(cx, fuel, args, i, pos, named, fn_name, span, env, w),
            args_split(cx2, fuel2, args, i, pos, named, fn_name, span, env, w),
        ),
        ends_fair(cx.ans, args_split(cx, fuel, args, i, pos, named, fn_name, span, env, w).0),
    decreases fuel, 1nat, args.len() - i,
{
    print_args_split(cx2, fuel2, args, i, pos, named, fn_name, span, env, w);
    if i < args.len() {
        match args[i as int] {
            Arg::Positional(e) => {
                if named.len() <= 0 {
                    print_evaluated(cx2, fuel2, e, env, w);
                    match evaluated(cx2, fuel2, e, env, w) {
                        (Ok(v), w1) => {
                            print_args_split(
                                cx2, fuel2, args, i + 1, pos.push(v), named, fn_name, span, env, w1,
                            );
                        },
                        _ => {},
                    }
                }
            },
            Arg::Named { name, value } => {
                if !(lookup(named, name@) is Some) {
                    print_evaluated(cx2, fuel2, value, env, w);
                    match evaluated(cx2, fuel2, value, env, w) {
                        (Ok(v), w1) => {
                            print_args_split(
                                cx2, fuel2, args, i + 1, pos, bind(named, name@, v), fn_name, span,
                                env, w1,
                            );
                        },
                        _ => {},
                    }
                }
            },
        }
    }
    if i < args.len() {
        match args[i as int] {
            Arg::Positional(e) => {
                if named.len() <= 0 {
                    carry_evaluated(cx, fuel, e, env, w, cx2, fuel2);
                    match evaluated(cx, fuel, e, env, w) {
                        (Ok(v), w1) => {
                            carry_args_split(
                                cx, fuel, args, i + 1, pos.push(v), named, fn_name, span, env, w1,
                                cx2, fuel2,
                            );
                        },
                        _ => {},
                    }
                }
            },
            Arg::Named { name, value } => {
                if !(lookup(named, name@) is Some) {
                    carry_evaluated(cx, fuel, value, env, w, cx2, fuel2);
                    match evaluated(cx, fuel, value, env, w) {
                        (Ok(v), w1) => {
                            carry_args_split(
                                cx, fuel, args, i + 1, pos, bind(named, name@, v), fn_name, span,
                                env, w1, cx2, fuel2,
                            );
                        },
                        _ => {},
                    }
                }
            },
        }
    }
}

proof fn carry_args_filled(
    cx: Cx, fuel: nat, params: Seq<Param>, i: nat, k: nat, pos: Seq<Val>,
    named: Seq<(Seq<char>, Val)>, scope: Env, fn_name: Seq<char>, span: Span, w: World, cx2: Cx,
    fuel2: nat,
)
    requires
        cx.within(cx2),
        fuel <= fuel2,
    ensures
        carried(
            args_filled(cx, fuel, params, i, k, pos, named, scope, fn_name, span, w),
            args_filled(cx2, fuel2, params, i, k, pos, named, scope, fn_name, span, w),
        ),
        ends_fair(cx.ans, args_filled(
            cx, fuel, params, i, k, pos, named, scope, fn_name, span, w,
        ).0),
    decreases fuel, 1nat, params.len() - i,
{
    print_args_filled(cx2, fuel2, params, i, k, pos, named, scope, fn_name, span, w);
    if i < params.len() {
        match params[i as int] {
            Param::SelfRecv => {
                print_args_filled(
                    cx2, fuel2, params, i + 1, k, pos, named, scope, fn_name, span, w,
                );
            },
            Param::Named { name, default, .. } => {
                if k < pos.len() {
                    if !(lookup(named, name@) is Some) {
                        print_args_filled(
                            cx2, fuel2, params, i + 1, k + 1, pos, named, scope, fn_name, span,
                            w.with_var(scope, name@, pos[k as int], false),
                        );
                    }
                } else {
                    match lookup(named, name@) {
                        Some(v) => {
                            print_args_filled(
                                cx2, fuel2, params, i + 1, k, pos, unbind(named, name@), scope,
                                fn_name, span, w.with_var(scope, name@, v, false),
                            );
                        },
                        None => {
                            match default {
                                Some(e) => {
                                    print_evaluated(cx2, fuel2, e, scope, w);
                                    match evaluated(cx2, fuel2, e, scope, w) {
                                        (Ok(v), w1) => {
                                            print_args_filled(
                                                cx2, fuel2, params, i + 1, k, pos, named, scope,
                                                fn_name, span,
                                                w1.with_var(scope, name@, v, false),
                                            );
                                        },
                                        _ => {},
                                    }
                                },
                                _ => {},
                            }
                        },
                    }
                }
            },
        }
    }
    if i < params.len() {
        match params[i as int] {
            Param::SelfRecv => {
                carry_args_filled(
                    cx, fuel, params, i + 1, k, pos, named, scope, fn_name, span, w, cx2, fuel2,
                );
            },
            Param::Named { name, default, .. } => {
                if k < pos.len() {
                    if !(lookup(named, name@) is Some) {
                        carry_args_filled(
                            cx, fuel, params, i + 1, k + 1, pos, named, scope, fn_name, span,
                            w.with_var(scope, name@, pos[k as int], false), cx2, fuel2,
                        );
                    }
                } else {
                    match lookup(named, name@) {
                        Some(v) => {
                            carry_args_filled(
                                cx, fuel, params, i + 1, k, pos, unbind(named, name@), scope,
                                fn_name, span, w.with_var(scope, name@, v, false), cx2, fuel2,
                            );
                        },
                        None => {
                            match default {
                                Some(e) => {
                                    carry_evaluated(cx, fuel, e, scope, w, cx2, fuel2);
                                    match evaluated(cx, fuel, e, scope, w) {
                                        (Ok(v), w1) => {
                                            carry_args_filled(
                                                cx, fuel, params, i + 1, k, pos, named, scope,
                                                fn_name, span,
                                                w1.with_var(scope, name@, v, false), cx2, fuel2,
                                            );
                                        },
                                        _ => {},
                                    }
                                },
                                _ => {},
                            }
                        },
                    }
                }
            },
        }
    }
}

proof fn carry_call_bound(
    cx: Cx, fuel: nat, params: Seq<Param>, args: Seq<Arg>, scope: Env, fn_name: Seq<char>,
    span: Span, env: Env, w: World, cx2: Cx, fuel2: nat,
)
    requires
        cx.within(cx2),
        fuel <= fuel2,
    ensures
        carried(
            call_bound(cx, fuel, params, args, scope, fn_name, span, env, w),
            call_bound(cx2, fuel2, params, args, scope, fn_name, span, env, w),
        ),
        ends_fair(cx.ans, call_bound(cx, fuel, params, args, scope, fn_name, span, env, w).0),
    decreases fuel, 2nat, 0nat,
{
    print_call_bound(cx2, fuel2, params, args, scope, fn_name, span, env, w);
    print_args_split(cx2, fuel2, args, 0, Seq::empty(), Seq::empty(), fn_name, span, env, w);
    match args_split(cx2, fuel2, args, 0, Seq::empty(), Seq::empty(), fn_name, span, env, w) {
        (Ok((pos, named)), w1) => {
            if pos.len() <= param_count(params, 0) {
                print_args_filled(cx2, fuel2, params, 0, 0, pos, named, scope, fn_name, span, w1);
            }
        },
        _ => {},
    }
    carry_args_split(
        cx, fuel, args, 0, Seq::empty(), Seq::empty(), fn_name, span, env, w, cx2, fuel2,
    );
    match args_split(cx, fuel, args, 0, Seq::empty(), Seq::empty(), fn_name, span, env, w) {
        (Ok((pos, named)), w1) => {
            if pos.len() <= param_count(params, 0) {
                carry_args_filled(
                    cx, fuel, params, 0, 0, pos, named, scope, fn_name, span, w1, cx2, fuel2,
                );
            }
        },
        _ => {},
    }
}

proof fn carry_function_called(
    cx: Cx, fuel: nat, decl: FnDecl, args: Seq<Arg>, scope: Env, span: Span, env: Env, w: World,
    cx2: Cx, fuel2: nat,
)
    requires
        cx.within(cx2),
        fuel <= fuel2,
    ensures
        carried(
            function_called(cx, fuel, decl, args, scope, span, env, w),
            function_called(cx2, fuel2, decl, args, scope, span, env, w),
        ),
        ends_fair(cx.ans, function_called(cx, fuel, decl, args, scope, span, env, w).0),
    decreases fuel, 3nat, 0nat,
{
    print_function_called(cx2, fuel2, decl, args, scope, span, env, w);
    print_call_bound(cx2, fuel2, decl.params@, args, scope, decl.name@, span, env, w);
    match call_bound(cx2, fuel2, decl.params@, args, scope, decl.name@, span, env, w) {
        (Ok(_), w1) => {
            print_stmts_executed(cx2, fuel2, decl.body.stmts@, 0, Val::Unit, scope, w1);
            print_body_ended(
                stmts_executed(cx2, fuel2, decl.body.stmts@, 0, Val::Unit, scope, w1),
                loop_message(), span,
            );
        },
        _ => {},
    }
    carry_call_bound(cx, fuel, decl.params@, args, scope, decl.name@, span, env, w, cx2, fuel2);
    match call_bound(cx, fuel, decl.params@, args, scope, decl.name@, span, env, w) {
        (Ok(_), w1) => {
            carry_stmts_executed(cx, fuel, decl.body.stmts@, 0, Val::Unit, scope, w1, cx2, fuel2);
        },
        _ => {},
    }
}

proof fn carry_closure_called(
    cx: Cx, fuel: nat, c: ClosureVal, args: Seq<Val>, span: Span, w: World, cx2: Cx, fuel2: nat,
)
    requires
        cx.within(cx2),
        fuel <= fuel2,
    ensures
        carried(
            closure_called(cx, fuel, c, args, span, w),
            closure_called(cx2, fuel2, c, args, span, w),
        ),
        ends_fair(cx.ans, closure_called(cx, fuel, c, args, span, w).0),
    decreases fuel, 3nat, 0nat,
{
    print_closure_called(cx2, fuel2, c, args, span, w);
    let scope = w.next_scope();
    match c {
        ClosureVal::Function(decl, home) => {
            print_params_bound(
                cx2, fuel2, decl.params@, args, scope, decl.name@, span, w.add_scope(Some(home)),
            );
            let w0 = w.add_scope(Some(home));
            match params_bound(cx2, fuel2, decl.params@, args, scope, decl.name@, span, w0) {
                (Ok(_), w1) => {
                    print_stmts_executed(cx2, fuel2, decl.body.stmts@, 0, Val::Unit, scope, w1);
                    print_body_ended(
                        stmts_executed(cx2, fuel2, decl.body.stmts@, 0, Val::Unit, scope, w1),
                        loop_message(), span,
                    );
                },
                _ => {},
            }
        },
        ClosureVal::Lambda(l, home) => {
            let w1 = w.add_scope(Some(home));
            if args.len() == l.params@.len() {
                print_bound_all(w1, scope, texts(l.params@), args, false, 0);
                print_evaluated(
                    cx2, fuel2, *l.body, scope, bound_all(
                        w1, scope, texts(l.params@), args, false, 0,
                    ),
                );
                let w2 = bound_all(w1, scope, texts(l.params@), args, false, 0);
                match evaluated(cx2, fuel2, *l.body, scope, w2) {
                    (Err(h), w2) => {
                        print_intercepted(h, w2);
                    },
                    _ => {},
                }
            }
        },
    }
    let scope = w.next_scope();
    match c {
        ClosureVal::Function(decl, home) => {
            carry_params_bound(
                cx, fuel, decl.params@, args, scope, decl.name@, span, w.add_scope(Some(home)),
                cx2, fuel2,
            );
            let w0 = w.add_scope(Some(home));
            match params_bound(cx, fuel, decl.params@, args, scope, decl.name@, span, w0) {
                (Ok(_), w1) => {
                    carry_stmts_executed(
                        cx, fuel, decl.body.stmts@, 0, Val::Unit, scope, w1, cx2, fuel2,
                    );
                },
                _ => {},
            }
        },
        ClosureVal::Lambda(l, home) => {
            let w1 = w.add_scope(Some(home));
            if args.len() == l.params@.len() {
                carry_evaluated(
                    cx, fuel, *l.body, scope, bound_all(
                        w1, scope, texts(l.params@), args, false, 0,
                    ),
                    cx2, fuel2,
                );
            }
        },
    }
}

proof fn carry_panic_text(cx: Cx, fuel: nat, v: Val, w: World, cx2: Cx, fuel2: nat)
    requires
        cx.within(cx2),
        fuel <= fuel2,
    ensures
        carried_result(panic_text(cx, fuel, v, w), panic_text(cx2, fuel2, v, w)),
        ends_fair(cx.ans, panic_text(cx, fuel, v, w)),
{
    carry_shown(cx.ans, w, fuel, v, cx2.ans, fuel2);
}

proof fn carry_builtin_called(
    cx: Cx, fuel: nat, b: Builtin, args: Seq<Val>, span: Span, w: World, cx2: Cx, fuel2: nat,
)
    requires
        cx.within(cx2),
        fuel <= fuel2,
    ensures
        carried(
            builtin_called(cx, fuel, b, args, span, w),
            builtin_called(cx2, fuel2, b, args, span, w),
        ),
        ends_fair(cx.ans, builtin_called(cx, fuel, b, args, span, w).0),
{
    print_builtin_called(cx2, fuel2, b, args, span, w);
    match b {
        Builtin::Print => {
            carry_shown_items(cx.ans, w, fuel, args, 0, Seq::empty(), cx2.ans, fuel2);
        },
        Builtin::Panic => {
            if args.len() != 0 {
                carry_panic_text(cx, fuel, args[0], w, cx2, fuel2);
            }
        },
        _ => {},
    }
}

proof fn carry_applied(
    cx: Cx, fuel: nat, callee: Val, args: Seq<Val>, span: Span, w: World, cx2: Cx, fuel2: nat,
)
    requires
        cx.within(cx2),
        fuel <= fuel2,
    ensures
        carried(
            applied(cx, fuel, callee, args, span, w),
            applied(cx2, fuel2, callee, args, span, w),
        ),
        ends_fair(cx.ans, applied(cx, fuel, callee, args, span, w).0),
    decreases fuel, 4nat, 0nat,
{
    print_applied(cx2, fuel2, callee, args, span, w);
    match callee {
        Val::Closure(c) => {
            print_closure_called(cx2, fuel2, c, args, span, w);
        },
        Val::Builtin(b) => {
            print_builtin_called(cx2, fuel2, b, args, span, w);
        },
        _ => {},
    }
    match callee {
        Val::Closure(c) => {
            carry_closure_called(cx, fuel, c, args, span, w, cx2, fuel2);
        },
        Val::Builtin(b) => {
            carry_builtin_called(cx, fuel, b, args, span, w, cx2, fuel2);
        },
        _ => {},
    }
}

proof fn carry_call_evaluated(
    cx: Cx, fuel: nat, callee: Expr, args: Seq<Arg>, span: Span, env: Env, w: World, cx2: Cx,
    fuel2: nat,
)
    requires
        cx.within(cx2),
        fuel <= fuel2,
    ensures
        carried(
            call_evaluated(cx, fuel, callee, args, span, env, w),
            call_evaluated(cx2, fuel2, callee, args, span, env, w),
        ),
        ends_fair(cx.ans, call_evaluated(cx, fuel, callee, args, span, env, w).0),
    decreases fuel, 11nat, 0nat,
{
    print_call_evaluated(cx2, fuel2, callee, args, span, env, w);
    match callee.kind {
        ExprKind::Member { base, name, safe } => {
            print_member_called(cx2, fuel2, *base, name@, safe, args, span, env, w);
        },
        _ => {
            match struct_named(cx2, callee, env, w) {
                Some((name, decl)) => {
                    print_struct_made(cx2, fuel2, decl, name, args, span, env, w);
                },
                None => {
                    print_evaluated(cx2, fuel2, callee, env, w);
                    match evaluated(cx2, fuel2, callee, env, w) {
                        (Ok(Val::Closure(ClosureVal::Function(decl, home))), w1) => {
                            print_function_called(
                                cx2, fuel2, decl, args, w1.next_scope(), span, env,
                                w1.add_scope(Some(home)),
                            );
                        },
                        (Ok(v), w1) => {
                            print_args_evaluated(cx2, fuel2, args, 0, Seq::empty(), span, env, w1);
                            match args_evaluated(cx2, fuel2, args, 0, Seq::empty(), span, env, w1) {
                                (Ok(vs), w2) => {
                                    print_applied(cx2, fuel2, v, vs, span, w2);
                                },
                                _ => {},
                            }
                        },
                        _ => {},
                    }
                },
            }
        },
    }
    match callee.kind {
        ExprKind::Member { base, name, safe } => {
            carry_member_called(cx, fuel, *base, name@, safe, args, span, env, w, cx2, fuel2);
        },
        _ => {
            carry_struct_named(cx, callee, env, w, cx2);
            match struct_named(cx, callee, env, w) {
                Some((name, decl)) => {
                    carry_struct_made(cx, fuel, decl, name, args, span, env, w, cx2, fuel2);
                },
                None => {
                    carry_evaluated(cx, fuel, callee, env, w, cx2, fuel2);
                    match evaluated(cx, fuel, callee, env, w) {
                        (Ok(Val::Closure(ClosureVal::Function(decl, home))), w1) => {
                            carry_function_called(
                                cx, fuel, decl, args, w1.next_scope(), span, env,
                                w1.add_scope(Some(home)), cx2, fuel2,
                            );
                        },
                        (Ok(v), w1) => {
                            carry_args_evaluated(
                                cx, fuel, args, 0, Seq::empty(), span, env, w1, cx2, fuel2,
                            );
                            match args_evaluated(cx, fuel, args, 0, Seq::empty(), span, env, w1) {
                                (Ok(vs), w2) => {
                                    carry_applied(cx, fuel, v, vs, span, w2, cx2, fuel2);
                                },
                                _ => {},
                            }
                        },
                        _ => {},
                    }
                },
            }
        },
    }
}

proof fn carry_struct_named(cx: Cx, e: Expr, env: Env, w: World, cx2: Cx)
    requires
        cx.within(cx2),
    ensures
        carried_option(struct_named(cx, e, env, w), struct_named(cx2, e, env, w)),
{
}

proof fn carry_member_called(
    cx: Cx, fuel: nat, base: Expr, name: Seq<char>, safe: bool, args: Seq<Arg>, span: Span,
    env: Env, w: World, cx2: Cx, fuel2: nat,
)
    requires
        cx.within(cx2),
        fuel <= fuel2,
    ensures
        carried(
            member_called(cx, fuel, base, name, safe, args, span, env, w),
            member_called(cx2, fuel2, base, name, safe, args, span, env, w),
        ),
        ends_fair(cx.ans, member_called(cx, fuel, base, name, safe, args, span, env, w).0),
    decreases fuel, 10nat, 0nat,
{
    print_member_called(cx2, fuel2, base, name, safe, args, span, env, w);
    let variant_of: Option<(Seq<char>, EnumShape)> = if safe {
        None
    } else {
        enum_named(cx2, base, env, w)
    };
    match variant_of {
        Some((enum_name, decl)) => {
            print_variant_made(cx2, fuel2, decl, enum_name, name, args, span, env, w);
        },
        None => {
            print_evaluated(cx2, fuel2, base, env, w);
            match evaluated(cx2, fuel2, base, env, w) {
                (Ok(recv), w1) => {
                    if !(safe && recv is Null) {
                        if name == "or_else"@ {
                            print_args_evaluated(cx2, fuel2, args, 0, Seq::empty(), span, env, w1);
                        } else {
                            print_method_called(cx2, fuel2, recv, name, args, span, env, w1);
                        }
                    }
                },
                _ => {},
            }
        },
    }
    if !safe {
        carry_enum_named(cx, base, env, w, cx2);
    }
    let variant_of: Option<(Seq<char>, EnumShape)> = if safe {
        None
    } else {
        enum_named(cx, base, env, w)
    };
    match variant_of {
        Some((enum_name, decl)) => {
            carry_variant_made(cx, fuel, decl, enum_name, name, args, span, env, w, cx2, fuel2);
        },
        None => {
            carry_evaluated(cx, fuel, base, env, w, cx2, fuel2);
            match evaluated(cx, fuel, base, env, w) {
                (Ok(recv), w1) => {
                    if !(safe && recv is Null) {
                        if name == "or_else"@ {
                            carry_args_evaluated(
                                cx, fuel, args, 0, Seq::empty(), span, env, w1, cx2, fuel2,
                            );
                        } else {
                            carry_method_called(
                                cx, fuel, recv, name, args, span, env, w1, cx2, fuel2,
                            );
                        }
                    }
                },
                _ => {},
            }
        },
    }
}

proof fn carry_method_called(
    cx: Cx, fuel: nat, recv: Val, name: Seq<char>, args: Seq<Arg>, span: Span, env: Env, w: World,
    cx2: Cx, fuel2: nat,
)
    requires
        cx.within(cx2),
        fuel <= fuel2,
    ensures
        carried(
            method_called(cx, fuel, recv, name, args, span, env, w),
            method_called(cx2, fuel2, recv, name, args, span, env, w),
        ),
        ends_fair(cx.ans, method_called(cx, fuel, recv, name, args, span, env, w).0),
    decreases fuel, 9nat, 0nat,
{
    print_method_called(cx2, fuel2, recv, name, args, span, env, w);
    if name == "expect"@ {
        print_args_evaluated(cx2, fuel2, args, 0, Seq::empty(), span, env, w);
    } else {
        match declared_type(recv, w) {
            None => {
                print_builtin_method_called(cx2, fuel2, recv, name, args, span, env, w);
            },
            Some(owner) => {
                match cx2.reg.method(owner, name) {
                    Some(decl) => {
                        let scope = w.next_scope();
                        let w0 = w.add_scope(Some(outermost(w, env)));
                        let w1 = w0.with_var(scope, "self"@, recv, false);
                        print_function_called(cx2, fuel2, decl, args, scope, span, env, w1);
                    },
                    _ => {},
                }
            },
        }
    }
    if name == "expect"@ {
        carry_args_evaluated(cx, fuel, args, 0, Seq::empty(), span, env, w, cx2, fuel2);
        match args_evaluated(cx, fuel, args, 0, Seq::empty(), span, env, w) {
            (Ok(vs), w1) => {
                if vs.len() == 1 {
                    if recv is Null {
                        carry_panic_text(cx, fuel, vs[0], w1, cx2, fuel2);
                    }
                }
            },
            _ => {},
        }
    } else {
        match declared_type(recv, w) {
            None => {
                carry_builtin_method_called(cx, fuel, recv, name, args, span, env, w, cx2, fuel2);
            },
            Some(owner) => {
                match cx.reg.method(owner, name) {
                    Some(decl) => {
                        let scope = w.next_scope();
                        let w0 = w.add_scope(Some(outermost(w, env)));
                        let w1 = w0.with_var(scope, "self"@, recv, false);
                        carry_function_called(
                            cx, fuel, decl, args, scope, span, env, w1, cx2, fuel2,
                        );
                    },
                    _ => {},
                }
            },
        }
    }
}

proof fn carry_fields_by_name(
    cx: Cx, fuel: nat, order: Seq<Seq<char>>, args: Seq<Arg>, i: nat,
    fields: Seq<(Seq<char>, Val)>, name: Seq<char>, span: Span, env: Env, w: World, cx2: Cx,
    fuel2: nat,
)
    requires
        cx.within(cx2),
        fuel <= fuel2,
    ensures
        carried(
            fields_by_name(cx, fuel, order, args, i, fields, name, span, env, w),
            fields_by_name(cx2, fuel2, order, args, i, fields, name, span, env, w),
        ),
        ends_fair(cx.ans, fields_by_name(cx, fuel, order, args, i, fields, name, span, env, w).0),
    decreases fuel, 1nat, args.len() - i,
{
    print_fields_by_name(cx2, fuel2, order, args, i, fields, name, span, env, w);
    if i < args.len() {
        match args[i as int] {
            Arg::Named { name: field, value } => {
                if order.contains(field@) {
                    print_evaluated(cx2, fuel2, value, env, w);
                    match evaluated(cx2, fuel2, value, env, w) {
                        (Ok(v), w1) => {
                            print_fields_by_name(
                                cx2, fuel2, order, args, i + 1, bind(fields, field@, v), name, span,
                                env, w1,
                            );
                        },
                        _ => {},
                    }
                }
            },
            Arg::Positional(_) => {
                print_fields_by_name(cx2, fuel2, order, args, i + 1, fields, name, span, env, w);
            },
        }
    }
    if i < args.len() {
        match args[i as int] {
            Arg::Named { name: field, value } => {
                if order.contains(field@) {
                    carry_evaluated(cx, fuel, value, env, w, cx2, fuel2);
                    match evaluated(cx, fuel, value, env, w) {
                        (Ok(v), w1) => {
                            carry_fields_by_name(
                                cx, fuel, order, args, i + 1, bind(fields, field@, v), name, span,
                                env, w1, cx2, fuel2,
                            );
                        },
                        _ => {},
                    }
                }
            },
            Arg::Positional(_) => {
                carry_fields_by_name(
                    cx, fuel, order, args, i + 1, fields, name, span, env, w, cx2, fuel2,
                );
            },
        }
    }
}

proof fn carry_fields_in_order(
    cx: Cx, fuel: nat, order: Seq<Seq<char>>, args: Seq<Arg>, i: nat,
    fields: Seq<(Seq<char>, Val)>, env: Env, w: World, cx2: Cx, fuel2: nat,
)
    requires
        cx.within(cx2),
        fuel <= fuel2,
    ensures
        carried(
            fields_in_order(cx, fuel, order, args, i, fields, env, w),
            fields_in_order(cx2, fuel2, order, args, i, fields, env, w),
        ),
        ends_fair(cx.ans, fields_in_order(cx, fuel, order, args, i, fields, env, w).0),
    decreases fuel, 1nat, args.len() - i,
{
    print_fields_in_order(cx2, fuel2, order, args, i, fields, env, w);
    if i < args.len() && i < order.len() {
        match args[i as int] {
            Arg::Positional(e) => {
                print_evaluated(cx2, fuel2, e, env, w);
                match evaluated(cx2, fuel2, e, env, w) {
                    (Ok(v), w1) => {
                        print_fields_in_order(
                            cx2, fuel2, order, args, i + 1, bind(fields, order[i as int], v), env,
                            w1,
                        );
                    },
                    _ => {},
                }
            },
            Arg::Named { .. } => {
                print_fields_in_order(cx2, fuel2, order, args, i + 1, fields, env, w);
            },
        }
    }
    if i < args.len() && i < order.len() {
        match args[i as int] {
            Arg::Positional(e) => {
                carry_evaluated(cx, fuel, e, env, w, cx2, fuel2);
                match evaluated(cx, fuel, e, env, w) {
                    (Ok(v), w1) => {
                        carry_fields_in_order(
                            cx, fuel, order, args, i + 1, bind(fields, order[i as int], v), env,
                            w1, cx2, fuel2,
                        );
                    },
                    _ => {},
                }
            },
            Arg::Named { .. } => {
                carry_fields_in_order(cx, fuel, order, args, i + 1, fields, env, w, cx2, fuel2);
            },
        }
    }
}

proof fn carry_struct_made(
    cx: Cx, fuel: nat, decl: StructShape, name: Seq<char>, args: Seq<Arg>, span: Span, env: Env,
    w: World, cx2: Cx, fuel2: nat,
)
    requires
        cx.within(cx2),
        fuel <= fuel2,
    ensures
        carried(
            struct_made(cx, fuel, decl, name, args, span, env, w),
            struct_made(cx2, fuel2, decl, name, args, span, env, w),
        ),
        ends_fair(cx.ans, struct_made(cx, fuel, decl, name, args, span, env, w).0),
    decreases fuel, 2nat, 0nat,
{
    print_struct_made(cx2, fuel2, decl, name, args, span, env, w);
    if !(args.len() > 0 && !all_named(args) && !all_positional(args)) {
        if args.len() > 0 && all_named(args) {
            print_fields_by_name(
                cx2, fuel2, decl.fields, args, 0, Seq::empty(), name, span, env, w,
            );
            print_struct_finished(
                decl, name,
                fields_by_name(cx2, fuel2, decl.fields, args, 0, Seq::empty(), name, span, env, w),
                span,
            );
        } else {
            if args.len() == decl.fields.len() {
                print_fields_in_order(cx2, fuel2, decl.fields, args, 0, Seq::empty(), env, w);
                print_struct_finished(
                    decl, name,
                    fields_in_order(cx2, fuel2, decl.fields, args, 0, Seq::empty(), env, w), span,
                );
            }
        }
    }
    if !(args.len() > 0 && !all_named(args) && !all_positional(args)) {
        if args.len() > 0 && all_named(args) {
            carry_fields_by_name(
                cx, fuel, decl.fields, args, 0, Seq::empty(), name, span, env, w, cx2, fuel2,
            );
        } else {
            if args.len() == decl.fields.len() {
                carry_fields_in_order(
                    cx, fuel, decl.fields, args, 0, Seq::empty(), env, w, cx2, fuel2,
                );
            }
        }
    }
}

proof fn carry_payload_positional(
    cx: Cx, fuel: nat, variant: Seq<char>, args: Seq<Arg>, i: nat, done: Payloads, span: Span,
    env: Env, w: World, cx2: Cx, fuel2: nat,
)
    requires
        cx.within(cx2),
        fuel <= fuel2,
    ensures
        carried(
            payload_positional(cx, fuel, variant, args, i, done, span, env, w),
            payload_positional(cx2, fuel2, variant, args, i, done, span, env, w),
        ),
        ends_fair(cx.ans, payload_positional(cx, fuel, variant, args, i, done, span, env, w).0),
    decreases fuel, 1nat, args.len() - i,
{
    print_payload_positional(cx2, fuel2, variant, args, i, done, span, env, w);
    if i < args.len() {
        match args[i as int] {
            Arg::Positional(e) => {
                print_evaluated(cx2, fuel2, e, env, w);
                match evaluated(cx2, fuel2, e, env, w) {
                    (Ok(v), w1) => {
                        print_payload_positional(
                            cx2, fuel2, variant, args, i + 1,
                            Payloads { values: done.values.push(v), ..done }, span, env, w1,
                        );
                    },
                    _ => {},
                }
            },
            _ => {},
        }
    }
    if i < args.len() {
        match args[i as int] {
            Arg::Positional(e) => {
                carry_evaluated(cx, fuel, e, env, w, cx2, fuel2);
                match evaluated(cx, fuel, e, env, w) {
                    (Ok(v), w1) => {
                        carry_payload_positional(
                            cx, fuel, variant, args, i + 1,
                            Payloads { values: done.values.push(v), ..done }, span, env, w1, cx2,
                            fuel2,
                        );
                    },
                    _ => {},
                }
            },
            _ => {},
        }
    }
}

proof fn carry_payload_by_name(
    cx: Cx, fuel: nat, variant: Seq<char>, names: Seq<Seq<char>>, args: Seq<Arg>, i: nat,
    done: Payloads, span: Span, env: Env, w: World, cx2: Cx, fuel2: nat,
)
    requires
        cx.within(cx2),
        fuel <= fuel2,
    ensures
        carried(
            payload_by_name(cx, fuel, variant, names, args, i, done, span, env, w),
            payload_by_name(cx2, fuel2, variant, names, args, i, done, span, env, w),
        ),
        ends_fair(cx.ans, payload_by_name(cx, fuel, variant, names, args, i, done, span, env, w).0),
    decreases fuel, 1nat, names.len() - i,
{
    print_payload_by_name(cx2, fuel2, variant, names, args, i, done, span, env, w);
    if i < names.len() {
        match arg_named(args, names[i as int], 0) {
            Some(e) => {
                print_evaluated(cx2, fuel2, e, env, w);
                match evaluated(cx2, fuel2, e, env, w) {
                    (Ok(v), w1) => {
                        print_payload_by_name(
                            cx2, fuel2, variant, names, args, i + 1,
                            Payloads {
                                values: done.values.push(v),
                                names: done.names.push(names[i as int]),
                            },
                            span, env, w1,
                        );
                    },
                    _ => {},
                }
            },
            _ => {},
        }
    }
    if i < names.len() {
        match arg_named(args, names[i as int], 0) {
            Some(e) => {
                carry_evaluated(cx, fuel, e, env, w, cx2, fuel2);
                match evaluated(cx, fuel, e, env, w) {
                    (Ok(v), w1) => {
                        carry_payload_by_name(
                            cx, fuel, variant, names, args, i + 1,
                            Payloads {
                                values: done.values.push(v),
                                names: done.names.push(names[i as int]),
                            },
                            span, env, w1, cx2, fuel2,
                        );
                    },
                    _ => {},
                }
            },
            _ => {},
        }
    }
}

proof fn carry_payload_in_order(
    cx: Cx, fuel: nat, names: Seq<Seq<char>>, args: Seq<Arg>, i: nat, done: Payloads, env: Env,
    w: World, cx2: Cx, fuel2: nat,
)
    requires
        cx.within(cx2),
        fuel <= fuel2,
    ensures
        carried(
            payload_in_order(cx, fuel, names, args, i, done, env, w),
            payload_in_order(cx2, fuel2, names, args, i, done, env, w),
        ),
        ends_fair(cx.ans, payload_in_order(cx, fuel, names, args, i, done, env, w).0),
    decreases fuel, 1nat, args.len() - i,
{
    print_payload_in_order(cx2, fuel2, names, args, i, done, env, w);
    if i < args.len() && i < names.len() {
        let e = arg_value(args[i as int]);
        print_evaluated(cx2, fuel2, e, env, w);
        match evaluated(cx2, fuel2, e, env, w) {
            (Ok(v), w1) => {
                let more = Payloads {
                    values: done.values.push(v),
                    names: done.names.push(names[i as int]),
                };
                print_payload_in_order(
                    cx2, fuel2, names, args, i + 1, more, env, w1,
                );
            },
            _ => {},
        }
    }
    if i < args.len() && i < names.len() {
        let e = arg_value(args[i as int]);
        carry_evaluated(cx, fuel, e, env, w, cx2, fuel2);
        match evaluated(cx, fuel, e, env, w) {
            (Ok(v), w1) => {
                let more = Payloads {
                    values: done.values.push(v),
                    names: done.names.push(names[i as int]),
                };
                carry_payload_in_order(
                    cx, fuel, names, args, i + 1, more, env, w1, cx2, fuel2,
                );
            },
            _ => {},
        }
    }
}

proof fn carry_variant_made(
    cx: Cx, fuel: nat, decl: EnumShape, enum_name: Seq<char>, variant: Seq<char>, args: Seq<Arg>,
    span: Span, env: Env, w: World, cx2: Cx, fuel2: nat,
)
    requires
        cx.within(cx2),
        fuel <= fuel2,
    ensures
        carried(
            variant_made(cx, fuel, decl, enum_name, variant, args, span, env, w),
            variant_made(cx2, fuel2, decl, enum_name, variant, args, span, env, w),
        ),
        ends_fair(cx.ans, variant_made(cx, fuel, decl, enum_name, variant, args, span, env, w).0),
    decreases fuel, 3nat, 0nat,
{
    print_variant_made(cx2, fuel2, decl, enum_name, variant, args, span, env, w);
    let at = variant_place(decl.variants, variant, 0);
    if at < decl.variants.len() {
        print_payload_made(
            cx2, fuel2, decl.variants[at as int].payload, variant, args, span, env, w,
        );
    }
    let at = variant_place(decl.variants, variant, 0);
    if at < decl.variants.len() {
        carry_payload_made(
            cx, fuel, decl.variants[at as int].payload, variant, args, span, env, w, cx2, fuel2,
        );
    }
}

proof fn carry_payload_made(
    cx: Cx, fuel: nat, shape: PayloadShape, variant: Seq<char>, args: Seq<Arg>, span: Span,
    env: Env, w: World, cx2: Cx, fuel2: nat,
)
    requires
        cx.within(cx2),
        fuel <= fuel2,
    ensures
        carried(
            payload_made(cx, fuel, shape, variant, args, span, env, w),
            payload_made(cx2, fuel2, shape, variant, args, span, env, w),
        ),
        ends_fair(cx.ans, payload_made(cx, fuel, shape, variant, args, span, env, w).0),
    decreases fuel, 2nat, 0nat,
{
    print_payload_made(cx2, fuel2, shape, variant, args, span, env, w);
    match shape {
        PayloadShape::Positional(n) => {
            if args.len() == n {
                print_payload_positional(cx2, fuel2, variant, args, 0, no_payload(), span, env, w);
            }
        },
        PayloadShape::Named(names) => {
            if args.len() == names.len() {
                if all_named(args) && args.len() > 0 {
                    print_payload_by_name(
                        cx2, fuel2, variant, names, args, 0, no_payload(), span, env, w,
                    );
                } else {
                    print_payload_in_order(cx2, fuel2, names, args, 0, no_payload(), env, w);
                }
            }
        },
        _ => {},
    }
    match shape {
        PayloadShape::Positional(n) => {
            if args.len() == n {
                carry_payload_positional(
                    cx, fuel, variant, args, 0, no_payload(), span, env, w, cx2, fuel2,
                );
            }
        },
        PayloadShape::Named(names) => {
            if args.len() == names.len() {
                if all_named(args) && args.len() > 0 {
                    carry_payload_by_name(
                        cx, fuel, variant, names, args, 0, no_payload(), span, env, w, cx2, fuel2,
                    );
                } else {
                    carry_payload_in_order(
                        cx, fuel, names, args, 0, no_payload(), env, w, cx2, fuel2,
                    );
                }
            }
        },
        _ => {},
    }
}

proof fn carry_builtin_method_called(
    cx: Cx, fuel: nat, recv: Val, name: Seq<char>, args: Seq<Arg>, span: Span, env: Env, w: World,
    cx2: Cx, fuel2: nat,
)
    requires
        cx.within(cx2),
        fuel <= fuel2,
    ensures
        carried(
            builtin_method_called(cx, fuel, recv, name, args, span, env, w),
            builtin_method_called(cx2, fuel2, recv, name, args, span, env, w),
        ),
        ends_fair(cx.ans, builtin_method_called(cx, fuel, recv, name, args, span, env, w).0),
    decreases fuel, 8nat, 0nat,
{
    print_builtin_method_called(cx2, fuel2, recv, name, args, span, env, w);
    print_method_args_evaluated(cx2, fuel2, name, args, 0, Seq::empty(), span, env, w);
    match method_args_evaluated(cx2, fuel2, name, args, 0, Seq::empty(), span, env, w) {
        (Ok(vs), w1) => {
            match recv {
                Val::List(at) => {
                    print_list_called(cx2, fuel2, at, name, vs, span, w1);
                },
                Val::MapRef(at) => {
                    print_map_called(fuel2, at, name, vs, span, w1);
                },
                Val::SetRef(at) => {
                    print_set_called(fuel2, at, name, vs, span, w1);
                },
                _ => {},
            }
        },
        _ => {},
    }
    carry_method_args_evaluated(cx, fuel, name, args, 0, Seq::empty(), span, env, w, cx2, fuel2);
    match method_args_evaluated(cx, fuel, name, args, 0, Seq::empty(), span, env, w) {
        (Ok(vs), w1) => {
            match recv {
                Val::List(at) => {
                    carry_list_called(cx, fuel, at, name, vs, span, w1, cx2, fuel2);
                },
                Val::MapRef(at) => {
                    carry_map_called(fuel, at, name, vs, span, w1, fuel2);
                },
                Val::SetRef(at) => {
                    carry_set_called(fuel, at, name, vs, span, w1, fuel2);
                },
                _ => {},
            }
        },
        _ => {},
    }
}

proof fn carry_predicate(
    cx: Cx, fuel: nat, p: Val, item: Val, span: Span, w: World, cx2: Cx, fuel2: nat,
)
    requires
        cx.within(cx2),
        fuel <= fuel2,
    ensures
        carried(predicate(cx, fuel, p, item, span, w), predicate(cx2, fuel2, p, item, span, w)),
        ends_fair(cx.ans, predicate(cx, fuel, p, item, span, w).0),
    decreases fuel, 5nat, 0nat,
{
    print_predicate(cx2, fuel2, p, item, span, w);
    print_applied(cx2, fuel2, p, seq ![item], span, w);
    carry_applied(cx, fuel, p, seq ![item], span, w, cx2, fuel2);
}

proof fn carry_mapped(
    cx: Cx, fuel: nat, g: Val, items: Seq<Val>, i: nat, done: Seq<Val>, span: Span, w: World,
    cx2: Cx, fuel2: nat,
)
    requires
        cx.within(cx2),
        fuel <= fuel2,
    ensures
        carried(
            mapped(cx, fuel, g, items, i, done, span, w),
            mapped(cx2, fuel2, g, items, i, done, span, w),
        ),
        ends_fair(cx.ans, mapped(cx, fuel, g, items, i, done, span, w).0),
    decreases fuel, 6nat, items.len() - i,
{
    print_mapped(cx2, fuel2, g, items, i, done, span, w);
    if i < items.len() {
        print_applied(cx2, fuel2, g, seq ![items[i as int]], span, w);
        match applied(cx2, fuel2, g, seq ![items[i as int]], span, w) {
            (Ok(v), w1) => {
                print_mapped(cx2, fuel2, g, items, i + 1, done.push(v), span, w1);
            },
            _ => {},
        }
    }
    if i < items.len() {
        carry_applied(cx, fuel, g, seq ![items[i as int]], span, w, cx2, fuel2);
        match applied(cx, fuel, g, seq ![items[i as int]], span, w) {
            (Ok(v), w1) => {
                carry_mapped(cx, fuel, g, items, i + 1, done.push(v), span, w1, cx2, fuel2);
            },
            _ => {},
        }
    }
}

proof fn carry_filtered(
    cx: Cx, fuel: nat, p: Val, items: Seq<Val>, i: nat, done: Seq<Val>, span: Span, w: World,
    cx2: Cx, fuel2: nat,
)
    requires
        cx.within(cx2),
        fuel <= fuel2,
    ensures
        carried(
            filtered(cx, fuel, p, items, i, done, span, w),
            filtered(cx2, fuel2, p, items, i, done, span, w),
        ),
        ends_fair(cx.ans, filtered(cx, fuel, p, items, i, done, span, w).0),
    decreases fuel, 6nat, items.len() - i,
{
    print_filtered(cx2, fuel2, p, items, i, done, span, w);
    if i < items.len() {
        print_predicate(cx2, fuel2, p, items[i as int], span, w);
        match predicate(cx2, fuel2, p, items[i as int], span, w) {
            (Ok(true), w1) => {
                print_filtered(cx2, fuel2, p, items, i + 1, done.push(items[i as int]), span, w1);
            },
            (Ok(false), w1) => {
                print_filtered(cx2, fuel2, p, items, i + 1, done, span, w1);
            },
            _ => {},
        }
    }
    if i < items.len() {
        carry_predicate(cx, fuel, p, items[i as int], span, w, cx2, fuel2);
        match predicate(cx, fuel, p, items[i as int], span, w) {
            (Ok(true), w1) => {
                carry_filtered(
                    cx, fuel, p, items, i + 1, done.push(items[i as int]), span, w1, cx2, fuel2,
                );
            },
            (Ok(false), w1) => {
                carry_filtered(cx, fuel, p, items, i + 1, done, span, w1, cx2, fuel2);
            },
            _ => {},
        }
    }
}

proof fn carry_folded(
    cx: Cx, fuel: nat, g: Val, items: Seq<Val>, i: nat, acc: Val, span: Span, w: World, cx2: Cx,
    fuel2: nat,
)
    requires
        cx.within(cx2),
        fuel <= fuel2,
    ensures
        carried(
            folded(cx, fuel, g, items, i, acc, span, w),
            folded(cx2, fuel2, g, items, i, acc, span, w),
        ),
        ends_fair(cx.ans, folded(cx, fuel, g, items, i, acc, span, w).0),
    decreases fuel, 6nat, items.len() - i,
{
    print_folded(cx2, fuel2, g, items, i, acc, span, w);
    if i < items.len() {
        print_applied(cx2, fuel2, g, seq ![acc, items[i as int]], span, w);
        match applied(cx2, fuel2, g, seq ![acc, items[i as int]], span, w) {
            (Ok(v), w1) => {
                print_folded(cx2, fuel2, g, items, i + 1, v, span, w1);
            },
            _ => {},
        }
    }
    if i < items.len() {
        carry_applied(cx, fuel, g, seq ![acc, items[i as int]], span, w, cx2, fuel2);
        match applied(cx, fuel, g, seq ![acc, items[i as int]], span, w) {
            (Ok(v), w1) => {
                carry_folded(cx, fuel, g, items, i + 1, v, span, w1, cx2, fuel2);
            },
            _ => {},
        }
    }
}

proof fn carry_sought(
    cx: Cx, fuel: nat, p: Val, items: Seq<Val>, i: nat, want: bool, span: Span, w: World, cx2: Cx,
    fuel2: nat,
)
    requires
        cx.within(cx2),
        fuel <= fuel2,
    ensures
        carried(
            sought(cx, fuel, p, items, i, want, span, w),
            sought(cx2, fuel2, p, items, i, want, span, w),
        ),
        ends_fair(cx.ans, sought(cx, fuel, p, items, i, want, span, w).0),
    decreases fuel, 6nat, items.len() - i,
{
    print_sought(cx2, fuel2, p, items, i, want, span, w);
    if i < items.len() {
        print_predicate(cx2, fuel2, p, items[i as int], span, w);
        match predicate(cx2, fuel2, p, items[i as int], span, w) {
            (Ok(b), w1) => {
                if b != want {
                    print_sought(cx2, fuel2, p, items, i + 1, want, span, w1);
                }
            },
            _ => {},
        }
    }
    if i < items.len() {
        carry_predicate(cx, fuel, p, items[i as int], span, w, cx2, fuel2);
        match predicate(cx, fuel, p, items[i as int], span, w) {
            (Ok(b), w1) => {
                if b != want {
                    carry_sought(cx, fuel, p, items, i + 1, want, span, w1, cx2, fuel2);
                }
            },
            _ => {},
        }
    }
}

proof fn carry_list_callback(
    cx: Cx, fuel: nat, at: usize, name: Seq<char>, args: Seq<Val>, span: Span, w: World, cx2: Cx,
    fuel2: nat,
)
    requires
        cx.within(cx2),
        fuel <= fuel2,
    ensures
        carried_some(
            list_callback(cx, fuel, at, name, args, span, w),
            list_callback(cx2, fuel2, at, name, args, span, w),
        ),
        list_callback(cx, fuel, at, name, args, span, w) matches Some(out) ==> ends_fair(
            cx.ans,
            out.0,
        ),
    decreases fuel, 7nat, 0nat,
{
    print_list_callback(cx2, fuel2, at, name, args, span, w);
    let items = w.list(at);
    if name == "fold"@ {
        match two_args(name, args, span) {
            Ok((init, g)) => {
                print_folded(cx2, fuel2, g, items, 0, init, span, w);
            },
            _ => {},
        }
    } else {
        if name == "map"@ || name == "filter"@ || name == "reduce"@ || name == "any"@ || name
            == "all"@ || name == "find"@ {
            match one_arg(name, args, span) {
                Ok(g) => {
                    if name == "map"@ {
                        print_mapped(cx2, fuel2, g, items, 0, Seq::empty(), span, w);
                    } else {
                        if name == "filter"@ {
                            print_filtered(cx2, fuel2, g, items, 0, Seq::empty(), span, w);
                        } else {
                            if name == "reduce"@ {
                                if items.len() != 0 {
                                    print_folded(cx2, fuel2, g, items, 1, items[0], span, w);
                                }
                            } else {
                                print_sought(cx2, fuel2, g, items, 0, name != "all"@, span, w);
                            }
                        }
                    }
                },
                _ => {},
            }
        }
    }
    let items = w.list(at);
    if name == "fold"@ {
        match two_args(name, args, span) {
            Ok((init, g)) => {
                carry_folded(cx, fuel, g, items, 0, init, span, w, cx2, fuel2);
            },
            _ => {},
        }
    } else {
        if name == "map"@ || name == "filter"@ || name == "reduce"@ || name == "any"@ || name
            == "all"@ || name == "find"@ {
            match one_arg(name, args, span) {
                Ok(g) => {
                    if name == "map"@ {
                        carry_mapped(cx, fuel, g, items, 0, Seq::empty(), span, w, cx2, fuel2);
                    } else {
                        if name == "filter"@ {
                            carry_filtered(
                                cx, fuel, g, items, 0, Seq::empty(), span, w, cx2, fuel2,
                            );
                        } else {
                            if name == "reduce"@ {
                                if items.len() != 0 {
                                    carry_folded(
                                        cx, fuel, g, items, 1, items[0], span, w, cx2, fuel2,
                                    );
                                }
                            } else {
                                carry_sought(
                                    cx, fuel, g, items, 0, name != "all"@, span, w, cx2, fuel2,
                                );
                            }
                        }
                    }
                },
                _ => {},
            }
        }
    }
}

proof fn carry_list_with_arg(
    fuel: nat, at: usize, name: Seq<char>, args: Seq<Val>, span: Span, w: World, fuel2: nat,
)
    requires
        fuel <= fuel2,
    ensures
        carried_some(
            list_with_arg(fuel, at, name, args, span, w),
            list_with_arg(fuel2, at, name, args, span, w),
        ),
        list_with_arg(fuel, at, name, args, span, w) matches Some(out) ==> ends_alone(out.0),
{
    print_list_with_arg(fuel2, at, name, args, span, w);
    let items = w.list(at);
    if name == "contains"@ || name == "take"@ || name == "skip"@ || name == "zip"@ || name
        == "append"@ {
        match one_arg(name, args, span) {
            Ok(x) => {
                if name == "contains"@ {
                    carry_item_place(w, fuel, items, x, 0, fuel2);
                }
            },
            _ => {},
        }
    }
}

proof fn carry_list_plain(
    cx: Cx, fuel: nat, at: usize, name: Seq<char>, span: Span, w: World, cx2: Cx, fuel2: nat,
)
    requires
        cx.within(cx2),
        fuel <= fuel2,
    ensures
        carried(list_plain(cx, fuel, at, name, span, w), list_plain(cx2, fuel2, at, name, span, w)),
        ends_fair(cx.ans, list_plain(cx, fuel, at, name, span, w).0),
{
    print_list_plain(cx2, fuel2, at, name, span, w);
    let items = w.list(at);
    if name == "sum"@ {
        carry_summed(cx.ans, items, span, cx2.ans);
    } else {
        if name != "count"@ && name != "len"@ {
            if name != "is_empty"@ {
                if name != "first"@ {
                    if name != "last"@ {
                        if name == "min"@ {
                            carry_extreme_of(cx.reg, w, fuel, items, Order::Less, span, fuel2);
                        } else {
                            if name == "max"@ {
                                carry_extreme_of(
                                    cx.reg, w, fuel, items, Order::Greater, span, fuel2,
                                );
                            } else {
                                if name != "enumerate"@ {
                                    if name != "reverse"@ {
                                        if name == "sorted"@ {
                                            carry_sorted(cx.reg, w, fuel, items, span, fuel2);
                                        } else {
                                            if name == "sort"@ {
                                                carry_sorted(cx.reg, w, fuel, items, span, fuel2);
                                            }
                                        }
                                    }
                                }
                            }
                        }
                    }
                }
            }
        }
    }
}

proof fn carry_list_called(
    cx: Cx, fuel: nat, at: usize, name: Seq<char>, args: Seq<Val>, span: Span, w: World, cx2: Cx,
    fuel2: nat,
)
    requires
        cx.within(cx2),
        fuel <= fuel2,
    ensures
        carried(
            list_called(cx, fuel, at, name, args, span, w),
            list_called(cx2, fuel2, at, name, args, span, w),
        ),
        ends_fair(cx.ans, list_called(cx, fuel, at, name, args, span, w).0),
    decreases fuel, 7nat, 1nat,
{
    print_list_called(cx2, fuel2, at, name, args, span, w);
    print_list_callback(cx2, fuel2, at, name, args, span, w);
    match list_callback(cx2, fuel2, at, name, args, span, w) {
        None => {
            print_list_with_arg(fuel2, at, name, args, span, w);
            match list_with_arg(fuel2, at, name, args, span, w) {
                None => {
                    if is_plain_list_method(name) {
                        match no_args(name, args, span) {
                            Ok(_) => {
                                print_list_plain(cx2, fuel2, at, name, span, w);
                            },
                            _ => {},
                        }
                    }
                },
                _ => {},
            }
        },
        _ => {},
    }
    carry_list_callback(cx, fuel, at, name, args, span, w, cx2, fuel2);
    match list_callback(cx, fuel, at, name, args, span, w) {
        None => {
            carry_list_with_arg(fuel, at, name, args, span, w, fuel2);
            match list_with_arg(fuel, at, name, args, span, w) {
                None => {
                    if is_plain_list_method(name) {
                        match no_args(name, args, span) {
                            Ok(_) => {
                                carry_list_plain(cx, fuel, at, name, span, w, cx2, fuel2);
                            },
                            _ => {},
                        }
                    }
                },
                _ => {},
            }
        },
        _ => {},
    }
}

proof fn carry_map_called(
    fuel: nat, at: usize, name: Seq<char>, args: Seq<Val>, span: Span, w: World, fuel2: nat,
)
    requires
        fuel <= fuel2,
    ensures
        carried(
            map_called(fuel, at, name, args, span, w),
            map_called(fuel2, at, name, args, span, w),
        ),
        ends_alone(map_called(fuel, at, name, args, span, w).0),
{
    print_map_called(fuel2, at, name, args, span, w);
    let pairs = w.map(at);
    if name == "insert"@ {
        match two_args(name, args, span) {
            Ok((k, v)) => {
                carry_put_pair(w, fuel, pairs, k, v, fuel2);
            },
            _ => {},
        }
    } else {
        if name == "get"@ || name == "contains"@ || name == "has"@ {
            match one_arg(name, args, span) {
                Ok(k) => {
                    carry_entry_place(w, fuel, pairs, k, 0, fuel2);
                },
                _ => {},
            }
        }
    }
}

proof fn carry_set_called(
    fuel: nat, at: usize, name: Seq<char>, args: Seq<Val>, span: Span, w: World, fuel2: nat,
)
    requires
        fuel <= fuel2,
    ensures
        carried(
            set_called(fuel, at, name, args, span, w),
            set_called(fuel2, at, name, args, span, w),
        ),
        ends_alone(set_called(fuel, at, name, args, span, w).0),
{
    print_set_called(fuel2, at, name, args, span, w);
    let items = w.set(at);
    if name == "insert"@ || name == "contains"@ || name == "union"@ || name == "intersect"@ {
        match one_arg(name, args, span) {
            Ok(x) => {
                if name == "insert"@ {
                    carry_put_item(w, fuel, items, x, fuel2);
                } else {
                    if name == "contains"@ {
                        carry_item_place(w, fuel, items, x, 0, fuel2);
                    } else {
                        if name == "union"@ {
                            match set_arg(x, name, span) {
                                Ok(other) => {
                                    carry_put_all(w, fuel, items, w.set(other), 0, fuel2);
                                },
                                _ => {},
                            }
                        } else {
                            match set_arg(x, name, span) {
                                Ok(other) => {
                                    carry_kept(
                                        w, fuel, items, w.set(other), 0, Seq::empty(), fuel2,
                                    );
                                },
                                _ => {},
                            }
                        }
                    }
                }
            },
            _ => {},
        }
    }
}

proof fn carry_arms_run(
    cx: Cx, fuel: nat, arms: Seq<MatchArm>, i: nat, v: Val, span: Span, env: Env, w: World,
    cx2: Cx, fuel2: nat,
)
    requires
        cx.within(cx2),
        fuel <= fuel2,
    ensures
        carried(
            arms_run(cx, fuel, arms, i, v, span, env, w),
            arms_run(cx2, fuel2, arms, i, v, span, env, w),
        ),
        ends_fair(cx.ans, arms_run(cx, fuel, arms, i, v, span, env, w).0),
    decreases fuel, 3nat, arms.len() - i,
{
    print_arms_run(cx2, fuel2, arms, i, v, span, env, w);
    if i < arms.len() {
        let arm = arms[i as int];
        let scope = w.next_scope();
        print_matched(arm.pattern, v, scope, w.add_scope(Some(env)));
        match matched(arm.pattern, v, scope, w.add_scope(Some(env))) {
            (false, w1) => {
                print_arms_run(cx2, fuel2, arms, i + 1, v, span, env, w1);
            },
            (true, w1) => {
                match arm.guard {
                    Some(guard) => {
                        print_condition(cx2, fuel2, guard, scope, w1);
                    },
                    _ => {},
                }
                let passed: Out<bool> = match arm.guard {
                    Some(guard) => condition(cx2, fuel2, guard, scope, w1),
                    None => (Ok(true), w1),
                };
                match passed {
                    (Ok(true), w2) => {
                        print_stmts_executed(cx2, fuel2, arm.body.stmts@, 0, Val::Unit, scope, w2);
                    },
                    (Ok(false), w2) => {
                        print_arms_run(cx2, fuel2, arms, i + 1, v, span, env, w2);
                    },
                    _ => {},
                }
            },
        }
    }
    if i < arms.len() {
        let arm = arms[i as int];
        let scope = w.next_scope();
        match matched(arm.pattern, v, scope, w.add_scope(Some(env))) {
            (false, w1) => {
                carry_arms_run(cx, fuel, arms, i + 1, v, span, env, w1, cx2, fuel2);
            },
            (true, w1) => {
                match arm.guard {
                    Some(guard) => {
                        carry_condition(cx, fuel, guard, scope, w1, cx2, fuel2);
                    },
                    _ => {},
                }
                let passed: Out<bool> = match arm.guard {
                    Some(guard) => condition(cx, fuel, guard, scope, w1),
                    None => (Ok(true), w1),
                };
                match passed {
                    (Ok(true), w2) => {
                        carry_stmts_executed(
                            cx, fuel, arm.body.stmts@, 0, Val::Unit, scope, w2, cx2, fuel2,
                        );
                    },
                    (Ok(false), w2) => {
                        carry_arms_run(cx, fuel, arms, i + 1, v, span, env, w2, cx2, fuel2);
                    },
                    _ => {},
                }
            },
        }
    }
}

proof fn carry_match_evaluated(
    cx: Cx, fuel: nat, m: MatchExpr, span: Span, env: Env, w: World, cx2: Cx, fuel2: nat,
)
    requires
        cx.within(cx2),
        fuel <= fuel2,
    ensures
        carried(
            match_evaluated(cx, fuel, m, span, env, w),
            match_evaluated(cx2, fuel2, m, span, env, w),
        ),
        ends_fair(cx.ans, match_evaluated(cx, fuel, m, span, env, w).0),
    decreases fuel, 5nat, 0nat,
{
    print_match_evaluated(cx2, fuel2, m, span, env, w);
    print_match_run(cx2, fuel2, m, span, env, w);
    carry_match_run(cx, fuel, m, span, env, w, cx2, fuel2);
}

proof fn carry_match_run(
    cx: Cx, fuel: nat, m: MatchExpr, span: Span, env: Env, w: World, cx2: Cx, fuel2: nat,
)
    requires
        cx.within(cx2),
        fuel <= fuel2,
    ensures
        carried(match_run(cx, fuel, m, span, env, w), match_run(cx2, fuel2, m, span, env, w)),
        ends_fair(cx.ans, match_run(cx, fuel, m, span, env, w).0),
    decreases fuel, 4nat, 0nat,
{
    print_match_run(cx2, fuel2, m, span, env, w);
    print_evaluated(cx2, fuel2, *m.scrutinee, env, w);
    match evaluated(cx2, fuel2, *m.scrutinee, env, w) {
        (Ok(v), w1) => {
            print_arms_run(cx2, fuel2, m.arms@, 0, v, span, env, w1);
        },
        _ => {},
    }
    carry_evaluated(cx, fuel, *m.scrutinee, env, w, cx2, fuel2);
    match evaluated(cx, fuel, *m.scrutinee, env, w) {
        (Ok(v), w1) => {
            carry_arms_run(cx, fuel, m.arms@, 0, v, span, env, w1, cx2, fuel2);
        },
        _ => {},
    }
}

proof fn carry_executed(cx: Cx, fuel: nat, s: Stmt, env: Env, w: World, cx2: Cx, fuel2: nat)
    requires
        cx.within(cx2),
        fuel <= fuel2,
    ensures
        carried(executed(cx, fuel, s, env, w), executed(cx2, fuel2, s, env, w)),
        ends_fair(cx.ans, executed(cx, fuel, s, env, w).0),
    decreases fuel, 0nat, 0nat,
{
    print_executed(cx2, fuel2, s, env, w);
    if fuel2 != 0 {
        let f = (fuel2 - 1) as nat;
        match s.kind {
            StmtKind::Binding(b) => {
                print_evaluated(cx2, f, b.value, env, w);
                match evaluated(cx2, f, b.value, env, w) {
                    (Ok(v), w1) => {
                        print_bound(b, v, s.span, env, w1);
                    },
                    _ => {},
                }
            },
            StmtKind::Assign(a) => {
                print_assigned(cx2, f, a, env, w);
            },
            StmtKind::Return(Some(e)) => {
                print_evaluated(cx2, f, e, env, w);
            },
            StmtKind::Expr(e) => {
                match e.kind {
                    ExprKind::Match(m) => {
                        print_match_run(cx2, f, m, e.span, env, w);
                    },
                    _ => {
                        print_evaluated(cx2, f, e, env, w);
                    },
                }
            },
            StmtKind::If(c) => {
                print_if_run(cx2, f, c, 0, env, w);
            },
            StmtKind::While(l) => {
                print_while_run(cx2, f, l, env, w);
            },
            StmtKind::For(l) => {
                print_for_run(cx2, f, l, env, w);
            },
            _ => {},
        }
    }
    if fuel != 0 {
        let f = (fuel - 1) as nat;
        let f2 = (fuel2 - 1) as nat;
        match s.kind {
            StmtKind::Binding(b) => {
                carry_evaluated(cx, f, b.value, env, w, cx2, f2);
            },
            StmtKind::Assign(a) => {
                carry_assigned(cx, f, a, env, w, cx2, f2);
            },
            StmtKind::Return(Some(e)) => {
                carry_evaluated(cx, f, e, env, w, cx2, f2);
            },
            StmtKind::Expr(e) => {
                match e.kind {
                    ExprKind::Match(m) => {
                        carry_match_run(cx, f, m, e.span, env, w, cx2, f2);
                    },
                    _ => {
                        carry_evaluated(cx, f, e, env, w, cx2, f2);
                    },
                }
            },
            StmtKind::If(c) => {
                carry_if_run(cx, f, c, 0, env, w, cx2, f2);
            },
            StmtKind::While(l) => {
                carry_while_run(cx, f, l, env, w, cx2, f2);
            },
            StmtKind::For(l) => {
                carry_for_run(cx, f, l, env, w, cx2, f2);
            },
            _ => {},
        }
    }
}

proof fn carry_stmts_executed(
    cx: Cx, fuel: nat, stmts: Seq<Stmt>, i: nat, last: Val, env: Env, w: World, cx2: Cx,
    fuel2: nat,
)
    requires
        cx.within(cx2),
        fuel <= fuel2,
    ensures
        carried(
            stmts_executed(cx, fuel, stmts, i, last, env, w),
            stmts_executed(cx2, fuel2, stmts, i, last, env, w),
        ),
        ends_fair(cx.ans, stmts_executed(cx, fuel, stmts, i, last, env, w).0),
    decreases fuel, 1nat, stmts.len() - i,
{
    print_stmts_executed(cx2, fuel2, stmts, i, last, env, w);
    if i < stmts.len() {
        print_executed(cx2, fuel2, stmts[i as int], env, w);
        match executed(cx2, fuel2, stmts[i as int], env, w) {
            (Ok(FlowVal::Normal(v)), w1) => {
                print_stmts_executed(cx2, fuel2, stmts, i + 1, v, env, w1);
            },
            _ => {},
        }
    }
    if i < stmts.len() {
        carry_executed(cx, fuel, stmts[i as int], env, w, cx2, fuel2);
        match executed(cx, fuel, stmts[i as int], env, w) {
            (Ok(FlowVal::Normal(v)), w1) => {
                carry_stmts_executed(cx, fuel, stmts, i + 1, v, env, w1, cx2, fuel2);
            },
            _ => {},
        }
    }
}

proof fn carry_block_run(cx: Cx, fuel: nat, b: Block, parent: Env, w: World, cx2: Cx, fuel2: nat)
    requires
        cx.within(cx2),
        fuel <= fuel2,
    ensures
        carried(block_run(cx, fuel, b, parent, w), block_run(cx2, fuel2, b, parent, w)),
        ends_fair(cx.ans, block_run(cx, fuel, b, parent, w).0),
    decreases fuel, 2nat, 0nat,
{
    print_block_run(cx2, fuel2, b, parent, w);
    print_stmts_executed(
        cx2, fuel2, b.stmts@, 0, Val::Unit, w.next_scope(), w.add_scope(Some(parent)),
    );
    carry_stmts_executed(
        cx, fuel, b.stmts@, 0, Val::Unit, w.next_scope(), w.add_scope(Some(parent)), cx2, fuel2,
    );
}

proof fn carry_if_run(cx: Cx, fuel: nat, s: IfStmt, i: nat, env: Env, w: World, cx2: Cx, fuel2: nat)
    requires
        cx.within(cx2),
        fuel <= fuel2,
    ensures
        carried(if_run(cx, fuel, s, i, env, w), if_run(cx2, fuel2, s, i, env, w)),
        ends_fair(cx.ans, if_run(cx, fuel, s, i, env, w).0),
    decreases fuel, 3nat, s.arms@.len() - i,
{
    print_if_run(cx2, fuel2, s, i, env, w);
    if i >= s.arms@.len() {
        match s.else_body {
            Some(b) => {
                print_block_run(cx2, fuel2, b, env, w);
            },
            _ => {},
        }
    } else {
        print_condition(cx2, fuel2, s.arms@[i as int].0, env, w);
        match condition(cx2, fuel2, s.arms@[i as int].0, env, w) {
            (Ok(true), w1) => {
                print_block_run(cx2, fuel2, s.arms@[i as int].1, env, w1);
            },
            (Ok(false), w1) => {
                print_if_run(cx2, fuel2, s, i + 1, env, w1);
            },
            _ => {},
        }
    }
    if i >= s.arms@.len() {
        match s.else_body {
            Some(b) => {
                carry_block_run(cx, fuel, b, env, w, cx2, fuel2);
            },
            _ => {},
        }
    } else {
        carry_condition(cx, fuel, s.arms@[i as int].0, env, w, cx2, fuel2);
        match condition(cx, fuel, s.arms@[i as int].0, env, w) {
            (Ok(true), w1) => {
                carry_block_run(cx, fuel, s.arms@[i as int].1, env, w1, cx2, fuel2);
            },
            (Ok(false), w1) => {
                carry_if_run(cx, fuel, s, i + 1, env, w1, cx2, fuel2);
            },
            _ => {},
        }
    }
}

proof fn carry_while_run(cx: Cx, fuel: nat, s: WhileStmt, env: Env, w: World, cx2: Cx, fuel2: nat)
    requires
        cx.within(cx2),
        fuel <= fuel2,
    ensures
        carried(while_run(cx, fuel, s, env, w), while_run(cx2, fuel2, s, env, w)),
        ends_fair(cx.ans, while_run(cx, fuel, s, env, w).0),
    decreases fuel, 0nat, 0nat,
{
    print_while_run(cx2, fuel2, s, env, w);
    if fuel2 != 0 {
        let f = (fuel2 - 1) as nat;
        print_condition(cx2, f, s.cond, env, w);
        match condition(cx2, f, s.cond, env, w) {
            (Ok(true), w1) => {
                print_block_run(cx2, f, s.body, env, w1);
                match block_run(cx2, f, s.body, env, w1) {
                    (Ok(flow), w2) => {
                        if loop_goes_on(flow) {
                            print_while_run(cx2, f, s, env, w2);
                        }
                    },
                    _ => {},
                }
            },
            _ => {},
        }
    }
    if fuel != 0 {
        let f = (fuel - 1) as nat;
        let f2 = (fuel2 - 1) as nat;
        carry_condition(cx, f, s.cond, env, w, cx2, f2);
        match condition(cx, f, s.cond, env, w) {
            (Ok(true), w1) => {
                carry_block_run(cx, f, s.body, env, w1, cx2, f2);
                match block_run(cx, f, s.body, env, w1) {
                    (Ok(flow), w2) => {
                        if loop_goes_on(flow) {
                            carry_while_run(cx, f, s, env, w2, cx2, f2);
                        }
                    },
                    _ => {},
                }
            },
            _ => {},
        }
    }
}

proof fn carry_turns_run(
    cx: Cx, fuel: nat, s: ForStmt, items: Seq<Val>, i: nat, env: Env, w: World, cx2: Cx,
    fuel2: nat,
)
    requires
        cx.within(cx2),
        fuel <= fuel2,
    ensures
        carried(
            turns_run(cx, fuel, s, items, i, env, w),
            turns_run(cx2, fuel2, s, items, i, env, w),
        ),
        ends_fair(cx.ans, turns_run(cx, fuel, s, items, i, env, w).0),
    decreases fuel, 3nat, items.len() - i,
{
    print_turns_run(cx2, fuel2, s, items, i, env, w);
    if i < items.len() {
        let scope = w.next_scope();
        print_item_bound(s.binder, items[i as int], scope, s.iter.span, w.add_scope(Some(env)));
        match item_bound(s.binder, items[i as int], scope, s.iter.span, w.add_scope(Some(env))) {
            (Ok(_), w1) => {
                print_stmts_executed(cx2, fuel2, s.body.stmts@, 0, Val::Unit, scope, w1);
                match stmts_executed(cx2, fuel2, s.body.stmts@, 0, Val::Unit, scope, w1) {
                    (Ok(flow), w2) => {
                        if loop_goes_on(flow) {
                            print_turns_run(cx2, fuel2, s, items, i + 1, env, w2);
                        }
                    },
                    _ => {},
                }
            },
            _ => {},
        }
    }
    if i < items.len() {
        let scope = w.next_scope();
        match item_bound(s.binder, items[i as int], scope, s.iter.span, w.add_scope(Some(env))) {
            (Ok(_), w1) => {
                carry_stmts_executed(cx, fuel, s.body.stmts@, 0, Val::Unit, scope, w1, cx2, fuel2);
                match stmts_executed(cx, fuel, s.body.stmts@, 0, Val::Unit, scope, w1) {
                    (Ok(flow), w2) => {
                        if loop_goes_on(flow) {
                            carry_turns_run(cx, fuel, s, items, i + 1, env, w2, cx2, fuel2);
                        }
                    },
                    _ => {},
                }
            },
            _ => {},
        }
    }
}

proof fn carry_for_run(cx: Cx, fuel: nat, s: ForStmt, env: Env, w: World, cx2: Cx, fuel2: nat)
    requires
        cx.within(cx2),
        fuel <= fuel2,
    ensures
        carried(for_run(cx, fuel, s, env, w), for_run(cx2, fuel2, s, env, w)),
        ends_fair(cx.ans, for_run(cx, fuel, s, env, w).0),
    decreases fuel, 4nat, 0nat,
{
    print_for_run(cx2, fuel2, s, env, w);
    print_evaluated(cx2, fuel2, s.iter, env, w);
    match evaluated(cx2, fuel2, s.iter, env, w) {
        (Ok(v), w1) => {
            match iterated(v, s.iter.span, w1) {
                Ok(items) => {
                    print_turns_run(cx2, fuel2, s, items, 0, env, w1);
                },
                _ => {},
            }
        },
        _ => {},
    }
    carry_evaluated(cx, fuel, s.iter, env, w, cx2, fuel2);
    match evaluated(cx, fuel, s.iter, env, w) {
        (Ok(v), w1) => {
            match iterated(v, s.iter.span, w1) {
                Ok(items) => {
                    carry_turns_run(cx, fuel, s, items, 0, env, w1, cx2, fuel2);
                },
                _ => {},
            }
        },
        _ => {},
    }
}

proof fn carry_stepped(
    cx: Cx, fuel: nat, container: Val, seg: TargetSeg, span: Span, env: Env, w: World, cx2: Cx,
    fuel2: nat,
)
    requires
        cx.within(cx2),
        fuel <= fuel2,
    ensures
        carried(
            stepped(cx, fuel, container, seg, span, env, w),
            stepped(cx2, fuel2, container, seg, span, env, w),
        ),
        ends_fair(cx.ans, stepped(cx, fuel, container, seg, span, env, w).0),
    decreases fuel, 1nat, 0nat,
{
    print_stepped(cx2, fuel2, container, seg, span, env, w);
    match seg {
        TargetSeg::Index(e) => {
            print_evaluated(cx2, fuel2, e, env, w);
        },
        _ => {},
    }
    match seg {
        TargetSeg::Index(e) => {
            carry_evaluated(cx, fuel, e, env, w, cx2, fuel2);
        },
        _ => {},
    }
}

proof fn carry_navigated(
    cx: Cx, fuel: nat, container: Val, path: Seq<TargetSeg>, i: nat, span: Span, env: Env,
    w: World, cx2: Cx, fuel2: nat,
)
    requires
        cx.within(cx2),
        fuel <= fuel2,
    ensures
        carried(
            navigated(cx, fuel, container, path, i, span, env, w),
            navigated(cx2, fuel2, container, path, i, span, env, w),
        ),
        ends_fair(cx.ans, navigated(cx, fuel, container, path, i, span, env, w).0),
    decreases fuel, 2nat, path.len() - i,
{
    print_navigated(cx2, fuel2, container, path, i, span, env, w);
    if i + 1 < path.len() {
        print_stepped(cx2, fuel2, container, path[i as int], span, env, w);
        match stepped(cx2, fuel2, container, path[i as int], span, env, w) {
            (Ok(v), w1) => {
                print_navigated(cx2, fuel2, v, path, i + 1, span, env, w1);
            },
            _ => {},
        }
    }
    if i + 1 < path.len() {
        carry_stepped(cx, fuel, container, path[i as int], span, env, w, cx2, fuel2);
        match stepped(cx, fuel, container, path[i as int], span, env, w) {
            (Ok(v), w1) => {
                carry_navigated(cx, fuel, v, path, i + 1, span, env, w1, cx2, fuel2);
            },
            _ => {},
        }
    }
}

proof fn carry_written(
    cx: Cx, fuel: nat, container: Val, seg: TargetSeg, new: Val, span: Span, env: Env, w: World,
    cx2: Cx, fuel2: nat,
)
    requires
        cx.within(cx2),
        fuel <= fuel2,
    ensures
        carried(
            written(cx, fuel, container, seg, new, span, env, w),
            written(cx2, fuel2, container, seg, new, span, env, w),
        ),
        ends_fair(cx.ans, written(cx, fuel, container, seg, new, span, env, w).0),
    decreases fuel, 1nat, 0nat,
{
    print_written(cx2, fuel2, container, seg, new, span, env, w);
    match seg {
        TargetSeg::Index(e) => {
            print_evaluated(cx2, fuel2, e, env, w);
        },
        _ => {},
    }
    match seg {
        TargetSeg::Index(e) => {
            carry_evaluated(cx, fuel, e, env, w, cx2, fuel2);
        },
        _ => {},
    }
}

proof fn carry_assigned(cx: Cx, fuel: nat, a: Assign, env: Env, w: World, cx2: Cx, fuel2: nat)
    requires
        cx.within(cx2),
        fuel <= fuel2,
    ensures
        carried(assigned(cx, fuel, a, env, w), assigned(cx2, fuel2, a, env, w)),
        ends_fair(cx.ans, assigned(cx, fuel, a, env, w).0),
    decreases fuel, 3nat, 0nat,
{
    print_assigned(cx2, fuel2, a, env, w);
    let target = a.target;
    print_evaluated(cx2, fuel2, a.value, env, w);
    match evaluated(cx2, fuel2, a.value, env, w) {
        (Ok(new), w1) => {
            if target.path@.len() == 0 {
                print_reassigned(w1, env, target.base@, new);
            } else {
                match resolved(w1, env, target.base@) {
                    Some(base) => {
                        print_navigated(cx2, fuel2, base, target.path@, 0, target.span, env, w1);
                        match navigated(cx2, fuel2, base, target.path@, 0, target.span, env, w1) {
                            (Ok(container), w2) => {
                                print_written(
                                    cx2, fuel2, container, target.path@.last(), new, target.span,
                                    env, w2,
                                );
                            },
                            _ => {},
                        }
                    },
                    _ => {},
                }
            }
        },
        _ => {},
    }
    let target = a.target;
    carry_evaluated(cx, fuel, a.value, env, w, cx2, fuel2);
    match evaluated(cx, fuel, a.value, env, w) {
        (Ok(new), w1) => {
            if target.path@.len() != 0 {
                match resolved(w1, env, target.base@) {
                    Some(base) => {
                        carry_navigated(
                            cx, fuel, base, target.path@, 0, target.span, env, w1, cx2, fuel2,
                        );
                        match navigated(cx, fuel, base, target.path@, 0, target.span, env, w1) {
                            (Ok(container), w2) => {
                                carry_written(
                                    cx, fuel, container, target.path@.last(), new, target.span,
                                    env, w2, cx2, fuel2,
                                );
                            },
                            _ => {},
                        }
                    },
                    _ => {},
                }
            }
        },
        _ => {},
    }
}

} // verus!
