//! What a program printed stays printed: every evaluation only adds lines behind
//! those that are there, in whatever state it starts.

use super::collections::{no_args, one_arg, put_item, put_pair, two_args};
use super::env::{outermost, reassigned, resolved};
use super::places::{ext, ext_push, ext_same, ext_through};
use super::semantics::{
    all_matched, all_named, all_positional, any_matched, applied, arg_named, arg_value,
    args_evaluated, args_filled, args_split, arity_halt, arms_run, assigned, binary_evaluated,
    binder_bound, block_run, bound, builtin_called, builtin_method_called, call_bound,
    call_evaluated, closure_called, comprehension_evaluated, condition, declared_type, enum_named,
    evaluated, executed, fields_by_name, fields_in_order, filtered, folded, for_run,
    function_called, gathered, if_run, index_evaluated, is_plain_list_method, item_bound,
    items_evaluated, iterated, list_callback, list_called, list_plain, list_with_arg, loop_goes_on,
    loop_message, map_called, mapped, match_evaluated, match_run, matched, member_called,
    member_evaluated, members_evaluated, method_args_evaluated, method_called, navigated,
    no_payload, nothing_gathered, operated, pairs_evaluated, param_count, params_bound,
    params_filled, payload_by_name, payload_in_order, payload_made, payload_positional, predicate,
    required_from, set_called, sought, stepped, stmts_executed, struct_finished, struct_made,
    struct_named, text_built, tried, turns_gathered, turns_run, variant_made, while_run, written,
    Gathered, Payloads,
};
use super::show::{shown, variant_place};
use super::value::{Builtin, ClosureVal, Env, Halt, Val, World};
use super::{
    body_ended, bool_of, bound_all, destructured, intercepted, top_executed, Cx, FlowVal, Out,
};
use crate::ast::{
    Arg, Assign, BinOp, Binder, Binding, Block, Comprehension, ComprehensionBinder,
    ComprehensionOutput, EnumShape, Expr, ExprKind, FnDecl, ForStmt, IfStmt, MatchArm, MatchExpr,
    Param, Pattern, PatternKind, PayloadShape, Stmt, StmtKind, StrSeg, StructShape, TargetSeg,
    WhileStmt,
};
use crate::name_map::{bind, lookup, unbind};
use crate::text::texts;
use crate::token::Span;
use vstd::prelude::*;

verus! {

broadcast use {ext_same, ext_push, ext_through};

pub(crate) proof fn print_reassigned(w: World, env: Env, name: Seq<char>, value: Val)
    ensures
        ext(w.out, reassigned(w, env, name, value).1.out),
    decreases env,
{
    if lookup(w.scope(env).vars, name) is None {
        if let Some(p) = w.enclosing(env) {
            print_reassigned(w, p, name, value);
        }
    }
}

pub(crate) proof fn print_bound_all(
    w: World, scope: Env, names: Seq<Seq<char>>, items: Seq<Val>, is_val: bool, i: nat,
)
    ensures
        ext(w.out, bound_all(w, scope, names, items, is_val, i).out),
    decreases names.len() - i,
{
    if i < names.len() && i < items.len() {
        let w1 = w.with_var(scope, names[i as int], items[i as int], is_val);
        print_bound_all(w1, scope, names, items, is_val, i + 1);
    }
}

pub(crate) proof fn print_destructured(
    names: Seq<Seq<char>>, v: Val, scope: Env, is_val: bool, span: Span, w: World,
)
    ensures
        ext(w.out, destructured(names, v, scope, is_val, span, w).1.out),
{
    if let Val::Tuple(items) = v {
        print_bound_all(w, scope, names, items, is_val, 0);
    }
}

pub(crate) proof fn print_binder_bound(b: ComprehensionBinder, item: Val, scope: Env, span: Span, w: World)
    ensures
        ext(w.out, binder_bound(b, item, scope, span, w).1.out),
{
    if let ComprehensionBinder::Tuple(names) = b {
        print_destructured(texts(names@), item, scope, false, span, w);
    }
}

pub(crate) proof fn print_item_bound(b: Binder, item: Val, scope: Env, span: Span, w: World)
    ensures
        ext(w.out, item_bound(b, item, scope, span, w).1.out),
{
    if let Binder::Tuple(names) = b {
        print_destructured(texts(names@), item, scope, false, span, w);
    }
}

pub(crate) proof fn print_bound(b: Binding, v: Val, span: Span, env: Env, w: World)
    ensures
        ext(w.out, bound(b, v, span, env, w).1.out),
{
    match b.binder {
        Binder::Tuple(names) => {
            print_destructured(texts(names@), v, env, b.is_val, span, w);
        },
        Binder::Name(name) => {
            print_reassigned(w, env, name@, v);
        },
    }
}

pub(crate) proof fn print_matched(pat: Pattern, v: Val, scope: Env, w: World)
    ensures
        ext(w.out, matched(pat, v, scope, w).1.out),
    decreases pat, 0nat,
{
    match pat.kind {
        PatternKind::Variant { enum_name, name, subs } => match v {
            Val::Enum(e) => {
                print_all_matched(subs@, e.payload, 0, scope, w);
            },
            _ => {},
        },
        PatternKind::Or(alts) => {
            print_any_matched(alts@, v, 0, scope, w);
        },
        PatternKind::Tuple(elems) => match v {
            Val::Tuple(items) => {
                print_all_matched(elems@, items, 0, scope, w);
            },
            _ => {},
        },
        _ => {},
    }
}

pub(crate) proof fn print_all_matched(pats: Seq<Pattern>, vs: Seq<Val>, i: nat, scope: Env, w: World)
    ensures
        ext(w.out, all_matched(pats, vs, i, scope, w).1.out),
    decreases pats, pats.len() - i,
{
    if i < pats.len() && i < vs.len() {
        print_matched(pats[i as int], vs[i as int], scope, w);
        let w1 = matched(pats[i as int], vs[i as int], scope, w).1;
        print_all_matched(pats, vs, i + 1, scope, w1);
    }
}

pub(crate) proof fn print_any_matched(pats: Seq<Pattern>, v: Val, i: nat, scope: Env, w: World)
    ensures
        ext(w.out, any_matched(pats, v, i, scope, w).1.out),
    decreases pats, pats.len() - i,
{
    if i < pats.len() {
        print_matched(pats[i as int], v, scope, w);
        let w1 = matched(pats[i as int], v, scope, w).1;
        print_any_matched(pats, v, i + 1, scope, w1);
    }
}

pub(crate) proof fn print_intercepted(h: Halt, w: World)
    ensures
        ext(w.out, intercepted(h, w).1.out),
{
}

pub(crate) proof fn print_body_ended(body: Out<FlowVal>, message: Seq<char>, span: Span)
    ensures
        ext(body.1.out, body_ended(body, message, span).1.out),
{
    if let Err(h) = body.0 {
        print_intercepted(h, body.1);
    }
}

pub(crate) proof fn print_tried(v: Val, span: Span, w: World)
    ensures
        ext(w.out, tried(v, span, w).1.out),
{
}

pub(crate) proof fn print_operated(cx: Cx, fuel: nat, op: BinOp, l: Val, r: Val, span: Span, w: World)
    ensures
        ext(w.out, operated(cx, fuel, op, l, r, span, w).1.out),
{
}

pub(crate) proof fn print_builtin_called(
    cx: Cx, fuel: nat, b: Builtin, args: Seq<Val>, span: Span, w: World,
)
    ensures
        ext(w.out, builtin_called(cx, fuel, b, args, span, w).1.out),
{
}

pub(crate) proof fn print_list_with_arg(
    fuel: nat, at: usize, name: Seq<char>, args: Seq<Val>, span: Span, w: World,
)
    ensures
        list_with_arg(fuel, at, name, args, span, w) matches Some(o) ==> ext(w.out, o.1.out),
{
}

pub(crate) proof fn print_list_plain(cx: Cx, fuel: nat, at: usize, name: Seq<char>, span: Span, w: World)
    ensures
        ext(w.out, list_plain(cx, fuel, at, name, span, w).1.out),
{
}

pub(crate) proof fn print_map_called(
    fuel: nat, at: usize, name: Seq<char>, args: Seq<Val>, span: Span, w: World,
)
    ensures
        ext(w.out, map_called(fuel, at, name, args, span, w).1.out),
{
}

pub(crate) proof fn print_struct_finished(
    decl: StructShape, name: Seq<char>, fields: Out<Seq<(Seq<char>, Val)>>, span: Span,
)
    ensures
        ext(fields.1.out, struct_finished(decl, name, fields, span).1.out),
{
}

pub(crate) proof fn print_set_called(
    fuel: nat, at: usize, name: Seq<char>, args: Seq<Val>, span: Span, w: World,
)
    ensures
        ext(w.out, set_called(fuel, at, name, args, span, w).1.out),
{
}

pub(crate) proof fn print_evaluated(cx: Cx, fuel: nat, e: Expr, env: Env, w: World)
    ensures
        ext(w.out, evaluated(cx, fuel, e, env, w).1.out),
    decreases fuel, 0nat, 0nat,
{
    if fuel != 0 {
        let f = (fuel - 1) as nat;
        match e.kind {
            ExprKind::Str(lit) => {
                print_text_built(cx, f, lit.parts@, 0, Seq::empty(), env, w);
            },
            ExprKind::Try(inner) => {
                print_evaluated(cx, f, *inner, env, w);
                match evaluated(cx, f, *inner, env, w) {
                    (Ok(v), w1) => {
                        print_tried(v, e.span, w1);
                    },
                    _ => {},
                }
            },
            ExprKind::List(elems) => {
                print_items_evaluated(cx, f, elems@, 0, Seq::empty(), env, w);
            },
            ExprKind::Ternary { then, cond, otherwise } => {
                print_condition(cx, f, *cond, env, w);
                match condition(cx, f, *cond, env, w) {
                    (Ok(true), w1) => {
                        print_evaluated(cx, f, *then, env, w1);
                    },
                    (Ok(false), w1) => {
                        print_evaluated(cx, f, *otherwise, env, w1);
                    },
                    _ => {},
                }
            },
            ExprKind::Unary { op, operand } => {
                print_evaluated(cx, f, *operand, env, w);
            },
            ExprKind::Binary { op, lhs, rhs } => {
                print_binary_evaluated(cx, f, op, *lhs, *rhs, e.span, env, w);
            },
            ExprKind::Call { callee, args } => {
                print_call_evaluated(cx, f, *callee, args@, e.span, env, w);
            },
            ExprKind::Index { base, index } => {
                print_index_evaluated(cx, f, *base, *index, e.span, env, w);
            },
            ExprKind::Member { base, name, safe } => {
                print_member_evaluated(cx, f, *base, name@, safe, e.span, env, w);
            },
            ExprKind::Match(m) => {
                print_match_evaluated(cx, f, m, e.span, env, w);
            },
            ExprKind::MapLit(pairs) => {
                print_pairs_evaluated(cx, f, pairs@, 0, Seq::empty(), env, w);
            },
            ExprKind::SetLit(items) => {
                print_members_evaluated(cx, f, items@, 0, Seq::empty(), env, w);
            },
            ExprKind::Tuple(items) => {
                print_items_evaluated(cx, f, items@, 0, Seq::empty(), env, w);
            },
            ExprKind::Comprehension(c) => {
                print_comprehension_evaluated(cx, f, c, e.span, env, w);
            },
            _ => {},
        }
    }
}

pub(crate) proof fn print_condition(cx: Cx, fuel: nat, e: Expr, env: Env, w: World)
    ensures
        ext(w.out, condition(cx, fuel, e, env, w).1.out),
    decreases fuel, 1nat, 0nat,
{
    print_evaluated(cx, fuel, e, env, w);
}

pub(crate) proof fn print_items_evaluated(
    cx: Cx, fuel: nat, elems: Seq<Expr>, i: nat, done: Seq<Val>, env: Env, w: World,
)
    ensures
        ext(w.out, items_evaluated(cx, fuel, elems, i, done, env, w).1.out),
    decreases fuel, 1nat, elems.len() - i,
{
    if i < elems.len() {
        print_evaluated(cx, fuel, elems[i as int], env, w);
        match evaluated(cx, fuel, elems[i as int], env, w) {
            (Ok(v), w1) => {
                print_items_evaluated(cx, fuel, elems, i + 1, done.push(v), env, w1);
            },
            _ => {},
        }
    }
}

pub(crate) proof fn print_members_evaluated(
    cx: Cx, fuel: nat, elems: Seq<Expr>, i: nat, done: Seq<Val>, env: Env, w: World,
)
    ensures
        ext(w.out, members_evaluated(cx, fuel, elems, i, done, env, w).1.out),
    decreases fuel, 1nat, elems.len() - i,
{
    if i < elems.len() {
        print_evaluated(cx, fuel, elems[i as int], env, w);
        match evaluated(cx, fuel, elems[i as int], env, w) {
            (Ok(v), w1) => {
                match put_item(w1, fuel, done, v) {
                    Ok(more) => {
                        print_members_evaluated(cx, fuel, elems, i + 1, more, env, w1);
                    },
                    _ => {},
                }
            },
            _ => {},
        }
    }
}

pub(crate) proof fn print_pairs_evaluated(
    cx: Cx, fuel: nat, pairs: Seq<(Expr, Expr)>, i: nat, done: Seq<(Val, Val)>, env: Env,
    w: World,
)
    ensures
        ext(w.out, pairs_evaluated(cx, fuel, pairs, i, done, env, w).1.out),
    decreases fuel, 1nat, pairs.len() - i,
{
    if i < pairs.len() {
        print_evaluated(cx, fuel, pairs[i as int].0, env, w);
        match evaluated(cx, fuel, pairs[i as int].0, env, w) {
            (Ok(k), w1) => {
                print_evaluated(cx, fuel, pairs[i as int].1, env, w1);
                match evaluated(cx, fuel, pairs[i as int].1, env, w1) {
                    (Ok(v), w2) => {
                        match put_pair(w2, fuel, done, k, v) {
                            Ok(more) => {
                                print_pairs_evaluated(cx, fuel, pairs, i + 1, more, env, w2);
                            },
                            _ => {},
                        }
                    },
                    _ => {},
                }
            },
            _ => {},
        }
    }
}

pub(crate) proof fn print_text_built(
    cx: Cx, fuel: nat, parts: Seq<StrSeg>, i: nat, done: Seq<char>, env: Env, w: World,
)
    ensures
        ext(w.out, text_built(cx, fuel, parts, i, done, env, w).1.out),
    decreases fuel, 1nat, parts.len() - i,
{
    if i < parts.len() {
        match parts[i as int] {
            StrSeg::Text(t) => {
                print_text_built(cx, fuel, parts, i + 1, done + t@, env, w);
            },
            StrSeg::Expr(e) => {
                print_evaluated(cx, fuel, *e, env, w);
                match evaluated(cx, fuel, *e, env, w) {
                    (Ok(v), w1) => {
                        match shown(cx.ans, w1, fuel, v) {
                            Ok(s) => {
                                print_text_built(cx, fuel, parts, i + 1, done + s, env, w1);
                            },
                            _ => {},
                        }
                    },
                    _ => {},
                }
            },
        }
    }
}

pub(crate) proof fn print_binary_evaluated(
    cx: Cx, fuel: nat, op: BinOp, lhs: Expr, rhs: Expr, span: Span, env: Env, w: World,
)
    ensures
        ext(w.out, binary_evaluated(cx, fuel, op, lhs, rhs, span, env, w).1.out),
    decreases fuel, 2nat, 0nat,
{
    if op == BinOp::And || op == BinOp::Or {
        let word = if op == BinOp::And { "and"@ } else { "or"@ };
        print_evaluated(cx, fuel, lhs, env, w);
        match evaluated(cx, fuel, lhs, env, w) {
            (Ok(l), w1) => {
                match bool_of(l, lhs.span, word) {
                    Ok(b) => {
                        if b != (op == BinOp::Or) {
                            print_evaluated(cx, fuel, rhs, env, w1);
                        }
                    },
                    _ => {},
                }
            },
            _ => {},
        }
    } else {
        print_evaluated(cx, fuel, lhs, env, w);
        match evaluated(cx, fuel, lhs, env, w) {
            (Ok(l), w1) => {
                print_evaluated(cx, fuel, rhs, env, w1);
                match evaluated(cx, fuel, rhs, env, w1) {
                    (Ok(r), w2) => {
                        print_operated(cx, fuel, op, l, r, span, w2);
                    },
                    _ => {},
                }
            },
            _ => {},
        }
    }
}

pub(crate) proof fn print_index_evaluated(
    cx: Cx, fuel: nat, base: Expr, index: Expr, span: Span, env: Env, w: World,
)
    ensures
        ext(w.out, index_evaluated(cx, fuel, base, index, span, env, w).1.out),
    decreases fuel, 1nat, 0nat,
{
    print_evaluated(cx, fuel, base, env, w);
    match evaluated(cx, fuel, base, env, w) {
        (Ok(b), w1) => {
            print_evaluated(cx, fuel, index, env, w1);
        },
        _ => {},
    }
}

pub(crate) proof fn print_member_evaluated(
    cx: Cx, fuel: nat, base: Expr, name: Seq<char>, safe: bool, span: Span, env: Env, w: World,
)
    ensures
        ext(w.out, member_evaluated(cx, fuel, base, name, safe, span, env, w).1.out),
    decreases fuel, 4nat, 0nat,
{
    if safe {
        print_evaluated(cx, fuel, base, env, w);
    } else {
        match enum_named(cx, base, env, w) {
            Some((enum_name, decl)) => {
                print_variant_made(cx, fuel, decl, enum_name, name, Seq::empty(), span, env, w);
            },
            None => {
                print_evaluated(cx, fuel, base, env, w);
            },
        }
    }
}

pub(crate) proof fn print_gathered(
    cx: Cx, fuel: nat, output: ComprehensionOutput, so_far: Gathered, scope: Env, w: World,
)
    ensures
        ext(w.out, gathered(cx, fuel, output, so_far, scope, w).1.out),
    decreases fuel, 1nat, 0nat,
{
    match output {
        ComprehensionOutput::List(e) => {
            print_evaluated(cx, fuel, *e, scope, w);
        },
        ComprehensionOutput::SetOut(e) => {
            print_evaluated(cx, fuel, *e, scope, w);
        },
        ComprehensionOutput::MapOut { key, value } => {
            print_evaluated(cx, fuel, *key, scope, w);
            match evaluated(cx, fuel, *key, scope, w) {
                (Ok(k), w1) => {
                    print_evaluated(cx, fuel, *value, scope, w1);
                },
                _ => {},
            }
        },
    }
}

pub(crate) proof fn print_turns_gathered(
    cx: Cx, fuel: nat, c: Comprehension, items: Seq<Val>, i: nat, so_far: Gathered, span: Span,
    env: Env, w: World,
)
    ensures
        ext(w.out, turns_gathered(cx, fuel, c, items, i, so_far, span, env, w).1.out),
    decreases fuel, 2nat, items.len() - i,
{
    if i < items.len() {
        let scope = w.next_scope();
        print_binder_bound(c.binder, items[i as int], scope, span, w.add_scope(Some(env)));
        match binder_bound(c.binder, items[i as int], scope, span, w.add_scope(Some(env))) {
            (Ok(_), w1) => {
                match c.cond {
                    Some(cond) => {
                        print_condition(cx, fuel, *cond, scope, w1);
                    },
                    _ => {},
                }
                let passed: Out<bool> = match c.cond {
                    Some(cond) => condition(cx, fuel, *cond, scope, w1),
                    None => (Ok(true), w1),
                };
                match passed {
                    (Ok(false), w2) => {
                        print_turns_gathered(cx, fuel, c, items, i + 1, so_far, span, env, w2);
                    },
                    (Ok(true), w2) => {
                        print_gathered(cx, fuel, c.output, so_far, scope, w2);
                        match gathered(cx, fuel, c.output, so_far, scope, w2) {
                            (Ok(more), w3) => {
                                print_turns_gathered(
                                    cx, fuel, c, items, i + 1, more, span, env, w3,
                                );
                            },
                            _ => {},
                        }
                    },
                    _ => {},
                }
            },
            _ => {},
        }
    }
}

pub(crate) proof fn print_comprehension_evaluated(
    cx: Cx, fuel: nat, c: Comprehension, span: Span, env: Env, w: World,
)
    ensures
        ext(w.out, comprehension_evaluated(cx, fuel, c, span, env, w).1.out),
    decreases fuel, 3nat, 0nat,
{
    print_evaluated(cx, fuel, *c.iter, env, w);
    match evaluated(cx, fuel, *c.iter, env, w) {
        (Ok(v), w1) => {
            match iterated(v, c.iter.span, w1) {
                Ok(items) => {
                    print_turns_gathered(cx, fuel, c, items, 0, nothing_gathered(), span, env, w1);
                },
                _ => {},
            }
        },
        _ => {},
    }
}

pub(crate) proof fn print_args_evaluated(
    cx: Cx, fuel: nat, args: Seq<Arg>, i: nat, done: Seq<Val>, span: Span, env: Env, w: World,
)
    ensures
        ext(w.out, args_evaluated(cx, fuel, args, i, done, span, env, w).1.out),
    decreases fuel, 1nat, args.len() - i,
{
    if i < args.len() {
        match args[i as int] {
            Arg::Positional(e) => {
                print_evaluated(cx, fuel, e, env, w);
                match evaluated(cx, fuel, e, env, w) {
                    (Ok(v), w1) => {
                        print_args_evaluated(cx, fuel, args, i + 1, done.push(v), span, env, w1);
                    },
                    _ => {},
                }
            },
            _ => {},
        }
    }
}

pub(crate) proof fn print_method_args_evaluated(
    cx: Cx, fuel: nat, method: Seq<char>, args: Seq<Arg>, i: nat, done: Seq<Val>, span: Span,
    env: Env, w: World,
)
    ensures
        ext(w.out, method_args_evaluated(cx, fuel, method, args, i, done, span, env, w).1.out),
    decreases fuel, 1nat, args.len() - i,
{
    if i < args.len() {
        match args[i as int] {
            Arg::Positional(e) => {
                print_evaluated(cx, fuel, e, env, w);
                match evaluated(cx, fuel, e, env, w) {
                    (Ok(v), w1) => {
                        print_method_args_evaluated(
                            cx, fuel, method, args, i + 1, done.push(v), span, env, w1,
                        );
                    },
                    _ => {},
                }
            },
            _ => {},
        }
    }
}

pub(crate) proof fn print_params_filled(
    cx: Cx, fuel: nat, params: Seq<Param>, i: nat, k: nat, args: Seq<Val>, scope: Env,
    fn_name: Seq<char>, span: Span, w: World,
)
    ensures
        ext(w.out, params_filled(cx, fuel, params, i, k, args, scope, fn_name, span, w).1.out),
    decreases fuel, 1nat, params.len() - i,
{
    if i < params.len() {
        match params[i as int] {
            Param::SelfRecv => {
                print_params_filled(cx, fuel, params, i + 1, k, args, scope, fn_name, span, w);
            },
            Param::Named { name, default, .. } => {
                if k >= args.len() {
                    match default {
                        Some(e) => {
                            print_evaluated(cx, fuel, e, scope, w);
                        },
                        _ => {},
                    }
                }
                let got: Out<Val> = if k < args.len() {
                    (Ok(args[k as int]), w)
                } else {
                    match default {
                        Some(e) => evaluated(cx, fuel, e, scope, w),
                        None => (Err(arity_halt(fn_name, params, args.len(), span)), w),
                    }
                };
                match got {
                    (Ok(v), w1) => {
                        print_params_filled(
                            cx, fuel, params, i + 1, k + 1, args, scope, fn_name, span,
                            w1.with_var(scope, name@, v, false),
                        );
                    },
                    _ => {},
                }
            },
        }
    }
}

pub(crate) proof fn print_params_bound(
    cx: Cx, fuel: nat, params: Seq<Param>, args: Seq<Val>, scope: Env, fn_name: Seq<char>,
    span: Span, w: World,
)
    ensures
        ext(w.out, params_bound(cx, fuel, params, args, scope, fn_name, span, w).1.out),
    decreases fuel, 2nat, 0nat,
{
    if args.len() >= required_from(params, 0) && args.len() <= param_count(params, 0) {
        print_params_filled(cx, fuel, params, 0, 0, args, scope, fn_name, span, w);
    }
}

pub(crate) proof fn print_args_split(
    cx: Cx, fuel: nat, args: Seq<Arg>, i: nat, pos: Seq<Val>, named: Seq<(Seq<char>, Val)>,
    fn_name: Seq<char>, span: Span, env: Env, w: World,
)
    ensures
        ext(w.out, args_split(cx, fuel, args, i, pos, named, fn_name, span, env, w).1.out),
    decreases fuel, 1nat, args.len() - i,
{
    if i < args.len() {
        match args[i as int] {
            Arg::Positional(e) => {
                if named.len() <= 0 {
                    print_evaluated(cx, fuel, e, env, w);
                    match evaluated(cx, fuel, e, env, w) {
                        (Ok(v), w1) => {
                            print_args_split(
                                cx, fuel, args, i + 1, pos.push(v), named, fn_name, span, env, w1,
                            );
                        },
                        _ => {},
                    }
                }
            },
            Arg::Named { name, value } => {
                if !(lookup(named, name@) is Some) {
                    print_evaluated(cx, fuel, value, env, w);
                    match evaluated(cx, fuel, value, env, w) {
                        (Ok(v), w1) => {
                            print_args_split(
                                cx, fuel, args, i + 1, pos, bind(named, name@, v), fn_name, span,
                                env, w1,
                            );
                        },
                        _ => {},
                    }
                }
            },
        }
    }
}

pub(crate) proof fn print_args_filled(
    cx: Cx, fuel: nat, params: Seq<Param>, i: nat, k: nat, pos: Seq<Val>,
    named: Seq<(Seq<char>, Val)>, scope: Env, fn_name: Seq<char>, span: Span, w: World,
)
    ensures
        ext(w.out, args_filled(cx, fuel, params, i, k, pos, named, scope, fn_name, span, w).1.out),
    decreases fuel, 1nat, params.len() - i,
{
    if i < params.len() {
        match params[i as int] {
            Param::SelfRecv => {
                print_args_filled(cx, fuel, params, i + 1, k, pos, named, scope, fn_name, span, w);
            },
            Param::Named { name, default, .. } => {
                if k < pos.len() {
                    if !(lookup(named, name@) is Some) {
                        print_args_filled(
                            cx, fuel, params, i + 1, k + 1, pos, named, scope, fn_name, span,
                            w.with_var(scope, name@, pos[k as int], false),
                        );
                    }
                } else {
                    match lookup(named, name@) {
                        Some(v) => {
                            print_args_filled(
                                cx, fuel, params, i + 1, k, pos, unbind(named, name@), scope,
                                fn_name, span, w.with_var(scope, name@, v, false),
                            );
                        },
                        None => {
                            match default {
                                Some(e) => {
                                    print_evaluated(cx, fuel, e, scope, w);
                                    match evaluated(cx, fuel, e, scope, w) {
                                        (Ok(v), w1) => {
                                            print_args_filled(
                                                cx, fuel, params, i + 1, k, pos, named, scope,
                                                fn_name, span,
                                                w1.with_var(scope, name@, v, false),
                                            );
                                        },
                                        _ => {},
                                    }
                                },
                                _ => {},
                            }
                        },
                    }
                }
            },
        }
    }
}

pub(crate) proof fn print_call_bound(
    cx: Cx, fuel: nat, params: Seq<Param>, args: Seq<Arg>, scope: Env, fn_name: Seq<char>,
    span: Span, env: Env, w: World,
)
    ensures
        ext(w.out, call_bound(cx, fuel, params, args, scope, fn_name, span, env, w).1.out),
    decreases fuel, 2nat, 0nat,
{
    print_args_split(cx, fuel, args, 0, Seq::empty(), Seq::empty(), fn_name, span, env, w);
    match args_split(cx, fuel, args, 0, Seq::empty(), Seq::empty(), fn_name, span, env, w) {
        (Ok((pos, named)), w1) => {
            if pos.len() <= param_count(params, 0) {
                print_args_filled(cx, fuel, params, 0, 0, pos, named, scope, fn_name, span, w1);
            }
        },
        _ => {},
    }
}

pub(crate) proof fn print_function_called(
    cx: Cx, fuel: nat, decl: FnDecl, args: Seq<Arg>, scope: Env, span: Span, env: Env, w: World,
)
    ensures
        ext(w.out, function_called(cx, fuel, decl, args, scope, span, env, w).1.out),
    decreases fuel, 3nat, 0nat,
{
    print_call_bound(cx, fuel, decl.params@, args, scope, decl.name@, span, env, w);
    match call_bound(cx, fuel, decl.params@, args, scope, decl.name@, span, env, w) {
        (Ok(_), w1) => {
            print_stmts_executed(cx, fuel, decl.body.stmts@, 0, Val::Unit, scope, w1);
            print_body_ended(
                stmts_executed(cx, fuel, decl.body.stmts@, 0, Val::Unit, scope, w1),
                loop_message(), span,
            );
        },
        _ => {},
    }
}

pub(crate) proof fn print_closure_called(
    cx: Cx, fuel: nat, c: ClosureVal, args: Seq<Val>, span: Span, w: World,
)
    ensures
        ext(w.out, closure_called(cx, fuel, c, args, span, w).1.out),
    decreases fuel, 3nat, 0nat,
{
    let scope = w.next_scope();
    match c {
        ClosureVal::Function(decl, home) => {
            print_params_bound(
                cx, fuel, decl.params@, args, scope, decl.name@, span, w.add_scope(Some(home)),
            );
            let w0 = w.add_scope(Some(home));
            match params_bound(cx, fuel, decl.params@, args, scope, decl.name@, span, w0) {
                (Ok(_), w1) => {
                    print_stmts_executed(cx, fuel, decl.body.stmts@, 0, Val::Unit, scope, w1);
                    print_body_ended(
                        stmts_executed(cx, fuel, decl.body.stmts@, 0, Val::Unit, scope, w1),
                        loop_message(), span,
                    );
                },
                _ => {},
            }
        },
        ClosureVal::Lambda(l, home) => {
            let w1 = w.add_scope(Some(home));
            if args.len() == l.params@.len() {
                print_bound_all(w1, scope, texts(l.params@), args, false, 0);
                print_evaluated(
                    cx, fuel, *l.body, scope, bound_all(
                        w1, scope, texts(l.params@), args, false, 0,
                    ),
                );
                let w2 = bound_all(w1, scope, texts(l.params@), args, false, 0);
                match evaluated(cx, fuel, *l.body, scope, w2) {
                    (Err(h), w2) => {
                        print_intercepted(h, w2);
                    },
                    _ => {},
                }
            }
        },
    }
}

pub(crate) proof fn print_applied(cx: Cx, fuel: nat, callee: Val, args: Seq<Val>, span: Span, w: World)
    ensures
        ext(w.out, applied(cx, fuel, callee, args, span, w).1.out),
    decreases fuel, 4nat, 0nat,
{
    match callee {
        Val::Closure(c) => {
            print_closure_called(cx, fuel, c, args, span, w);
        },
        Val::Builtin(b) => {
            print_builtin_called(cx, fuel, b, args, span, w);
        },
        _ => {},
    }
}

pub(crate) proof fn print_call_evaluated(
    cx: Cx, fuel: nat, callee: Expr, args: Seq<Arg>, span: Span, env: Env, w: World,
)
    ensures
        ext(w.out, call_evaluated(cx, fuel, callee, args, span, env, w).1.out),
    decreases fuel, 11nat, 0nat,
{
    match callee.kind {
        ExprKind::Member { base, name, safe } => {
            print_member_called(cx, fuel, *base, name@, safe, args, span, env, w);
        },
        _ => {
            match struct_named(cx, callee, env, w) {
                Some((name, decl)) => {
                    print_struct_made(cx, fuel, decl, name, args, span, env, w);
                },
                None => {
                    print_evaluated(cx, fuel, callee, env, w);
                    match evaluated(cx, fuel, callee, env, w) {
                        (Ok(Val::Closure(ClosureVal::Function(decl, home))), w1) => {
                            print_function_called(
                                cx, fuel, decl, args, w1.next_scope(), span, env,
                                w1.add_scope(Some(home)),
                            );
                        },
                        (Ok(v), w1) => {
                            print_args_evaluated(cx, fuel, args, 0, Seq::empty(), span, env, w1);
                            match args_evaluated(cx, fuel, args, 0, Seq::empty(), span, env, w1) {
                                (Ok(vs), w2) => {
                                    print_applied(cx, fuel, v, vs, span, w2);
                                },
                                _ => {},
                            }
                        },
                        _ => {},
                    }
                },
            }
        },
    }
}

pub(crate) proof fn print_member_called(
    cx: Cx, fuel: nat, base: Expr, name: Seq<char>, safe: bool, args: Seq<Arg>, span: Span,
    env: Env, w: World,
)
    ensures
        ext(w.out, member_called(cx, fuel, base, name, safe, args, span, env, w).1.out),
    decreases fuel, 10nat, 0nat,
{
    let variant_of: Option<(Seq<char>, EnumShape)> = if safe {
        None
    } else {
        enum_named(cx, base, env, w)
    };
    match variant_of {
        Some((enum_name, decl)) => {
            print_variant_made(cx, fuel, decl, enum_name, name, args, span, env, w);
        },
        None => {
            print_evaluated(cx, fuel, base, env, w);
            match evaluated(cx, fuel, base, env, w) {
                (Ok(recv), w1) => {
                    if !(safe && recv is Null) {
                        if name == "or_else"@ {
                            print_args_evaluated(cx, fuel, args, 0, Seq::empty(), span, env, w1);
                        } else {
                            print_method_called(cx, fuel, recv, name, args, span, env, w1);
                        }
                    }
                },
                _ => {},
            }
        },
    }
}

pub(crate) proof fn print_method_called(
    cx: Cx, fuel: nat, recv: Val, name: Seq<char>, args: Seq<Arg>, span: Span, env: Env, w: World,
)
    ensures
        ext(w.out, method_called(cx, fuel, recv, name, args, span, env, w).1.out),
    decreases fuel, 9nat, 0nat,
{
    if name == "expect"@ {
        print_args_evaluated(cx, fuel, args, 0, Seq::empty(), span, env, w);
    } else {
        match declared_type(recv, w) {
            None => {
                print_builtin_method_called(cx, fuel, recv, name, args, span, env, w);
            },
            Some(owner) => {
                match cx.reg.method(owner, name) {
                    Some(decl) => {
                        let scope = w.next_scope();
                        let w0 = w.add_scope(Some(outermost(w, env)));
                        let w1 = w0.with_var(scope, "self"@, recv, false);
                        print_function_called(cx, fuel, decl, args, scope, span, env, w1);
                    },
                    _ => {},
                }
            },
        }
    }
}

pub(crate) proof fn print_fields_by_name(
    cx: Cx, fuel: nat, order: Seq<Seq<char>>, args: Seq<Arg>, i: nat,
    fields: Seq<(Seq<char>, Val)>, name: Seq<char>, span: Span, env: Env, w: World,
)
    ensures
        ext(w.out, fields_by_name(cx, fuel, order, args, i, fields, name, span, env, w).1.out),
    decreases fuel, 1nat, args.len() - i,
{
    if i < args.len() {
        match args[i as int] {
            Arg::Named { name: field, value } => {
                if order.contains(field@) {
                    print_evaluated(cx, fuel, value, env, w);
                    match evaluated(cx, fuel, value, env, w) {
                        (Ok(v), w1) => {
                            print_fields_by_name(
                                cx, fuel, order, args, i + 1, bind(fields, field@, v), name, span,
                                env, w1,
                            );
                        },
                        _ => {},
                    }
                }
            },
            Arg::Positional(_) => {
                print_fields_by_name(cx, fuel, order, args, i + 1, fields, name, span, env, w);
            },
        }
    }
}

pub(crate) proof fn print_fields_in_order(
    cx: Cx, fuel: nat, order: Seq<Seq<char>>, args: Seq<Arg>, i: nat,
    fields: Seq<(Seq<char>, Val)>, env: Env, w: World,
)
    ensures
        ext(w.out, fields_in_order(cx, fuel, order, args, i, fields, env, w).1.out),
    decreases fuel, 1nat, args.len() - i,
{
    if i < args.len() && i < order.len() {
        match args[i as int] {
            Arg::Positional(e) => {
                print_evaluated(cx, fuel, e, env, w);
                match evaluated(cx, fuel, e, env, w) {
                    (Ok(v), w1) => {
                        print_fields_in_order(
                            cx, fuel, order, args, i + 1, bind(fields, order[i as int], v), env,
                            w1,
                        );
                    },
                    _ => {},
                }
            },
            Arg::Named { .. } => {
                print_fields_in_order(cx, fuel, order, args, i + 1, fields, env, w);
            },
        }
    }
}

pub(crate) proof fn print_struct_made(
    cx: Cx, fuel: nat, decl: StructShape, name: Seq<char>, args: Seq<Arg>, span: Span, env: Env,
    w: World,
)
    ensures
        ext(w.out, struct_made(cx, fuel, decl, name, args, span, env, w).1.out),
    decreases fuel, 2nat, 0nat,
{
    if !(args.len() > 0 && !all_named(args) && !all_positional(args)) {
        if args.len() > 0 && all_named(args) {
            print_fields_by_name(cx, fuel, decl.fields, args, 0, Seq::empty(), name, span, env, w);
            print_struct_finished(
                decl, name,
                fields_by_name(cx, fuel, decl.fields, args, 0, Seq::empty(), name, span, env, w),
                span,
            );
        } else {
            if args.len() == decl.fields.len() {
                print_fields_in_order(cx, fuel, decl.fields, args, 0, Seq::empty(), env, w);
                print_struct_finished(
                    decl, name,
                    fields_in_order(cx, fuel, decl.fields, args, 0, Seq::empty(), env, w), span,
                );
            }
        }
    }
}

pub(crate) proof fn print_payload_positional(
    cx: Cx, fuel: nat, variant: Seq<char>, args: Seq<Arg>, i: nat, done: Payloads, span: Span,
    env: Env, w: World,
)
    ensures
        ext(w.out, payload_positional(cx, fuel, variant, args, i, done, span, env, w).1.out),
    decreases fuel, 1nat, args.len() - i,
{
    if i < args.len() {
        match args[i as int] {
            Arg::Positional(e) => {
                print_evaluated(cx, fuel, e, env, w);
                match evaluated(cx, fuel, e, env, w) {
                    (Ok(v), w1) => {
                        print_payload_positional(
                            cx, fuel, variant, args, i + 1,
                            Payloads { values: done.values.push(v), ..done }, span, env, w1,
                        );
                    },
                    _ => {},
                }
            },
            _ => {},
        }
    }
}

pub(crate) proof fn print_payload_by_name(
    cx: Cx, fuel: nat, variant: Seq<char>, names: Seq<Seq<char>>, args: Seq<Arg>, i: nat,
    done: Payloads, span: Span, env: Env, w: World,
)
    ensures
        ext(w.out, payload_by_name(cx, fuel, variant, names, args, i, done, span, env, w).1.out),
    decreases fuel, 1nat, names.len() - i,
{
    if i < names.len() {
        match arg_named(args, names[i as int], 0) {
            Some(e) => {
                print_evaluated(cx, fuel, e, env, w);
                match evaluated(cx, fuel, e, env, w) {
                    (Ok(v), w1) => {
                        print_payload_by_name(
                            cx, fuel, variant, names, args, i + 1,
                            Payloads {
                                values: done.values.push(v),
                                names: done.names.push(names[i as int]),
                            },
                            span, env, w1,
                        );
                    },
                    _ => {},
                }
            },
            _ => {},
        }
    }
}

pub(crate) proof fn print_payload_in_order(
    cx: Cx, fuel: nat, names: Seq<Seq<char>>, args: Seq<Arg>, i: nat, done: Payloads, env: Env,
    w: World,
)
    ensures
        ext(w.out, payload_in_order(cx, fuel, names, args, i, done, env, w).1.out),
    decreases fuel, 1nat, args.len() - i,
{
    if i < args.len() && i < names.len() {
        let e = arg_value(args[i as int]);
        print_evaluated(cx, fuel, e, env, w);
        match evaluated(cx, fuel, e, env, w) {
            (Ok(v), w1) => {
                let more = Payloads {
                    values: done.values.push(v),
                    names: done.names.push(names[i as int]),
                };
                print_payload_in_order(
                    cx, fuel, names, args, i + 1, more, env, w1,
                );
            },
            _ => {},
        }
    }
}

pub(crate) proof fn print_variant_made(
    cx: Cx, fuel: nat, decl: EnumShape, enum_name: Seq<char>, variant: Seq<char>, args: Seq<Arg>,
    span: Span, env: Env, w: World,
)
    ensures
        ext(w.out, variant_made(cx, fuel, decl, enum_name, variant, args, span, env, w).1.out),
    decreases fuel, 3nat, 0nat,
{
    let at = variant_place(decl.variants, variant, 0);
    if at < decl.variants.len() {
        print_payload_made(cx, fuel, decl.variants[at as int].payload, variant, args, span, env, w);
    }
}

pub(crate) proof fn print_payload_made(
    cx: Cx, fuel: nat, shape: PayloadShape, variant: Seq<char>, args: Seq<Arg>, span: Span,
    env: Env, w: World,
)
    ensures
        ext(w.out, payload_made(cx, fuel, shape, variant, args, span, env, w).1.out),
    decreases fuel, 2nat, 0nat,
{
    match shape {
        PayloadShape::Positional(n) => {
            if args.len() == n {
                print_payload_positional(cx, fuel, variant, args, 0, no_payload(), span, env, w);
            }
        },
        PayloadShape::Named(names) => {
            if args.len() == names.len() {
                if all_named(args) && args.len() > 0 {
                    print_payload_by_name(
                        cx, fuel, variant, names, args, 0, no_payload(), span, env, w,
                    );
                } else {
                    print_payload_in_order(cx, fuel, names, args, 0, no_payload(), env, w);
                }
            }
        },
        _ => {},
    }
}

pub(crate) proof fn print_builtin_method_called(
    cx: Cx, fuel: nat, recv: Val, name: Seq<char>, args: Seq<Arg>, span: Span, env: Env, w: World,
)
    ensures
        ext(w.out, builtin_method_called(cx, fuel, recv, name, args, span, env, w).1.out),
    decreases fuel, 8nat, 0nat,
{
    print_method_args_evaluated(cx, fuel, name, args, 0, Seq::empty(), span, env, w);
    match method_args_evaluated(cx, fuel, name, args, 0, Seq::empty(), span, env, w) {
        (Ok(vs), w1) => {
            match recv {
                Val::List(at) => {
                    print_list_called(cx, fuel, at, name, vs, span, w1);
                },
                Val::MapRef(at) => {
                    print_map_called(fuel, at, name, vs, span, w1);
                },
                Val::SetRef(at) => {
                    print_set_called(fuel, at, name, vs, span, w1);
                },
                _ => {},
            }
        },
        _ => {},
    }
}

pub(crate) proof fn print_predicate(cx: Cx, fuel: nat, p: Val, item: Val, span: Span, w: World)
    ensures
        ext(w.out, predicate(cx, fuel, p, item, span, w).1.out),
    decreases fuel, 5nat, 0nat,
{
    print_applied(cx, fuel, p, seq ![item], span, w);
}

pub(crate) proof fn print_mapped(
    cx: Cx, fuel: nat, g: Val, items: Seq<Val>, i: nat, done: Seq<Val>, span: Span, w: World,
)
    ensures
        ext(w.out, mapped(cx, fuel, g, items, i, done, span, w).1.out),
    decreases fuel, 6nat, items.len() - i,
{
    if i < items.len() {
        print_applied(cx, fuel, g, seq ![items[i as int]], span, w);
        match applied(cx, fuel, g, seq ![items[i as int]], span, w) {
            (Ok(v), w1) => {
                print_mapped(cx, fuel, g, items, i + 1, done.push(v), span, w1);
            },
            _ => {},
        }
    }
}

pub(crate) proof fn print_filtered(
    cx: Cx, fuel: nat, p: Val, items: Seq<Val>, i: nat, done: Seq<Val>, span: Span, w: World,
)
    ensures
        ext(w.out, filtered(cx, fuel, p, items, i, done, span, w).1.out),
    decreases fuel, 6nat, items.len() - i,
{
    if i < items.len() {
        print_predicate(cx, fuel, p, items[i as int], span, w);
        match predicate(cx, fuel, p, items[i as int], span, w) {
            (Ok(true), w1) => {
                print_filtered(cx, fuel, p, items, i + 1, done.push(items[i as int]), span, w1);
            },
            (Ok(false), w1) => {
                print_filtered(cx, fuel, p, items, i + 1, done, span, w1);
            },
            _ => {},
        }
    }
}

pub(crate) proof fn print_folded(
    cx: Cx, fuel: nat, g: Val, items: Seq<Val>, i: nat, acc: Val, span: Span, w: World,
)
    ensures
        ext(w.out, folded(cx, fuel, g, items, i, acc, span, w).1.out),
    decreases fuel, 6nat, items.len() - i,
{
    if i < items.len() {
        print_applied(cx, fuel, g, seq ![acc, items[i as int]], span, w);
        match applied(cx, fuel, g, seq ![acc, items[i as int]], span, w) {
            (Ok(v), w1) => {
                print_folded(cx, fuel, g, items, i + 1, v, span, w1);
            },
            _ => {},
        }
    }
}

pub(crate) proof fn print_sought(
    cx: Cx, fuel: nat, p: Val, items: Seq<Val>, i: nat, want: bool, span: Span, w: World,
)
    ensures
        ext(w.out, sought(cx, fuel, p, items, i, want, span, w).1.out),
    decreases fuel, 6nat, items.len() - i,
{
    if i < items.len() {
        print_predicate(cx, fuel, p, items[i as int], span, w);
        match predicate(cx, fuel, p, items[i as int], span, w) {
            (Ok(b), w1) => {
                if b != want {
                    print_sought(cx, fuel, p, items, i + 1, want, span, w1);
                }
            },
            _ => {},
        }
    }
}

pub(crate) proof fn print_list_callback(
    cx: Cx, fuel: nat, at: usize, name: Seq<char>, args: Seq<Val>, span: Span, w: World,
)
    ensures
        list_callback(cx, fuel, at, name, args, span, w) matches Some(o) ==> ext(w.out, o.1.out),
    decreases fuel, 7nat, 0nat,
{
    let items = w.list(at);
    if name == "fold"@ {
        match two_args(name, args, span) {
            Ok((init, g)) => {
                print_folded(cx, fuel, g, items, 0, init, span, w);
            },
            _ => {},
        }
    } else {
        if name == "map"@ || name == "filter"@ || name == "reduce"@ || name == "any"@ || name
            == "all"@ || name == "find"@ {
            match one_arg(name, args, span) {
                Ok(g) => {
                    if name == "map"@ {
                        print_mapped(cx, fuel, g, items, 0, Seq::empty(), span, w);
                    } else {
                        if name == "filter"@ {
                            print_filtered(cx, fuel, g, items, 0, Seq::empty(), span, w);
                        } else {
                            if name == "reduce"@ {
                                if items.len() != 0 {
                                    print_folded(cx, fuel, g, items, 1, items[0], span, w);
                                }
                            } else {
                                print_sought(cx, fuel, g, items, 0, name != "all"@, span, w);
                            }
                        }
                    }
                },
                _ => {},
            }
        }
    }
}

pub(crate) proof fn print_list_called(
    cx: Cx, fuel: nat, at: usize, name: Seq<char>, args: Seq<Val>, span: Span, w: World,
)
    ensures
        ext(w.out, list_called(cx, fuel, at, name, args, span, w).1.out),
    decreases fuel, 7nat, 1nat,
{
    print_list_callback(cx, fuel, at, name, args, span, w);
    match list_callback(cx, fuel, at, name, args, span, w) {
        None => {
            print_list_with_arg(fuel, at, name, args, span, w);
            match list_with_arg(fuel, at, name, args, span, w) {
                None => {
                    if is_plain_list_method(name) {
                        match no_args(name, args, span) {
                            Ok(_) => {
                                print_list_plain(cx, fuel, at, name, span, w);
                            },
                            _ => {},
                        }
                    }
                },
                _ => {},
            }
        },
        _ => {},
    }
}

pub(crate) proof fn print_arms_run(
    cx: Cx, fuel: nat, arms: Seq<MatchArm>, i: nat, v: Val, span: Span, env: Env, w: World,
)
    ensures
        ext(w.out, arms_run(cx, fuel, arms, i, v, span, env, w).1.out),
    decreases fuel, 3nat, arms.len() - i,
{
    if i < arms.len() {
        let arm = arms[i as int];
        let scope = w.next_scope();
        print_matched(arm.pattern, v, scope, w.add_scope(Some(env)));
        match matched(arm.pattern, v, scope, w.add_scope(Some(env))) {
            (false, w1) => {
                print_arms_run(cx, fuel, arms, i + 1, v, span, env, w1);
            },
            (true, w1) => {
                match arm.guard {
                    Some(guard) => {
                        print_condition(cx, fuel, guard, scope, w1);
                    },
                    _ => {},
                }
                let passed: Out<bool> = match arm.guard {
                    Some(guard) => condition(cx, fuel, guard, scope, w1),
                    None => (Ok(true), w1),
                };
                match passed {
                    (Ok(true), w2) => {
                        print_stmts_executed(cx, fuel, arm.body.stmts@, 0, Val::Unit, scope, w2);
                    },
                    (Ok(false), w2) => {
                        print_arms_run(cx, fuel, arms, i + 1, v, span, env, w2);
                    },
                    _ => {},
                }
            },
        }
    }
}

pub(crate) proof fn print_match_evaluated(cx: Cx, fuel: nat, m: MatchExpr, span: Span, env: Env, w: World)
    ensures
        ext(w.out, match_evaluated(cx, fuel, m, span, env, w).1.out),
    decreases fuel, 5nat, 0nat,
{
    print_match_run(cx, fuel, m, span, env, w);
}

pub(crate) proof fn print_match_run(cx: Cx, fuel: nat, m: MatchExpr, span: Span, env: Env, w: World)
    ensures
        ext(w.out, match_run(cx, fuel, m, span, env, w).1.out),
    decreases fuel, 4nat, 0nat,
{
    print_evaluated(cx, fuel, *m.scrutinee, env, w);
    match evaluated(cx, fuel, *m.scrutinee, env, w) {
        (Ok(v), w1) => {
            print_arms_run(cx, fuel, m.arms@, 0, v, span, env, w1);
        },
        _ => {},
    }
}

pub(crate) proof fn print_executed(cx: Cx, fuel: nat, s: Stmt, env: Env, w: World)
    ensures
        ext(w.out, executed(cx, fuel, s, env, w).1.out),
    decreases fuel, 0nat, 0nat,
{
    if fuel != 0 {
        let f = (fuel - 1) as nat;
        match s.kind {
            StmtKind::Binding(b) => {
                print_evaluated(cx, f, b.value, env, w);
                match evaluated(cx, f, b.value, env, w) {
                    (Ok(v), w1) => {
                        print_bound(b, v, s.span, env, w1);
                    },
                    _ => {},
                }
            },
            StmtKind::Assign(a) => {
                print_assigned(cx, f, a, env, w);
            },
            StmtKind::Return(Some(e)) => {
                print_evaluated(cx, f, e, env, w);
            },
            StmtKind::Expr(e) => {
                match e.kind {
                    ExprKind::Match(m) => {
                        print_match_run(cx, f, m, e.span, env, w);
                    },
                    _ => {
                        print_evaluated(cx, f, e, env, w);
                    },
                }
            },
            StmtKind::If(c) => {
                print_if_run(cx, f, c, 0, env, w);
            },
            StmtKind::While(l) => {
                print_while_run(cx, f, l, env, w);
            },
            StmtKind::For(l) => {
                print_for_run(cx, f, l, env, w);
            },
            _ => {},
        }
    }
}

pub(crate) proof fn print_stmts_executed(
    cx: Cx, fuel: nat, stmts: Seq<Stmt>, i: nat, last: Val, env: Env, w: World,
)
    ensures
        ext(w.out, stmts_executed(cx, fuel, stmts, i, last, env, w).1.out),
    decreases fuel, 1nat, stmts.len() - i,
{
    if i < stmts.len() {
        print_executed(cx, fuel, stmts[i as int], env, w);
        match executed(cx, fuel, stmts[i as int], env, w) {
            (Ok(FlowVal::Normal(v)), w1) => {
                print_stmts_executed(cx, fuel, stmts, i + 1, v, env, w1);
            },
            _ => {},
        }
    }
}

pub(crate) proof fn print_block_run(cx: Cx, fuel: nat, b: Block, parent: Env, w: World)
    ensures
        ext(w.out, block_run(cx, fuel, b, parent, w).1.out),
    decreases fuel, 2nat, 0nat,
{
    print_stmts_executed(
        cx, fuel, b.stmts@, 0, Val::Unit, w.next_scope(), w.add_scope(Some(parent)),
    );
}

pub(crate) proof fn print_if_run(cx: Cx, fuel: nat, s: IfStmt, i: nat, env: Env, w: World)
    ensures
        ext(w.out, if_run(cx, fuel, s, i, env, w).1.out),
    decreases fuel, 3nat, s.arms@.len() - i,
{
    if i >= s.arms@.len() {
        match s.else_body {
            Some(b) => {
                print_block_run(cx, fuel, b, env, w);
            },
            _ => {},
        }
    } else {
        print_condition(cx, fuel, s.arms@[i as int].0, env, w);
        match condition(cx, fuel, s.arms@[i as int].0, env, w) {
            (Ok(true), w1) => {
                print_block_run(cx, fuel, s.arms@[i as int].1, env, w1);
            },
            (Ok(false), w1) => {
                print_if_run(cx, fuel, s, i + 1, env, w1);
            },
            _ => {},
        }
    }
}

pub(crate) proof fn print_while_run(cx: Cx, fuel: nat, s: WhileStmt, env: Env, w: World)
    ensures
        ext(w.out, while_run(cx, fuel, s, env, w).1.out),
    decreases fuel, 0nat, 0nat,
{
    if fuel != 0 {
        let f = (fuel - 1) as nat;
        print_condition(cx, f, s.cond, env, w);
        match condition(cx, f, s.cond, env, w) {
            (Ok(true), w1) => {
                print_block_run(cx, f, s.body, env, w1);
                match block_run(cx, f, s.body, env, w1) {
                    (Ok(flow), w2) => {
                        if loop_goes_on(flow) {
                            print_while_run(cx, f, s, env, w2);
                        }
                    },
                    _ => {},
                }
            },
            _ => {},
        }
    }
}

pub(crate) proof fn print_turns_run(
    cx: Cx, fuel: nat, s: ForStmt, items: Seq<Val>, i: nat, env: Env, w: World,
)
    ensures
        ext(w.out, turns_run(cx, fuel, s, items, i, env, w).1.out),
    decreases fuel, 3nat, items.len() - i,
{
    if i < items.len() {
        let scope = w.next_scope();
        print_item_bound(s.binder, items[i as int], scope, s.iter.span, w.add_scope(Some(env)));
        match item_bound(s.binder, items[i as int], scope, s.iter.span, w.add_scope(Some(env))) {
            (Ok(_), w1) => {
                print_stmts_executed(cx, fuel, s.body.stmts@, 0, Val::Unit, scope, w1);
                match stmts_executed(cx, fuel, s.body.stmts@, 0, Val::Unit, scope, w1) {
                    (Ok(flow), w2) => {
                        if loop_goes_on(flow) {
                            print_turns_run(cx, fuel, s, items, i + 1, env, w2);
                        }
                    },
                    _ => {},
                }
            },
            _ => {},
        }
    }
}

pub(crate) proof fn print_for_run(cx: Cx, fuel: nat, s: ForStmt, env: Env, w: World)
    ensures
        ext(w.out, for_run(cx, fuel, s, env, w).1.out),
    decreases fuel, 4nat, 0nat,
{
    print_evaluated(cx, fuel, s.iter, env, w);
    match evaluated(cx, fuel, s.iter, env, w) {
        (Ok(v), w1) => {
            match iterated(v, s.iter.span, w1) {
                Ok(items) => {
                    print_turns_run(cx, fuel, s, items, 0, env, w1);
                },
                _ => {},
            }
        },
        _ => {},
    }
}

pub(crate) proof fn print_stepped(
    cx: Cx, fuel: nat, container: Val, seg: TargetSeg, span: Span, env: Env, w: World,
)
    ensures
        ext(w.out, stepped(cx, fuel, container, seg, span, env, w).1.out),
    decreases fuel, 1nat, 0nat,
{
    match seg {
        TargetSeg::Index(e) => {
            print_evaluated(cx, fuel, e, env, w);
        },
        _ => {},
    }
}

pub(crate) proof fn print_navigated(
    cx: Cx, fuel: nat, container: Val, path: Seq<TargetSeg>, i: nat, span: Span, env: Env,
    w: World,
)
    ensures
        ext(w.out, navigated(cx, fuel, container, path, i, span, env, w).1.out),
    decreases fuel, 2nat, path.len() - i,
{
    if i + 1 < path.len() {
        print_stepped(cx, fuel, container, path[i as int], span, env, w);
        match stepped(cx, fuel, container, path[i as int], span, env, w) {
            (Ok(v), w1) => {
                print_navigated(cx, fuel, v, path, i + 1, span, env, w1);
            },
            _ => {},
        }
    }
}

pub(crate) proof fn print_written(
    cx: Cx, fuel: nat, container: Val, seg: TargetSeg, new: Val, span: Span, env: Env, w: World,
)
    ensures
        ext(w.out, written(cx, fuel, container, seg, new, span, env, w).1.out),
    decreases fuel, 1nat, 0nat,
{
    match seg {
        TargetSeg::Index(e) => {
            print_evaluated(cx, fuel, e, env, w);
        },
        _ => {},
    }
}

pub(crate) proof fn print_assigned(cx: Cx, fuel: nat, a: Assign, env: Env, w: World)
    ensures
        ext(w.out, assigned(cx, fuel, a, env, w).1.out),
    decreases fuel, 3nat, 0nat,
{
    let target = a.target;
    print_evaluated(cx, fuel, a.value, env, w);
    match evaluated(cx, fuel, a.value, env, w) {
        (Ok(new), w1) => {
            if target.path@.len() == 0 {
                print_reassigned(w1, env, target.base@, new);
            } else {
                match resolved(w1, env, target.base@) {
                    Some(base) => {
                        print_navigated(cx, fuel, base, target.path@, 0, target.span, env, w1);
                        match navigated(cx, fuel, base, target.path@, 0, target.span, env, w1) {
                            (Ok(container), w2) => {
                                print_written(
                                    cx, fuel, container, target.path@.last(), new, target.span,
                                    env, w2,
                                );
                            },
                            _ => {},
                        }
                    },
                    _ => {},
                }
            }
        },
        _ => {},
    }
}

pub(crate) proof fn print_top_executed(cx: Cx, fuel: nat, stmts: Seq<Stmt>, i: nat, root: Env, w: World)
    ensures
        ext(w.out, top_executed(cx, fuel, stmts, i, root, w).1.out),
    decreases stmts.len() - i,
{
    if i < stmts.len() {
        print_executed(cx, fuel, stmts[i as int], root, w);
        match executed(cx, fuel, stmts[i as int], root, w) {
            (Ok(_), w1) => {
                print_top_executed(cx, fuel, stmts, i + 1, root, w1);
            },
            _ => {},
        }
    }
}

} // verus!
