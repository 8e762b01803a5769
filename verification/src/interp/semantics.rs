//! The meaning of programs: what evaluating an expression, running a statement
//! or calling something gives, and what it does to the world.
//!
//! Each function here says of one construct what its result is and which world
//! it leaves. `fuel` bounds how deep evaluation nests and how often loops turn.

use super::collections::{
    count_arg, entries_of, entry_place, enumerated, extreme_of, item_place, kept, keys_of,
    list_arg, no_args, one_arg, put_all, put_item, put_pair, set_arg, skipped, sorted, summed,
    taken, two_args, values_of, zipped,
};
use super::env::{outermost, reassigned, resolved};
use super::ops::{
    arith_result, compare_result, is_arith, is_comparison, range_result, unary_result,
};
use super::show::{equal, label_of, literal_fits, shown, shown_items, variant_place};
use super::value::{
    failure, Builtin, ClosureVal, Env, EnumVal, Halt, StructVal, Val, World,
};
use super::{
    arity_message, body_ended, bool_of, bound_all, destructured, flow_ended, intercepted,
    no_method_message, unwind_message, Cx, FlowVal, Out,
};
use crate::ast::{
    Arg, Assign, BinOp, Binder, Binding, Block, Comprehension, ComprehensionBinder,
    ComprehensionOutput, EnumShape, Expr, ExprKind, FnDecl, ForStmt, IfStmt, MatchArm, MatchExpr,
    Param, Pattern, PatternKind, PayloadShape, Stmt, StmtKind, StrSeg, StructShape, TargetSeg,
    WhileStmt,
};
use crate::name_map::{bind, lookup, unbind};
use crate::text::{decimal, joined, signed_decimal, texts, Order};
use crate::token::Span;
use vstd::prelude::*;

verus! {

// ---------------------------------------------------------------------------
// Expressions
// ---------------------------------------------------------------------------

/// The value of an expression.
pub open spec fn evaluated(cx: Cx, fuel: nat, e: Expr, env: Env, w: World) -> Out<Val>
    decreases fuel, 0nat, 0nat,
{
    if fuel == 0 {
        (Err(Halt::Budget), w)
    } else {
        let f = (fuel - 1) as nat;
        match e.kind {
            ExprKind::Int(n) => (Ok(Val::Int(n@)), w),
            ExprKind::Float(bits) => (Ok(Val::Float(bits)), w),
            ExprKind::Bool(b) => (Ok(Val::Bool(b)), w),
            ExprKind::Null => (Ok(Val::Null), w),
            ExprKind::Str(lit) => match text_built(cx, f, lit.parts@, 0, Seq::empty(), env, w) {
                (Ok(s), w1) => (Ok(Val::Str(s)), w1),
                (Err(h), w1) => (Err(h), w1),
            },
            ExprKind::Name(name) => match resolved(w, env, name@) {
                Some(v) => (Ok(v), w),
                None => (Err(failure("undefined name `"@ + name@ + "`"@, e.span)), w),
            },
            ExprKind::SelfExpr => match resolved(w, env, "self"@) {
                Some(v) => (Ok(v), w),
                None => (Err(failure("`self` is not bound here"@, e.span)), w),
            },
            ExprKind::Try(inner) => match evaluated(cx, f, *inner, env, w) {
                (Ok(v), w1) => tried(v, e.span, w1),
                (Err(h), w1) => (Err(h), w1),
            },
            ExprKind::List(elems) => match items_evaluated(
                cx,
                f,
                elems@,
                0,
                Seq::empty(),
                env,
                w,
            ) {
                (Ok(vs), w1) => (Ok(Val::List(w1.next_list())), w1.add_list(vs)),
                (Err(h), w1) => (Err(h), w1),
            },
            ExprKind::Lambda(l) => (Ok(Val::Closure(ClosureVal::Lambda(*l, env))), w),
            ExprKind::Ternary { then, cond, otherwise } => match condition(cx, f, *cond, env, w) {
                (Ok(true), w1) => evaluated(cx, f, *then, env, w1),
                (Ok(false), w1) => evaluated(cx, f, *otherwise, env, w1),
                (Err(h), w1) => (Err(h), w1),
            },
            ExprKind::Unary { op, operand } => match evaluated(cx, f, *operand, env, w) {
                (Ok(v), w1) => (unary_result(op, v, operand.span), w1),
                (Err(h), w1) => (Err(h), w1),
            },
            ExprKind::Binary { op, lhs, rhs } => binary_evaluated(
                cx,
                f,
                op,
                *lhs,
                *rhs,
                e.span,
                env,
                w,
            ),
            ExprKind::Call { callee, args } => call_evaluated(
                cx,
                f,
                *callee,
                args@,
                e.span,
                env,
                w,
            ),
            ExprKind::Index { base, index } => index_evaluated(
                cx,
                f,
                *base,
                *index,
                e.span,
                env,
                w,
            ),
            ExprKind::Member { base, name, safe } => member_evaluated(
                cx,
                f,
                *base,
                name@,
                safe,
                e.span,
                env,
                w,
            ),
            ExprKind::Match(m) => match_evaluated(cx, f, m, e.span, env, w),
            ExprKind::MapLit(pairs) => match pairs_evaluated(
                cx,
                f,
                pairs@,
                0,
                Seq::empty(),
                env,
                w,
            ) {
                (Ok(ps), w1) => (Ok(Val::MapRef(w1.next_map())), w1.add_map(ps)),
                (Err(h), w1) => (Err(h), w1),
            },
            ExprKind::SetLit(items) => match members_evaluated(
                cx,
                f,
                items@,
                0,
                Seq::empty(),
                env,
                w,
            ) {
                (Ok(vs), w1) => (Ok(Val::SetRef(w1.next_set())), w1.add_set(vs)),
                (Err(h), w1) => (Err(h), w1),
            },
            ExprKind::Tuple(items) => match items_evaluated(
                cx,
                f,
                items@,
                0,
                Seq::empty(),
                env,
                w,
            ) {
                (Ok(vs), w1) => (Ok(Val::Tuple(vs)), w1),
                (Err(h), w1) => (Err(h), w1),
            },
            ExprKind::Comprehension(c) => comprehension_evaluated(cx, f, c, e.span, env, w),
        }
    }
}

/// What `try` gives on a value: the payload of an `Ok`; an `Err` unwinds to the
/// nearest call.
pub open spec fn tried(v: Val, span: Span, w: World) -> Out<Val> {
    match v {
        Val::Enum(e) => if e.enum_name == "Result"@ {
            if e.variant == "Ok"@ {
                (
                    Ok(
                        if e.payload.len() > 0 {
                            e.payload[0]
                        } else {
                            Val::Unit
                        },
                    ),
                    w,
                )
            } else if e.variant == "Err"@ {
                (Err(failure(unwind_message(), span)), w.with_propagating(Some(v)))
            } else {
                (Err(failure("`try` expects a `Result` (`Ok`/`Err`)"@, span)), w)
            }
        } else {
            (Err(failure("`try` can only be applied to a `Result` value"@, span)), w)
        },
        _ => (Err(failure("`try` can only be applied to a `Result` value"@, span)), w),
    }
}

/// The value of a condition, which must be a Boolean.
pub open spec fn condition(cx: Cx, fuel: nat, e: Expr, env: Env, w: World) -> Out<bool>
    decreases fuel, 1nat, 0nat,
{
    match evaluated(cx, fuel, e, env, w) {
        (Ok(Val::Bool(b)), w1) => (Ok(b), w1),
        (Ok(other), w1) => (
            Err(failure("condition must be Bool, found "@ + label_of(other), e.span)),
            w1,
        ),
        (Err(h), w1) => (Err(h), w1),
    }
}

/// `done`, and then the value of each expression from place `i` on.
pub open spec fn items_evaluated(
    cx: Cx,
    fuel: nat,
    elems: Seq<Expr>,
    i: nat,
    done: Seq<Val>,
    env: Env,
    w: World,
) -> Out<Seq<Val>>
    decreases fuel, 1nat, elems.len() - i,
{
    if i >= elems.len() {
        (Ok(done), w)
    } else {
        match evaluated(cx, fuel, elems[i as int], env, w) {
            (Ok(v), w1) => items_evaluated(cx, fuel, elems, i + 1, done.push(v), env, w1),
            (Err(h), w1) => (Err(h), w1),
        }
    }
}

/// `done` with the value of each expression from place `i` on put into it, as
/// into a set.
pub open spec fn members_evaluated(
    cx: Cx,
    fuel: nat,
    elems: Seq<Expr>,
    i: nat,
    done: Seq<Val>,
    env: Env,
    w: World,
) -> Out<Seq<Val>>
    decreases fuel, 1nat, elems.len() - i,
{
    if i >= elems.len() {
        (Ok(done), w)
    } else {
        match evaluated(cx, fuel, elems[i as int], env, w) {
            (Ok(v), w1) => match put_item(w1, fuel, done, v) {
                Ok(more) => members_evaluated(cx, fuel, elems, i + 1, more, env, w1),
                Err(h) => (Err(h), w1),
            },
            (Err(h), w1) => (Err(h), w1),
        }
    }
}

/// `done` with each pair from place `i` on put into it, as into a map.
pub open spec fn pairs_evaluated(
    cx: Cx,
    fuel: nat,
    pairs: Seq<(Expr, Expr)>,
    i: nat,
    done: Seq<(Val, Val)>,
    env: Env,
    w: World,
) -> Out<Seq<(Val, Val)>>
    decreases fuel, 1nat, pairs.len() - i,
{
    if i >= pairs.len() {
        (Ok(done), w)
    } else {
        match evaluated(cx, fuel, pairs[i as int].0, env, w) {
            (Ok(k), w1) => match evaluated(cx, fuel, pairs[i as int].1, env, w1) {
                (Ok(v), w2) => match put_pair(w2, fuel, done, k, v) {
                    Ok(more) => pairs_evaluated(cx, fuel, pairs, i + 1, more, env, w2),
                    Err(h) => (Err(h), w2),
                },
                (Err(h), w2) => (Err(h), w2),
            },
            (Err(h), w1) => (Err(h), w1),
        }
    }
}

/// `done`, and then the text of each part from place `i` on: text as it is,
/// expressions rendered.
pub open spec fn text_built(
    cx: Cx,
    fuel: nat,
    parts: Seq<StrSeg>,
    i: nat,
    done: Seq<char>,
    env: Env,
    w: World,
) -> Out<Seq<char>>
    decreases fuel, 1nat, parts.len() - i,
{
    if i >= parts.len() {
        (Ok(done), w)
    } else {
        match parts[i as int] {
            StrSeg::Text(t) => text_built(cx, fuel, parts, i + 1, done + t@, env, w),
            StrSeg::Expr(e) => match evaluated(cx, fuel, *e, env, w) {
                (Ok(v), w1) => match shown(cx.ans, w1, fuel, v) {
                    Ok(s) => text_built(cx, fuel, parts, i + 1, done + s, env, w1),
                    Err(h) => (Err(h), w1),
                },
                (Err(h), w1) => (Err(h), w1),
            },
        }
    }
}

/// The value of a binary expression. `and` and `or` evaluate the right side only
/// where the left one does not decide.
pub open spec fn binary_evaluated(
    cx: Cx,
    fuel: nat,
    op: BinOp,
    lhs: Expr,
    rhs: Expr,
    span: Span,
    env: Env,
    w: World,
) -> Out<Val>
    decreases fuel, 2nat, 0nat,
{
    if op == BinOp::And || op == BinOp::Or {
        let word = if op == BinOp::And {
            "and"@
        } else {
            "or"@
        };
        match evaluated(cx, fuel, lhs, env, w) {
            (Ok(l), w1) => match bool_of(l, lhs.span, word) {
                Ok(b) => if b == (op == BinOp::Or) {
                    (Ok(Val::Bool(b)), w1)
                } else {
                    match evaluated(cx, fuel, rhs, env, w1) {
                        (Ok(r), w2) => match bool_of(r, rhs.span, word) {
                            Ok(c) => (Ok(Val::Bool(c)), w2),
                            Err(h) => (Err(h), w2),
                        },
                        (Err(h), w2) => (Err(h), w2),
                    }
                },
                Err(h) => (Err(h), w1),
            },
            (Err(h), w1) => (Err(h), w1),
        }
    } else {
        match evaluated(cx, fuel, lhs, env, w) {
            (Ok(l), w1) => match evaluated(cx, fuel, rhs, env, w1) {
                (Ok(r), w2) => operated(cx, fuel, op, l, r, span, w2),
                (Err(h), w2) => (Err(h), w2),
            },
            (Err(h), w1) => (Err(h), w1),
        }
    }
}

/// `l op r` for an operator that evaluates both sides.
pub open spec fn operated(
    cx: Cx,
    fuel: nat,
    op: BinOp,
    l: Val,
    r: Val,
    span: Span,
    w: World,
) -> Out<Val> {
    if op == BinOp::Eq || op == BinOp::Is {
        match equal(w, fuel, l, r) {
            Some(b) => (Ok(Val::Bool(b)), w),
            None => (Err(Halt::Budget), w),
        }
    } else if op == BinOp::NotEq || op == BinOp::IsNot {
        match equal(w, fuel, l, r) {
            Some(b) => (Ok(Val::Bool(!b)), w),
            None => (Err(Halt::Budget), w),
        }
    } else if is_comparison(op) {
        (compare_result(cx.reg, w, fuel, op, l, r, span), w)
    } else if is_arith(op) {
        (arith_result(cx.ans, op, l, r, span), w)
    } else {
        match range_result(op, l, r, span) {
            Ok(items) => (Ok(Val::List(w.next_list())), w.add_list(items)),
            Err(h) => (Err(h), w),
        }
    }
}

/// The place that an index value names in a list of `len` items.
pub open spec fn index_place(idx: Val, len: nat, span: Span) -> Result<usize, Halt> {
    match idx {
        Val::Int(n) => if n < 0 || n > usize::MAX {
            Err(failure("list index out of bounds: "@ + signed_decimal(n), span))
        } else if n >= len {
            Err(
                failure(
                    "list index out of bounds: "@ + decimal(n as nat) + " (len "@ + decimal(len)
                        + ")"@,
                    span,
                ),
            )
        } else {
            Ok(n as usize)
        },
        other => Err(failure("list index must be Int, found "@ + label_of(other), span)),
    }
}

/// The item of a list at an index.
pub open spec fn indexed(base: Val, idx: Val, span: Span, w: World) -> Result<Val, Halt> {
    match base {
        Val::List(at) => match index_place(idx, w.list(at).len(), span) {
            Ok(i) => Ok(w.list(at)[i as int]),
            Err(h) => Err(h),
        },
        other => Err(failure("cannot index "@ + label_of(other), span)),
    }
}

pub open spec fn index_evaluated(
    cx: Cx,
    fuel: nat,
    base: Expr,
    index: Expr,
    span: Span,
    env: Env,
    w: World,
) -> Out<Val>
    decreases fuel, 1nat, 0nat,
{
    match evaluated(cx, fuel, base, env, w) {
        (Ok(b), w1) => match evaluated(cx, fuel, index, env, w1) {
            (Ok(i), w2) => (indexed(b, i, span, w2), w2),
            (Err(h), w2) => (Err(h), w2),
        },
        (Err(h), w1) => (Err(h), w1),
    }
}

/// The field of a struct.
pub open spec fn member_of(base: Val, name: Seq<char>, span: Span, w: World) -> Result<Val, Halt> {
    match base {
        Val::Struct(at) => match lookup(w.instance(at).fields, name) {
            Some(v) => Ok(v),
            None => Err(
                failure(
                    "struct `"@ + w.instance(at).name + "` has no field `"@ + name + "`"@,
                    span,
                ),
            ),
        },
        other => Err(failure("cannot access `."@ + name + "` on "@ + label_of(other), span)),
    }
}

/// The enum that an expression names: a name that is bound to no value.
pub open spec fn enum_named(cx: Cx, e: Expr, env: Env, w: World) -> Option<(
    Seq<char>,
    EnumShape,
)> {
    match e.kind {
        ExprKind::Name(n) => match resolved(w, env, n@) {
            Some(_) => None,
            None => match lookup(cx.reg.enums, n@) {
                Some(decl) => Some((n@, decl)),
                None => None,
            },
        },
        _ => None,
    }
}

/// `base.name`: a variant of an enum, or a field. `base?.name` is `null` where
/// `base` is.
pub open spec fn member_evaluated(
    cx: Cx,
    fuel: nat,
    base: Expr,
    name: Seq<char>,
    safe: bool,
    span: Span,
    env: Env,
    w: World,
) -> Out<Val>
    decreases fuel, 4nat, 0nat,
{
    if safe {
        match evaluated(cx, fuel, base, env, w) {
            (Ok(Val::Null), w1) => (Ok(Val::Null), w1),
            (Ok(v), w1) => (member_of(v, name, span, w1), w1),
            (Err(h), w1) => (Err(h), w1),
        }
    } else {
        match enum_named(cx, base, env, w) {
            Some((enum_name, decl)) => variant_made(
                cx,
                fuel,
                decl,
                enum_name,
                name,
                Seq::empty(),
                span,
                env,
                w,
            ),
            None => match evaluated(cx, fuel, base, env, w) {
                (Ok(v), w1) => (member_of(v, name, span, w1), w1),
                (Err(h), w1) => (Err(h), w1),
            },
        }
    }
}

/// What a comprehension has gathered.
pub struct Gathered {
    pub list: Seq<Val>,
    pub set: Seq<Val>,
    pub map: Seq<(Val, Val)>,
}

pub open spec fn nothing_gathered() -> Gathered {
    Gathered { list: Seq::empty(), set: Seq::empty(), map: Seq::empty() }
}

/// The items that a loop runs over.
pub open spec fn iterated(v: Val, span: Span, w: World) -> Result<Seq<Val>, Halt> {
    match v {
        Val::List(at) => Ok(w.list(at)),
        other => Err(failure("cannot iterate over "@ + label_of(other), span)),
    }
}

/// The binder of a comprehension bound to an item.
pub open spec fn binder_bound(
    b: ComprehensionBinder,
    item: Val,
    scope: Env,
    span: Span,
    w: World,
) -> Out<()> {
    match b {
        ComprehensionBinder::Name(n) => (Ok(()), w.with_var(scope, n@, item, false)),
        ComprehensionBinder::Tuple(names) => destructured(
            texts(names@),
            item,
            scope,
            false,
            span,
            w,
        ),
    }
}

/// What one turn of a comprehension adds to what it has gathered.
pub open spec fn gathered(
    cx: Cx,
    fuel: nat,
    output: ComprehensionOutput,
    so_far: Gathered,
    scope: Env,
    w: World,
) -> Out<Gathered>
    decreases fuel, 1nat, 0nat,
{
    match output {
        ComprehensionOutput::List(e) => match evaluated(cx, fuel, *e, scope, w) {
            (Ok(v), w1) => (Ok(Gathered { list: so_far.list.push(v), ..so_far }), w1),
            (Err(h), w1) => (Err(h), w1),
        },
        ComprehensionOutput::SetOut(e) => match evaluated(cx, fuel, *e, scope, w) {
            (Ok(v), w1) => match put_item(w1, fuel, so_far.set, v) {
                Ok(more) => (Ok(Gathered { set: more, ..so_far }), w1),
                Err(h) => (Err(h), w1),
            },
            (Err(h), w1) => (Err(h), w1),
        },
        ComprehensionOutput::MapOut { key, value } => match evaluated(cx, fuel, *key, scope, w) {
            (Ok(k), w1) => match evaluated(cx, fuel, *value, scope, w1) {
                (Ok(v), w2) => match put_pair(w2, fuel, so_far.map, k, v) {
                    Ok(more) => (Ok(Gathered { map: more, ..so_far }), w2),
                    Err(h) => (Err(h), w2),
                },
                (Err(h), w2) => (Err(h), w2),
            },
            (Err(h), w1) => (Err(h), w1),
        },
    }
}

/// What a comprehension gathers from the items from place `i` on: for each, in a
/// scope of its own, the output if the filter lets it through.
pub open spec fn turns_gathered(
    cx: Cx,
    fuel: nat,
    c: Comprehension,
    items: Seq<Val>,
    i: nat,
    so_far: Gathered,
    span: Span,
    env: Env,
    w: World,
) -> Out<Gathered>
    decreases fuel, 2nat, items.len() - i,
{
    if i >= items.len() {
        (Ok(so_far), w)
    } else {
        let scope = w.next_scope();
        match binder_bound(c.binder, items[i as int], scope, span, w.add_scope(Some(env))) {
            (Ok(_), w1) => {
                let passed: Out<bool> = match c.cond {
                    Some(cond) => condition(cx, fuel, *cond, scope, w1),
                    None => (Ok(true), w1),
                };
                match passed {
                    (Ok(false), w2) => turns_gathered(
                        cx,
                        fuel,
                        c,
                        items,
                        i + 1,
                        so_far,
                        span,
                        env,
                        w2,
                    ),
                    (Ok(true), w2) => match gathered(cx, fuel, c.output, so_far, scope, w2) {
                        (Ok(more), w3) => turns_gathered(
                            cx,
                            fuel,
                            c,
                            items,
                            i + 1,
                            more,
                            span,
                            env,
                            w3,
                        ),
                        (Err(h), w3) => (Err(h), w3),
                    },
                    (Err(h), w2) => (Err(h), w2),
                }
            },
            (Err(h), w1) => (Err(h), w1),
        }
    }
}

pub open spec fn comprehension_evaluated(
    cx: Cx,
    fuel: nat,
    c: Comprehension,
    span: Span,
    env: Env,
    w: World,
) -> Out<Val>
    decreases fuel, 3nat, 0nat,
{
    match evaluated(cx, fuel, *c.iter, env, w) {
        (Ok(v), w1) => match iterated(v, c.iter.span, w1) {
            Ok(items) => match turns_gathered(
                cx,
                fuel,
                c,
                items,
                0,
                nothing_gathered(),
                span,
                env,
                w1,
            ) {
                (Ok(g), w2) => match c.output {
                    ComprehensionOutput::List(_) => (
                        Ok(Val::List(w2.next_list())),
                        w2.add_list(g.list),
                    ),
                    ComprehensionOutput::SetOut(_) => (
                        Ok(Val::SetRef(w2.next_set())),
                        w2.add_set(g.set),
                    ),
                    ComprehensionOutput::MapOut { .. } => (
                        Ok(Val::MapRef(w2.next_map())),
                        w2.add_map(g.map),
                    ),
                },
                (Err(h), w2) => (Err(h), w2),
            },
            Err(h) => (Err(h), w1),
        },
        (Err(h), w1) => (Err(h), w1),
    }
}

// ---------------------------------------------------------------------------
// Calls
// ---------------------------------------------------------------------------

/// `done`, and then the value of each argument from place `i` on. None may be
/// named.
pub open spec fn args_evaluated(
    cx: Cx,
    fuel: nat,
    args: Seq<Arg>,
    i: nat,
    done: Seq<Val>,
    span: Span,
    env: Env,
    w: World,
) -> Out<Seq<Val>>
    decreases fuel, 1nat, args.len() - i,
{
    if i >= args.len() {
        (Ok(done), w)
    } else {
        match args[i as int] {
            Arg::Positional(e) => match evaluated(cx, fuel, e, env, w) {
                (Ok(v), w1) => args_evaluated(cx, fuel, args, i + 1, done.push(v), span, env, w1),
                (Err(h), w1) => (Err(h), w1),
            },
            Arg::Named { name, .. } => (
                Err(
                    failure(
                        "named argument `"@ + name@ + "` is only valid in construction"@,
                        span,
                    ),
                ),
                w,
            ),
        }
    }
}

/// The same for the arguments of a built-in method.
pub open spec fn method_args_evaluated(
    cx: Cx,
    fuel: nat,
    method: Seq<char>,
    args: Seq<Arg>,
    i: nat,
    done: Seq<Val>,
    span: Span,
    env: Env,
    w: World,
) -> Out<Seq<Val>>
    decreases fuel, 1nat, args.len() - i,
{
    if i >= args.len() {
        (Ok(done), w)
    } else {
        match args[i as int] {
            Arg::Positional(e) => match evaluated(cx, fuel, e, env, w) {
                (Ok(v), w1) => method_args_evaluated(
                    cx,
                    fuel,
                    method,
                    args,
                    i + 1,
                    done.push(v),
                    span,
                    env,
                    w1,
                ),
                (Err(h), w1) => (Err(h), w1),
            },
            Arg::Named { name, .. } => (
                Err(
                    failure(
                        "built-in method `."@ + method
                            + "` takes positional arguments only; named argument `"@ + name@
                            + "` is not allowed"@,
                        span,
                    ),
                ),
                w,
            ),
        }
    }
}

/// How many parameters from place `i` on a call fills.
pub open spec fn param_count(params: Seq<Param>, i: nat) -> nat
    decreases params.len() - i,
{
    if i >= params.len() {
        0
    } else {
        match params[i as int] {
            Param::SelfRecv => param_count(params, i + 1),
            Param::Named { .. } => 1 + param_count(params, i + 1),
        }
    }
}

/// How many of them come before the first that has a default.
pub open spec fn required_from(params: Seq<Param>, i: nat) -> nat
    decreases params.len() - i,
{
    if i >= params.len() {
        0
    } else {
        match params[i as int] {
            Param::SelfRecv => required_from(params, i + 1),
            Param::Named { default: None, .. } => 1 + required_from(params, i + 1),
            Param::Named { default: Some(_), .. } => 0,
        }
    }
}

/// The error of a call with `got` arguments.
pub open spec fn arity_halt(
    fn_name: Seq<char>,
    params: Seq<Param>,
    got: nat,
    span: Span,
) -> Halt {
    failure(
        arity_message(
            fn_name,
            required_from(params, 0) as usize,
            param_count(params, 0) as usize,
            got as usize,
        ),
        span,
    )
}

/// The parameters from place `i` on, bound to the arguments from place `k` on;
/// where those run out, to the defaults.
pub open spec fn params_filled(
    cx: Cx,
    fuel: nat,
    params: Seq<Param>,
    i: nat,
    k: nat,
    args: Seq<Val>,
    scope: Env,
    fn_name: Seq<char>,
    span: Span,
    w: World,
) -> Out<()>
    decreases fuel, 1nat, params.len() - i,
{
    if i >= params.len() {
        (Ok(()), w)
    } else {
        match params[i as int] {
            Param::SelfRecv => params_filled(
                cx,
                fuel,
                params,
                i + 1,
                k,
                args,
                scope,
                fn_name,
                span,
                w,
            ),
            Param::Named { name, default, .. } => {
                let got: Out<Val> = if k < args.len() {
                    (Ok(args[k as int]), w)
                } else {
                    match default {
                        Some(e) => evaluated(cx, fuel, e, scope, w),
                        None => (Err(arity_halt(fn_name, params, args.len(), span)), w),
                    }
                };
                match got {
                    (Ok(v), w1) => params_filled(
                        cx,
                        fuel,
                        params,
                        i + 1,
                        k + 1,
                        args,
                        scope,
                        fn_name,
                        span,
                        w1.with_var(scope, name@, v, false),
                    ),
                    (Err(h), w1) => (Err(h), w1),
                }
            },
        }
    }
}

/// Parameters bound to values: not fewer than the required ones, not more than
/// there are.
pub open spec fn params_bound(
    cx: Cx,
    fuel: nat,
    params: Seq<Param>,
    args: Seq<Val>,
    scope: Env,
    fn_name: Seq<char>,
    span: Span,
    w: World,
) -> Out<()>
    decreases fuel, 2nat, 0nat,
{
    if args.len() < required_from(params, 0) || args.len() > param_count(params, 0) {
        (Err(arity_halt(fn_name, params, args.len(), span)), w)
    } else {
        params_filled(cx, fuel, params, 0, 0, args, scope, fn_name, span, w)
    }
}

/// Arguments sorted into those by position and those by name. No argument by
/// position follows one by name, and no name comes twice.
pub open spec fn args_split(
    cx: Cx,
    fuel: nat,
    args: Seq<Arg>,
    i: nat,
    pos: Seq<Val>,
    named: Seq<(Seq<char>, Val)>,
    fn_name: Seq<char>,
    span: Span,
    env: Env,
    w: World,
) -> Out<(Seq<Val>, Seq<(Seq<char>, Val)>)>
    decreases fuel, 1nat, args.len() - i,
{
    if i >= args.len() {
        (Ok((pos, named)), w)
    } else {
        match args[i as int] {
            Arg::Positional(e) => if named.len() > 0 {
                (
                    Err(
                        failure(
                            "`"@ + fn_name + "`: positional argument after a named argument"@,
                            span,
                        ),
                    ),
                    w,
                )
            } else {
                match evaluated(cx, fuel, e, env, w) {
                    (Ok(v), w1) => args_split(
                        cx,
                        fuel,
                        args,
                        i + 1,
                        pos.push(v),
                        named,
                        fn_name,
                        span,
                        env,
                        w1,
                    ),
                    (Err(h), w1) => (Err(h), w1),
                }
            },
            Arg::Named { name, value } => if lookup(named, name@) is Some {
                (
                    Err(
                        failure(
                            "`"@ + fn_name + "`: duplicate argument `"@ + name@ + "`"@,
                            span,
                        ),
                    ),
                    w,
                )
            } else {
                match evaluated(cx, fuel, value, env, w) {
                    (Ok(v), w1) => args_split(
                        cx,
                        fuel,
                        args,
                        i + 1,
                        pos,
                        bind(named, name@, v),
                        fn_name,
                        span,
                        env,
                        w1,
                    ),
                    (Err(h), w1) => (Err(h), w1),
                }
            },
        }
    }
}

/// The parameters from place `i` on, each bound to the next argument by position
/// from place `k` on, else to the argument of its name, else to its default. The
/// result is the arguments by name that no parameter took.
pub open spec fn args_filled(
    cx: Cx,
    fuel: nat,
    params: Seq<Param>,
    i: nat,
    k: nat,
    pos: Seq<Val>,
    named: Seq<(Seq<char>, Val)>,
    scope: Env,
    fn_name: Seq<char>,
    span: Span,
    w: World,
) -> Out<Seq<(Seq<char>, Val)>>
    decreases fuel, 1nat, params.len() - i,
{
    if i >= params.len() {
        (Ok(named), w)
    } else {
        match params[i as int] {
            Param::SelfRecv => args_filled(
                cx,
                fuel,
                params,
                i + 1,
                k,
                pos,
                named,
                scope,
                fn_name,
                span,
                w,
            ),
            Param::Named { name, default, .. } => if k < pos.len() {
                if lookup(named, name@) is Some {
                    (
                        Err(
                            failure(
                                "`"@ + fn_name + "`: argument `"@ + name@
                                    + "` given both positionally and by name"@,
                                span,
                            ),
                        ),
                        w,
                    )
                } else {
                    args_filled(
                        cx,
                        fuel,
                        params,
                        i + 1,
                        k + 1,
                        pos,
                        named,
                        scope,
                        fn_name,
                        span,
                        w.with_var(scope, name@, pos[k as int], false),
                    )
                }
            } else {
                match lookup(named, name@) {
                    Some(v) => args_filled(
                        cx,
                        fuel,
                        params,
                        i + 1,
                        k,
                        pos,
                        unbind(named, name@),
                        scope,
                        fn_name,
                        span,
                        w.with_var(scope, name@, v, false),
                    ),
                    None => match default {
                        Some(e) => match evaluated(cx, fuel, e, scope, w) {
                            (Ok(v), w1) => args_filled(
                                cx,
                                fuel,
                                params,
                                i + 1,
                                k,
                                pos,
                                named,
                                scope,
                                fn_name,
                                span,
                                w1.with_var(scope, name@, v, false),
                            ),
                            (Err(h), w1) => (Err(h), w1),
                        },
                        None => (
                            Err(
                                failure(
                                    "`"@ + fn_name + "`: missing argument `"@ + name@ + "`"@,
                                    span,
                                ),
                            ),
                            w,
                        ),
                    },
                }
            },
        }
    }
}

/// The parameters of a function bound to the arguments of a call. Arguments are
/// evaluated in the caller's scope, defaults in the function's.
pub open spec fn call_bound(
    cx: Cx,
    fuel: nat,
    params: Seq<Param>,
    args: Seq<Arg>,
    scope: Env,
    fn_name: Seq<char>,
    span: Span,
    env: Env,
    w: World,
) -> Out<()>
    decreases fuel, 2nat, 0nat,
{
    match args_split(cx, fuel, args, 0, Seq::empty(), Seq::empty(), fn_name, span, env, w) {
        (Ok((pos, named)), w1) => if pos.len() > param_count(params, 0) {
            (Err(arity_halt(fn_name, params, pos.len(), span)), w1)
        } else {
            match args_filled(cx, fuel, params, 0, 0, pos, named, scope, fn_name, span, w1) {
                (Ok(left), w2) => if left.len() > 0 {
                    (
                        Err(
                            failure(
                                "`"@ + fn_name + "` has no parameter named `"@ + left[0].0
                                    + "`"@,
                                span,
                            ),
                        ),
                        w2,
                    )
                } else {
                    (Ok(()), w2)
                },
                (Err(h), w2) => (Err(h), w2),
            }
        },
        (Err(h), w1) => (Err(h), w1),
    }
}

pub open spec fn loop_message() -> Seq<char> {
    "`break`/`continue` outside a loop"@
}

/// A call of a declared function or method in the given scope.
pub open spec fn function_called(
    cx: Cx,
    fuel: nat,
    decl: FnDecl,
    args: Seq<Arg>,
    scope: Env,
    span: Span,
    env: Env,
    w: World,
) -> Out<Val>
    decreases fuel, 3nat, 0nat,
{
    match call_bound(cx, fuel, decl.params@, args, scope, decl.name@, span, env, w) {
        (Ok(_), w1) => body_ended(
            stmts_executed(cx, fuel, decl.body.stmts@, 0, Val::Unit, scope, w1),
            loop_message(),
            span,
        ),
        (Err(h), w1) => (Err(h), w1),
    }
}

/// A closure called with values, in a new scope inside the one it was made in.
pub open spec fn closure_called(
    cx: Cx,
    fuel: nat,
    c: ClosureVal,
    args: Seq<Val>,
    span: Span,
    w: World,
) -> Out<Val>
    decreases fuel, 3nat, 0nat,
{
    let scope = w.next_scope();
    match c {
        ClosureVal::Function(decl, home) => match params_bound(
            cx,
            fuel,
            decl.params@,
            args,
            scope,
            decl.name@,
            span,
            w.add_scope(Some(home)),
        ) {
            (Ok(_), w1) => body_ended(
                stmts_executed(cx, fuel, decl.body.stmts@, 0, Val::Unit, scope, w1),
                loop_message(),
                span,
            ),
            (Err(h), w1) => (Err(h), w1),
        },
        ClosureVal::Lambda(l, home) => {
            let w1 = w.add_scope(Some(home));
            if args.len() != l.params@.len() {
                (
                    Err(
                        failure(
                            "lambda expects "@ + decimal(l.params@.len()) + " argument(s), got "@
                                + decimal(args.len()),
                            span,
                        ),
                    ),
                    w1,
                )
            } else {
                match evaluated(
                    cx,
                    fuel,
                    *l.body,
                    scope,
                    bound_all(w1, scope, texts(l.params@), args, false, 0),
                ) {
                    (Ok(v), w2) => (Ok(v), w2),
                    (Err(h), w2) => intercepted(h, w2),
                }
            }
        },
    }
}

/// The message of a `panic` or a failed `.expect`.
pub open spec fn panic_text(cx: Cx, fuel: nat, v: Val, w: World) -> Result<Seq<char>, Halt> {
    match v {
        Val::Str(s) => Ok(s),
        other => shown(cx.ans, w, fuel, other),
    }
}

/// An instance of the prelude's `Result`.
pub open spec fn result_value(variant: Seq<char>, v: Val) -> Val {
    Val::Enum(
        EnumVal {
            enum_name: "Result"@,
            variant,
            payload: seq![v],
            names: Seq::empty(),
        },
    )
}

pub open spec fn result_made(variant: Seq<char>, args: Seq<Val>, span: Span) -> Result<Val, Halt> {
    if args.len() != 1 {
        Err(failure("`"@ + variant + "` takes exactly one argument"@, span))
    } else {
        Ok(result_value(variant, args[0]))
    }
}

/// A call of a function of the prelude.
pub open spec fn builtin_called(
    cx: Cx,
    fuel: nat,
    b: Builtin,
    args: Seq<Val>,
    span: Span,
    w: World,
) -> Out<Val> {
    match b {
        Builtin::Print => match shown_items(cx.ans, w, fuel, args, 0, Seq::empty()) {
            Ok(parts) => (Ok(Val::Unit), w.with_line(joined(parts, " "@), span)),
            Err(h) => (Err(h), w),
        },
        Builtin::Panic => if args.len() == 0 {
            (Err(failure("panic: panic"@, span)), w)
        } else {
            match panic_text(cx, fuel, args[0], w) {
                Ok(s) => (Err(failure("panic: "@ + s, span)), w),
                Err(h) => (Err(h), w),
            }
        },
        Builtin::EmptySet => if args.len() != 0 {
            (
                Err(
                    failure(
                        "`Set()` takes no arguments; use `{a, b, …}` for a non-empty set"@,
                        span,
                    ),
                ),
                w,
            )
        } else {
            (Ok(Val::SetRef(w.next_set())), w.add_set(Seq::empty()))
        },
        Builtin::MakeOk => (result_made("Ok"@, args, span), w),
        Builtin::MakeErr => (result_made("Err"@, args, span), w),
    }
}

/// A value called with values.
pub open spec fn applied(
    cx: Cx,
    fuel: nat,
    callee: Val,
    args: Seq<Val>,
    span: Span,
    w: World,
) -> Out<Val>
    decreases fuel, 4nat, 0nat,
{
    match callee {
        Val::Closure(c) => closure_called(cx, fuel, c, args, span, w),
        Val::Builtin(b) => builtin_called(cx, fuel, b, args, span, w),
        other => (Err(failure(label_of(other) + " is not callable"@, span)), w),
    }
}

/// A call expression: a method or a variant, a struct, or any value that can be
/// called.
pub open spec fn call_evaluated(
    cx: Cx,
    fuel: nat,
    callee: Expr,
    args: Seq<Arg>,
    span: Span,
    env: Env,
    w: World,
) -> Out<Val>
    decreases fuel, 11nat, 0nat,
{
    match callee.kind {
        ExprKind::Member { base, name, safe } => member_called(
            cx,
            fuel,
            *base,
            name@,
            safe,
            args,
            span,
            env,
            w,
        ),
        _ => match struct_named(cx, callee, env, w) {
            Some((name, decl)) => struct_made(cx, fuel, decl, name, args, span, env, w),
            None => match evaluated(cx, fuel, callee, env, w) {
                (Ok(Val::Closure(ClosureVal::Function(decl, home))), w1) => function_called(
                    cx,
                    fuel,
                    decl,
                    args,
                    w1.next_scope(),
                    span,
                    env,
                    w1.add_scope(Some(home)),
                ),
                (Ok(v), w1) => match args_evaluated(cx, fuel, args, 0, Seq::empty(), span, env, w1) {
                    (Ok(vs), w2) => applied(cx, fuel, v, vs, span, w2),
                    (Err(h), w2) => (Err(h), w2),
                },
                (Err(h), w1) => (Err(h), w1),
            },
        },
    }
}

/// The struct that an expression names: a name that is bound to no value.
pub open spec fn struct_named(cx: Cx, e: Expr, env: Env, w: World) -> Option<(
    Seq<char>,
    StructShape,
)> {
    match e.kind {
        ExprKind::Name(n) => match resolved(w, env, n@) {
            Some(_) => None,
            None => match lookup(cx.reg.structs, n@) {
                Some(decl) => Some((n@, decl)),
                None => None,
            },
        },
        _ => None,
    }
}

/// `base.name(args)`: a variant of an enum, `.or_else`, or a method. A safe call
/// on `null` is `null`, and its arguments are not evaluated.
pub open spec fn member_called(
    cx: Cx,
    fuel: nat,
    base: Expr,
    name: Seq<char>,
    safe: bool,
    args: Seq<Arg>,
    span: Span,
    env: Env,
    w: World,
) -> Out<Val>
    decreases fuel, 10nat, 0nat,
{
    let variant_of: Option<(Seq<char>, EnumShape)> = if safe {
        None
    } else {
        enum_named(cx, base, env, w)
    };
    match variant_of {
        Some((enum_name, decl)) => variant_made(
            cx,
            fuel,
            decl,
            enum_name,
            name,
            args,
            span,
            env,
            w,
        ),
        None => match evaluated(cx, fuel, base, env, w) {
            (Ok(recv), w1) => if safe && recv is Null {
                (Ok(Val::Null), w1)
            } else if name == "or_else"@ {
                match args_evaluated(cx, fuel, args, 0, Seq::empty(), span, env, w1) {
                    (Ok(vs), w2) => if vs.len() != 1 {
                        (Err(failure("`.or_else` takes exactly one argument"@, span)), w2)
                    } else {
                        (
                            Ok(
                                if recv is Null {
                                    vs[0]
                                } else {
                                    recv
                                },
                            ),
                            w2,
                        )
                    },
                    (Err(h), w2) => (Err(h), w2),
                }
            } else {
                method_called(cx, fuel, recv, name, args, span, env, w1)
            },
            (Err(h), w1) => (Err(h), w1),
        },
    }
}

/// The type whose declared methods a value has.
pub open spec fn declared_type(v: Val, w: World) -> Option<Seq<char>> {
    match v {
        Val::Struct(at) => Some(w.instance(at).name),
        Val::Enum(e) => Some(e.enum_name),
        _ => None,
    }
}

/// A method called on a value: `.expect`, which any value has, a declared method
/// of a struct or an enum, or a built-in method of any other value.
pub open spec fn method_called(
    cx: Cx,
    fuel: nat,
    recv: Val,
    name: Seq<char>,
    args: Seq<Arg>,
    span: Span,
    env: Env,
    w: World,
) -> Out<Val>
    decreases fuel, 9nat, 0nat,
{
    if name == "expect"@ {
        match args_evaluated(cx, fuel, args, 0, Seq::empty(), span, env, w) {
            (Ok(vs), w1) => if vs.len() != 1 {
                (Err(failure("`.expect` takes exactly one argument"@, span)), w1)
            } else if recv is Null {
                match panic_text(cx, fuel, vs[0], w1) {
                    Ok(s) => (Err(failure("panic: "@ + s, span)), w1),
                    Err(h) => (Err(h), w1),
                }
            } else {
                (Ok(recv), w1)
            },
            (Err(h), w1) => (Err(h), w1),
        }
    } else {
        match declared_type(recv, w) {
            None => builtin_method_called(cx, fuel, recv, name, args, span, env, w),
            Some(owner) => match cx.reg.method(owner, name) {
                None => (
                    Err(failure(no_method_message(owner, name), span)),
                    w,
                ),
                Some(decl) => {
                    let scope = w.next_scope();
                    let w1 = w.add_scope(Some(outermost(w, env))).with_var(
                        scope,
                        "self"@,
                        recv,
                        false,
                    );
                    function_called(cx, fuel, decl, args, scope, span, env, w1)
                },
            },
        }
    }
}

// ---------------------------------------------------------------------------
// Construction
// ---------------------------------------------------------------------------

pub open spec fn all_named(args: Seq<Arg>) -> bool {
    forall|i: int| 0 <= i < args.len() ==> (#[trigger] args[i]) is Named
}

pub open spec fn all_positional(args: Seq<Arg>) -> bool {
    forall|i: int| 0 <= i < args.len() ==> (#[trigger] args[i]) is Positional
}

/// The error of a construction whose arguments are neither all by position nor all
/// by name.
pub open spec fn mixture_message(name: Seq<char>) -> Seq<char> {
    "`"@ + name + "` construction mixes positional and named arguments"@
}

/// The fields that arguments by name give, from place `i` on.
pub open spec fn fields_by_name(
    cx: Cx,
    fuel: nat,
    order: Seq<Seq<char>>,
    args: Seq<Arg>,
    i: nat,
    fields: Seq<(Seq<char>, Val)>,
    name: Seq<char>,
    span: Span,
    env: Env,
    w: World,
) -> Out<Seq<(Seq<char>, Val)>>
    decreases fuel, 1nat, args.len() - i,
{
    if i >= args.len() {
        (Ok(fields), w)
    } else {
        match args[i as int] {
            Arg::Named { name: field, value } => if !order.contains(field@) {
                (
                    Err(
                        failure(
                            "struct `"@ + name + "` has no field `"@ + field@ + "`"@,
                            span,
                        ),
                    ),
                    w,
                )
            } else {
                match evaluated(cx, fuel, value, env, w) {
                    (Ok(v), w1) => fields_by_name(
                        cx,
                        fuel,
                        order,
                        args,
                        i + 1,
                        bind(fields, field@, v),
                        name,
                        span,
                        env,
                        w1,
                    ),
                    (Err(h), w1) => (Err(h), w1),
                }
            },
            Arg::Positional(_) => fields_by_name(
                cx,
                fuel,
                order,
                args,
                i + 1,
                fields,
                name,
                span,
                env,
                w,
            ),
        }
    }
}

/// The fields that arguments by position give, from place `i` on.
pub open spec fn fields_in_order(
    cx: Cx,
    fuel: nat,
    order: Seq<Seq<char>>,
    args: Seq<Arg>,
    i: nat,
    fields: Seq<(Seq<char>, Val)>,
    env: Env,
    w: World,
) -> Out<Seq<(Seq<char>, Val)>>
    decreases fuel, 1nat, args.len() - i,
{
    if i >= args.len() || i >= order.len() {
        (Ok(fields), w)
    } else {
        match args[i as int] {
            Arg::Positional(e) => match evaluated(cx, fuel, e, env, w) {
                (Ok(v), w1) => fields_in_order(
                    cx,
                    fuel,
                    order,
                    args,
                    i + 1,
                    bind(fields, order[i as int], v),
                    env,
                    w1,
                ),
                (Err(h), w1) => (Err(h), w1),
            },
            Arg::Named { .. } => fields_in_order(cx, fuel, order, args, i + 1, fields, env, w),
        }
    }
}

/// The first name from place `i` on that has no field.
pub open spec fn missing_field(
    order: Seq<Seq<char>>,
    fields: Seq<(Seq<char>, Val)>,
    i: nat,
) -> Option<Seq<char>>
    decreases order.len() - i,
{
    if i >= order.len() {
        None
    } else if lookup(fields, order[i as int]) is None {
        Some(order[i as int])
    } else {
        missing_field(order, fields, i + 1)
    }
}

/// A struct built from arguments, which are all by position or all by name.
pub open spec fn struct_made(
    cx: Cx,
    fuel: nat,
    decl: StructShape,
    name: Seq<char>,
    args: Seq<Arg>,
    span: Span,
    env: Env,
    w: World,
) -> Out<Val>
    decreases fuel, 2nat, 0nat,
{
    if args.len() > 0 && !all_named(args) && !all_positional(args) {
        (
            Err(
                failure(mixture_message(name), span),
            ),
            w,
        )
    } else if args.len() > 0 && all_named(args) {
        struct_finished(
            decl,
            name,
            fields_by_name(cx, fuel, decl.fields, args, 0, Seq::empty(), name, span, env, w),
            span,
        )
    } else if args.len() != decl.fields.len() {
        (
            Err(
                failure(
                    "struct `"@ + name + "` expects "@ + decimal(decl.fields.len())
                        + " field(s), got "@ + decimal(args.len()),
                    span,
                ),
            ),
            w,
        )
    } else {
        struct_finished(
            decl,
            name,
            fields_in_order(cx, fuel, decl.fields, args, 0, Seq::empty(), env, w),
            span,
        )
    }
}

/// A struct with the given fields, of which none may be missing.
pub open spec fn struct_finished(
    decl: StructShape,
    name: Seq<char>,
    fields: Out<Seq<(Seq<char>, Val)>>,
    span: Span,
) -> Out<Val> {
    match fields {
        (Ok(fs), w1) => match missing_field(decl.fields, fs, 0) {
            Some(field) => (
                Err(
                    failure("struct `"@ + name + "` is missing field `"@ + field + "`"@, span),
                ),
                w1,
            ),
            None => (
                Ok(Val::Struct(w1.next_struct())),
                w1.add_struct(StructVal { name, fields: fs, order: decl.fields }),
            ),
        },
        (Err(h), w1) => (Err(h), w1),
    }
}

/// Payload values and their names.
pub struct Payloads {
    pub values: Seq<Val>,
    pub names: Seq<Seq<char>>,
}

pub open spec fn no_payload() -> Payloads {
    Payloads { values: Seq::empty(), names: Seq::empty() }
}

/// The payload of a variant without names, from the argument at place `i` on.
pub open spec fn payload_positional(
    cx: Cx,
    fuel: nat,
    variant: Seq<char>,
    args: Seq<Arg>,
    i: nat,
    done: Payloads,
    span: Span,
    env: Env,
    w: World,
) -> Out<Payloads>
    decreases fuel, 1nat, args.len() - i,
{
    if i >= args.len() {
        (Ok(done), w)
    } else {
        match args[i as int] {
            Arg::Positional(e) => match evaluated(cx, fuel, e, env, w) {
                (Ok(v), w1) => payload_positional(
                    cx,
                    fuel,
                    variant,
                    args,
                    i + 1,
                    Payloads { values: done.values.push(v), ..done },
                    span,
                    env,
                    w1,
                ),
                (Err(h), w1) => (Err(h), w1),
            },
            Arg::Named { name, .. } => (
                Err(
                    failure(
                        "variant `"@ + variant + "` has positional payload; `"@ + name@
                            + ":` is invalid"@,
                        span,
                    ),
                ),
                w,
            ),
        }
    }
}

/// The first argument from place `i` on that is given by this name.
pub open spec fn arg_named(args: Seq<Arg>, name: Seq<char>, i: nat) -> Option<Expr>
    decreases args.len() - i,
{
    if i >= args.len() {
        None
    } else {
        match args[i as int] {
            Arg::Named { name: n, value } => if n@ == name {
                Some(value)
            } else {
                arg_named(args, name, i + 1)
            },
            Arg::Positional(_) => arg_named(args, name, i + 1),
        }
    }
}

/// The payload of a variant with names, in the order of declaration, from the
/// name at place `i` on, each value given by its name.
pub open spec fn payload_by_name(
    cx: Cx,
    fuel: nat,
    variant: Seq<char>,
    names: Seq<Seq<char>>,
    args: Seq<Arg>,
    i: nat,
    done: Payloads,
    span: Span,
    env: Env,
    w: World,
) -> Out<Payloads>
    decreases fuel, 1nat, names.len() - i,
{
    if i >= names.len() {
        (Ok(done), w)
    } else {
        match arg_named(args, names[i as int], 0) {
            Some(e) => match evaluated(cx, fuel, e, env, w) {
                (Ok(v), w1) => payload_by_name(
                    cx,
                    fuel,
                    variant,
                    names,
                    args,
                    i + 1,
                    Payloads {
                        values: done.values.push(v),
                        names: done.names.push(names[i as int]),
                    },
                    span,
                    env,
                    w1,
                ),
                (Err(h), w1) => (Err(h), w1),
            },
            None => (
                Err(
                    failure(
                        "variant `"@ + variant + "` is missing field `"@ + names[i as int] + "`"@,
                        span,
                    ),
                ),
                w,
            ),
        }
    }
}

/// The expression of an argument.
pub open spec fn arg_value(a: Arg) -> Expr {
    match a {
        Arg::Positional(e) => e,
        Arg::Named { value, .. } => value,
    }
}

/// Whether each argument by name stands at the place of its name.
pub open spec fn named_in_place(names: Seq<Seq<char>>, args: Seq<Arg>) -> bool {
    forall|i: int|
        0 <= i < args.len() && i < names.len() ==> ((#[trigger] args[i]) matches Arg::Named {
            name,
            ..
        } ==> name@ == names[i])
}

/// The payload of a variant with names, the arguments taken in order from place
/// `i` on.
pub open spec fn payload_in_order(
    cx: Cx,
    fuel: nat,
    names: Seq<Seq<char>>,
    args: Seq<Arg>,
    i: nat,
    done: Payloads,
    env: Env,
    w: World,
) -> Out<Payloads>
    decreases fuel, 1nat, args.len() - i,
{
    if i >= args.len() || i >= names.len() {
        (Ok(done), w)
    } else {
        match evaluated(cx, fuel, arg_value(args[i as int]), env, w) {
            (Ok(v), w1) => payload_in_order(
                cx,
                fuel,
                names,
                args,
                i + 1,
                Payloads {
                    values: done.values.push(v),
                    names: done.names.push(names[i as int]),
                },
                env,
                w1,
            ),
            (Err(h), w1) => (Err(h), w1),
        }
    }
}

pub open spec fn payload_count_halt(
    variant: Seq<char>,
    want: nat,
    what: Seq<char>,
    got: nat,
    span: Span,
) -> Halt {
    failure(
        "variant `"@ + variant + "` expects "@ + decimal(want) + what + decimal(got),
        span,
    )
}

/// A variant built from arguments.
pub open spec fn variant_made(
    cx: Cx,
    fuel: nat,
    decl: EnumShape,
    enum_name: Seq<char>,
    variant: Seq<char>,
    args: Seq<Arg>,
    span: Span,
    env: Env,
    w: World,
) -> Out<Val>
    decreases fuel, 3nat, 0nat,
{
    let at = variant_place(decl.variants, variant, 0);
    if at >= decl.variants.len() {
        (
            Err(failure("enum `"@ + enum_name + "` has no variant `"@ + variant + "`"@, span)),
            w,
        )
    } else {
        match payload_made(
            cx,
            fuel,
            decl.variants[at as int].payload,
            variant,
            args,
            span,
            env,
            w,
        ) {
            (Ok(p), w1) => (
                Ok(
                    Val::Enum(
                        EnumVal { enum_name, variant, payload: p.values, names: p.names },
                    ),
                ),
                w1,
            ),
            (Err(h), w1) => (Err(h), w1),
        }
    }
}

/// The payload of a variant of this shape. Values with names may come by name, or
/// in order, where a name may be given at its own place.
pub open spec fn payload_made(
    cx: Cx,
    fuel: nat,
    shape: PayloadShape,
    variant: Seq<char>,
    args: Seq<Arg>,
    span: Span,
    env: Env,
    w: World,
) -> Out<Payloads>
    decreases fuel, 2nat, 0nat,
{
    match shape {
        PayloadShape::Nothing => if args.len() > 0 {
            (Err(failure("variant `"@ + variant + "` takes no payload"@, span)), w)
        } else {
            (Ok(no_payload()), w)
        },
        PayloadShape::Positional(n) => if args.len() != n {
            (Err(payload_count_halt(variant, n, " value(s), got "@, args.len(), span)), w)
        } else {
            payload_positional(cx, fuel, variant, args, 0, no_payload(), span, env, w)
        },
        PayloadShape::Named(names) => if args.len() != names.len() {
            (
                Err(
                    payload_count_halt(variant, names.len(), " field(s), got "@, args.len(), span),
                ),
                w,
            )
        } else if all_named(args) && args.len() > 0 {
            payload_by_name(cx, fuel, variant, names, args, 0, no_payload(), span, env, w)
        } else if !named_in_place(names, args) {
            (Err(failure(mixture_message(variant), span)), w)
        } else {
            payload_in_order(cx, fuel, names, args, 0, no_payload(), env, w)
        },
    }
}

// ---------------------------------------------------------------------------
// Built-in methods
// ---------------------------------------------------------------------------

pub open spec fn builtin_method_called(
    cx: Cx,
    fuel: nat,
    recv: Val,
    name: Seq<char>,
    args: Seq<Arg>,
    span: Span,
    env: Env,
    w: World,
) -> Out<Val>
    decreases fuel, 8nat, 0nat,
{
    match method_args_evaluated(cx, fuel, name, args, 0, Seq::empty(), span, env, w) {
        (Ok(vs), w1) => match recv {
            Val::List(at) => list_called(cx, fuel, at, name, vs, span, w1),
            Val::MapRef(at) => map_called(fuel, at, name, vs, span, w1),
            Val::SetRef(at) => set_called(fuel, at, name, vs, span, w1),
            Val::Str(s) => (str_called(s, name, vs, span), w1),
            other => (
                Err(failure(no_method_message(label_of(other), name), span)),
                w1,
            ),
        },
        (Err(h), w1) => (Err(h), w1),
    }
}

/// A predicate called on an item; its result must be a Boolean.
pub open spec fn predicate(
    cx: Cx,
    fuel: nat,
    p: Val,
    item: Val,
    span: Span,
    w: World,
) -> Out<bool>
    decreases fuel, 5nat, 0nat,
{
    match applied(cx, fuel, p, seq![item], span, w) {
        (Ok(Val::Bool(b)), w1) => (Ok(b), w1),
        (Ok(other), w1) => (
            Err(failure("predicate must return Bool, found "@ + label_of(other), span)),
            w1,
        ),
        (Err(h), w1) => (Err(h), w1),
    }
}

/// `done`, and then what `g` gives for each item from place `i` on.
pub open spec fn mapped(
    cx: Cx,
    fuel: nat,
    g: Val,
    items: Seq<Val>,
    i: nat,
    done: Seq<Val>,
    span: Span,
    w: World,
) -> Out<Seq<Val>>
    decreases fuel, 6nat, items.len() - i,
{
    if i >= items.len() {
        (Ok(done), w)
    } else {
        match applied(cx, fuel, g, seq![items[i as int]], span, w) {
            (Ok(v), w1) => mapped(cx, fuel, g, items, i + 1, done.push(v), span, w1),
            (Err(h), w1) => (Err(h), w1),
        }
    }
}

/// `done`, and then the items from place `i` on that `p` accepts.
pub open spec fn filtered(
    cx: Cx,
    fuel: nat,
    p: Val,
    items: Seq<Val>,
    i: nat,
    done: Seq<Val>,
    span: Span,
    w: World,
) -> Out<Seq<Val>>
    decreases fuel, 6nat, items.len() - i,
{
    if i >= items.len() {
        (Ok(done), w)
    } else {
        match predicate(cx, fuel, p, items[i as int], span, w) {
            (Ok(true), w1) => filtered(
                cx,
                fuel,
                p,
                items,
                i + 1,
                done.push(items[i as int]),
                span,
                w1,
            ),
            (Ok(false), w1) => filtered(cx, fuel, p, items, i + 1, done, span, w1),
            (Err(h), w1) => (Err(h), w1),
        }
    }
}

/// `acc` and then each item from place `i` on, combined by `g` from the left.
pub open spec fn folded(
    cx: Cx,
    fuel: nat,
    g: Val,
    items: Seq<Val>,
    i: nat,
    acc: Val,
    span: Span,
    w: World,
) -> Out<Val>
    decreases fuel, 6nat, items.len() - i,
{
    if i >= items.len() {
        (Ok(acc), w)
    } else {
        match applied(cx, fuel, g, seq![acc, items[i as int]], span, w) {
            (Ok(v), w1) => folded(cx, fuel, g, items, i + 1, v, span, w1),
            (Err(h), w1) => (Err(h), w1),
        }
    }
}

/// The first item from place `i` on for which `p` gives `want`; later ones are
/// not tried.
pub open spec fn sought(
    cx: Cx,
    fuel: nat,
    p: Val,
    items: Seq<Val>,
    i: nat,
    want: bool,
    span: Span,
    w: World,
) -> Out<Option<Val>>
    decreases fuel, 6nat, items.len() - i,
{
    if i >= items.len() {
        (Ok(None), w)
    } else {
        match predicate(cx, fuel, p, items[i as int], span, w) {
            (Ok(b), w1) => if b == want {
                (Ok(Some(items[i as int])), w1)
            } else {
                sought(cx, fuel, p, items, i + 1, want, span, w1)
            },
            (Err(h), w1) => (Err(h), w1),
        }
    }
}

/// A new list, if its items could be made.
pub open spec fn list_made(items: Out<Seq<Val>>) -> Out<Val> {
    match items {
        (Ok(vs), w1) => (Ok(Val::List(w1.next_list())), w1.add_list(vs)),
        (Err(h), w1) => (Err(h), w1),
    }
}

/// The methods of a list that call back.
pub open spec fn list_callback(
    cx: Cx,
    fuel: nat,
    at: usize,
    name: Seq<char>,
    args: Seq<Val>,
    span: Span,
    w: World,
) -> Option<Out<Val>>
    decreases fuel, 7nat, 0nat,
{
    let items = w.list(at);
    if name == "fold"@ {
        Some(
            match two_args(name, args, span) {
                Ok((init, g)) => folded(cx, fuel, g, items, 0, init, span, w),
                Err(h) => (Err(h), w),
            },
        )
    } else if name == "map"@ || name == "filter"@ || name == "reduce"@ || name == "any"@ || name
        == "all"@ || name == "find"@ {
        Some(
            match one_arg(name, args, span) {
                Err(h) => (Err(h), w),
                Ok(g) => if name == "map"@ {
                    list_made(mapped(cx, fuel, g, items, 0, Seq::empty(), span, w))
                } else if name == "filter"@ {
                    list_made(filtered(cx, fuel, g, items, 0, Seq::empty(), span, w))
                } else if name == "reduce"@ {
                    if items.len() == 0 {
                        (Err(failure("`reduce` on an empty list has no result"@, span)), w)
                    } else {
                        folded(cx, fuel, g, items, 1, items[0], span, w)
                    }
                } else {
                    match sought(cx, fuel, g, items, 0, name != "all"@, span, w) {
                        (Ok(hit), w1) => (
                            Ok(
                                if name == "any"@ {
                                    Val::Bool(hit is Some)
                                } else if name == "all"@ {
                                    Val::Bool(hit is None)
                                } else {
                                    match hit {
                                        Some(v) => v,
                                        None => Val::Null,
                                    }
                                },
                            ),
                            w1,
                        ),
                        (Err(h), w1) => (Err(h), w1),
                    }
                },
            },
        )
    } else {
        None
    }
}

/// The methods of a list that take one argument and do not call back.
pub open spec fn list_with_arg(
    fuel: nat,
    at: usize,
    name: Seq<char>,
    args: Seq<Val>,
    span: Span,
    w: World,
) -> Option<Out<Val>> {
    let items = w.list(at);
    if name == "contains"@ || name == "take"@ || name == "skip"@ || name == "zip"@ || name
        == "append"@ {
        Some(
            match one_arg(name, args, span) {
                Err(h) => (Err(h), w),
                Ok(x) => if name == "contains"@ {
                    match item_place(w, fuel, items, x, 0) {
                        Some(hit) => (Ok(Val::Bool(hit is Some)), w),
                        None => (Err(Halt::Budget), w),
                    }
                } else if name == "take"@ {
                    match count_arg(x, name, span) {
                        Ok(n) => list_made((Ok(taken(items, n as nat)), w)),
                        Err(h) => (Err(h), w),
                    }
                } else if name == "skip"@ {
                    match count_arg(x, name, span) {
                        Ok(n) => list_made((Ok(skipped(items, n as nat)), w)),
                        Err(h) => (Err(h), w),
                    }
                } else if name == "zip"@ {
                    match list_arg(x, name, span) {
                        Ok(other) => list_made((Ok(zipped(items, w.list(other))), w)),
                        Err(h) => (Err(h), w),
                    }
                } else {
                    (Ok(Val::Unit), w.with_list(at, items.push(x)))
                },
            },
        )
    } else {
        None
    }
}

/// The methods of a list that take no argument.
pub open spec fn list_plain(
    cx: Cx,
    fuel: nat,
    at: usize,
    name: Seq<char>,
    span: Span,
    w: World,
) -> Out<Val> {
    let items = w.list(at);
    if name == "sum"@ {
        (summed(cx.ans, items, span), w)
    } else if name == "count"@ || name == "len"@ {
        (Ok(Val::Int(items.len() as int)), w)
    } else if name == "is_empty"@ {
        (Ok(Val::Bool(items.len() == 0)), w)
    } else if name == "first"@ {
        (
            Ok(
                if items.len() > 0 {
                    items[0]
                } else {
                    Val::Null
                },
            ),
            w,
        )
    } else if name == "last"@ {
        (
            Ok(
                if items.len() > 0 {
                    items.last()
                } else {
                    Val::Null
                },
            ),
            w,
        )
    } else if name == "min"@ {
        (extreme_of(cx.reg, w, fuel, items, Order::Less, span), w)
    } else if name == "max"@ {
        (extreme_of(cx.reg, w, fuel, items, Order::Greater, span), w)
    } else if name == "enumerate"@ {
        list_made((Ok(enumerated(items)), w))
    } else if name == "reverse"@ {
        list_made((Ok(items.reverse()), w))
    } else if name == "sorted"@ {
        list_made((sorted(cx.reg, w, fuel, items, span), w))
    } else if name == "sort"@ {
        match sorted(cx.reg, w, fuel, items, span) {
            Ok(vs) => (Ok(Val::Unit), w.with_list(at, vs)),
            Err(h) => (Err(h), w),
        }
    } else if name == "collect"@ {
        list_made((Ok(items), w))
    } else {
        // `pop_last`
        if items.len() > 0 {
            (Ok(items.last()), w.with_list(at, items.drop_last()))
        } else {
            (Ok(Val::Null), w)
        }
    }
}

/// The names of the methods of a list that take no argument.
pub open spec fn is_plain_list_method(name: Seq<char>) -> bool {
    ||| name == "sum"@
    ||| name == "count"@
    ||| name == "len"@
    ||| name == "is_empty"@
    ||| name == "first"@
    ||| name == "last"@
    ||| name == "min"@
    ||| name == "max"@
    ||| name == "enumerate"@
    ||| name == "reverse"@
    ||| name == "sorted"@
    ||| name == "sort"@
    ||| name == "collect"@
    ||| name == "pop_last"@
}

/// A method called on a list.
pub open spec fn list_called(
    cx: Cx,
    fuel: nat,
    at: usize,
    name: Seq<char>,
    args: Seq<Val>,
    span: Span,
    w: World,
) -> Out<Val>
    decreases fuel, 7nat, 1nat,
{
    match list_callback(cx, fuel, at, name, args, span, w) {
        Some(out) => out,
        None => match list_with_arg(fuel, at, name, args, span, w) {
            Some(out) => out,
            None => if is_plain_list_method(name) {
                match no_args(name, args, span) {
                    Ok(_) => list_plain(cx, fuel, at, name, span, w),
                    Err(h) => (Err(h), w),
                }
            } else {
                (Err(failure(no_method_message("List"@, name), span)), w)
            },
        },
    }
}

/// A method called on a map.
pub open spec fn map_called(
    fuel: nat,
    at: usize,
    name: Seq<char>,
    args: Seq<Val>,
    span: Span,
    w: World,
) -> Out<Val> {
    let pairs = w.map(at);
    if name == "insert"@ {
        match two_args(name, args, span) {
            Ok((k, v)) => match put_pair(w, fuel, pairs, k, v) {
                Ok(more) => (Ok(Val::Unit), w.with_map(at, more)),
                Err(h) => (Err(h), w),
            },
            Err(h) => (Err(h), w),
        }
    } else if name == "get"@ || name == "contains"@ || name == "has"@ {
        match one_arg(name, args, span) {
            Err(h) => (Err(h), w),
            Ok(k) => match entry_place(w, fuel, pairs, k, 0) {
                None => (Err(Halt::Budget), w),
                Some(hit) => (
                    Ok(
                        if name == "get"@ {
                            match hit {
                                Some(j) => pairs[j as int].1,
                                None => Val::Null,
                            }
                        } else {
                            Val::Bool(hit is Some)
                        },
                    ),
                    w,
                ),
            },
        }
    } else if name == "keys"@ || name == "values"@ || name == "items"@ || name == "len"@ {
        match no_args(name, args, span) {
            Err(h) => (Err(h), w),
            Ok(_) => if name == "keys"@ {
                list_made((Ok(keys_of(pairs)), w))
            } else if name == "values"@ {
                list_made((Ok(values_of(pairs)), w))
            } else if name == "items"@ {
                list_made((Ok(entries_of(pairs)), w))
            } else {
                (Ok(Val::Int(pairs.len() as int)), w)
            },
        }
    } else {
        (Err(failure(no_method_message("Map"@, name), span)), w)
    }
}

/// A new set, if its items could be made.
pub open spec fn set_made(items: Result<Seq<Val>, Halt>, w: World) -> Out<Val> {
    match items {
        Ok(vs) => (Ok(Val::SetRef(w.next_set())), w.add_set(vs)),
        Err(h) => (Err(h), w),
    }
}

/// A method called on a set.
pub open spec fn set_called(
    fuel: nat,
    at: usize,
    name: Seq<char>,
    args: Seq<Val>,
    span: Span,
    w: World,
) -> Out<Val> {
    let items = w.set(at);
    if name == "insert"@ || name == "contains"@ || name == "union"@ || name == "intersect"@ {
        match one_arg(name, args, span) {
            Err(h) => (Err(h), w),
            Ok(x) => if name == "insert"@ {
                match put_item(w, fuel, items, x) {
                    Ok(more) => (Ok(Val::Unit), w.with_set(at, more)),
                    Err(h) => (Err(h), w),
                }
            } else if name == "contains"@ {
                match item_place(w, fuel, items, x, 0) {
                    Some(hit) => (Ok(Val::Bool(hit is Some)), w),
                    None => (Err(Halt::Budget), w),
                }
            } else if name == "union"@ {
                match set_arg(x, name, span) {
                    Ok(other) => set_made(put_all(w, fuel, items, w.set(other), 0), w),
                    Err(h) => (Err(h), w),
                }
            } else {
                match set_arg(x, name, span) {
                    Ok(other) => set_made(
                        kept(w, fuel, items, w.set(other), 0, Seq::empty()),
                        w,
                    ),
                    Err(h) => (Err(h), w),
                }
            },
        }
    } else if name == "len"@ {
        match no_args(name, args, span) {
            Ok(_) => (Ok(Val::Int(items.len() as int)), w),
            Err(h) => (Err(h), w),
        }
    } else {
        (Err(failure(no_method_message("Set"@, name), span)), w)
    }
}

/// A method called on a text. Its length counts characters.
pub open spec fn str_called(s: Seq<char>, name: Seq<char>, args: Seq<Val>, span: Span) -> Result<
    Val,
    Halt,
> {
    if name == "len"@ {
        match no_args(name, args, span) {
            Ok(_) => Ok(Val::Int(s.len() as int)),
            Err(h) => Err(h),
        }
    } else {
        Err(failure(no_method_message("String"@, name), span))
    }
}

// ---------------------------------------------------------------------------
// Matching
// ---------------------------------------------------------------------------

/// Whether a pattern fits a value, and the names that it binds in `scope`.
pub open spec fn matched(pat: Pattern, v: Val, scope: Env, w: World) -> (bool, World)
    decreases pat, 0nat,
{
    match pat.kind {
        PatternKind::Wildcard => (true, w),
        PatternKind::Null => (v is Null, w),
        PatternKind::Literal(lit) => (literal_fits(lit, v), w),
        PatternKind::Binding(name) => (true, w.with_var(scope, name@, v, false)),
        PatternKind::Variant { enum_name, name, subs } => match v {
            Val::Enum(e) => if (enum_name matches Some(n) && n@ != e.enum_name) || e.variant
                != name@ || subs@.len() != e.payload.len() {
                (false, w)
            } else {
                all_matched(subs@, e.payload, 0, scope, w)
            },
            _ => (false, w),
        },
        PatternKind::Or(alts) => any_matched(alts@, v, 0, scope, w),
        PatternKind::Tuple(elems) => match v {
            Val::Tuple(items) => if elems@.len() != items.len() {
                (false, w)
            } else {
                all_matched(elems@, items, 0, scope, w)
            },
            _ => (false, w),
        },
    }
}

/// Whether each pattern from place `i` on fits the value at its place.
pub open spec fn all_matched(
    pats: Seq<Pattern>,
    vs: Seq<Val>,
    i: nat,
    scope: Env,
    w: World,
) -> (bool, World)
    decreases pats, pats.len() - i,
{
    if i >= pats.len() || i >= vs.len() {
        (true, w)
    } else {
        match matched(pats[i as int], vs[i as int], scope, w) {
            (true, w1) => all_matched(pats, vs, i + 1, scope, w1),
            (false, w1) => (false, w1),
        }
    }
}

/// Whether one of the patterns from place `i` on fits; the first that does counts.
pub open spec fn any_matched(
    pats: Seq<Pattern>,
    v: Val,
    i: nat,
    scope: Env,
    w: World,
) -> (bool, World)
    decreases pats, pats.len() - i,
{
    if i >= pats.len() {
        (false, w)
    } else {
        match matched(pats[i as int], v, scope, w) {
            (true, w1) => (true, w1),
            (false, w1) => any_matched(pats, v, i + 1, scope, w1),
        }
    }
}

/// The arms from place `i` on tried on a value, each in a scope of its own: the
/// first whose pattern fits and whose guard holds runs.
pub open spec fn arms_run(
    cx: Cx,
    fuel: nat,
    arms: Seq<MatchArm>,
    i: nat,
    v: Val,
    span: Span,
    env: Env,
    w: World,
) -> Out<FlowVal>
    decreases fuel, 3nat, arms.len() - i,
{
    if i >= arms.len() {
        (Err(failure("no match arm matched (non-exhaustive match)"@, span)), w)
    } else {
        let arm = arms[i as int];
        let scope = w.next_scope();
        match matched(arm.pattern, v, scope, w.add_scope(Some(env))) {
            (false, w1) => arms_run(cx, fuel, arms, i + 1, v, span, env, w1),
            (true, w1) => {
                let passed: Out<bool> = match arm.guard {
                    Some(guard) => condition(cx, fuel, guard, scope, w1),
                    None => (Ok(true), w1),
                };
                match passed {
                    (Ok(true), w2) => stmts_executed(
                        cx,
                        fuel,
                        arm.body.stmts@,
                        0,
                        Val::Unit,
                        scope,
                        w2,
                    ),
                    (Ok(false), w2) => arms_run(cx, fuel, arms, i + 1, v, span, env, w2),
                    (Err(h), w2) => (Err(h), w2),
                }
            },
        }
    }
}

/// The value of a `match`. An arm cannot leave a loop around it.
pub open spec fn match_evaluated(
    cx: Cx,
    fuel: nat,
    m: MatchExpr,
    span: Span,
    env: Env,
    w: World,
) -> Out<Val>
    decreases fuel, 5nat, 0nat,
{
    match match_run(cx, fuel, m, span, env, w) {
        (Ok(flow), w1) => (
            flow_ended(flow, "`break`/`continue` not allowed in a match arm"@, span),
            w1,
        ),
        (Err(h), w1) => (Err(h), w1),
    }
}

/// A `match`: the flow of the arm that runs.
pub open spec fn match_run(cx: Cx, fuel: nat, m: MatchExpr, span: Span, env: Env, w: World) -> Out<
    FlowVal,
>
    decreases fuel, 4nat, 0nat,
{
    match evaluated(cx, fuel, *m.scrutinee, env, w) {
        (Ok(v), w1) => arms_run(cx, fuel, m.arms@, 0, v, span, env, w1),
        (Err(h), w1) => (Err(h), w1),
    }
}

// ---------------------------------------------------------------------------
// Statements
// ---------------------------------------------------------------------------

/// What running a statement gives.
pub open spec fn executed(cx: Cx, fuel: nat, s: Stmt, env: Env, w: World) -> Out<FlowVal>
    decreases fuel, 0nat, 0nat,
{
    if fuel == 0 {
        (Err(Halt::Budget), w)
    } else {
        let f = (fuel - 1) as nat;
        match s.kind {
            StmtKind::Binding(b) => match evaluated(cx, f, b.value, env, w) {
                (Ok(v), w1) => done(bound(b, v, s.span, env, w1)),
                (Err(h), w1) => (Err(h), w1),
            },
            StmtKind::Assign(a) => done(assigned(cx, f, a, env, w)),
            StmtKind::Return(None) => (Ok(FlowVal::Return(Val::Unit)), w),
            StmtKind::Return(Some(e)) => match evaluated(cx, f, e, env, w) {
                (Ok(v), w1) => (Ok(FlowVal::Return(v)), w1),
                (Err(h), w1) => (Err(h), w1),
            },
            StmtKind::Break => (Ok(FlowVal::Break), w),
            StmtKind::Continue => (Ok(FlowVal::Continue), w),
            StmtKind::Expr(e) => match e.kind {
                ExprKind::Match(m) => match_run(cx, f, m, e.span, env, w),
                _ => match evaluated(cx, f, e, env, w) {
                    (Ok(v), w1) => (Ok(FlowVal::Normal(v)), w1),
                    (Err(h), w1) => (Err(h), w1),
                },
            },
            StmtKind::If(c) => if_run(cx, f, c, 0, env, w),
            StmtKind::While(l) => while_run(cx, f, l, env, w),
            StmtKind::For(l) => for_run(cx, f, l, env, w),
            StmtKind::Fn(decl) => (
                Ok(FlowVal::Normal(Val::Unit)),
                w.with_var(
                    env,
                    decl.name@,
                    Val::Closure(ClosureVal::Function(*decl, env)),
                    false,
                ),
            ),
            StmtKind::Struct(_) => (Ok(FlowVal::Normal(Val::Unit)), w),
            StmtKind::Enum(_) => (Ok(FlowVal::Normal(Val::Unit)), w),
            StmtKind::Impl(_) => (Ok(FlowVal::Normal(Val::Unit)), w),
            StmtKind::Trait(_) => (Ok(FlowVal::Normal(Val::Unit)), w),
        }
    }
}

/// A statement that has no value of its own.
pub open spec fn done(out: Out<()>) -> Out<FlowVal> {
    match out {
        (Ok(_), w1) => (Ok(FlowVal::Normal(Val::Unit)), w1),
        (Err(h), w1) => (Err(h), w1),
    }
}

pub open spec fn val_message(name: Seq<char>) -> Seq<char> {
    "cannot reassign `val` binding `"@ + name + "`"@
}

/// What a binding does with its value. A bare `x = v` reassigns a name that is
/// bound already; everything else declares.
pub open spec fn bound(b: Binding, v: Val, span: Span, env: Env, w: World) -> Out<()> {
    match b.binder {
        Binder::Tuple(names) => destructured(texts(names@), v, env, b.is_val, span, w),
        Binder::Name(name) => if !b.is_val && b.ty is None {
            match reassigned(w, env, name@, v) {
                (Ok(true), w1) => (Ok(()), w1),
                (Ok(false), w1) => (Ok(()), w1.with_var(env, name@, v, false)),
                (Err(_), w1) => (Err(failure(val_message(name@), span)), w1),
            }
        } else {
            (Ok(()), w.with_var(env, name@, v, b.is_val))
        },
    }
}

/// The statements from place `i` on, until one does not end normally. `last` is
/// the value of the one before.
pub open spec fn stmts_executed(
    cx: Cx,
    fuel: nat,
    stmts: Seq<Stmt>,
    i: nat,
    last: Val,
    env: Env,
    w: World,
) -> Out<FlowVal>
    decreases fuel, 1nat, stmts.len() - i,
{
    if i >= stmts.len() {
        (Ok(FlowVal::Normal(last)), w)
    } else {
        match executed(cx, fuel, stmts[i as int], env, w) {
            (Ok(FlowVal::Normal(v)), w1) => stmts_executed(cx, fuel, stmts, i + 1, v, env, w1),
            (Ok(other), w1) => (Ok(other), w1),
            (Err(h), w1) => (Err(h), w1),
        }
    }
}

/// A block, in a scope of its own.
pub open spec fn block_run(cx: Cx, fuel: nat, b: Block, parent: Env, w: World) -> Out<FlowVal>
    decreases fuel, 2nat, 0nat,
{
    stmts_executed(
        cx,
        fuel,
        b.stmts@,
        0,
        Val::Unit,
        w.next_scope(),
        w.add_scope(Some(parent)),
    )
}

/// The first arm from place `i` on whose condition holds, else the `else` block.
pub open spec fn if_run(cx: Cx, fuel: nat, s: IfStmt, i: nat, env: Env, w: World) -> Out<FlowVal>
    decreases fuel, 3nat, s.arms@.len() - i,
{
    if i >= s.arms@.len() {
        match s.else_body {
            Some(b) => block_run(cx, fuel, b, env, w),
            None => (Ok(FlowVal::Normal(Val::Unit)), w),
        }
    } else {
        match condition(cx, fuel, s.arms@[i as int].0, env, w) {
            (Ok(true), w1) => block_run(cx, fuel, s.arms@[i as int].1, env, w1),
            (Ok(false), w1) => if_run(cx, fuel, s, i + 1, env, w1),
            (Err(h), w1) => (Err(h), w1),
        }
    }
}

/// Whether a loop goes on after a turn that ended so; else how the loop ends.
pub open spec fn loop_goes_on(flow: FlowVal) -> bool {
    flow is Normal || flow is Continue
}

pub open spec fn loop_ended(flow: FlowVal) -> FlowVal {
    match flow {
        FlowVal::Return(v) => FlowVal::Return(v),
        _ => FlowVal::Normal(Val::Unit),
    }
}

/// The turns of a `while`.
pub open spec fn while_run(cx: Cx, fuel: nat, s: WhileStmt, env: Env, w: World) -> Out<FlowVal>
    decreases fuel, 0nat, 0nat,
{
    if fuel == 0 {
        (Err(Halt::Budget), w)
    } else {
        let f = (fuel - 1) as nat;
        match condition(cx, f, s.cond, env, w) {
            (Ok(false), w1) => (Ok(FlowVal::Normal(Val::Unit)), w1),
            (Ok(true), w1) => match block_run(cx, f, s.body, env, w1) {
                (Ok(flow), w2) => if loop_goes_on(flow) {
                    while_run(cx, f, s, env, w2)
                } else {
                    (Ok(loop_ended(flow)), w2)
                },
                (Err(h), w2) => (Err(h), w2),
            },
            (Err(h), w1) => (Err(h), w1),
        }
    }
}

/// A loop's binder bound to an item.
pub open spec fn item_bound(b: Binder, item: Val, scope: Env, span: Span, w: World) -> Out<()> {
    match b {
        Binder::Name(n) => (Ok(()), w.with_var(scope, n@, item, false)),
        Binder::Tuple(names) => destructured(texts(names@), item, scope, false, span, w),
    }
}

/// The turns of a `for` over the items from place `i` on, each in a scope of its
/// own.
pub open spec fn turns_run(
    cx: Cx,
    fuel: nat,
    s: ForStmt,
    items: Seq<Val>,
    i: nat,
    env: Env,
    w: World,
) -> Out<FlowVal>
    decreases fuel, 3nat, items.len() - i,
{
    if i >= items.len() {
        (Ok(FlowVal::Normal(Val::Unit)), w)
    } else {
        let scope = w.next_scope();
        match item_bound(s.binder, items[i as int], scope, s.iter.span, w.add_scope(Some(env))) {
            (Ok(_), w1) => match stmts_executed(
                cx,
                fuel,
                s.body.stmts@,
                0,
                Val::Unit,
                scope,
                w1,
            ) {
                (Ok(flow), w2) => if loop_goes_on(flow) {
                    turns_run(cx, fuel, s, items, i + 1, env, w2)
                } else {
                    (Ok(loop_ended(flow)), w2)
                },
                (Err(h), w2) => (Err(h), w2),
            },
            (Err(h), w1) => (Err(h), w1),
        }
    }
}

pub open spec fn for_run(cx: Cx, fuel: nat, s: ForStmt, env: Env, w: World) -> Out<FlowVal>
    decreases fuel, 4nat, 0nat,
{
    match evaluated(cx, fuel, s.iter, env, w) {
        (Ok(v), w1) => match iterated(v, s.iter.span, w1) {
            Ok(items) => turns_run(cx, fuel, s, items, 0, env, w1),
            Err(h) => (Err(h), w1),
        },
        (Err(h), w1) => (Err(h), w1),
    }
}

/// One step along the path of a target.
pub open spec fn stepped(
    cx: Cx,
    fuel: nat,
    container: Val,
    seg: TargetSeg,
    span: Span,
    env: Env,
    w: World,
) -> Out<Val>
    decreases fuel, 1nat, 0nat,
{
    match seg {
        TargetSeg::Field(name) => (
            match container {
                Val::Struct(at) => match lookup(w.instance(at).fields, name@) {
                    Some(v) => Ok(v),
                    None => Err(failure("struct has no field `"@ + name@ + "`"@, span)),
                },
                other => Err(
                    failure(
                        "cannot access field `"@ + name@ + "` on "@ + label_of(other),
                        span,
                    ),
                ),
            },
            w,
        ),
        TargetSeg::Index(e) => match evaluated(cx, fuel, e, env, w) {
            (Ok(i), w1) => (indexed(container, i, span, w1), w1),
            (Err(h), w1) => (Err(h), w1),
        },
    }
}

/// The container that holds the last segment of a path, from place `i` on.
pub open spec fn navigated(
    cx: Cx,
    fuel: nat,
    container: Val,
    path: Seq<TargetSeg>,
    i: nat,
    span: Span,
    env: Env,
    w: World,
) -> Out<Val>
    decreases fuel, 2nat, path.len() - i,
{
    if i + 1 >= path.len() {
        (Ok(container), w)
    } else {
        match stepped(cx, fuel, container, path[i as int], span, env, w) {
            (Ok(v), w1) => navigated(cx, fuel, v, path, i + 1, span, env, w1),
            (Err(h), w1) => (Err(h), w1),
        }
    }
}

/// A value written at the last segment of a path.
pub open spec fn written(
    cx: Cx,
    fuel: nat,
    container: Val,
    seg: TargetSeg,
    new: Val,
    span: Span,
    env: Env,
    w: World,
) -> Out<()>
    decreases fuel, 1nat, 0nat,
{
    match seg {
        TargetSeg::Field(name) => match container {
            Val::Struct(at) => if lookup(w.instance(at).fields, name@) is None {
                (
                    Err(
                        failure(
                            "struct `"@ + w.instance(at).name + "` has no field `"@ + name@
                                + "`"@,
                            span,
                        ),
                    ),
                    w,
                )
            } else {
                (Ok(()), w.with_field(at, name@, new))
            },
            other => (
                Err(
                    failure("cannot set field `"@ + name@ + "` on "@ + label_of(other), span),
                ),
                w,
            ),
        },
        TargetSeg::Index(e) => match evaluated(cx, fuel, e, env, w) {
            (Ok(idx), w1) => match container {
                Val::List(at) => match index_place(idx, w1.list(at).len(), span) {
                    Ok(i) => (Ok(()), w1.with_list(at, w1.list(at).update(i as int, new))),
                    Err(h) => (Err(h), w1),
                },
                other => (
                    Err(failure("cannot index-assign into "@ + label_of(other), span)),
                    w1,
                ),
            },
            (Err(h), w1) => (Err(h), w1),
        },
    }
}

/// An assignment.
pub open spec fn assigned(cx: Cx, fuel: nat, a: Assign, env: Env, w: World) -> Out<()>
    decreases fuel, 3nat, 0nat,
{
    let target = a.target;
    match evaluated(cx, fuel, a.value, env, w) {
        (Ok(new), w1) => if target.path@.len() == 0 {
            match reassigned(w1, env, target.base@, new) {
                (Ok(true), w2) => (Ok(()), w2),
                (Ok(false), w2) => (
                    Err(
                        failure(
                            "cannot assign to undefined name `"@ + target.base@ + "`"@,
                            target.span,
                        ),
                    ),
                    w2,
                ),
                (Err(_), w2) => (Err(failure(val_message(target.base@), target.span)), w2),
            }
        } else {
            match resolved(w1, env, target.base@) {
                None => (
                    Err(
                        failure(
                            "cannot assign to undefined name `"@ + target.base@ + "`"@,
                            target.span,
                        ),
                    ),
                    w1,
                ),
                Some(base) => match navigated(
                    cx,
                    fuel,
                    base,
                    target.path@,
                    0,
                    target.span,
                    env,
                    w1,
                ) {
                    (Ok(container), w2) => written(
                        cx,
                        fuel,
                        container,
                        target.path@.last(),
                        new,
                        target.span,
                        env,
                        w2,
                    ),
                    (Err(h), w2) => (Err(h), w2),
                },
            }
        },
        (Err(h), w1) => (Err(h), w1),
    }
}

} // verus!
