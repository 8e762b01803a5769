//! Laws of expressions: what each kind evaluates, in which order, and what it gives.

use super::env::resolved;
use super::float::{float_negation, FloatOp, QuestionView};
use super::ops::range_items;
use super::semantics::{
    arms_run, binary_evaluated, builtin_called, condition, enum_named, evaluated, executed,
    index_evaluated, items_evaluated, match_evaluated, match_run, matched, member_evaluated,
    members_evaluated, operated, pairs_evaluated, stmts_executed, text_built,
};
use super::collections::{put_item, put_pair};
use super::show::{compared, equal, shown, shown_items};
use super::value::{failure, Builtin, Env, Halt, Val, World};
use super::{Cx, FlowVal};
use crate::ast::{BinOp, Expr, ExprKind, MatchArm, MatchExpr, Stmt, StmtKind, StrSeg, UnOp};
use crate::integer::{truncated_quotient, truncated_remainder};
use crate::name_map::lookup;
use crate::text::{joined, Order};
use crate::token::Span;
use vstd::arithmetic::power::pow;
use vstd::prelude::*;
use vstd::string::*;

verus! {

/// What an expression that has been evaluated is.
pub open spec fn gives(
    cx: Cx,
    fuel: nat,
    e: Expr,
    env: Env,
    w: World,
    v: Val,
    after: World,
) -> bool {
    evaluated(cx, fuel, e, env, w) == (Ok::<Val, Halt>(v), after)
}

/// Whether the first `k` expressions are evaluated one behind the other, to these
/// values.
pub open spec fn give(
    cx: Cx,
    fuel: nat,
    es: Seq<Expr>,
    env: Env,
    ws: Seq<World>,
    vs: Seq<Val>,
    k: nat,
) -> bool {
    k <= es.len() && ws.len() == k + 1 && vs.len() == k && forall|j: int, n: int|
        #![trigger ws[j], ws[n]]
        0 <= j < k && n == j + 1 ==> gives(cx, fuel, es[j], env, ws[j], vs[j], ws[n])
}

// ---------------------------------------------------------------------------
// Literals and names
// ---------------------------------------------------------------------------

/// A literal is its value; a name is what it is bound to, and `self` likewise; a name
/// that is not bound is an error. None of them changes anything.
pub proof fn law_literals_and_names(cx: Cx, fuel: nat, e: Expr, env: Env, w: World)
    requires
        fuel > 0,
    ensures
        e.kind matches ExprKind::Int(n) ==> gives(cx, fuel, e, env, w, Val::Int(n@), w),
        e.kind matches ExprKind::Float(x) ==> gives(cx, fuel, e, env, w, Val::Float(x), w),
        e.kind matches ExprKind::Bool(b) ==> gives(cx, fuel, e, env, w, Val::Bool(b), w),
        e.kind is Null ==> gives(cx, fuel, e, env, w, Val::Null, w),
        e.kind matches ExprKind::Name(n) ==> match resolved(w, env, n@) {
            Some(v) => gives(cx, fuel, e, env, w, v, w),
            None => evaluated(cx, fuel, e, env, w) == (
                Err::<Val, Halt>(failure("undefined name `"@ + n@ + "`"@, e.span)),
                w,
            ),
        },
        e.kind is SelfExpr ==> match resolved(w, env, "self"@) {
            Some(v) => gives(cx, fuel, e, env, w, v, w),
            None => evaluated(cx, fuel, e, env, w).0 is Err,
        },
{
}

proof fn to_item(
    cx: Cx,
    fuel: nat,
    es: Seq<Expr>,
    env: Env,
    ws: Seq<World>,
    vs: Seq<Val>,
    k: nat,
    i: nat,
)
    requires
        give(cx, fuel, es, env, ws, vs, k),
        i <= k,
    ensures
        items_evaluated(cx, fuel, es, i, vs.take(i as int), env, ws[i as int]) == items_evaluated(
            cx,
            fuel,
            es,
            k,
            vs,
            env,
            ws[k as int],
        ),
    decreases k - i,
{
    if i < k {
        let n = i as int + 1;
        assert(gives(cx, fuel, es[i as int], env, ws[i as int], vs[i as int], ws[n]));
        assert(vs.take(n) =~= vs.take(i as int).push(vs[i as int]));
        to_item(cx, fuel, es, env, ws, vs, k, i + 1);
    } else {
        assert(vs.take(i as int) =~= vs);
    }
}

/// A list literal evaluates its items from left to right and is a new list of their
/// values; a tuple is the tuple of them. The first item that ends in an error ends
/// it, and none behind it is evaluated.
pub proof fn law_list_and_tuple_literals(
    cx: Cx,
    fuel: nat,
    e: Expr,
    es: Seq<Expr>,
    env: Env,
    ws: Seq<World>,
    vs: Seq<Val>,
    k: nat,
)
    requires
        fuel > 0,
        (e.kind matches ExprKind::List(items) && items@ == es) || (e.kind matches ExprKind::Tuple(
            items,
        ) && items@ == es),
        give(cx, (fuel - 1) as nat, es, env, ws, vs, k),
    ensures
        k == es.len() && e.kind is List ==> gives(
            cx,
            fuel,
            e,
            env,
            ws[0],
            Val::List(ws.last().next_list()),
            ws.last().add_list(vs),
        ),
        k == es.len() && e.kind is Tuple ==> gives(
            cx,
            fuel,
            e,
            env,
            ws[0],
            Val::Tuple(vs),
            ws.last(),
        ),
        k < es.len() ==> (evaluated(
            cx,
            (fuel - 1) as nat,
            es[k as int],
            env,
            ws.last(),
        ).0 is Err ==> evaluated(cx, fuel, e, env, ws[0]) == evaluated(
            cx,
            (fuel - 1) as nat,
            es[k as int],
            env,
            ws.last(),
        )),
{
    let f = (fuel - 1) as nat;
    assert(vs.take(0) =~= Seq::<Val>::empty());
    to_item(cx, f, es, env, ws, vs, k, 0);
    let got = items_evaluated(cx, f, es, 0, Seq::empty(), env, ws[0]);
    assert(k == es.len() ==> got == (Ok::<Seq<Val>, Halt>(vs), ws.last()));
}

/// A set literal puts the value of each item, from left to right, into a new set.
pub proof fn law_set_literal(
    cx: Cx,
    fuel: nat,
    e: Expr,
    es: Seq<Expr>,
    env: Env,
    ws: Seq<World>,
    vs: Seq<Val>,
    sets: Seq<Seq<Val>>,
)
    requires
        fuel > 0,
        e.kind matches ExprKind::SetLit(items) && items@ == es,
        give(cx, (fuel - 1) as nat, es, env, ws, vs, es.len()),
        sets.len() == es.len() + 1,
        sets[0].len() == 0,
        forall|j: int, n: int|
            #![trigger sets[j], sets[n]]
            0 <= j < es.len() && n == j + 1 ==> put_item(
                ws[n],
                (fuel - 1) as nat,
                sets[j],
                vs[j],
            ) == Ok::<Seq<Val>, Halt>(sets[n]),
    ensures
        gives(
            cx,
            fuel,
            e,
            env,
            ws[0],
            Val::SetRef(ws.last().next_set()),
            ws.last().add_set(sets.last()),
        ),
{
    assert(sets[0] =~= Seq::<Val>::empty());
    to_member(cx, (fuel - 1) as nat, es, env, ws, vs, sets, 0);
}

proof fn to_member(
    cx: Cx,
    fuel: nat,
    es: Seq<Expr>,
    env: Env,
    ws: Seq<World>,
    vs: Seq<Val>,
    sets: Seq<Seq<Val>>,
    i: nat,
)
    requires
        give(cx, fuel, es, env, ws, vs, es.len()),
        i <= es.len(),
        sets.len() == es.len() + 1,
        forall|j: int, n: int|
            #![trigger sets[j], sets[n]]
            0 <= j < es.len() && n == j + 1 ==> put_item(ws[n], fuel, sets[j], vs[j]) == Ok::<
                Seq<Val>,
                Halt,
            >(sets[n]),
    ensures
        members_evaluated(cx, fuel, es, i, sets[i as int], env, ws[i as int]) == (
            Ok::<Seq<Val>, Halt>(sets.last()),
            ws.last(),
        ),
    decreases es.len() - i,
{
    if i < es.len() {
        let n = i as int + 1;
        assert(gives(cx, fuel, es[i as int], env, ws[i as int], vs[i as int], ws[n]));
        assert(put_item(ws[n], fuel, sets[i as int], vs[i as int]) == Ok::<Seq<Val>, Halt>(
            sets[n],
        ));
        to_member(cx, fuel, es, env, ws, vs, sets, i + 1);
    }
}

/// A map literal evaluates each key and then its value, from left to right, and puts
/// them into a new map.
pub proof fn law_map_literal(
    cx: Cx,
    fuel: nat,
    e: Expr,
    ps: Seq<(Expr, Expr)>,
    env: Env,
    ws: Seq<World>,
    mids: Seq<World>,
    ks: Seq<Val>,
    vs: Seq<Val>,
    maps: Seq<Seq<(Val, Val)>>,
)
    requires
        fuel > 0,
        e.kind matches ExprKind::MapLit(pairs) && pairs@ == ps,
        pairs_give(cx, (fuel - 1) as nat, ps, env, ws, mids, ks, vs, maps),
        maps[0].len() == 0,
    ensures
        gives(
            cx,
            fuel,
            e,
            env,
            ws[0],
            Val::MapRef(ws.last().next_map()),
            ws.last().add_map(maps.last()),
        ),
{
    assert(maps[0] =~= Seq::<(Val, Val)>::empty());
    to_pair(cx, (fuel - 1) as nat, ps, env, ws, mids, ks, vs, maps, 0);
}

/// Whether keys and values are evaluated in turn and put into a map.
pub open spec fn pairs_give(
    cx: Cx,
    fuel: nat,
    ps: Seq<(Expr, Expr)>,
    env: Env,
    ws: Seq<World>,
    mids: Seq<World>,
    ks: Seq<Val>,
    vs: Seq<Val>,
    maps: Seq<Seq<(Val, Val)>>,
) -> bool {
    &&& ws.len() == ps.len() + 1
    &&& maps.len() == ps.len() + 1
    &&& mids.len() == ps.len()
    &&& ks.len() == ps.len()
    &&& vs.len() == ps.len()
    &&& forall|j: int, n: int|
        #![trigger ws[j], ws[n]]
        0 <= j < ps.len() && n == j + 1 ==> {
            &&& gives(cx, fuel, ps[j].0, env, ws[j], ks[j], mids[j])
            &&& gives(cx, fuel, ps[j].1, env, mids[j], vs[j], ws[n])
            &&& put_pair(ws[n], fuel, maps[j], ks[j], vs[j]) == Ok::<Seq<(Val, Val)>, Halt>(maps[n])
        }
}

proof fn pair_gives(
    cx: Cx,
    fuel: nat,
    ps: Seq<(Expr, Expr)>,
    env: Env,
    ws: Seq<World>,
    mids: Seq<World>,
    ks: Seq<Val>,
    vs: Seq<Val>,
    maps: Seq<Seq<(Val, Val)>>,
    j: int,
    n: int,
)
    requires
        pairs_give(cx, fuel, ps, env, ws, mids, ks, vs, maps),
        0 <= j < ps.len(),
        n == j + 1,
    ensures
        evaluated(cx, fuel, ps[j].0, env, ws[j]) == (Ok::<Val, Halt>(ks[j]), mids[j]),
        evaluated(cx, fuel, ps[j].1, env, mids[j]) == (Ok::<Val, Halt>(vs[j]), ws[n]),
        put_pair(ws[n], fuel, maps[j], ks[j], vs[j]) == Ok::<Seq<(Val, Val)>, Halt>(maps[n]),
{
    let (here, next) = (ws[j], ws[n]);
    assert(gives(cx, fuel, ps[j].0, env, here, ks[j], mids[j]));
    assert(gives(cx, fuel, ps[j].1, env, mids[j], vs[j], next));
}

proof fn to_pair(
    cx: Cx,
    fuel: nat,
    ps: Seq<(Expr, Expr)>,
    env: Env,
    ws: Seq<World>,
    mids: Seq<World>,
    ks: Seq<Val>,
    vs: Seq<Val>,
    maps: Seq<Seq<(Val, Val)>>,
    i: nat,
)
    requires
        pairs_give(cx, fuel, ps, env, ws, mids, ks, vs, maps),
        i <= ps.len(),
    ensures
        pairs_evaluated(cx, fuel, ps, i, maps[i as int], env, ws[i as int]) == (
            Ok::<Seq<(Val, Val)>, Halt>(maps.last()),
            ws.last(),
        ),
    decreases ps.len() - i,
{
    if i < ps.len() {
        let n = i as int + 1;
        pair_gives(cx, fuel, ps, env, ws, mids, ks, vs, maps, i as int, n);
        to_pair(cx, fuel, ps, env, ws, mids, ks, vs, maps, i + 1);
    }
}

// ---------------------------------------------------------------------------
// Texts
// ---------------------------------------------------------------------------

/// Whether the parts of a string give these texts, one behind the other: text as it
/// is, and for an expression how its value is shown.
pub open spec fn parts_give(
    cx: Cx,
    fuel: nat,
    parts: Seq<StrSeg>,
    env: Env,
    ws: Seq<World>,
    vs: Seq<Val>,
    ts: Seq<Seq<char>>,
) -> bool {
    &&& ws.len() == parts.len() + 1
    &&& ts.len() == parts.len()
    &&& vs.len() == parts.len()
    &&& forall|j: int, n: int|
        #![trigger ws[j], ws[n]]
        0 <= j < parts.len() && n == j + 1 ==> match parts[j] {
            StrSeg::Text(t) => ts[j] == t@ && ws[n] == ws[j],
            StrSeg::Expr(e) => gives(cx, fuel, *e, env, ws[j], vs[j], ws[n]) && shown(
                cx.ans,
                ws[n],
                fuel,
                vs[j],
            ) == Ok::<Seq<char>, Halt>(ts[j]),
        }
}

/// Texts one behind the other.
pub open spec fn run_together(ts: Seq<Seq<char>>) -> Seq<char>
    decreases ts.len(),
{
    if ts.len() == 0 {
        Seq::empty()
    } else {
        run_together(ts.drop_last()) + ts.last()
    }
}

proof fn to_part(
    cx: Cx,
    fuel: nat,
    parts: Seq<StrSeg>,
    env: Env,
    ws: Seq<World>,
    vs: Seq<Val>,
    ts: Seq<Seq<char>>,
    i: nat,
)
    requires
        parts_give(cx, fuel, parts, env, ws, vs, ts),
        i <= parts.len(),
    ensures
        text_built(cx, fuel, parts, i, run_together(ts.take(i as int)), env, ws[i as int]) == (
            Ok::<Seq<char>, Halt>(run_together(ts)),
            ws.last(),
        ),
    decreases parts.len() - i,
{
    if i < parts.len() {
        let n = i as int + 1;
        assert(ts.take(n).drop_last() =~= ts.take(i as int));
        assert(ts.take(n).last() == ts[i as int]);
        match parts[i as int] {
            StrSeg::Text(t) => {
                assert(ws[n] == ws[i as int] && ts[i as int] == t@);
            },
            StrSeg::Expr(e) => {
                assert(gives(cx, fuel, *e, env, ws[i as int], vs[i as int], ws[n]));
            },
        }
        to_part(cx, fuel, parts, env, ws, vs, ts, i + 1);
    } else {
        assert(ts.take(i as int) =~= ts);
    }
}

/// A string is its parts one behind the other, each expression in it shown, evaluated
/// from left to right.
pub proof fn law_string_interpolation(
    cx: Cx,
    fuel: nat,
    e: Expr,
    parts: Seq<StrSeg>,
    env: Env,
    ws: Seq<World>,
    vs: Seq<Val>,
    ts: Seq<Seq<char>>,
)
    requires
        fuel > 0,
        e.kind matches ExprKind::Str(lit) && lit.parts@ == parts,
        parts_give(cx, (fuel - 1) as nat, parts, env, ws, vs, ts),
    ensures
        gives(cx, fuel, e, env, ws[0], Val::Str(run_together(ts)), ws.last()),
{
    assert(ts.take(0).len() == 0);
    assert(run_together(ts.take(0)) =~= Seq::<char>::empty());
    to_part(cx, (fuel - 1) as nat, parts, env, ws, vs, ts, 0);
}

proof fn to_shown(
    cx: Cx,
    w: World,
    fuel: nat,
    args: Seq<Val>,
    ts: Seq<Seq<char>>,
    i: nat,
)
    requires
        ts.len() == args.len(),
        i <= args.len(),
        forall|j: int|
            0 <= j < args.len() ==> shown(cx.ans, w, fuel, #[trigger] args[j]) == Ok::<
                Seq<char>,
                Halt,
            >(ts[j]),
    ensures
        shown_items(cx.ans, w, fuel, args, i, ts.take(i as int)) == Ok::<Seq<Seq<char>>, Halt>(ts),
    decreases args.len() - i,
{
    if i < args.len() {
        assert(shown(cx.ans, w, fuel, args[i as int]) == Ok::<Seq<char>, Halt>(ts[i as int]));
        assert(ts.take((i + 1) as int) =~= ts.take(i as int).push(ts[i as int]));
        to_shown(cx, w, fuel, args, ts, i + 1);
    } else {
        assert(ts.take(i as int) =~= ts);
    }
}

/// `print` adds one line: how its arguments are shown, with a blank between them.
pub proof fn law_print(
    cx: Cx,
    fuel: nat,
    args: Seq<Val>,
    ts: Seq<Seq<char>>,
    span: Span,
    w: World,
)
    requires
        ts.len() == args.len(),
        forall|j: int|
            0 <= j < args.len() ==> shown(cx.ans, w, fuel, #[trigger] args[j]) == Ok::<
                Seq<char>,
                Halt,
            >(ts[j]),
    ensures
        ({
            let after = builtin_called(cx, fuel, Builtin::Print, args, span, w);
            &&& after.0 == Ok::<Val, Halt>(Val::Unit)
            &&& after.1.out == w.out.push((joined(ts, " "@), span))
            &&& after.1 == (World { out: after.1.out, ..w })
        }),
{
    assert(ts.take(0) =~= Seq::<Seq<char>>::empty());
    to_shown(cx, w, fuel, args, ts, 0);
}

/// `panic` ends the run with the text that it is given, or with how its argument is
/// shown.
pub proof fn law_panic(cx: Cx, fuel: nat, v: Val, span: Span, w: World)
    ensures
        v matches Val::Str(s) ==> builtin_called(cx, fuel, Builtin::Panic, seq![v], span, w) == (
            Err::<Val, Halt>(failure("panic: "@ + s, span)),
            w,
        ),
        builtin_called(cx, fuel, Builtin::Panic, seq![v], span, w).0 is Err,
        builtin_called(cx, fuel, Builtin::Panic, Seq::empty(), span, w).0 is Err,
{
}

// ---------------------------------------------------------------------------
// Choice
// ---------------------------------------------------------------------------

/// `a if c else b` evaluates the condition, and then just the side that it chooses.
pub proof fn law_ternary(cx: Cx, fuel: nat, e: Expr, env: Env, w: World, after: World)
    requires
        fuel > 1,
        e.kind is Ternary,
    ensures
        gives(cx, (fuel - 1) as nat, *e.kind->Ternary_cond, env, w, Val::Bool(true), after)
            ==> evaluated(cx, fuel, e, env, w) == evaluated(
            cx,
            (fuel - 1) as nat,
            *e.kind->Ternary_then,
            env,
            after,
        ),
        gives(cx, (fuel - 1) as nat, *e.kind->Ternary_cond, env, w, Val::Bool(false), after)
            ==> evaluated(cx, fuel, e, env, w) == evaluated(
            cx,
            (fuel - 1) as nat,
            *e.kind->Ternary_otherwise,
            env,
            after,
        ),
{
    let f = (fuel - 1) as nat;
    let c = condition(cx, f, *e.kind->Ternary_cond, env, w);
    assert(c == condition(cx, f, *e.kind->Ternary_cond, env, w));
}

/// Whether the first `k` arms of a `match` do not fit: the pattern does not, or its
/// guard is false. The worlds are those before each, and behind the last.
pub open spec fn arms_pass(
    cx: Cx,
    fuel: nat,
    arms: Seq<MatchArm>,
    v: Val,
    env: Env,
    ws: Seq<World>,
    k: nat,
) -> bool {
    k <= arms.len() && ws.len() == k + 1 && forall|j: int, n: int|
        #![trigger ws[j], ws[n]]
        0 <= j < k && n == j + 1 ==> {
            let scope = ws[j].next_scope();
            let (fits, w1) = matched(arms[j].pattern, v, scope, ws[j].add_scope(Some(env)));
            ||| !fits && ws[n] == w1
            ||| fits && (arms[j].guard matches Some(g) && gives(
                cx,
                fuel,
                g,
                scope,
                w1,
                Val::Bool(false),
                ws[n],
            ))
        }
}

proof fn to_match_arm(
    cx: Cx,
    fuel: nat,
    arms: Seq<MatchArm>,
    v: Val,
    span: Span,
    env: Env,
    ws: Seq<World>,
    k: nat,
    i: nat,
)
    requires
        arms_pass(cx, fuel, arms, v, env, ws, k),
        i <= k,
    ensures
        arms_run(cx, fuel, arms, i, v, span, env, ws[i as int]) == arms_run(
            cx,
            fuel,
            arms,
            k,
            v,
            span,
            env,
            ws[k as int],
        ),
    decreases k - i,
{
    if i < k {
        let n = i as int + 1;
        let w = ws[i as int];
        let scope = w.next_scope();
        let (fits, w1) = matched(arms[i as int].pattern, v, scope, w.add_scope(Some(env)));
        assert(ws[n] == ws[n]);
        if fits {
            let g = arms[i as int].guard->0;
            assert(condition(cx, fuel, g, scope, w1) == (Ok::<bool, Halt>(false), ws[n]));
        }
        to_match_arm(cx, fuel, arms, v, span, env, ws, k, i + 1);
    }
}

/// A `match` runs the first arm whose pattern fits and whose guard, if it has one, is
/// true: the statements of its body, in a new scope inside `env` where the names of
/// the pattern are bound. Where no arm does, it is an error.
pub proof fn law_match_runs_first_arm(
    cx: Cx,
    fuel: nat,
    m: MatchExpr,
    span: Span,
    env: Env,
    w: World,
    v: Val,
    ws: Seq<World>,
    k: nat,
    guarded: World,
)
    requires
        gives(cx, fuel, *m.scrutinee, env, w, v, ws[0]),
        arms_pass(cx, fuel, m.arms@, v, env, ws, k),
    ensures
        k == m.arms@.len() ==> match_run(cx, fuel, m, span, env, w) == (
            Err::<FlowVal, Halt>(failure("no match arm matched (non-exhaustive match)"@, span)),
            ws.last(),
        ),
        k < m.arms@.len() ==> {
            let arm = m.arms@[k as int];
            let scope = ws.last().next_scope();
            let (fits, w1) = matched(arm.pattern, v, scope, ws.last().add_scope(Some(env)));
            fits && (match arm.guard {
                None => guarded == w1,
                Some(g) => gives(cx, fuel, g, scope, w1, Val::Bool(true), guarded),
            }) ==> match_run(cx, fuel, m, span, env, w) == stmts_executed(
                cx,
                fuel,
                arm.body.stmts@,
                0,
                Val::Unit,
                scope,
                guarded,
            )
        },
{
    to_match_arm(cx, fuel, m.arms@, v, span, env, ws, k, 0);
    assert(match_run(cx, fuel, m, span, env, w) == arms_run(
        cx,
        fuel,
        m.arms@,
        0,
        v,
        span,
        env,
        ws[0],
    ));
    if k < m.arms@.len() {
        let arm = m.arms@[k as int];
        let scope = ws.last().next_scope();
        let (fits, w1) = matched(arm.pattern, v, scope, ws.last().add_scope(Some(env)));
        if let Some(g) = arm.guard {
            if gives(cx, fuel, g, scope, w1, Val::Bool(true), guarded) {
                assert(condition(cx, fuel, g, scope, w1) == (Ok::<bool, Halt>(true), guarded));
            }
        }
    }
}

/// A `match` that stands as a statement ends as its arm does; one that is a value
/// gives the value of its arm, what the arm returns too, and a `break` or `continue`
/// in an arm is then an error.
pub proof fn law_match_as_statement_and_value(
    cx: Cx,
    fuel: nat,
    s: Stmt,
    e: Expr,
    m: MatchExpr,
    env: Env,
    w: World,
)
    requires
        fuel > 0,
        s.kind == StmtKind::Expr(e),
        e.kind == ExprKind::Match(m),
    ensures
        ({
            let run = match_run(cx, (fuel - 1) as nat, m, e.span, env, w);
            let value = evaluated(cx, fuel, e, env, w);
            &&& executed(cx, fuel, s, env, w) == run
            &&& run.0 matches Ok(FlowVal::Normal(v)) ==> value == (Ok::<Val, Halt>(v), run.1)
            &&& run.0 matches Ok(FlowVal::Return(v)) ==> value == (Ok::<Val, Halt>(v), run.1)
            &&& (run.0 matches Ok(flow) && (flow is Break || flow is Continue)) ==> value.0 is Err
            &&& run.0 matches Err(h) ==> value == (Err::<Val, Halt>(h), run.1)
        }),
{
    let f = (fuel - 1) as nat;
    assert(evaluated(cx, fuel, e, env, w) == match_evaluated(cx, f, m, e.span, env, w));
}

// ---------------------------------------------------------------------------
// Operators
// ---------------------------------------------------------------------------

/// `not` turns a Boolean round, `-` an integer or a float; of anything else they are
/// an error.
pub proof fn law_unary(cx: Cx, fuel: nat, e: Expr, env: Env, w: World, v: Val, after: World)
    requires
        fuel > 0,
        e.kind is Unary,
        gives(cx, (fuel - 1) as nat, *e.kind->Unary_operand, env, w, v, after),
    ensures
        ({
            let got = evaluated(cx, fuel, e, env, w);
            &&& got.1 == after
            &&& e.kind->Unary_op == UnOp::Not ==> match v {
                Val::Bool(b) => got.0 == Ok::<Val, Halt>(Val::Bool(!b)),
                _ => got.0 is Err,
            }
            &&& e.kind->Unary_op == UnOp::Neg ==> match v {
                Val::Int(n) => got.0 == Ok::<Val, Halt>(Val::Int(-n)),
                Val::Float(x) => got.0 == Ok::<Val, Halt>(Val::Float(float_negation(x))),
                _ => got.0 is Err,
            }
        }),
{
}

/// Whether both sides of an operator are evaluated, the left one first.
pub open spec fn sides_give(
    cx: Cx,
    fuel: nat,
    e: Expr,
    env: Env,
    w: World,
    l: Val,
    mid: World,
    r: Val,
    after: World,
) -> bool {
    &&& e.kind is Binary
    &&& gives(cx, fuel, *e.kind->Binary_lhs, env, w, l, mid)
    &&& gives(cx, fuel, *e.kind->Binary_rhs, env, mid, r, after)
}

proof fn sides(
    cx: Cx,
    fuel: nat,
    e: Expr,
    env: Env,
    w: World,
    l: Val,
    mid: World,
    r: Val,
    after: World,
)
    requires
        fuel > 0,
        sides_give(cx, (fuel - 1) as nat, e, env, w, l, mid, r, after),
        e.kind->Binary_op != BinOp::And,
        e.kind->Binary_op != BinOp::Or,
    ensures
        evaluated(cx, fuel, e, env, w) == operated(
            cx,
            (fuel - 1) as nat,
            e.kind->Binary_op,
            l,
            r,
            e.span,
            after,
        ),
{
    let f = (fuel - 1) as nat;
    assert(evaluated(cx, fuel, e, env, w) == binary_evaluated(
        cx,
        f,
        e.kind->Binary_op,
        *e.kind->Binary_lhs,
        *e.kind->Binary_rhs,
        e.span,
        env,
        w,
    ));
}

/// An error on the left side ends an operator before the right side is evaluated; an
/// error on the right side ends it too.
pub proof fn law_operand_fails(cx: Cx, fuel: nat, e: Expr, env: Env, w: World, l: Val, mid: World)
    requires
        fuel > 0,
        e.kind is Binary,
    ensures
        ({
            let f = (fuel - 1) as nat;
            let left = evaluated(cx, f, *e.kind->Binary_lhs, env, w);
            let right = evaluated(cx, f, *e.kind->Binary_rhs, env, mid);
            &&& left.0 is Err ==> evaluated(cx, fuel, e, env, w) == left
            &&& left == (Ok::<Val, Halt>(l), mid) && right.0 is Err && e.kind->Binary_op
                != BinOp::And && e.kind->Binary_op != BinOp::Or ==> evaluated(
                cx,
                fuel,
                e,
                env,
                w,
            ) == right
        }),
{
    let f = (fuel - 1) as nat;
    assert(evaluated(cx, fuel, e, env, w) == binary_evaluated(
        cx,
        f,
        e.kind->Binary_op,
        *e.kind->Binary_lhs,
        *e.kind->Binary_rhs,
        e.span,
        env,
        w,
    ));
}

/// `and` whose left side is true, and `or` whose left side is false, is its right side,
/// which must be a Boolean.
pub proof fn law_logic_right_side(
    cx: Cx,
    fuel: nat,
    e: Expr,
    env: Env,
    w: World,
    l: bool,
    mid: World,
    r: Val,
    after: World,
)
    requires
        fuel > 0,
        sides_give(cx, (fuel - 1) as nat, e, env, w, Val::Bool(l), mid, r, after),
        (e.kind->Binary_op == BinOp::And && l) || (e.kind->Binary_op == BinOp::Or && !l),
    ensures
        r is Bool ==> gives(cx, fuel, e, env, w, r, after),
        !(r is Bool) ==> evaluated(cx, fuel, e, env, w).0 is Err,
{
    let f = (fuel - 1) as nat;
    assert(evaluated(cx, fuel, e, env, w) == binary_evaluated(
        cx,
        f,
        e.kind->Binary_op,
        *e.kind->Binary_lhs,
        *e.kind->Binary_rhs,
        e.span,
        env,
        w,
    ));
}

/// `==` and `is` tell whether the two sides are equal, `!=` and `is not` whether they
/// are not.
pub proof fn law_equality_operators(
    cx: Cx,
    fuel: nat,
    e: Expr,
    env: Env,
    w: World,
    l: Val,
    mid: World,
    r: Val,
    after: World,
    b: bool,
)
    requires
        fuel > 0,
        sides_give(cx, (fuel - 1) as nat, e, env, w, l, mid, r, after),
        equal(after, (fuel - 1) as nat, l, r) == Some(b),
    ensures
        e.kind->Binary_op == BinOp::Eq || e.kind->Binary_op == BinOp::Is ==> gives(
            cx,
            fuel,
            e,
            env,
            w,
            Val::Bool(b),
            after,
        ),
        e.kind->Binary_op == BinOp::NotEq || e.kind->Binary_op == BinOp::IsNot ==> gives(
            cx,
            fuel,
            e,
            env,
            w,
            Val::Bool(!b),
            after,
        ),
{
    if e.kind->Binary_op != BinOp::And && e.kind->Binary_op != BinOp::Or {
        sides(cx, fuel, e, env, w, l, mid, r, after);
    }
}

/// The comparisons tell how the two sides order.
pub proof fn law_comparison_operators(
    cx: Cx,
    fuel: nat,
    e: Expr,
    env: Env,
    w: World,
    l: Val,
    mid: World,
    r: Val,
    after: World,
    o: Order,
)
    requires
        fuel > 1,
        sides_give(cx, (fuel - 1) as nat, e, env, w, l, mid, r, after),
        compared(cx.reg, after, (fuel - 1) as nat, l, r, e.span) == Ok::<Order, Halt>(o),
    ensures
        e.kind->Binary_op == BinOp::Lt ==> gives(
            cx,
            fuel,
            e,
            env,
            w,
            Val::Bool(o == Order::Less),
            after,
        ),
        e.kind->Binary_op == BinOp::LtEq ==> gives(
            cx,
            fuel,
            e,
            env,
            w,
            Val::Bool(o != Order::Greater),
            after,
        ),
        e.kind->Binary_op == BinOp::Gt ==> gives(
            cx,
            fuel,
            e,
            env,
            w,
            Val::Bool(o == Order::Greater),
            after,
        ),
        e.kind->Binary_op == BinOp::GtEq ==> gives(
            cx,
            fuel,
            e,
            env,
            w,
            Val::Bool(o != Order::Less),
            after,
        ),
{
    if e.kind->Binary_op != BinOp::And && e.kind->Binary_op != BinOp::Or {
        sides(cx, fuel, e, env, w, l, mid, r, after);
    }
}

/// No comparison with a NaN holds; one of values that cannot be ordered is an error.
pub proof fn law_comparison_fails(
    cx: Cx,
    fuel: nat,
    e: Expr,
    env: Env,
    w: World,
    l: Val,
    mid: World,
    r: Val,
    after: World,
)
    requires
        fuel > 1,
        sides_give(cx, (fuel - 1) as nat, e, env, w, l, mid, r, after),
        e.kind->Binary_op == BinOp::Lt || e.kind->Binary_op == BinOp::LtEq || e.kind->Binary_op
            == BinOp::Gt || e.kind->Binary_op == BinOp::GtEq,
        compared(cx.reg, after, (fuel - 1) as nat, l, r, e.span) is Err,
    ensures
        l is Float && r is Float ==> gives(cx, fuel, e, env, w, Val::Bool(false), after),
        !(l is Float && r is Float) ==> evaluated(cx, fuel, e, env, w).0 is Err,
{
    sides(cx, fuel, e, env, w, l, mid, r, after);
}

proof fn remainder_facts(a: int, b: int)
    requires
        b != 0,
    ensures
        a == b * truncated_quotient(a, b) + truncated_remainder(a, b),
        a >= 0 ==> 0 <= truncated_remainder(a, b),
        a <= 0 ==> truncated_remainder(a, b) <= 0,
        b > 0 ==> -b < truncated_remainder(a, b) < b,
        b < 0 ==> b < truncated_remainder(a, b) < -b,
{
    let (x, y) = (
        if a >= 0 {
            a
        } else {
            -a
        },
        if b > 0 {
            b
        } else {
            -b
        },
    );
    let q = x / y;
    vstd::arithmetic::div_mod::lemma_fundamental_div_mod(x, y);
    vstd::arithmetic::div_mod::lemma_mod_bound(x, y);
    assert(x - y * q == x % y);
    if a >= 0 && b > 0 {
    } else if a >= 0 {
        assert(b * (-q) == y * q) by (nonlinear_arith)
            requires
                y == -b,
        ;
    } else if b > 0 {
        assert(b * (-q) == -(y * q)) by (nonlinear_arith)
            requires
                y == b,
        ;
    } else {
        assert(b * q == -(y * q)) by (nonlinear_arith)
            requires
                y == -b,
        ;
    }
}

/// Arithmetic of integers: sums, differences and products are exact; a quotient is what
/// times the divisor gives the dividend, and there is none if it does not come out;
/// a remainder is smaller than the divisor and has the sign of the dividend; nothing
/// is divided by zero.
pub proof fn law_integer_arithmetic(
    cx: Cx,
    fuel: nat,
    e: Expr,
    env: Env,
    w: World,
    a: int,
    mid: World,
    b: int,
    after: World,
)
    requires
        fuel > 0,
        sides_give(cx, (fuel - 1) as nat, e, env, w, Val::Int(a), mid, Val::Int(b), after),
    ensures
        ({
            let got = evaluated(cx, fuel, e, env, w);
            let op = e.kind->Binary_op;
            &&& op == BinOp::Add ==> gives(cx, fuel, e, env, w, Val::Int(a + b), after)
            &&& op == BinOp::Sub ==> gives(cx, fuel, e, env, w, Val::Int(a - b), after)
            &&& op == BinOp::Mul ==> gives(cx, fuel, e, env, w, Val::Int(a * b), after)
            &&& op == BinOp::Div && b == 0 ==> got.0 is Err
            &&& op == BinOp::Div && b != 0 ==> {
                &&& got.0 matches Ok(v) ==> v matches Val::Int(q) && b * q == a && got.1 == after
                &&& (exists|q: int| #[trigger] (b * q) == a) ==> got.0 is Ok
            }
            &&& op == BinOp::Rem && b == 0 ==> got.0 is Err
            &&& op == BinOp::Rem && b != 0 ==> (got.0 matches Ok(Val::Int(r)) && got.1 == after && (
            exists|q: int| a == #[trigger] (b * q) + r) && (b > 0 ==> -b < r < b) && (b < 0 ==> b
                < r < -b) && (a >= 0 ==> r >= 0) && (a <= 0 ==> r <= 0))
            &&& op == BinOp::Pow && b < 0 ==> got.0 is Err
            &&& op == BinOp::Pow && 0 <= b <= u32::MAX ==> gives(
                cx,
                fuel,
                e,
                env,
                w,
                Val::Int(pow(a, b as nat)),
                after,
            )
        }),
{
    let op = e.kind->Binary_op;
    if op != BinOp::And && op != BinOp::Or {
        sides(cx, fuel, e, env, w, Val::Int(a), mid, Val::Int(b), after);
        if b != 0 {
            remainder_facts(a, b);
            let q = truncated_quotient(a, b);
            assert(a == b * q + truncated_remainder(a, b));
            if exists|q: int| #[trigger] (b * q) == a {
                let p = choose|q: int| #[trigger] (b * q) == a;
                assert(p * b == b * p) by (nonlinear_arith);
                crate::integer::law_exact_division(a, b);
            }
        }
    }
}

/// `+` joins texts; arithmetic of anything but two integers, two floats or two joined
/// texts is an error.
pub proof fn law_other_arithmetic(
    cx: Cx,
    fuel: nat,
    e: Expr,
    env: Env,
    w: World,
    l: Val,
    mid: World,
    r: Val,
    after: World,
)
    requires
        fuel > 0,
        sides_give(cx, (fuel - 1) as nat, e, env, w, l, mid, r, after),
        e.kind->Binary_op == BinOp::Add || e.kind->Binary_op == BinOp::Sub || e.kind->Binary_op
            == BinOp::Mul || e.kind->Binary_op == BinOp::Div || e.kind->Binary_op == BinOp::Rem
            || e.kind->Binary_op == BinOp::Pow,
    ensures
        e.kind->Binary_op == BinOp::Add && l is Str && r is Str ==> gives(
            cx,
            fuel,
            e,
            env,
            w,
            Val::Str(l->Str_0 + r->Str_0),
            after,
        ),
        !(l is Int && r is Int) && !(l is Float && r is Float) && !(e.kind->Binary_op == BinOp::Add
            && l is Str && r is Str) ==> evaluated(cx, fuel, e, env, w).0 is Err,
{
    sides(cx, fuel, e, env, w, l, mid, r, after);
}

/// A range of integers is a new list of the integers from its start on, up to its end,
/// which is among them just for `..=`. Of anything but integers it is an error.
pub proof fn law_ranges(
    cx: Cx,
    fuel: nat,
    e: Expr,
    env: Env,
    w: World,
    l: Val,
    mid: World,
    r: Val,
    after: World,
    n: int,
)
    requires
        fuel > 0,
        sides_give(cx, (fuel - 1) as nat, e, env, w, l, mid, r, after),
        e.kind->Binary_op == BinOp::Range || e.kind->Binary_op == BinOp::RangeIncl,
        after.lists.len() < usize::MAX,
    ensures
        !(l is Int && r is Int) ==> evaluated(cx, fuel, e, env, w).0 is Err,
        l is Int && r is Int ==> {
            let got = evaluated(cx, fuel, e, env, w);
            let items = got.1.list(after.next_list());
            &&& got.0 == Ok::<Val, Halt>(Val::List(after.next_list()))
            &&& got.1 == after.add_list(items)
            &&& items.contains(Val::Int(n)) <==> l->Int_0 <= n && (n < r->Int_0 || (n == r->Int_0
                && e.kind->Binary_op == BinOp::RangeIncl))
            &&& forall|i: int|
                0 <= i < items.len() ==> #[trigger] items[i] == Val::Int(l->Int_0 + i)
        },
{
    sides(cx, fuel, e, env, w, l, mid, r, after);
    if l is Int && r is Int {
        let items = range_items(l->Int_0, r->Int_0, e.kind->Binary_op == BinOp::RangeIncl);
        if l->Int_0 <= n && (n < r->Int_0 || (n == r->Int_0 && e.kind->Binary_op
            == BinOp::RangeIncl)) {
            assert(items[n - l->Int_0] == Val::Int(n));
        }
    }
}

// ---------------------------------------------------------------------------
// Members
// ---------------------------------------------------------------------------

/// `base[i]` evaluates the base and then the index, and is the item at that place of
/// the list; an index that is no integer or has no item, and a base that is no list,
/// is an error.
pub proof fn law_index(
    cx: Cx,
    fuel: nat,
    e: Expr,
    env: Env,
    w: World,
    b: Val,
    mid: World,
    i: Val,
    after: World,
)
    requires
        fuel > 0,
        e.kind is Index,
        gives(cx, (fuel - 1) as nat, *e.kind->Index_base, env, w, b, mid),
        gives(cx, (fuel - 1) as nat, *e.kind->Index_index, env, mid, i, after),
    ensures
        ({
            let got = evaluated(cx, fuel, e, env, w);
            &&& got.1 == after
            &&& !(b is List) || !(i is Int) ==> got.0 is Err
            &&& b is List && i is Int ==> {
                let items = after.list(b->List_0);
                &&& 0 <= i->Int_0 < items.len() && i->Int_0 <= usize::MAX ==> got.0 == Ok::<
                    Val,
                    Halt,
                >(items[i->Int_0])
                &&& i->Int_0 < 0 || i->Int_0 >= items.len() ==> got.0 is Err
            }
        }),
{
    let f = (fuel - 1) as nat;
    assert(evaluated(cx, fuel, e, env, w) == index_evaluated(
        cx,
        f,
        *e.kind->Index_base,
        *e.kind->Index_index,
        e.span,
        env,
        w,
    ));
}

/// `base.name` is the field of that name of a struct; a field that it has not, and a
/// base that is no struct, is an error.
pub proof fn law_member(
    cx: Cx,
    fuel: nat,
    e: Expr,
    env: Env,
    w: World,
    b: Val,
    after: World,
)
    requires
        fuel > 0,
        e.kind is Member,
        gives(cx, (fuel - 1) as nat, *e.kind->Member_base, env, w, b, after),
        !e.kind->Member_safe ==> enum_named(cx, *e.kind->Member_base, env, w) is None,
        e.kind->Member_safe ==> !(b is Null),
    ensures
        ({
            let got = evaluated(cx, fuel, e, env, w);
            &&& got.1 == after
            &&& !(b is Struct) ==> got.0 is Err
            &&& b is Struct ==> match lookup(
                after.instance(b->Struct_0).fields,
                e.kind->Member_name@,
            ) {
                Some(v) => got.0 == Ok::<Val, Halt>(v),
                None => got.0 is Err,
            }
        }),
{
    let f = (fuel - 1) as nat;
    assert(evaluated(cx, fuel, e, env, w) == member_evaluated(
        cx,
        f,
        *e.kind->Member_base,
        e.kind->Member_name@,
        e.kind->Member_safe,
        e.span,
        env,
        w,
    ));
}

// ---------------------------------------------------------------------------
// `try`, and floats
// ---------------------------------------------------------------------------

/// `try e` evaluates `e`. On an `Ok` it is the value inside; on an `Err` it ends in an
/// error that carries that `Err`; on anything else it is an error that carries
/// nothing.
pub proof fn law_try(cx: Cx, fuel: nat, e: Expr, env: Env, w: World, v: Val, after: World)
    requires
        fuel > 0,
        e.kind is Try,
        gives(cx, (fuel - 1) as nat, *e.kind->Try_0, env, w, v, after),
    ensures
        ({
            let got = evaluated(cx, fuel, e, env, w);
            match v {
                Val::Enum(x) => {
                    &&& x.enum_name == "Result"@ && x.variant == "Ok"@ && x.payload.len() == 1
                        ==> got == (Ok::<Val, Halt>(x.payload[0]), after)
                    &&& x.enum_name == "Result"@ && x.variant == "Err"@ ==> got.0 is Err && got.1
                        == after.with_propagating(Some(v))
                    &&& x.enum_name != "Result"@ || (x.variant != "Ok"@ && x.variant != "Err"@)
                        ==> got.0 is Err && got.1 == after
                },
                _ => got.0 is Err && got.1 == after,
            }
        }),
{
    reveal_strlit("Ok");
    reveal_strlit("Err");
    assert("Ok"@.len() != "Err"@.len());
}

/// Arithmetic of floats is what the host answers for that operation; where it has not
/// answered, it is asked just that.
pub proof fn law_float_arithmetic(
    cx: Cx,
    fuel: nat,
    e: Expr,
    env: Env,
    w: World,
    a: u64,
    mid: World,
    b: u64,
    after: World,
    op: FloatOp,
)
    requires
        fuel > 0,
        sides_give(cx, (fuel - 1) as nat, e, env, w, Val::Float(a), mid, Val::Float(b), after),
        (e.kind->Binary_op == BinOp::Add && op == FloatOp::Add) || (e.kind->Binary_op == BinOp::Sub
            && op == FloatOp::Sub) || (e.kind->Binary_op == BinOp::Mul && op == FloatOp::Mul) || (
        e.kind->Binary_op == BinOp::Div && op == FloatOp::Div) || (e.kind->Binary_op == BinOp::Rem
            && op == FloatOp::Rem) || (e.kind->Binary_op == BinOp::Pow && op == FloatOp::Pow),
    ensures
        match cx.ans.arith_answer(op, a, b) {
            Some(bits) => gives(cx, fuel, e, env, w, Val::Float(bits), after),
            None => evaluated(cx, fuel, e, env, w) == (
                Err::<Val, Halt>(Halt::Ask(QuestionView::Arith { op, a, b })),
                after,
            ),
        },
{
    sides(cx, fuel, e, env, w, Val::Float(a), mid, Val::Float(b), after);
}

} // verus!
