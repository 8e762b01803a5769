//! Laws of statements: what runs, in which order, in which scope, and how it ends.

use super::semantics::{
    block_run, condition, evaluated, executed, for_run, if_run, stmts_executed, turns_run,
    while_run,
};
use super::show::label_of;
use super::value::{failure, Env, Halt, Val, World};
use super::{destructured, Cx, FlowVal, Out};
use crate::ast::{Binder, Expr, ForStmt, IfStmt, Stmt, StmtKind, WhileStmt};
use crate::text::texts;
use vstd::prelude::*;
use vstd::string::*;

verus! {

/// Whether a condition is evaluated, to this, and the world behind it.
pub open spec fn condition_is(
    cx: Cx,
    fuel: nat,
    cond: Expr,
    env: Env,
    w: World,
    b: bool,
    after: World,
) -> bool {
    evaluated(cx, fuel, cond, env, w) == (Ok::<Val, Halt>(Val::Bool(b)), after)
}

/// What the statements of a block give, run from the first on in a new scope inside
/// `env`.
pub open spec fn in_new_scope(cx: Cx, fuel: nat, stmts: Seq<Stmt>, env: Env, w: World) -> Out<
    FlowVal,
> {
    stmts_executed(cx, fuel, stmts, 0, Val::Unit, w.next_scope(), w.add_scope(Some(env)))
}

// ---------------------------------------------------------------------------
// Conditionals
// ---------------------------------------------------------------------------

/// Whether the first `k` conditions of an `if` are false, one behind the other; the
/// worlds are those before each, and behind the last.
pub open spec fn are_false(
    cx: Cx,
    fuel: nat,
    c: IfStmt,
    env: Env,
    ws: Seq<World>,
    k: nat,
) -> bool {
    ws.len() == k + 1 && k <= c.arms@.len() && forall|j: int, n: int|
        #![trigger ws[j], ws[n]]
        0 <= j < k && n == j + 1 ==> condition_is(
            cx,
            fuel,
            c.arms@[j].0,
            env,
            ws[j],
            false,
            ws[n],
        )
}

proof fn condition_gives(
    cx: Cx,
    fuel: nat,
    cond: Expr,
    env: Env,
    w: World,
    b: bool,
    after: World,
)
    requires
        condition_is(cx, fuel, cond, env, w, b, after),
    ensures
        condition(cx, fuel, cond, env, w) == (Ok::<bool, Halt>(b), after),
{
}

proof fn if_is(cx: Cx, fuel: nat, s: Stmt, c: IfStmt, env: Env, w: World)
    requires
        fuel > 0,
        s.kind == StmtKind::If(c),
    ensures
        executed(cx, fuel, s, env, w) == if_run(cx, (fuel - 1) as nat, c, 0, env, w),
{
}

proof fn to_arm(cx: Cx, fuel: nat, c: IfStmt, env: Env, ws: Seq<World>, k: nat, i: nat)
    requires
        are_false(cx, fuel, c, env, ws, k),
        i <= k,
    ensures
        if_run(cx, fuel, c, i, env, ws[i as int]) == if_run(cx, fuel, c, k, env, ws[k as int]),
    decreases k - i,
{
    if i < k {
        let n = i as int + 1;
        assert(condition_is(cx, fuel, c.arms@[i as int].0, env, ws[i as int], false, ws[n]));
        condition_gives(cx, fuel, c.arms@[i as int].0, env, ws[i as int], false, ws[n]);
        to_arm(cx, fuel, c, env, ws, k, i + 1);
    }
}

/// The first condition of an `if` that is true decides: its block runs, in a new
/// scope, in the world behind the conditions, and no other.
pub proof fn law_if_runs_first_true(
    cx: Cx,
    fuel: nat,
    s: Stmt,
    c: IfStmt,
    env: Env,
    ws: Seq<World>,
    k: nat,
    after: World,
)
    requires
        fuel > 0,
        s.kind == StmtKind::If(c),
        k < c.arms@.len(),
        are_false(cx, (fuel - 1) as nat, c, env, ws, k),
        condition_is(
            cx,
            (fuel - 1) as nat,
            c.arms@[k as int].0,
            env,
            ws[k as int],
            true,
            after,
        ),
    ensures
        executed(cx, fuel, s, env, ws[0]) == in_new_scope(
            cx,
            (fuel - 1) as nat,
            c.arms@[k as int].1.stmts@,
            env,
            after,
        ),
{
    let f = (fuel - 1) as nat;
    to_arm(cx, f, c, env, ws, k, 0);
    if_is(cx, fuel, s, c, env, ws[0]);
    let arm = c.arms@[k as int];
    condition_gives(cx, f, arm.0, env, ws[k as int], true, after);
    arm_runs(cx, f, c, env, ws[k as int], k, after);
}

proof fn arm_runs(cx: Cx, fuel: nat, c: IfStmt, env: Env, w: World, k: nat, after: World)
    requires
        k < c.arms@.len(),
        condition(cx, fuel, c.arms@[k as int].0, env, w) == (Ok::<bool, Halt>(true), after),
    ensures
        if_run(cx, fuel, c, k, env, w) == in_new_scope(
            cx,
            fuel,
            c.arms@[k as int].1.stmts@,
            env,
            after,
        ),
{
    assert(block_run(cx, fuel, c.arms@[k as int].1, env, after) == in_new_scope(
        cx,
        fuel,
        c.arms@[k as int].1.stmts@,
        env,
        after,
    ));
}

proof fn else_runs(cx: Cx, fuel: nat, c: IfStmt, env: Env, w: World)
    ensures
        c.else_body matches Some(b) ==> if_run(cx, fuel, c, c.arms@.len(), env, w) == in_new_scope(
            cx,
            fuel,
            b.stmts@,
            env,
            w,
        ),
        c.else_body is None ==> if_run(cx, fuel, c, c.arms@.len(), env, w) == (
            Ok::<FlowVal, Halt>(FlowVal::Normal(Val::Unit)),
            w,
        ),
{
    if let Some(b) = c.else_body {
        assert(block_run(cx, fuel, b, env, w) == in_new_scope(cx, fuel, b.stmts@, env, w));
    }
}

/// Where every condition of an `if` is false, its `else` block runs, in a new scope, in
/// the world behind the conditions; without one, nothing does.
pub proof fn law_if_runs_else(
    cx: Cx,
    fuel: nat,
    s: Stmt,
    c: IfStmt,
    env: Env,
    ws: Seq<World>,
)
    requires
        fuel > 0,
        s.kind == StmtKind::If(c),
        are_false(cx, (fuel - 1) as nat, c, env, ws, c.arms@.len()),
    ensures
        c.else_body matches Some(b) ==> executed(cx, fuel, s, env, ws[0]) == in_new_scope(
            cx,
            (fuel - 1) as nat,
            b.stmts@,
            env,
            ws.last(),
        ),
        c.else_body is None ==> executed(cx, fuel, s, env, ws[0]) == (
            Ok::<FlowVal, Halt>(FlowVal::Normal(Val::Unit)),
            ws.last(),
        ),
{
    let f = (fuel - 1) as nat;
    to_arm(cx, f, c, env, ws, c.arms@.len(), 0);
    if_is(cx, fuel, s, c, env, ws[0]);
    else_runs(cx, f, c, env, ws.last());
}

/// A condition that ends in an error, or is no Boolean, ends the `if` with an error.
pub proof fn law_if_condition_fails(
    cx: Cx,
    fuel: nat,
    s: Stmt,
    c: IfStmt,
    env: Env,
    ws: Seq<World>,
    k: nat,
)
    requires
        fuel > 0,
        s.kind == StmtKind::If(c),
        k < c.arms@.len(),
        are_false(cx, (fuel - 1) as nat, c, env, ws, k),
    ensures
        ({
            let got = evaluated(cx, (fuel - 1) as nat, c.arms@[k as int].0, env, ws[k as int]);
            let all = executed(cx, fuel, s, env, ws[0]);
            &&& got.0 matches Err(h) ==> all == (Err::<FlowVal, Halt>(h), got.1)
            &&& got.0 matches Ok(v) ==> !(v is Bool) ==> all == (
                Err::<FlowVal, Halt>(
                    failure(
                        "condition must be Bool, found "@ + label_of(v),
                        c.arms@[k as int].0.span,
                    ),
                ),
                got.1,
            )
        }),
{
    let f = (fuel - 1) as nat;
    to_arm(cx, f, c, env, ws, k, 0);
    if_is(cx, fuel, s, c, env, ws[0]);
    let w = ws[k as int];
    let cond = c.arms@[k as int].0;
    let got = condition(cx, f, cond, env, w);
    assert(got.0 is Err ==> if_run(cx, f, c, k, env, w) == (
        Err::<FlowVal, Halt>(got.0->Err_0),
        got.1,
    ));
}

// ---------------------------------------------------------------------------
// Loops
// ---------------------------------------------------------------------------

/// A `while` whose condition is false is done. Where it is true, the body runs in a
/// new scope; if that ends normally or with `continue`, the loop runs again from
/// there; `break` ends it, and `return` leaves it.
pub proof fn law_while(
    cx: Cx,
    fuel: nat,
    s: Stmt,
    l: WhileStmt,
    env: Env,
    w: World,
    after: World,
)
    requires
        fuel > 1,
        s.kind == StmtKind::While(l),
    ensures
        condition_is(cx, (fuel - 2) as nat, l.cond, env, w, false, after) ==> executed(
            cx,
            fuel,
            s,
            env,
            w,
        ) == (Ok::<FlowVal, Halt>(FlowVal::Normal(Val::Unit)), after),
        condition_is(cx, (fuel - 2) as nat, l.cond, env, w, true, after) ==> {
            let turn = in_new_scope(cx, (fuel - 2) as nat, l.body.stmts@, env, after);
            executed(cx, fuel, s, env, w) == (match turn.0 {
                Ok(FlowVal::Normal(_)) => executed(cx, (fuel - 1) as nat, s, env, turn.1),
                Ok(FlowVal::Continue) => executed(cx, (fuel - 1) as nat, s, env, turn.1),
                Ok(FlowVal::Break) => (Ok(FlowVal::Normal(Val::Unit)), turn.1),
                Ok(FlowVal::Return(v)) => (Ok(FlowVal::Return(v)), turn.1),
                Err(h) => (Err(h), turn.1),
            })
        },
{
    let f = (fuel - 1) as nat;
    assert(executed(cx, fuel, s, env, w) == while_run(cx, f, l, env, w));
    let turn = in_new_scope(cx, (fuel - 2) as nat, l.body.stmts@, env, after);
    assert(executed(cx, f, s, env, turn.1) == while_run(cx, (f - 1) as nat, l, env, turn.1));
}

/// One turn of a `for`: the item bound in a new scope inside `env`, and the body run
/// there.
pub open spec fn turn_of(cx: Cx, fuel: nat, l: ForStmt, item: Val, env: Env, w: World) -> Out<
    FlowVal,
> {
    let scope = w.next_scope();
    let opened = w.add_scope(Some(env));
    match l.binder {
        Binder::Name(n) => stmts_executed(
            cx,
            fuel,
            l.body.stmts@,
            0,
            Val::Unit,
            scope,
            opened.with_var(scope, n@, item, false),
        ),
        Binder::Tuple(names) => match destructured(
            texts(names@),
            item,
            scope,
            false,
            l.iter.span,
            opened,
        ) {
            (Ok(_), w1) => stmts_executed(cx, fuel, l.body.stmts@, 0, Val::Unit, scope, w1),
            (Err(h), w1) => (Err(h), w1),
        },
    }
}

/// Whether the first `k` turns of a `for` end normally or with `continue`, one behind
/// the other.
pub open spec fn turns_go_on(
    cx: Cx,
    fuel: nat,
    l: ForStmt,
    items: Seq<Val>,
    env: Env,
    ws: Seq<World>,
    k: nat,
) -> bool {
    ws.len() == k + 1 && k <= items.len() && forall|j: int, n: int|
        #![trigger ws[j], ws[n]]
        0 <= j < k && n == j + 1 ==> {
            let turn = turn_of(cx, fuel, l, items[j], env, ws[j]);
            &&& turn.1 == ws[n]
            &&& turn.0 matches Ok(flow) && (flow is Normal || flow is Continue)
        }
}

proof fn to_turn(
    cx: Cx,
    fuel: nat,
    l: ForStmt,
    items: Seq<Val>,
    env: Env,
    ws: Seq<World>,
    k: nat,
    i: nat,
)
    requires
        turns_go_on(cx, fuel, l, items, env, ws, k),
        i <= k,
    ensures
        turns_run(cx, fuel, l, items, i, env, ws[i as int]) == turns_run(
            cx,
            fuel,
            l,
            items,
            k,
            env,
            ws[k as int],
        ),
    decreases k - i,
{
    if i < k {
        let n = i as int + 1;
        let turn = turn_of(cx, fuel, l, items[i as int], env, ws[i as int]);
        assert(turn.1 == ws[n]);
        to_turn(cx, fuel, l, items, env, ws, k, i + 1);
    }
}

/// A `for` runs its body once for each item of the list, in order. When all turns went
/// on it is done; a `break` ends it there, a `return` leaves it, an error ends it,
/// and the items behind are not run.
pub proof fn law_for(
    cx: Cx,
    fuel: nat,
    s: Stmt,
    l: ForStmt,
    at: usize,
    env: Env,
    w: World,
    ws: Seq<World>,
    k: nat,
)
    requires
        fuel > 0,
        s.kind == StmtKind::For(l),
        ws.len() > 0,
        evaluated(cx, (fuel - 1) as nat, l.iter, env, w) == (Ok::<Val, Halt>(Val::List(at)), ws[0]),
        turns_go_on(cx, (fuel - 1) as nat, l, ws[0].list(at), env, ws, k),
    ensures
        k == ws[0].list(at).len() ==> executed(cx, fuel, s, env, w) == (
            Ok::<FlowVal, Halt>(FlowVal::Normal(Val::Unit)),
            ws.last(),
        ),
        k < ws[0].list(at).len() ==> {
            let turn = turn_of(
                cx,
                (fuel - 1) as nat,
                l,
                ws[0].list(at)[k as int],
                env,
                ws.last(),
            );
            &&& turn.0 == Ok::<FlowVal, Halt>(FlowVal::Break) ==> executed(cx, fuel, s, env, w) == (
                Ok::<FlowVal, Halt>(FlowVal::Normal(Val::Unit)),
                turn.1,
            )
            &&& turn.0 matches Ok(FlowVal::Return(v)) ==> executed(cx, fuel, s, env, w) == turn
            &&& turn.0 matches Err(h) ==> executed(cx, fuel, s, env, w) == turn
        },
{
    let f = (fuel - 1) as nat;
    let items = ws[0].list(at);
    to_turn(cx, f, l, items, env, ws, k, 0);
    assert(executed(cx, fuel, s, env, w) == for_run(cx, f, l, env, w));
    assert(for_run(cx, f, l, env, w) == turns_run(cx, f, l, items, 0, env, ws[0]));
}

/// A `for` over what is no list is an error.
pub proof fn law_for_needs_a_list(cx: Cx, fuel: nat, s: Stmt, l: ForStmt, env: Env, w: World)
    requires
        fuel > 0,
        s.kind == StmtKind::For(l),
        evaluated(cx, (fuel - 1) as nat, l.iter, env, w).0 matches Ok(v) && !(v is List),
    ensures
        executed(cx, fuel, s, env, w) == (
            Err::<FlowVal, Halt>(
                failure(
                    "cannot iterate over "@ + label_of(
                        evaluated(cx, (fuel - 1) as nat, l.iter, env, w).0->Ok_0,
                    ),
                    l.iter.span,
                ),
            ),
            evaluated(cx, (fuel - 1) as nat, l.iter, env, w).1,
        ),
{
    let f = (fuel - 1) as nat;
    assert(executed(cx, fuel, s, env, w) == for_run(cx, f, l, env, w));
}

// ---------------------------------------------------------------------------
// Blocks
// ---------------------------------------------------------------------------

/// Whether the first `k` statements end normally, with these values, one behind the
/// other.
pub open spec fn run_normally(
    cx: Cx,
    fuel: nat,
    stmts: Seq<Stmt>,
    env: Env,
    ws: Seq<World>,
    vs: Seq<Val>,
    k: nat,
) -> bool {
    ws.len() == k + 1 && vs.len() == k && k <= stmts.len() && forall|j: int, n: int|
        #![trigger ws[j], ws[n]]
        0 <= j < k && n == j + 1 ==> executed(cx, fuel, stmts[j], env, ws[j]) == (
            Ok::<FlowVal, Halt>(FlowVal::Normal(vs[j])),
            ws[n],
        )
}

proof fn to_stmt(
    cx: Cx,
    fuel: nat,
    stmts: Seq<Stmt>,
    env: Env,
    ws: Seq<World>,
    vs: Seq<Val>,
    k: nat,
    i: nat,
    last: Val,
)
    requires
        run_normally(cx, fuel, stmts, env, ws, vs, k),
        i <= k,
        i > 0 ==> last == vs[i - 1],
    ensures
        stmts_executed(cx, fuel, stmts, i, last, env, ws[i as int]) == stmts_executed(
            cx,
            fuel,
            stmts,
            k,
            if k > 0 {
                vs[k - 1]
            } else {
                last
            },
            env,
            ws[k as int],
        ),
    decreases k - i,
{
    if i < k {
        let n = i as int + 1;
        assert(executed(cx, fuel, stmts[i as int], env, ws[i as int]) == (
            Ok::<FlowVal, Halt>(FlowVal::Normal(vs[i as int])),
            ws[n],
        ));
        to_stmt(cx, fuel, stmts, env, ws, vs, k, i + 1, vs[i as int]);
    }
}

/// Statements run in order, in one scope, each in the world that the one before left.
/// When all end normally, the value is that of the last. The first that does not,
/// or that ends in an error, ends them, and none behind it runs.
pub proof fn law_statements_in_order(
    cx: Cx,
    fuel: nat,
    stmts: Seq<Stmt>,
    env: Env,
    ws: Seq<World>,
    vs: Seq<Val>,
    k: nat,
)
    requires
        run_normally(cx, fuel, stmts, env, ws, vs, k),
    ensures
        k == stmts.len() ==> stmts_executed(cx, fuel, stmts, 0, Val::Unit, env, ws[0]) == (
            Ok::<FlowVal, Halt>(
                FlowVal::Normal(
                    if k > 0 {
                        vs.last()
                    } else {
                        Val::Unit
                    },
                ),
            ),
            ws.last(),
        ),
        k < stmts.len() ==> {
            let out = executed(cx, fuel, stmts[k as int], env, ws.last());
            !(out.0 matches Ok(FlowVal::Normal(_))) ==> stmts_executed(
                cx,
                fuel,
                stmts,
                0,
                Val::Unit,
                env,
                ws[0],
            ) == out
        },
{
    to_stmt(cx, fuel, stmts, env, ws, vs, k, 0, Val::Unit);
}

/// What the simple statements do: `return` leaves with the value of its expression, or
/// with none; `break` and `continue` leave so; an expression gives its value. An
/// error in the expression is the error of the statement.
pub proof fn law_simple_statements(cx: Cx, fuel: nat, s: Stmt, env: Env, w: World)
    requires
        fuel > 0,
    ensures
        s.kind is Break ==> executed(cx, fuel, s, env, w) == (
            Ok::<FlowVal, Halt>(FlowVal::Break),
            w,
        ),
        s.kind is Continue ==> executed(cx, fuel, s, env, w) == (
            Ok::<FlowVal, Halt>(FlowVal::Continue),
            w,
        ),
        s.kind matches StmtKind::Return(None) ==> executed(cx, fuel, s, env, w) == (
            Ok::<FlowVal, Halt>(FlowVal::Return(Val::Unit)),
            w,
        ),
        s.kind matches StmtKind::Return(Some(e)) ==> {
            let got = evaluated(cx, (fuel - 1) as nat, e, env, w);
            &&& got.0 matches Ok(v) ==> executed(cx, fuel, s, env, w) == (
                Ok::<FlowVal, Halt>(FlowVal::Return(v)),
                got.1,
            )
            &&& got.0 matches Err(h) ==> executed(cx, fuel, s, env, w) == (
                Err::<FlowVal, Halt>(h),
                got.1,
            )
        },
        s.kind matches StmtKind::Expr(e) ==> !(e.kind is Match) ==> {
            let got = evaluated(cx, (fuel - 1) as nat, e, env, w);
            &&& got.0 matches Ok(v) ==> executed(cx, fuel, s, env, w) == (
                Ok::<FlowVal, Halt>(FlowVal::Normal(v)),
                got.1,
            )
            &&& got.0 matches Err(h) ==> executed(cx, fuel, s, env, w) == (
                Err::<FlowVal, Halt>(h),
                got.1,
            )
        },
        s.kind is Struct || s.kind is Enum || s.kind is Impl || s.kind is Trait ==> executed(
            cx,
            fuel,
            s,
            env,
            w,
        ) == (Ok::<FlowVal, Halt>(FlowVal::Normal(Val::Unit)), w),
{
}

} // verus!
