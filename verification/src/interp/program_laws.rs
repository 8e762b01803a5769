//! Laws of programs and of what stands in them: constructions, comprehensions and the
//! run itself.

use super::collections::{put_item, put_pair};
use super::call_laws::args_give;
use super::env::resolved;
use super::expr_laws::gives;
use super::float::Answers;
use super::semantics::{
    binder_bound, builtin_called, call_evaluated, comprehension_evaluated, condition, evaluated,
    executed, gathered, member_called, member_evaluated, nothing_gathered, payload_made,
    payload_positional, struct_made, turns_gathered, variant_made, Gathered, Payloads,
};
use super::show::variant_place;
use super::value::{Builtin, Env, Halt, Val, World};
use super::{destructured, first_world, main_called, program_cx, program_run, top_executed, Cx, Out};
use crate::ast::{
    Arg, Comprehension, ComprehensionBinder, ComprehensionOutput, EnumShape, Expr, ExprKind,
    PayloadShape, Stmt, StructShape, VariantShape,
};
use crate::name_map::lookup;
use crate::text::texts;
use crate::token::Span;
use vstd::prelude::*;
use vstd::string::*;

verus! {

// ---------------------------------------------------------------------------
// Comprehensions
// ---------------------------------------------------------------------------

/// The world in which a turn of a comprehension starts: a new scope inside `env` where
/// the binder has the item.
pub open spec fn turn_opened(c: Comprehension, item: Val, span: Span, env: Env, w: World) -> Out<()> {
    let scope = w.next_scope();
    let opened = w.add_scope(Some(env));
    match c.binder {
        ComprehensionBinder::Name(n) => (Ok(()), opened.with_var(scope, n@, item, false)),
        ComprehensionBinder::Tuple(names) => destructured(
            texts(names@),
            item,
            scope,
            false,
            span,
            opened,
        ),
    }
}

/// What a turn of a comprehension over an item does: whether the filter lets the item
/// through, in which world it is then, and if so, what it gives.
pub open spec fn turn_gives(
    cx: Cx,
    fuel: nat,
    c: Comprehension,
    item: Val,
    span: Span,
    env: Env,
    w: World,
    passes: bool,
    mid: World,
    before: Gathered,
    more: Gathered,
    after: World,
) -> bool {
    let scope = w.next_scope();
    let opened = turn_opened(c, item, span, env, w);
    &&& opened.0 is Ok
    &&& match c.cond {
        Some(cond) => gives(cx, fuel, *cond, scope, opened.1, Val::Bool(passes), mid),
        None => passes && mid == opened.1,
    }
    &&& !passes ==> more == before && after == mid
    &&& passes ==> output_gives(cx, fuel, c.output, scope, mid, before, more, after)
}

/// What the output of a comprehension adds: the value to the list, the value to the set,
/// or the key and the value to the map.
pub open spec fn output_gives(
    cx: Cx,
    fuel: nat,
    output: ComprehensionOutput,
    scope: Env,
    w: World,
    before: Gathered,
    more: Gathered,
    after: World,
) -> bool {
    match output {
        ComprehensionOutput::List(e) => evaluated(cx, fuel, *e, scope, w).1 == after && (evaluated(
            cx,
            fuel,
            *e,
            scope,
            w,
        ).0 matches Ok(v) && more == Gathered { list: before.list.push(v), ..before }),
        ComprehensionOutput::SetOut(e) => evaluated(cx, fuel, *e, scope, w).1 == after && (
        evaluated(cx, fuel, *e, scope, w).0 matches Ok(v) && put_item(
            after,
            fuel,
            before.set,
            v,
        ) == Ok::<Seq<Val>, Halt>(more.set) && more == Gathered { set: more.set, ..before }),
        ComprehensionOutput::MapOut { key, value } => {
            let k = evaluated(cx, fuel, *key, scope, w);
            let v = evaluated(cx, fuel, *value, scope, k.1);
            v.1 == after && k.0 is Ok && v.0 is Ok && put_pair(
                after,
                fuel,
                before.map,
                k.0->Ok_0,
                v.0->Ok_0,
            ) == Ok::<Seq<(Val, Val)>, Halt>(more.map) && more == Gathered {
                map: more.map,
                ..before
            }
        },
    }
}

proof fn one_turn(
    cx: Cx,
    fuel: nat,
    c: Comprehension,
    items: Seq<Val>,
    i: nat,
    span: Span,
    env: Env,
    w: World,
    passes: bool,
    mid: World,
    before: Gathered,
    more: Gathered,
    after: World,
)
    requires
        i < items.len(),
        turn_gives(cx, fuel, c, items[i as int], span, env, w, passes, mid, before, more, after),
    ensures
        turns_gathered(cx, fuel, c, items, i, before, span, env, w) == turns_gathered(
            cx,
            fuel,
            c,
            items,
            i + 1,
            more,
            span,
            env,
            after,
        ),
{
    let scope = w.next_scope();
    let opened = turn_opened(c, items[i as int], span, env, w);
    assert(binder_bound(c.binder, items[i as int], scope, span, w.add_scope(Some(env))) == opened);
    if let Some(cond) = c.cond {
        assert(condition(cx, fuel, *cond, scope, opened.1) == (Ok::<bool, Halt>(passes), mid));
    }
    if passes {
        assert(gathered(cx, fuel, c.output, before, scope, mid) == (
            Ok::<Gathered, Halt>(more),
            after,
        ));
    }
}

/// Whether a comprehension runs over all items so, one turn behind the other.
pub open spec fn turns_give(
    cx: Cx,
    fuel: nat,
    c: Comprehension,
    items: Seq<Val>,
    span: Span,
    env: Env,
    ws: Seq<World>,
    passes: Seq<bool>,
    mids: Seq<World>,
    gs: Seq<Gathered>,
) -> bool {
    &&& ws.len() == items.len() + 1
    &&& gs.len() == items.len() + 1
    &&& passes.len() == items.len()
    &&& mids.len() == items.len()
    &&& forall|j: int, n: int|
        #![trigger ws[j], ws[n]]
        0 <= j < items.len() && n == j + 1 ==> turn_gives(
            cx,
            fuel,
            c,
            items[j],
            span,
            env,
            ws[j],
            passes[j],
            mids[j],
            gs[j],
            gs[n],
            ws[n],
        )
}

proof fn to_turn(
    cx: Cx,
    fuel: nat,
    c: Comprehension,
    items: Seq<Val>,
    span: Span,
    env: Env,
    ws: Seq<World>,
    passes: Seq<bool>,
    mids: Seq<World>,
    gs: Seq<Gathered>,
    i: nat,
)
    requires
        turns_give(cx, fuel, c, items, span, env, ws, passes, mids, gs),
        i <= items.len(),
    ensures
        turns_gathered(cx, fuel, c, items, i, gs[i as int], span, env, ws[i as int]) == (
            Ok::<Gathered, Halt>(gs.last()),
            ws.last(),
        ),
    decreases items.len() - i,
{
    if i < items.len() {
        let n = i as int + 1;
        let (here, next) = (ws[i as int], ws[n]);
        assert(turn_gives(
            cx,
            fuel,
            c,
            items[i as int],
            span,
            env,
            here,
            passes[i as int],
            mids[i as int],
            gs[i as int],
            gs[n],
            next,
        ));
        one_turn(
            cx,
            fuel,
            c,
            items,
            i,
            span,
            env,
            here,
            passes[i as int],
            mids[i as int],
            gs[i as int],
            gs[n],
            next,
        );
        to_turn(cx, fuel, c, items, span, env, ws, passes, mids, gs, i + 1);
    }
}

/// A comprehension runs over the items of a list in order, each in a new scope where the
/// binder has the item. What passes the filter adds its output, and the result is a
/// new list, set or map of what was added.
pub proof fn law_comprehension(
    cx: Cx,
    fuel: nat,
    e: Expr,
    c: Comprehension,
    at: usize,
    env: Env,
    w: World,
    ws: Seq<World>,
    passes: Seq<bool>,
    mids: Seq<World>,
    gs: Seq<Gathered>,
)
    requires
        fuel > 0,
        e.kind == ExprKind::Comprehension(c),
        ws.len() > 0,
        gives(cx, (fuel - 1) as nat, *c.iter, env, w, Val::List(at), ws[0]),
        turns_give(cx, (fuel - 1) as nat, c, ws[0].list(at), e.span, env, ws, passes, mids, gs),
        gs[0].list.len() == 0,
        gs[0].set.len() == 0,
        gs[0].map.len() == 0,
    ensures
        c.output is List ==> gives(
            cx,
            fuel,
            e,
            env,
            w,
            Val::List(ws.last().next_list()),
            ws.last().add_list(gs.last().list),
        ),
        c.output is SetOut ==> gives(
            cx,
            fuel,
            e,
            env,
            w,
            Val::SetRef(ws.last().next_set()),
            ws.last().add_set(gs.last().set),
        ),
        c.output is MapOut ==> gives(
            cx,
            fuel,
            e,
            env,
            w,
            Val::MapRef(ws.last().next_map()),
            ws.last().add_map(gs.last().map),
        ),
{
    let f = (fuel - 1) as nat;
    assert(gs[0].list =~= Seq::<Val>::empty());
    assert(gs[0].set =~= Seq::<Val>::empty());
    assert(gs[0].map =~= Seq::<(Val, Val)>::empty());
    assert(gs[0] == nothing_gathered());
    to_turn(cx, f, c, ws[0].list(at), e.span, env, ws, passes, mids, gs, 0);
    assert(evaluated(cx, fuel, e, env, w) == comprehension_evaluated(cx, f, c, e.span, env, w));
}

/// A comprehension over what is no list is an error.
pub proof fn law_comprehension_needs_a_list(
    cx: Cx,
    fuel: nat,
    e: Expr,
    c: Comprehension,
    env: Env,
    w: World,
)
    requires
        fuel > 0,
        e.kind == ExprKind::Comprehension(c),
        evaluated(cx, (fuel - 1) as nat, *c.iter, env, w).0 matches Ok(v) ==> !(v is List),
    ensures
        evaluated(cx, fuel, e, env, w).0 is Err,
{
    let f = (fuel - 1) as nat;
    assert(evaluated(cx, fuel, e, env, w) == comprehension_evaluated(cx, f, c, e.span, env, w));
}

// ---------------------------------------------------------------------------
// Constructions
// ---------------------------------------------------------------------------

/// A call of a name that is bound to nothing and is a declared struct builds that
/// struct.
pub proof fn law_struct_construction(
    cx: Cx,
    fuel: nat,
    e: Expr,
    env: Env,
    w: World,
    name: Seq<char>,
    decl: StructShape,
)
    requires
        fuel > 0,
        e.kind is Call,
        e.kind->Call_callee.kind is Name,
        e.kind->Call_callee.kind->Name_0@ == name,
        resolved(w, env, name) is None,
        lookup(cx.reg.structs, name) == Some(decl),
    ensures
        evaluated(cx, fuel, e, env, w) == struct_made(
            cx,
            (fuel - 1) as nat,
            decl,
            name,
            e.kind->Call_args@,
            e.span,
            env,
            w,
        ),
{
    assert(evaluated(cx, fuel, e, env, w) == call_evaluated(
        cx,
        (fuel - 1) as nat,
        *e.kind->Call_callee,
        e.kind->Call_args@,
        e.span,
        env,
        w,
    ));
}

/// Whether an expression is `Enum.variant`, with a name that is bound to nothing and is
/// a declared enum.
pub open spec fn names_variant(
    cx: Cx,
    e: Expr,
    env: Env,
    w: World,
    enum_name: Seq<char>,
    variant: Seq<char>,
    decl: EnumShape,
) -> bool {
    &&& e.kind is Member
    &&& !e.kind->Member_safe
    &&& e.kind->Member_name@ == variant
    &&& e.kind->Member_base.kind is Name
    &&& e.kind->Member_base.kind->Name_0@ == enum_name
    &&& resolved(w, env, enum_name) is None
    &&& lookup(cx.reg.enums, enum_name) == Some(decl)
}

/// `Enum.Variant(..)` and `Enum.Variant` build that variant.
pub proof fn law_variant_construction(
    cx: Cx,
    fuel: nat,
    e: Expr,
    env: Env,
    w: World,
    enum_name: Seq<char>,
    variant: Seq<char>,
    decl: EnumShape,
)
    requires
        fuel > 0,
    ensures
        names_variant(cx, e, env, w, enum_name, variant, decl) ==> evaluated(cx, fuel, e, env, w)
            == variant_made(
            cx,
            (fuel - 1) as nat,
            decl,
            enum_name,
            variant,
            Seq::empty(),
            e.span,
            env,
            w,
        ),
        e.kind is Call && names_variant(
            cx,
            *e.kind->Call_callee,
            env,
            w,
            enum_name,
            variant,
            decl,
        ) ==> evaluated(cx, fuel, e, env, w) == variant_made(
            cx,
            (fuel - 1) as nat,
            decl,
            enum_name,
            variant,
            e.kind->Call_args@,
            e.span,
            env,
            w,
        ),
{
    let f = (fuel - 1) as nat;
    if let ExprKind::Call { callee, args } = e.kind {
        assert(evaluated(cx, fuel, e, env, w) == call_evaluated(
            cx,
            f,
            *callee,
            args@,
            e.span,
            env,
            w,
        ));
        if let ExprKind::Member { base, name, safe } = callee.kind {
            assert(call_evaluated(cx, f, *callee, args@, e.span, env, w) == member_called(
                cx,
                f,
                *base,
                name@,
                safe,
                args@,
                e.span,
                env,
                w,
            ));
        }
    }
    if let ExprKind::Member { base, name, safe } = e.kind {
        assert(evaluated(cx, fuel, e, env, w) == member_evaluated(
            cx,
            f,
            *base,
            name@,
            safe,
            e.span,
            env,
            w,
        ));
    }
}

/// What a variant is built to: a value of that enum and that variant with its payload.
/// A variant that the enum has not is an error.
pub proof fn law_variant_is_built(
    cx: Cx,
    fuel: nat,
    decl: EnumShape,
    enum_name: Seq<char>,
    variant: Seq<char>,
    args: Seq<Arg>,
    span: Span,
    env: Env,
    w: World,
    at: nat,
)
    ensures
        (forall|j: int| 0 <= j < decl.variants.len() ==> (#[trigger] decl.variants[j]).name
            != variant) ==> variant_made(
            cx,
            fuel,
            decl,
            enum_name,
            variant,
            args,
            span,
            env,
            w,
        ).0 is Err,
        at < decl.variants.len() && decl.variants[at as int].name == variant && (forall|j: int|
            0 <= j < at ==> (#[trigger] decl.variants[j]).name != variant) ==> {
            let p = payload_made(
                cx,
                fuel,
                decl.variants[at as int].payload,
                variant,
                args,
                span,
                env,
                w,
            );
            let got = variant_made(cx, fuel, decl, enum_name, variant, args, span, env, w);
            &&& got.1 == p.1
            &&& p.0 matches Err(h) ==> got.0 == Err::<Val, Halt>(h)
            &&& p.0 matches Ok(x) ==> (got.0 matches Ok(Val::Enum(e)) && e.enum_name == enum_name
                && e.variant == variant && e.payload == x.values && e.names == x.names)
        },
{
    if forall|j: int| 0 <= j < decl.variants.len() ==> (#[trigger] decl.variants[j]).name != variant {
        no_place(decl.variants, variant, 0);
    } else if at < decl.variants.len() && decl.variants[at as int].name == variant && (forall|
        j: int,
    |
        0 <= j < at ==> (#[trigger] decl.variants[j]).name != variant) {
        first_place(decl.variants, variant, 0, at);
    }
}

proof fn no_place(vs: Seq<VariantShape>, name: Seq<char>, i: nat)
    requires
        forall|j: int| 0 <= j < vs.len() ==> (#[trigger] vs[j]).name != name,
    ensures
        variant_place(vs, name, i) >= vs.len(),
    decreases vs.len() - i,
{
    if i < vs.len() {
        assert(vs[i as int].name != name);
        no_place(vs, name, i + 1);
    }
}

proof fn first_place(vs: Seq<VariantShape>, name: Seq<char>, i: nat, at: nat)
    requires
        i <= at < vs.len(),
        vs[at as int].name == name,
        forall|j: int| 0 <= j < at ==> (#[trigger] vs[j]).name != name,
    ensures
        variant_place(vs, name, i) == at,
    decreases at - i,
{
    if i < at {
        assert(vs[i as int].name != name);
        first_place(vs, name, i + 1, at);
    }
}

/// The payload of a variant without names: one value for each argument by position, in
/// order, as many as it is declared with. One without a payload takes no arguments.
pub proof fn law_positional_payload(
    cx: Cx,
    fuel: nat,
    n: nat,
    variant: Seq<char>,
    args: Seq<Arg>,
    span: Span,
    env: Env,
    ws: Seq<World>,
    vs: Seq<Val>,
)
    requires
        args_give(cx, fuel, args, env, ws, vs),
    ensures
        args.len() == n ==> payload_made(
            cx,
            fuel,
            PayloadShape::Positional(n),
            variant,
            args,
            span,
            env,
            ws[0],
        ) == (
            Ok::<Payloads, Halt>(Payloads { values: vs, names: Seq::empty() }),
            ws.last(),
        ),
        args.len() != n ==> payload_made(
            cx,
            fuel,
            PayloadShape::Positional(n),
            variant,
            args,
            span,
            env,
            ws[0],
        ).0 is Err,
        args.len() > 0 ==> payload_made(
            cx,
            fuel,
            PayloadShape::Nothing,
            variant,
            args,
            span,
            env,
            ws[0],
        ).0 is Err,
{
    if args.len() == n {
        assert(vs.take(0) =~= Seq::<Val>::empty());
        to_payload(cx, fuel, variant, args, span, env, ws, vs, 0);
    }
}

proof fn to_payload(
    cx: Cx,
    fuel: nat,
    variant: Seq<char>,
    args: Seq<Arg>,
    span: Span,
    env: Env,
    ws: Seq<World>,
    vs: Seq<Val>,
    i: nat,
)
    requires
        args_give(cx, fuel, args, env, ws, vs),
        i <= args.len(),
    ensures
        payload_positional(
            cx,
            fuel,
            variant,
            args,
            i,
            Payloads { values: vs.take(i as int), names: Seq::empty() },
            span,
            env,
            ws[i as int],
        ) == (
            Ok::<Payloads, Halt>(Payloads { values: vs, names: Seq::empty() }),
            ws.last(),
        ),
    decreases args.len() - i,
{
    if i < args.len() {
        let n = i as int + 1;
        let (here, next) = (ws[i as int], ws[n]);
        assert(args[i as int] matches Arg::Positional(e) && evaluated(cx, fuel, e, env, here) == (
            Ok::<Val, Halt>(vs[i as int]),
            next,
        ));
        assert(vs.take(n) =~= vs.take(i as int).push(vs[i as int]));
        to_payload(cx, fuel, variant, args, span, env, ws, vs, i + 1);
    } else {
        assert(vs.take(i as int) =~= vs);
    }
}

/// `Ok(v)` and `Err(v)` build those variants of the prelude's `Result`; `Set()` is a new
/// empty set. They take no other number of arguments.
pub proof fn law_prelude_functions(cx: Cx, fuel: nat, v: Val, args: Seq<Val>, span: Span, w: World)
    ensures
        builtin_called(cx, fuel, Builtin::MakeOk, seq![v], span, w).0 matches Ok(Val::Enum(e))
            && e.enum_name == "Result"@ && e.variant == "Ok"@ && e.payload == seq![v],
        builtin_called(cx, fuel, Builtin::MakeErr, seq![v], span, w).0 matches Ok(Val::Enum(e))
            && e.enum_name == "Result"@ && e.variant == "Err"@ && e.payload == seq![v],
        builtin_called(cx, fuel, Builtin::EmptySet, Seq::empty(), span, w) == (
            Ok::<Val, Halt>(Val::SetRef(w.next_set())),
            w.add_set(Seq::empty()),
        ),
        args.len() != 1 ==> builtin_called(cx, fuel, Builtin::MakeOk, args, span, w).0 is Err
            && builtin_called(cx, fuel, Builtin::MakeErr, args, span, w).0 is Err,
        args.len() > 0 ==> builtin_called(cx, fuel, Builtin::EmptySet, args, span, w).0 is Err,
{
}

// ---------------------------------------------------------------------------
// The run
// ---------------------------------------------------------------------------

/// Whether the first `k` top-level statements end without an error, one behind the
/// other.
pub open spec fn top_runs(
    cx: Cx,
    fuel: nat,
    stmts: Seq<Stmt>,
    root: Env,
    ws: Seq<World>,
    k: nat,
) -> bool {
    k <= stmts.len() && ws.len() == k + 1 && forall|j: int, n: int|
        #![trigger ws[j], ws[n]]
        0 <= j < k && n == j + 1 ==> executed(cx, fuel, stmts[j], root, ws[j]).0 is Ok && executed(
            cx,
            fuel,
            stmts[j],
            root,
            ws[j],
        ).1 == ws[n]
}

proof fn to_top(cx: Cx, fuel: nat, stmts: Seq<Stmt>, root: Env, ws: Seq<World>, k: nat, i: nat)
    requires
        top_runs(cx, fuel, stmts, root, ws, k),
        i <= k,
    ensures
        top_executed(cx, fuel, stmts, i, root, ws[i as int]) == top_executed(
            cx,
            fuel,
            stmts,
            k,
            root,
            ws[k as int],
        ),
    decreases k - i,
{
    if i < k {
        let n = i as int + 1;
        let (here, next) = (ws[i as int], ws[n]);
        assert(executed(cx, fuel, stmts[i as int], root, here).1 == next);
        to_top(cx, fuel, stmts, root, ws, k, i + 1);
    }
}

/// A run starts with the prelude, runs the top-level statements in order in the root
/// scope, and then calls `main`. The first statement that ends in an error ends the
/// run with that error; then `main` is not called.
pub proof fn law_run(
    stmts: Seq<Stmt>,
    ans: Answers,
    fuel: nat,
    ws: Seq<World>,
    k: nat,
)
    requires
        ws.len() > 0,
        ws[0] == first_world(),
        top_runs(program_cx(stmts, ans), fuel, stmts, World::fresh().next_scope(), ws, k),
    ensures
        ({
            let cx = program_cx(stmts, ans);
            let root = World::fresh().next_scope();
            &&& k == stmts.len() ==> program_run(stmts, ans, fuel) == main_called(
                cx,
                fuel,
                stmts,
                root,
                ws.last(),
            )
            &&& k < stmts.len() ==> {
                let bad = executed(cx, fuel, stmts[k as int], root, ws.last());
                bad.0 matches Err(h) ==> program_run(stmts, ans, fuel) == (
                    Err::<(), Halt>(h),
                    bad.1,
                )
            }
        }),
{
    let cx = program_cx(stmts, ans);
    let root = World::fresh().next_scope();
    to_top(cx, fuel, stmts, root, ws, k, 0);
}

/// Without a function `main` that takes no parameters, the run is done with its
/// statements.
pub proof fn law_no_main(cx: Cx, fuel: nat, stmts: Seq<Stmt>, root: Env, w: World)
    requires
        resolved(w, root, "main"@) matches Some(Val::Closure(c)) ==> !(c is Function) || (
        c matches super::value::ClosureVal::Function(f, _) && f.params@.len() > 0),
    ensures
        main_called(cx, fuel, stmts, root, w) == (Ok::<(), Halt>(()), w),
{
}

} // verus!
