//! Laws of bindings and assignments: which name, field or item gets the value.

use super::env::{outermost, reassigned, resolved};
use super::expr_laws::gives;
use super::semantics::{assigned, evaluated, executed, navigated, stepped, written};
use super::value::{Env, Halt, StructVal, Val, World};
use super::{bound_all, Cx, FlowVal};
use crate::ast::{Assign, Binder, Binding, Stmt, StmtKind, TargetSeg};
use crate::name_map::{law_lookup_after_bind, lookup};
use crate::text::texts;
use crate::token::Span;
use vstd::prelude::*;
use vstd::string::*;

verus! {

// ---------------------------------------------------------------------------
// Scopes
// ---------------------------------------------------------------------------

/// Whether one scope is another one or lies around it.
pub open spec fn is_around(w: World, outer: Env, env: Env) -> bool
    decreases env,
{
    outer == env || (w.enclosing(env) matches Some(p) && is_around(w, outer, p))
}

/// Whether this is the scope that gives a name its meaning in `env`: the innermost one
/// around it that binds the name.
pub open spec fn owns(w: World, owner: Env, env: Env, name: Seq<char>) -> bool
    decreases env,
{
    match lookup(w.scope(env).vars, name) {
        Some(_) => owner == env,
        None => w.enclosing(env) matches Some(p) && owns(w, owner, p, name),
    }
}

/// A name means what the innermost scope around that binds it says; if none does, it
/// means nothing.
pub proof fn law_innermost_scope_decides(w: World, owner: Env, env: Env, name: Seq<char>)
    ensures
        owns(w, owner, env, name) ==> lookup(w.scope(owner).vars, name) is Some && resolved(
            w,
            env,
            name,
        ) == Some(lookup(w.scope(owner).vars, name)->0.value) && is_around(w, owner, env),
        (forall|o: Env| is_around(w, o, env) ==> lookup(w.scope(o).vars, name) is None) ==> resolved(
            w,
            env,
            name,
        ) is None,
    decreases env,
{
    if let Some(p) = w.enclosing(env) {
        law_innermost_scope_decides(w, owner, p, name);
        if forall|o: Env| is_around(w, o, env) ==> lookup(w.scope(o).vars, name) is None {
            assert forall|o: Env| is_around(w, o, p) implies lookup(
                w.scope(o).vars,
                name,
            ) is None by {
                assert(is_around(w, o, env));
            }
            assert(is_around(w, env, env));
        }
    } else {
        assert(is_around(w, env, env));
    }
}

/// The outermost scope lies around and has none around it.
pub proof fn law_outermost(w: World, env: Env)
    ensures
        is_around(w, outermost(w, env), env),
        w.enclosing(outermost(w, env)) is None,
    decreases env,
{
    if let Some(p) = w.enclosing(env) {
        law_outermost(w, p);
    }
}

proof fn owner_gets(w: World, owner: Env, env: Env, name: Seq<char>, v: Val)
    requires
        owns(w, owner, env, name),
    ensures
        ({
            let b = lookup(w.scope(owner).vars, name)->0;
            &&& b.is_val ==> reassigned(w, env, name, v) == (Err::<bool, ()>(()), w)
            &&& !b.is_val ==> reassigned(w, env, name, v) == (
                Ok::<bool, ()>(true),
                w.with_var(owner, name, v, false),
            )
        }),
    decreases env,
{
    if lookup(w.scope(env).vars, name) is None {
        owner_gets(w, owner, w.enclosing(env)->0, name, v);
    }
}

proof fn none_gets(w: World, env: Env, name: Seq<char>, v: Val)
    requires
        resolved(w, env, name) is None,
    ensures
        reassigned(w, env, name, v) == (Ok::<bool, ()>(false), w),
    decreases env,
{
    if let Some(p) = w.enclosing(env) {
        none_gets(w, p, name, v);
    }
}

// ---------------------------------------------------------------------------
// Bindings
// ---------------------------------------------------------------------------

/// `x = e` where `x` is bound around: the scope that binds it gets the new value, and
/// no other scope changes. Where it is not bound, it is declared here. A `val` name
/// is refused, and nothing is bound.
pub proof fn law_plain_binding(
    cx: Cx,
    fuel: nat,
    s: Stmt,
    b: Binding,
    name: Seq<char>,
    env: Env,
    w: World,
    v: Val,
    after: World,
    owner: Env,
)
    requires
        fuel > 0,
        s.kind == StmtKind::Binding(b),
        b.binder matches Binder::Name(n) && n@ == name,
        !b.is_val,
        b.ty is None,
        gives(cx, (fuel - 1) as nat, b.value, env, w, v, after),
    ensures
        ({
            let done = Ok::<FlowVal, Halt>(FlowVal::Normal(Val::Unit));
            let got = executed(cx, fuel, s, env, w);
            &&& owns(after, owner, env, name) && !lookup(after.scope(owner).vars, name)->0.is_val
                ==> got == (done, after.with_var(owner, name, v, false))
            &&& owns(after, owner, env, name) && lookup(after.scope(owner).vars, name)->0.is_val
                ==> got.0 is Err && got.1 == after
            &&& resolved(after, env, name) is None ==> got == (
                done,
                after.with_var(env, name, v, false),
            )
        }),
{
    if owns(after, owner, env, name) {
        owner_gets(after, owner, env, name, v);
    }
    if resolved(after, env, name) is None {
        none_gets(after, env, name, v);
    }
}

/// `val x = e` and `x: T = e` declare `x` here, whatever is bound around; with `val` it
/// is final.
pub proof fn law_declaring_binding(
    cx: Cx,
    fuel: nat,
    s: Stmt,
    b: Binding,
    name: Seq<char>,
    env: Env,
    w: World,
    v: Val,
    after: World,
)
    requires
        fuel > 0,
        s.kind == StmtKind::Binding(b),
        b.binder matches Binder::Name(n) && n@ == name,
        b.is_val || b.ty is Some,
        gives(cx, (fuel - 1) as nat, b.value, env, w, v, after),
    ensures
        executed(cx, fuel, s, env, w) == (
            Ok::<FlowVal, Halt>(FlowVal::Normal(Val::Unit)),
            after.with_var(env, name, v, b.is_val),
        ),
{
}

/// `(a, b) = e` takes a tuple of as many values apart and declares each name here, with
/// the value at its place; anything else is an error.
pub proof fn law_tuple_binding(
    cx: Cx,
    fuel: nat,
    s: Stmt,
    b: Binding,
    names: Seq<Seq<char>>,
    env: Env,
    w: World,
    v: Val,
    after: World,
)
    requires
        fuel > 0,
        s.kind == StmtKind::Binding(b),
        b.binder matches Binder::Tuple(ns) && texts(ns@) == names,
        gives(cx, (fuel - 1) as nat, b.value, env, w, v, after),
    ensures
        v matches Val::Tuple(items) ==> items.len() == names.len() ==> executed(
            cx,
            fuel,
            s,
            env,
            w,
        ) == (
            Ok::<FlowVal, Halt>(FlowVal::Normal(Val::Unit)),
            bound_all(after, env, names, items, b.is_val, 0),
        ),
        !(v matches Val::Tuple(items) && items.len() == names.len()) ==> executed(
            cx,
            fuel,
            s,
            env,
            w,
        ).0 is Err,
{
}

/// A binding whose value ends in an error binds nothing.
pub proof fn law_failed_binding(cx: Cx, fuel: nat, s: Stmt, b: Binding, env: Env, w: World)
    requires
        fuel > 0,
        s.kind == StmtKind::Binding(b),
        evaluated(cx, (fuel - 1) as nat, b.value, env, w).0 is Err,
    ensures
        executed(cx, fuel, s, env, w) == (
            Err::<FlowVal, Halt>(evaluated(cx, (fuel - 1) as nat, b.value, env, w).0->Err_0),
            evaluated(cx, (fuel - 1) as nat, b.value, env, w).1,
        ),
{
}

// ---------------------------------------------------------------------------
// Assignments
// ---------------------------------------------------------------------------

/// An assignment to a bare name gives the value to the scope that binds it; a name that
/// is not bound, or is bound with `val`, is an error.
pub proof fn law_assignment_to_name(
    cx: Cx,
    fuel: nat,
    s: Stmt,
    a: Assign,
    env: Env,
    w: World,
    v: Val,
    after: World,
    owner: Env,
)
    requires
        fuel > 0,
        s.kind == StmtKind::Assign(a),
        a.target.path@.len() == 0,
        gives(cx, (fuel - 1) as nat, a.value, env, w, v, after),
    ensures
        ({
            let name = a.target.base@;
            let got = executed(cx, fuel, s, env, w);
            &&& owns(after, owner, env, name) && !lookup(after.scope(owner).vars, name)->0.is_val
                ==> got == (
                Ok::<FlowVal, Halt>(FlowVal::Normal(Val::Unit)),
                after.with_var(owner, name, v, false),
            )
            &&& owns(after, owner, env, name) && lookup(after.scope(owner).vars, name)->0.is_val
                ==> got.0 is Err && got.1 == after
            &&& resolved(after, env, name) is None ==> got.0 is Err && got.1 == after
        }),
{
    let f = (fuel - 1) as nat;
    assert(assigned(cx, f, a, env, w) == assigned(cx, f, a, env, w));
    if owns(after, owner, env, a.target.base@) {
        owner_gets(after, owner, env, a.target.base@, v);
    }
    if resolved(after, env, a.target.base@) is None {
        none_gets(after, env, a.target.base@, v);
    }
}

/// Whether a segment of a target, read on a container, gives this: a field of a struct,
/// or an item of a list at an index that is evaluated.
pub open spec fn reads(
    cx: Cx,
    fuel: nat,
    container: Val,
    seg: TargetSeg,
    env: Env,
    w: World,
    v: Val,
    after: World,
) -> bool {
    match seg {
        TargetSeg::Field(name) => container matches Val::Struct(at) && lookup(
            w.instance(at).fields,
            name@,
        ) == Some(v) && after == w,
        TargetSeg::Index(e) => container matches Val::List(at) && exists|i: int|
            #![trigger after.list(at)[i]]
            gives(cx, fuel, e, env, w, Val::Int(i), after) && 0 <= i < after.list(at).len() && i
                <= usize::MAX && after.list(at)[i] == v,
    }
}

/// Whether reading all segments of a target but the last, from its base on, gives these
/// containers.
pub open spec fn path_reads(
    cx: Cx,
    fuel: nat,
    path: Seq<TargetSeg>,
    env: Env,
    cs: Seq<Val>,
    ws: Seq<World>,
) -> bool {
    path.len() > 0 && cs.len() == path.len() && ws.len() == path.len() && forall|j: int, n: int|
        #![trigger cs[j], cs[n]]
        0 <= j && n == j + 1 && n < path.len() ==> reads(
            cx,
            fuel,
            cs[j],
            path[j],
            env,
            ws[j],
            cs[n],
            ws[n],
        )
}

proof fn step_reads(
    cx: Cx,
    fuel: nat,
    container: Val,
    seg: TargetSeg,
    span: Span,
    env: Env,
    w: World,
    v: Val,
    after: World,
)
    requires
        reads(cx, fuel, container, seg, env, w, v, after),
    ensures
        stepped(cx, fuel, container, seg, span, env, w) == (Ok::<Val, Halt>(v), after),
{
    if let TargetSeg::Index(e) = seg {
        let at = container->List_0;
        let i = choose|i: int|
            #![trigger after.list(at)[i]]
            gives(cx, fuel, e, env, w, Val::Int(i), after) && 0 <= i < after.list(at).len() && i
                <= usize::MAX && after.list(at)[i] == v;
        assert(evaluated(cx, fuel, e, env, w) == (Ok::<Val, Halt>(Val::Int(i)), after));
    }
}

proof fn to_container(
    cx: Cx,
    fuel: nat,
    path: Seq<TargetSeg>,
    span: Span,
    env: Env,
    cs: Seq<Val>,
    ws: Seq<World>,
    i: nat,
)
    requires
        path_reads(cx, fuel, path, env, cs, ws),
        i < path.len(),
    ensures
        navigated(cx, fuel, cs[i as int], path, i, span, env, ws[i as int]) == (
            Ok::<Val, Halt>(cs.last()),
            ws.last(),
        ),
    decreases path.len() - i,
{
    if i + 1 < path.len() {
        let n = i as int + 1;
        let (c, d) = (cs[i as int], cs[n]);
        assert(reads(cx, fuel, c, path[i as int], env, ws[i as int], d, ws[n]));
        step_reads(cx, fuel, c, path[i as int], span, env, ws[i as int], d, ws[n]);
        to_container(cx, fuel, path, span, env, cs, ws, i + 1);
    }
}

/// An assignment to a field or an item evaluates the value, reads the target up to its
/// last segment, and writes there: the field of that struct, or the item of that
/// list, and nothing else changes. A field that the struct has not, and an index
/// that has no item, is an error, and nothing is written.
pub proof fn law_assignment_through_path(
    cx: Cx,
    fuel: nat,
    s: Stmt,
    a: Assign,
    env: Env,
    w: World,
    v: Val,
    cs: Seq<Val>,
    ws: Seq<World>,
    i: int,
    after: World,
)
    requires
        fuel > 0,
        s.kind == StmtKind::Assign(a),
        path_reads(cx, (fuel - 1) as nat, a.target.path@, env, cs, ws),
        gives(cx, (fuel - 1) as nat, a.value, env, w, v, ws[0]),
        resolved(ws[0], env, a.target.base@) == Some(cs[0]),
    ensures
        ({
            let done = Ok::<FlowVal, Halt>(FlowVal::Normal(Val::Unit));
            let got = executed(cx, fuel, s, env, w);
            match a.target.path@.last() {
                TargetSeg::Field(name) => {
                    &&& cs.last() matches Val::Struct(at) ==> lookup(
                        ws.last().instance(at).fields,
                        name@,
                    ) is Some ==> got == (done, ws.last().with_field(at, name@, v))
                    &&& !(cs.last() matches Val::Struct(at) && lookup(
                        ws.last().instance(at).fields,
                        name@,
                    ) is Some) ==> got.0 is Err && got.1 == ws.last()
                },
                TargetSeg::Index(e) => gives(
                    cx,
                    (fuel - 1) as nat,
                    e,
                    env,
                    ws.last(),
                    Val::Int(i),
                    after,
                ) ==> {
                    &&& cs.last() matches Val::List(at) ==> 0 <= i < after.list(at).len() && i
                        <= usize::MAX ==> got == (
                        done,
                        after.with_list(at, after.list(at).update(i, v)),
                    )
                    &&& !(cs.last() matches Val::List(at) && 0 <= i < after.list(at).len())
                        ==> got.0 is Err && got.1 == after
                },
            }
        }),
{
    let f = (fuel - 1) as nat;
    let path = a.target.path@;
    to_container(cx, f, path, a.target.span, env, cs, ws, 0);
    assert(assigned(cx, f, a, env, w) == written(
        cx,
        f,
        cs.last(),
        path.last(),
        v,
        a.target.span,
        env,
        ws.last(),
    ));
    assert(executed(cx, fuel, s, env, w) == super::semantics::done(assigned(cx, f, a, env, w)));
}

/// A value that is written to a list or a struct is seen through every name that means
/// it: the other lists, structs, maps, sets and scopes are as they were.
pub proof fn law_write_is_shared(w: World, at: usize, items: Seq<Val>, name: Seq<char>, v: Val)
    requires
        at < w.lists.len(),
        at < w.structs.len(),
    ensures
        w.with_list(at, items).list(at) == items,
        forall|o: usize| o != at ==> #[trigger] w.with_list(at, items).list(o) == w.list(o),
        w.with_list(at, items).scopes == w.scopes,
        w.with_list(at, items).structs == w.structs,
        lookup(w.with_field(at, name, v).instance(at).fields, name) == Some(v),
        w.with_field(at, name, v).instance(at).name == w.instance(at).name,
        w.with_field(at, name, v).instance(at).order == w.instance(at).order,
        forall|o: usize|
            o != at ==> #[trigger] w.with_field(at, name, v).instance(o) == w.instance(o),
        w.with_field(at, name, v).scopes == w.scopes,
        w.with_field(at, name, v).lists == w.lists,
{
    law_lookup_after_bind(w.structs[at as int].fields, name, v, name);
}

/// A new list, map, set or struct gets a place of its own, where it is then found, and
/// no other changes.
pub proof fn law_new_places(
    w: World,
    items: Seq<Val>,
    pairs: Seq<(Val, Val)>,
    inst: StructVal,
    o: usize,
)
    requires
        w.lists.len() < usize::MAX,
        w.maps.len() < usize::MAX,
        w.sets.len() < usize::MAX,
        w.structs.len() < usize::MAX,
    ensures
        w.add_list(items).list(w.next_list()) == items,
        w.add_map(pairs).map(w.next_map()) == pairs,
        w.add_set(items).set(w.next_set()) == items,
        w.add_struct(inst).instance(w.next_struct()) == inst,
        o < w.lists.len() ==> o != w.next_list() && w.add_list(items).list(o) == w.list(o),
        o < w.maps.len() ==> o != w.next_map() && w.add_map(pairs).map(o) == w.map(o),
        o < w.sets.len() ==> o != w.next_set() && w.add_set(items).set(o) == w.set(o),
        o < w.structs.len() ==> o != w.next_struct() && w.add_struct(inst).instance(o)
            == w.instance(o),
        w.add_list(items).scopes == w.scopes && w.add_map(pairs).scopes == w.scopes && w.add_set(
            items,
        ).scopes == w.scopes && w.add_struct(inst).scopes == w.scopes,
        w.add_list(items).out == w.out && w.add_map(pairs).out == w.out && w.add_set(items).out
            == w.out && w.add_struct(inst).out == w.out,
{
}

/// What is written to a map or a set is read there, and no other changes.
pub proof fn law_map_and_set_writes(
    w: World,
    at: usize,
    items: Seq<Val>,
    pairs: Seq<(Val, Val)>,
    o: usize,
)
    ensures
        at < w.maps.len() ==> w.with_map(at, pairs).map(at) == pairs,
        at < w.sets.len() ==> w.with_set(at, items).set(at) == items,
        o != at ==> w.with_map(at, pairs).map(o) == w.map(o) && w.with_set(at, items).set(o)
            == w.set(o),
        w.with_map(at, pairs).scopes == w.scopes && w.with_set(at, items).scopes == w.scopes,
        w.with_map(at, pairs).lists == w.lists && w.with_set(at, items).lists == w.lists,
{
}

/// A new scope is inside the one that is told, binds nothing, and leaves the others.
pub proof fn law_new_scope(w: World, parent: Env, o: Env, name: Seq<char>)
    requires
        w.scopes.len() < usize::MAX,
        parent < w.scopes.len(),
    ensures
        w.add_scope(Some(parent)).enclosing(w.next_scope()) == Some(parent),
        lookup(w.add_scope(Some(parent)).scope(w.next_scope()).vars, name) is None,
        o < w.scopes.len() ==> o != w.next_scope() && w.add_scope(Some(parent)).scope(o) == w.scope(
            o,
        ),
        w.add_scope(None).enclosing(w.next_scope()) is None,
{
}

} // verus!
