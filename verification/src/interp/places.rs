//! Places: what it means that nothing refers to a list, map, set, struct or scope
//! that is not there, and that a world only grows.

use super::registry::Decls;
use super::semantics::{Gathered, Payloads};
use super::value::{BindingVal, ClosureVal, Env, StructVal, Val, World};
use super::FlowVal;
use crate::name_map::{bind, distinct, law_bind_keeps_distinct, lookup, lookup_from, unbind};
use crate::token::Span;
use vstd::prelude::*;

verus! {

/// Whether all places that a value refers to are there.
pub open spec fn fits(w: World, v: Val) -> bool
    decreases v,
{
    match v {
        Val::List(at) => at < w.lists.len(),
        Val::MapRef(at) => at < w.maps.len(),
        Val::SetRef(at) => at < w.sets.len(),
        Val::Struct(at) => at < w.structs.len(),
        Val::Tuple(items) => fit_items(w, items),
        Val::Enum(e) => fit_items(w, e.payload),
        Val::Closure(ClosureVal::Function(_, home)) => home < w.scopes.len(),
        Val::Closure(ClosureVal::Lambda(_, home)) => home < w.scopes.len(),
        _ => true,
    }
}

pub open spec fn fit_items(w: World, vs: Seq<Val>) -> bool
    decreases vs,
{
    forall|i: int| 0 <= i < vs.len() ==> fits(w, #[trigger] vs[i])
}

pub open spec fn fit_pairs(w: World, ps: Seq<(Val, Val)>) -> bool {
    forall|i: int|
        0 <= i < ps.len() ==> fits(w, (#[trigger] ps[i]).0) && fits(w, ps[i].1)
}

/// The same of named values, of which no two have one name.
pub open spec fn fit_named(w: World, fs: Seq<(Seq<char>, Val)>) -> bool {
    &&& distinct(fs)
    &&& forall|i: int| 0 <= i < fs.len() ==> fits(w, (#[trigger] fs[i]).1)
}

pub open spec fn fit_vars(w: World, vars: Seq<(Seq<char>, BindingVal)>) -> bool {
    &&& distinct(vars)
    &&& forall|i: int| 0 <= i < vars.len() ==> fits(w, (#[trigger] vars[i]).1.value)
}

pub open spec fn fit_gathered(w: World, g: Gathered) -> bool {
    fit_items(w, g.list) && fit_items(w, g.set) && fit_pairs(w, g.map)
}

pub open spec fn fit_payload(w: World, p: Payloads) -> bool {
    fit_items(w, p.values)
}

pub open spec fn fit_flow(w: World, flow: FlowVal) -> bool {
    match flow {
        FlowVal::Normal(v) => fits(w, v),
        FlowVal::Return(v) => fits(w, v),
        _ => true,
    }
}

pub open spec fn fit_option(w: World, v: Option<Val>) -> bool {
    match v {
        Some(x) => fits(w, x),
        None => true,
    }
}

pub open spec fn fit_split(w: World, s: (Seq<Val>, Seq<(Seq<char>, Val)>)) -> bool {
    fit_items(w, s.0) && fit_named(w, s.1)
}

pub open spec fn fit_closure(w: World, c: ClosureVal) -> bool {
    match c {
        ClosureVal::Function(_, home) => home < w.scopes.len(),
        ClosureVal::Lambda(_, home) => home < w.scopes.len(),
    }
}

/// Whether a scope is there.
pub open spec fn open_scope(w: World, env: Env) -> bool {
    env < w.scopes.len()
}

/// A world in which nothing refers to a place that is not there, no scope or
/// struct has a name twice, and the scope around a scope is an older one.
#[verifier::opaque]
pub open spec fn valid(w: World) -> bool {
    &&& forall|i: int| 0 <= i < w.lists.len() ==> fit_items(w, #[trigger] w.lists[i])
    &&& forall|i: int| 0 <= i < w.maps.len() ==> fit_pairs(w, #[trigger] w.maps[i])
    &&& forall|i: int| 0 <= i < w.sets.len() ==> fit_items(w, #[trigger] w.sets[i])
    &&& forall|i: int| 0 <= i < w.structs.len() ==> fit_named(w, (#[trigger] w.structs[i]).fields)
    &&& forall|i: int| 0 <= i < w.scopes.len() ==> fit_vars(w, (#[trigger] w.scopes[i]).vars)
    &&& forall|i: int|
        0 <= i < w.scopes.len() ==> match (#[trigger] w.scopes[i]).parent {
            Some(p) => p < i,
            None => true,
        }
    &&& fit_option(w, w.propagating)
}

/// Whether a world came from another one: what was printed stays printed, no
/// place goes away, a struct keeps its type, and a scope stays where it is.
#[verifier::opaque]
pub open spec fn grows(a: World, b: World) -> bool {
    &&& a.lists.len() <= b.lists.len()
    &&& a.maps.len() <= b.maps.len()
    &&& a.sets.len() <= b.sets.len()
    &&& a.structs.len() <= b.structs.len()
    &&& a.scopes.len() <= b.scopes.len()
    &&& forall|i: int|
        0 <= i < a.structs.len() ==> (#[trigger] b.structs[i]).name == a.structs[i].name
            && b.structs[i].order == a.structs[i].order
    &&& forall|i: int|
        0 <= i < a.scopes.len() ==> (#[trigger] b.scopes[i]).parent == a.scopes[i].parent
    &&& a.out.len() <= b.out.len()
    &&& forall|i: int| 0 <= i < a.out.len() ==> #[trigger] b.out[i] == a.out[i]
}

/// Whether every struct is of a declared type and has its fields in the order of
/// the declaration.
#[verifier::opaque]
pub open spec fn declared(reg: Decls, w: World) -> bool {
    forall|i: int|
        0 <= i < w.structs.len() ==> match lookup(reg.structs, (#[trigger] w.structs[i]).name) {
            Some(d) => d.fields == w.structs[i].order,
            None => false,
        }
}

pub broadcast proof fn declared_on(reg: Decls, a: World, b: World)
    requires
        #[trigger] declared(reg, a),
        #[trigger] grows(a, b),
        a.structs.len() == b.structs.len(),
    ensures
        declared(reg, b),
{
    reveal(declared);
    reveal(grows);
    assert forall|i: int| 0 <= i < b.structs.len() implies match lookup(
        reg.structs,
        (#[trigger] b.structs[i]).name,
    ) {
        Some(d) => d.fields == b.structs[i].order,
        None => false,
    } by {
        assert(b.structs[i].name == a.structs[i].name);
    }
}

pub proof fn declared_add(reg: Decls, w: World, inst: StructVal)
    requires
        declared(reg, w),
        lookup(reg.structs, inst.name) matches Some(d) && d.fields == inst.order,
    ensures
        declared(reg, w.add_struct(inst)),
{
    reveal(declared);
}

pub broadcast proof fn grows_self(w: World)
    ensures
        #[trigger] grows(w, w),
{
    reveal(grows);
}

pub broadcast proof fn grows_on(a: World, b: World, c: World)
    requires
        #[trigger] grows(a, b),
        #[trigger] grows(b, c),
    ensures
        grows(a, c),
{
    reveal(grows);
    assert forall|i: int| 0 <= i < a.structs.len() implies (#[trigger] c.structs[i]).name
        == a.structs[i].name && c.structs[i].order == a.structs[i].order by {
        assert(b.structs[i].name == a.structs[i].name);
    }
    assert forall|i: int| 0 <= i < a.scopes.len() implies (#[trigger] c.scopes[i]).parent
        == a.scopes[i].parent by {
        assert(b.scopes[i].parent == a.scopes[i].parent);
    }
    assert forall|i: int| 0 <= i < a.out.len() implies #[trigger] c.out[i] == a.out[i] by {
        assert(b.out[i] == a.out[i]);
    }
}

// ---------------------------------------------------------------------------
// What fits in a world fits in every later one
// ---------------------------------------------------------------------------

pub broadcast proof fn fits_on(a: World, b: World, v: Val)
    requires
        #[trigger] grows(a, b),
        #[trigger] fits(a, v),
    ensures
        fits(b, v),
    decreases v,
{
    reveal(grows);
    match v {
        Val::Tuple(items) => {
            assert forall|i: int| 0 <= i < items.len() implies fits(b, #[trigger] items[i]) by {
                assert(fits(a, items[i]));
                fits_on(a, b, items[i]);
            }
        },
        Val::Enum(e) => {
            assert forall|i: int| 0 <= i < e.payload.len() implies fits(
                b,
                #[trigger] e.payload[i],
            ) by {
                assert(fits(a, e.payload[i]));
                fits_on(a, b, e.payload[i]);
            }
        },
        _ => {},
    }
}

pub broadcast proof fn items_on(a: World, b: World, vs: Seq<Val>)
    requires
        #[trigger] grows(a, b),
        #[trigger] fit_items(a, vs),
    ensures
        fit_items(b, vs),
{
    assert forall|i: int| 0 <= i < vs.len() implies fits(b, #[trigger] vs[i]) by {
        assert(fits(a, vs[i]));
        fits_on(a, b, vs[i]);
    }
}

pub broadcast proof fn pairs_on(a: World, b: World, ps: Seq<(Val, Val)>)
    requires
        #[trigger] grows(a, b),
        #[trigger] fit_pairs(a, ps),
    ensures
        fit_pairs(b, ps),
{
    assert forall|i: int| 0 <= i < ps.len() implies fits(b, (#[trigger] ps[i]).0) && fits(
        b,
        ps[i].1,
    ) by {
        fits_on(a, b, ps[i].0);
        fits_on(a, b, ps[i].1);
    }
}

pub broadcast proof fn named_on(a: World, b: World, fs: Seq<(Seq<char>, Val)>)
    requires
        #[trigger] grows(a, b),
        #[trigger] fit_named(a, fs),
    ensures
        fit_named(b, fs),
{
    assert forall|i: int| 0 <= i < fs.len() implies fits(b, (#[trigger] fs[i]).1) by {
        fits_on(a, b, fs[i].1);
    }
}

proof fn vars_on(a: World, b: World, vars: Seq<(Seq<char>, BindingVal)>)
    requires
        grows(a, b),
        fit_vars(a, vars),
    ensures
        fit_vars(b, vars),
{
    assert forall|i: int| 0 <= i < vars.len() implies fits(b, (#[trigger] vars[i]).1.value) by {
        fits_on(a, b, vars[i].1.value);
    }
}

pub broadcast proof fn scope_on(a: World, b: World, env: Env)
    requires
        #[trigger] grows(a, b),
        #[trigger] open_scope(a, env),
    ensures
        open_scope(b, env),
{
    reveal(grows);
}

// ---------------------------------------------------------------------------
// Building what fits
// ---------------------------------------------------------------------------

pub broadcast proof fn items_empty(w: World)
    ensures
        #[trigger] fit_items(w, Seq::empty()),
{
}

pub broadcast proof fn items_push(w: World, vs: Seq<Val>, v: Val)
    requires
        fit_items(w, vs),
        fits(w, v),
    ensures
        #[trigger] fit_items(w, vs.push(v)),
{
}

pub broadcast proof fn named_bind(w: World, fs: Seq<(Seq<char>, Val)>, name: Seq<char>, v: Val)
    requires
        fit_named(w, fs),
        fits(w, v),
    ensures
        #[trigger] fit_named(w, bind(fs, name, v)),
{
    law_bind_keeps_distinct(fs, name, v);
}

pub broadcast proof fn named_unbind(w: World, fs: Seq<(Seq<char>, Val)>, name: Seq<char>)
    requires
        fit_named(w, fs),
    ensures
        #[trigger] fit_named(w, unbind(fs, name)),
{
}

proof fn lookup_from_fits(w: World, fs: Seq<(Seq<char>, Val)>, name: Seq<char>, i: nat)
    requires
        fit_named(w, fs),
    ensures
        lookup_from(fs, name, i) matches Some(v) ==> fits(w, v),
    decreases fs.len() - i,
{
    if i < fs.len() && fs[i as int].0 != name {
        lookup_from_fits(w, fs, name, i + 1);
    }
}

pub broadcast proof fn lookup_fits(w: World, fs: Seq<(Seq<char>, Val)>, name: Seq<char>)
    requires
        #[trigger] fit_named(w, fs),
    ensures
        (#[trigger] lookup(fs, name)) matches Some(v) ==> fits(w, v),
{
    lookup_from_fits(w, fs, name, 0);
}

proof fn var_fits(w: World, vars: Seq<(Seq<char>, BindingVal)>, name: Seq<char>, i: nat)
    requires
        fit_vars(w, vars),
    ensures
        lookup_from(vars, name, i) matches Some(b) ==> fits(w, b.value),
    decreases vars.len() - i,
{
    if i < vars.len() && vars[i as int].0 != name {
        var_fits(w, vars, name, i + 1);
    }
}

// ---------------------------------------------------------------------------
// What a valid world holds
// ---------------------------------------------------------------------------

pub broadcast proof fn valid_list(w: World, at: usize)
    requires
        #[trigger] valid(w),
    ensures
        fit_items(w, #[trigger] w.list(at)),
{
    reveal(valid);
}

pub broadcast proof fn valid_map(w: World, at: usize)
    requires
        #[trigger] valid(w),
    ensures
        fit_pairs(w, #[trigger] w.map(at)),
{
    reveal(valid);
}

pub broadcast proof fn valid_set(w: World, at: usize)
    requires
        #[trigger] valid(w),
    ensures
        fit_items(w, #[trigger] w.set(at)),
{
    reveal(valid);
}

pub broadcast proof fn valid_instance(w: World, at: usize)
    requires
        #[trigger] valid(w),
    ensures
        fit_named(w, (#[trigger] w.instance(at)).fields),
{
    reveal(valid);
}

pub broadcast proof fn valid_lookup(w: World, env: Env, name: Seq<char>)
    requires
        #[trigger] valid(w),
    ensures
        (#[trigger] lookup(w.scope(env).vars, name)) matches Some(b) ==> fits(w, b.value),
{
    reveal(valid);
    if env < w.scopes.len() {
        var_fits(w, w.scopes[env as int].vars, name, 0);
    }
}

// ---------------------------------------------------------------------------
// Each change of a world
// ---------------------------------------------------------------------------

proof fn all_on(a: World, b: World)
    requires
        grows(a, b),
        valid(a),
    ensures
        forall|i: int| 0 <= i < a.lists.len() ==> fit_items(b, #[trigger] a.lists[i]),
        forall|i: int| 0 <= i < a.maps.len() ==> fit_pairs(b, #[trigger] a.maps[i]),
        forall|i: int| 0 <= i < a.sets.len() ==> fit_items(b, #[trigger] a.sets[i]),
        forall|i: int| 0 <= i < a.structs.len() ==> fit_named(b, (#[trigger] a.structs[i]).fields),
        forall|i: int| 0 <= i < a.scopes.len() ==> fit_vars(b, (#[trigger] a.scopes[i]).vars),
        fit_option(b, a.propagating),
{
    reveal(valid);
    assert forall|i: int| 0 <= i < a.lists.len() implies fit_items(b, #[trigger] a.lists[i]) by {
        items_on(a, b, a.lists[i]);
    }
    assert forall|i: int| 0 <= i < a.maps.len() implies fit_pairs(b, #[trigger] a.maps[i]) by {
        pairs_on(a, b, a.maps[i]);
    }
    assert forall|i: int| 0 <= i < a.sets.len() implies fit_items(b, #[trigger] a.sets[i]) by {
        items_on(a, b, a.sets[i]);
    }
    assert forall|i: int| 0 <= i < a.structs.len() implies fit_named(
        b,
        (#[trigger] a.structs[i]).fields,
    ) by {
        named_on(a, b, a.structs[i].fields);
    }
    assert forall|i: int| 0 <= i < a.scopes.len() implies fit_vars(
        b,
        (#[trigger] a.scopes[i]).vars,
    ) by {
        vars_on(a, b, a.scopes[i].vars);
    }
    if let Some(v) = a.propagating {
        fits_on(a, b, v);
    }
}

pub broadcast proof fn on_add_list(w: World, items: Seq<Val>)
    requires
        valid(w),
        fit_items(w, items),
    ensures
        grows(w, #[trigger] w.add_list(items)),
        valid(w.add_list(items)),
{
    reveal(grows);
    let b = w.add_list(items);
    all_on(w, b);
    items_on(w, b, items);
    reveal(valid);
}

pub broadcast proof fn on_add_map(w: World, pairs: Seq<(Val, Val)>)
    requires
        valid(w),
        fit_pairs(w, pairs),
    ensures
        grows(w, #[trigger] w.add_map(pairs)),
        valid(w.add_map(pairs)),
{
    reveal(grows);
    let b = w.add_map(pairs);
    all_on(w, b);
    pairs_on(w, b, pairs);
    reveal(valid);
}

pub broadcast proof fn on_add_set(w: World, items: Seq<Val>)
    requires
        valid(w),
        fit_items(w, items),
    ensures
        grows(w, #[trigger] w.add_set(items)),
        valid(w.add_set(items)),
{
    reveal(grows);
    let b = w.add_set(items);
    all_on(w, b);
    items_on(w, b, items);
    reveal(valid);
}

pub broadcast proof fn on_add_struct(w: World, inst: StructVal)
    requires
        valid(w),
        fit_named(w, inst.fields),
    ensures
        grows(w, #[trigger] w.add_struct(inst)),
        valid(w.add_struct(inst)),
{
    reveal(grows);
    let b = w.add_struct(inst);
    all_on(w, b);
    named_on(w, b, inst.fields);
    reveal(valid);
}

pub broadcast proof fn on_add_scope(w: World, parent: Option<Env>)
    requires
        valid(w),
        parent matches Some(p) ==> open_scope(w, p),
    ensures
        grows(w, #[trigger] w.add_scope(parent)),
        valid(w.add_scope(parent)),
        open_scope(w.add_scope(parent), w.next_scope()),
{
    reveal(grows);
    let b = w.add_scope(parent);
    all_on(w, b);
    reveal(valid);
}

pub broadcast proof fn on_with_list(w: World, at: usize, items: Seq<Val>)
    requires
        valid(w),
        fit_items(w, items),
    ensures
        grows(w, #[trigger] w.with_list(at, items)),
        valid(w.with_list(at, items)),
{
    reveal(grows);
    let b = w.with_list(at, items);
    all_on(w, b);
    items_on(w, b, items);
    reveal(valid);
}

pub broadcast proof fn on_with_map(w: World, at: usize, pairs: Seq<(Val, Val)>)
    requires
        valid(w),
        fit_pairs(w, pairs),
    ensures
        grows(w, #[trigger] w.with_map(at, pairs)),
        valid(w.with_map(at, pairs)),
{
    reveal(grows);
    let b = w.with_map(at, pairs);
    all_on(w, b);
    pairs_on(w, b, pairs);
    reveal(valid);
}

pub broadcast proof fn on_with_set(w: World, at: usize, items: Seq<Val>)
    requires
        valid(w),
        fit_items(w, items),
    ensures
        grows(w, #[trigger] w.with_set(at, items)),
        valid(w.with_set(at, items)),
{
    reveal(grows);
    let b = w.with_set(at, items);
    all_on(w, b);
    items_on(w, b, items);
    reveal(valid);
}

pub broadcast proof fn on_with_field(w: World, at: usize, name: Seq<char>, v: Val)
    requires
        valid(w),
        fits(w, v),
    ensures
        grows(w, #[trigger] w.with_field(at, name, v)),
        valid(w.with_field(at, name, v)),
{
    reveal(grows);
    let b = w.with_field(at, name, v);
    all_on(w, b);
    reveal(valid);
    if at < w.structs.len() {
        fits_on(w, b, v);
        named_bind(b, w.structs[at as int].fields, name, v);
    }
}

pub broadcast proof fn on_with_var(w: World, env: Env, name: Seq<char>, v: Val, is_val: bool)
    requires
        valid(w),
        fits(w, v),
    ensures
        grows(w, #[trigger] w.with_var(env, name, v, is_val)),
        valid(w.with_var(env, name, v, is_val)),
        w.with_var(env, name, v, is_val).propagating == w.propagating,
{
    reveal(grows);
    let b = w.with_var(env, name, v, is_val);
    all_on(w, b);
    reveal(valid);
    if env < w.scopes.len() {
        fits_on(w, b, v);
        law_bind_keeps_distinct(w.scopes[env as int].vars, name, BindingVal { value: v, is_val });
    }
}

pub broadcast proof fn on_with_line(w: World, text: Seq<char>, span: Span)
    requires
        valid(w),
    ensures
        grows(w, #[trigger] w.with_line(text, span)),
        valid(w.with_line(text, span)),
{
    reveal(grows);
    let b = w.with_line(text, span);
    all_on(w, b);
    reveal(valid);
}

pub broadcast proof fn on_with_propagating(w: World, v: Option<Val>)
    requires
        valid(w),
        fit_option(w, v),
    ensures
        grows(w, #[trigger] w.with_propagating(v)),
        valid(w.with_propagating(v)),
{
    reveal(grows);
    let b = w.with_propagating(v);
    all_on(w, b);
    if let Some(x) = v {
        fits_on(w, b, x);
    }
    reveal(valid);
}

// ---------------------------------------------------------------------------
// What is printed
// ---------------------------------------------------------------------------

/// Whether the first lines are those that the second begin with.
#[verifier::opaque]
pub open spec fn ext(a: Seq<(Seq<char>, Span)>, b: Seq<(Seq<char>, Span)>) -> bool {
    a.is_prefix_of(b)
}

pub broadcast proof fn ext_same(a: Seq<(Seq<char>, Span)>, b: Seq<(Seq<char>, Span)>)
    requires
        a == b,
    ensures
        #[trigger] ext(a, b),
{
    reveal(ext);
    assert(b.take(a.len() as int) =~= a);
}

pub broadcast proof fn ext_push(a: Seq<(Seq<char>, Span)>, line: (Seq<char>, Span))
    ensures
        ext(a, #[trigger] a.push(line)),
{
    reveal(ext);
    assert(a.push(line).take(a.len() as int) =~= a);
}

pub broadcast proof fn ext_through(
    a: Seq<(Seq<char>, Span)>,
    b: Seq<(Seq<char>, Span)>,
    c: Seq<(Seq<char>, Span)>,
)
    requires
        #[trigger] ext(a, b),
        #[trigger] ext(b, c),
    ensures
        ext(a, c),
{
    reveal(ext);
    assert(c.take(a.len() as int) =~= a) by {
        assert forall|i: int| 0 <= i < a.len() implies c[i] == a[i] by {
            assert(b.take(a.len() as int)[i] == a[i]);
            assert(c.take(b.len() as int)[i] == b[i]);
        }
    }
}

} // verus!
