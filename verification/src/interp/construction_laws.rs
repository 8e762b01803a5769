//! Laws of construction.

use super::semantics::{
    all_named, all_positional, arg_named, arg_value, evaluated, fields_by_name, fields_in_order,
    missing_field, named_in_place, payload_by_name, payload_in_order, payload_made, struct_finished,
    struct_made, Payloads,
};
use super::call_laws::args_give;
use super::equality_laws::{lookup_finds, lookup_of_place};
use super::show::{equal, fields_equal};
use super::value::{Env, Halt, StructVal, Val, World};
use super::{Cx, Out};
use crate::ast::{Arg, PayloadShape, StructShape};
use crate::name_map::{bind, distinct, law_bind_keeps_distinct, law_lookup_after_bind, lookup};
use crate::token::Span;
use vstd::prelude::*;

verus! {

/// Whether the second arguments are the first with these names in front.
pub open spec fn named_as(args: Seq<Arg>, named: Seq<Arg>, names: Seq<Seq<char>>) -> bool {
    &&& args.len() == named.len() == names.len()
    &&& forall|i: int|
        0 <= i < args.len() ==> (#[trigger] args[i]) is Positional && named[i] is Named
            && named[i]->name@ == names[i] && named[i]->value == args[i]->Positional_0
}

proof fn in_order_by_name(
    cx: Cx,
    fuel: nat,
    order: Seq<Seq<char>>,
    args: Seq<Arg>,
    named: Seq<Arg>,
    i: nat,
    fields: Seq<(Seq<char>, Val)>,
    name: Seq<char>,
    span: Span,
    env: Env,
    w: World,
)
    requires
        named_as(args, named, order),
    ensures
        fields_in_order(cx, fuel, order, args, i, fields, env, w) == fields_by_name(
            cx,
            fuel,
            order,
            named,
            i,
            fields,
            name,
            span,
            env,
            w,
        ),
    decreases args.len() - i,
{
    if i < args.len() {
        assert(args[i as int] is Positional);
        assert(order.contains(order[i as int]));
        if let (Ok(v), w1) = evaluated(cx, fuel, args[i as int]->Positional_0, env, w) {
            let more = bind(fields, order[i as int], v);
            in_order_by_name(cx, fuel, order, args, named, i + 1, more, name, span, env, w1);
        }
    }
}

/// A struct built by position is the one built from the same expressions by name,
/// the names in the order of the declaration.
pub proof fn law_position_is_name_in_order(
    cx: Cx,
    fuel: nat,
    decl: StructShape,
    name: Seq<char>,
    args: Seq<Arg>,
    named: Seq<Arg>,
    span: Span,
    env: Env,
    w: World,
)
    requires
        named_as(args, named, decl.fields),
    ensures
        struct_made(cx, fuel, decl, name, args, span, env, w) == struct_made(
            cx,
            fuel,
            decl,
            name,
            named,
            span,
            env,
            w,
        ),
{
    assert(all_positional(args));
    assert forall|i: int| 0 <= i < named.len() implies (#[trigger] named[i]) is Named by {
        assert(args[i] is Positional);
    }
    if args.len() > 0 {
        assert(!(args[0] is Named));
        in_order_by_name(
            cx,
            fuel,
            decl.fields,
            args,
            named,
            0,
            Seq::empty(),
            name,
            span,
            env,
            w,
        );
    } else {
        assert(args =~= named);
    }
}

/// Whether arguments are all by name, under names of `order` that differ, and each
/// has a value whose evaluation changes nothing.
pub open spec fn plain_named(
    cx: Cx,
    fuel: nat,
    order: Seq<Seq<char>>,
    args: Seq<Arg>,
    env: Env,
    w: World,
) -> bool {
    &&& all_named(args)
    &&& forall|i: int| 0 <= i < args.len() ==> order.contains((#[trigger] args[i])->name@)
    &&& forall|i: int, j: int|
        0 <= i < j < args.len() ==> (#[trigger] args[i])->name@ != (#[trigger] args[j])->name@
    &&& forall|i: int|
        0 <= i < args.len() ==> evaluated(cx, fuel, (#[trigger] args[i])->value, env, w) == (
            Ok::<Val, Halt>(value_of(cx, fuel, args[i], env, w)),
            w,
        )
}

/// The value of an argument by name.
pub open spec fn value_of(cx: Cx, fuel: nat, arg: Arg, env: Env, w: World) -> Val {
    evaluated(cx, fuel, arg->value, env, w).0->Ok_0
}

proof fn plain_fields(
    cx: Cx,
    fuel: nat,
    order: Seq<Seq<char>>,
    args: Seq<Arg>,
    i: nat,
    fields: Seq<(Seq<char>, Val)>,
    name: Seq<char>,
    span: Span,
    env: Env,
    w: World,
) -> (fs: Seq<(Seq<char>, Val)>)
    requires
        plain_named(cx, fuel, order, args, env, w),
        distinct(fields),
    ensures
        fields_by_name(cx, fuel, order, args, i, fields, name, span, env, w) == (
            Ok::<Seq<(Seq<char>, Val)>, Halt>(fs),
            w,
        ),
        distinct(fs),
        forall|j: int|
            i <= j < args.len() ==> lookup(fs, (#[trigger] args[j])->name@) == Some(
                value_of(cx, fuel, args[j], env, w),
            ),
        forall|n: Seq<char>|
            (forall|j: int| i <= j < args.len() ==> (#[trigger] args[j])->name@ != n)
                ==> #[trigger] lookup(fs, n) == lookup(fields, n),
    decreases args.len() - i,
{
    if i >= args.len() {
        fields
    } else {
        let arg = args[i as int];
        assert(arg is Named);
        let more = bind(fields, arg->name@, value_of(cx, fuel, arg, env, w));
        law_bind_keeps_distinct(fields, arg->name@, value_of(cx, fuel, arg, env, w));
        let fs = plain_fields(cx, fuel, order, args, i + 1, more, name, span, env, w);
        law_lookup_after_bind(fields, arg->name@, value_of(cx, fuel, arg, env, w), arg->name@);
        assert(lookup(fs, arg->name@) == lookup(more, arg->name@));
        assert forall|n: Seq<char>|
            (forall|j: int| i <= j < args.len() ==> (#[trigger] args[j])->name@ != n) implies
            #[trigger] lookup(fs, n) == lookup(fields, n) by {
            assert(args[i as int]->name@ != n);
            law_lookup_after_bind(fields, arg->name@, value_of(cx, fuel, arg, env, w), n);
        }
        fs
    }
}

proof fn same_missing(
    order: Seq<Seq<char>>,
    fs: Seq<(Seq<char>, Val)>,
    gs: Seq<(Seq<char>, Val)>,
    i: nat,
)
    requires
        forall|n: Seq<char>| #[trigger] lookup(fs, n) == lookup(gs, n),
    ensures
        missing_field(order, fs, i) == missing_field(order, gs, i),
    decreases order.len() - i,
{
    if i < order.len() {
        same_missing(order, fs, gs, i + 1);
    }
}

/// Arguments by name may come in any order: the struct has the same value in each
/// field, or the same field is missing. This is of arguments whose evaluation
/// changes nothing, so that the order of evaluation does not show.
pub proof fn law_named_in_any_order(
    cx: Cx,
    fuel: nat,
    decl: StructShape,
    name: Seq<char>,
    args: Seq<Arg>,
    other: Seq<Arg>,
    span: Span,
    env: Env,
    w: World,
)
    requires
        args.len() > 0,
        args.to_multiset() == other.to_multiset(),
        plain_named(cx, fuel, decl.fields, args, env, w),
        plain_named(cx, fuel, decl.fields, other, env, w),
    ensures
        exists|fs: Seq<(Seq<char>, Val)>, gs: Seq<(Seq<char>, Val)>|
            {
                &&& #[trigger] struct_finished(
                    decl,
                    name,
                    (Ok::<Seq<(Seq<char>, Val)>, Halt>(fs), w),
                    span,
                ) == struct_made(cx, fuel, decl, name, args, span, env, w)
                &&& #[trigger] struct_finished(
                    decl,
                    name,
                    (Ok::<Seq<(Seq<char>, Val)>, Halt>(gs), w),
                    span,
                ) == struct_made(cx, fuel, decl, name, other, span, env, w)
                &&& distinct(fs) && distinct(gs)
                &&& forall|n: Seq<char>| #[trigger] lookup(fs, n) == lookup(gs, n)
                &&& missing_field(decl.fields, fs, 0) == missing_field(decl.fields, gs, 0)
            },
{
    args.to_multiset_ensures();
    other.to_multiset_ensures();
    let none = Seq::<(Seq<char>, Val)>::empty();
    let fs = plain_fields(cx, fuel, decl.fields, args, 0, none, name, span, env, w);
    let gs = plain_fields(cx, fuel, decl.fields, other, 0, none, name, span, env, w);
    assert forall|n: Seq<char>| #[trigger] lookup(fs, n) == lookup(gs, n) by {
        if exists|j: int| 0 <= j < args.len() && (#[trigger] args[j])->name@ == n {
            let j = choose|j: int| 0 <= j < args.len() && (#[trigger] args[j])->name@ == n;
            assert(args.contains(args[j]));
            assert(args.to_multiset().count(args[j]) > 0);
            assert(other.contains(args[j]));
            let k = choose|k: int| 0 <= k < other.len() && other[k] == args[j];
            assert(lookup(gs, other[k]->name@) == Some(value_of(cx, fuel, other[k], env, w)));
        } else if exists|j: int| 0 <= j < other.len() && (#[trigger] other[j])->name@ == n {
            let j = choose|j: int| 0 <= j < other.len() && (#[trigger] other[j])->name@ == n;
            assert(other.contains(other[j]));
            assert(other.to_multiset().count(other[j]) > 0);
            assert(args.contains(other[j]));
            let k = choose|k: int| 0 <= k < args.len() && args[k] == other[j];
            assert(args[k]->name@ == n);
        }
    }
    same_missing(decl.fields, fs, gs, 0);
    assert(struct_finished(decl, name, (Ok::<Seq<(Seq<char>, Val)>, Halt>(fs), w), span)
        == struct_made(cx, fuel, decl, name, args, span, env, w));
    assert(struct_finished(decl, name, (Ok::<Seq<(Seq<char>, Val)>, Halt>(gs), w), span)
        == struct_made(cx, fuel, decl, name, other, span, env, w));
}

/// The names of some fields.
spec fn names_of(fs: Seq<(Seq<char>, Val)>) -> Seq<Seq<char>> {
    fs.map_values(|f: (Seq<char>, Val)| f.0)
}

proof fn fewer_names(fs: Seq<(Seq<char>, Val)>, gs: Seq<(Seq<char>, Val)>)
    requires
        distinct(fs),
        distinct(gs),
        forall|n: Seq<char>| #[trigger] lookup(fs, n) is Some ==> lookup(gs, n) is Some,
    ensures
        fs.len() <= gs.len(),
{
    let (xs, ys) = (names_of(fs), names_of(gs));
    assert(xs.no_duplicates()) by {
        assert forall|i: int, j: int| 0 <= i < xs.len() && 0 <= j < xs.len() && i != j implies xs[i]
            != xs[j] by {
            if i < j {
                assert(fs[i].0 != fs[j].0);
            } else {
                assert(fs[j].0 != fs[i].0);
            }
        }
    }
    assert forall|n: Seq<char>| xs.to_set().contains(n) implies ys.to_set().contains(n) by {
        let i = choose|i: int| 0 <= i < xs.len() && xs[i] == n;
        lookup_of_place(fs, i, 0);
        assert(lookup(fs, n) is Some);
        let j = lookup_finds(gs, n, 0);
        assert(ys[j] == n);
    }
    xs.unique_seq_to_set();
    vstd::seq_lib::seq_to_set_is_finite(ys);
    vstd::set_lib::lemma_len_subset(xs.to_set(), ys.to_set());
    ys.lemma_cardinality_of_set();
}

proof fn fields_are_equal(
    w: World,
    fuel: nat,
    fs: Seq<(Seq<char>, Val)>,
    gs: Seq<(Seq<char>, Val)>,
    i: nat,
)
    requires
        distinct(fs),
        forall|n: Seq<char>| #[trigger] lookup(fs, n) == lookup(gs, n),
        forall|j: int|
            0 <= j < fs.len() ==> equal(w, fuel, (#[trigger] fs[j]).1, fs[j].1) == Some(true),
    ensures
        fields_equal(w, fuel, fs, gs, i) == Some(true),
    decreases fs.len() - i,
{
    if i < fs.len() {
        lookup_of_place(fs, i as int, 0);
        assert(lookup(fs, fs[i as int].0) == Some(fs[i as int].1));
        assert(equal(w, fuel, fs[i as int].1, fs[i as int].1) == Some(true));
        fields_are_equal(w, fuel, fs, gs, i + 1);
    }
}

/// Two structs of one type that have the same value in each field are equal, in
/// whatever order the fields were given, if each value equals itself.
pub proof fn law_same_fields_are_equal(w: World, fuel: nat, x: usize, y: usize)
    requires
        fuel > 0,
        w.instance(x).name == w.instance(y).name,
        distinct(w.instance(x).fields),
        distinct(w.instance(y).fields),
        forall|n: Seq<char>| #[trigger]
            lookup(w.instance(x).fields, n) == lookup(w.instance(y).fields, n),
        forall|j: int|
            0 <= j < w.instance(x).fields.len() ==> equal(
                w,
                (fuel - 1) as nat,
                (#[trigger] w.instance(x).fields[j]).1,
                w.instance(x).fields[j].1,
            ) == Some(true),
    ensures
        equal(w, fuel, Val::Struct(x), Val::Struct(y)) == Some(true),
{
    let (fs, gs) = (w.instance(x).fields, w.instance(y).fields);
    assert forall|n: Seq<char>| #[trigger] lookup(gs, n) is Some implies lookup(fs, n) is Some by {
        assert(lookup(fs, n) == lookup(gs, n));
    }
    fewer_names(fs, gs);
    fewer_names(gs, fs);
    fields_are_equal(w, (fuel - 1) as nat, fs, gs, 0);
}

proof fn named_only(
    cx: Cx,
    fuel: nat,
    order: Seq<Seq<char>>,
    args: Seq<Arg>,
    i: nat,
    fields: Seq<(Seq<char>, Val)>,
    name: Seq<char>,
    span: Span,
    env: Env,
    w: World,
    n: Seq<char>,
)
    requires
        all_named(args),
    ensures
        fields_by_name(cx, fuel, order, args, i, fields, name, span, env, w).0 matches Ok(fs) ==> {
            &&& forall|j: int| i <= j < args.len() ==> order.contains((#[trigger] args[j])->name@)
            &&& lookup(fs, n) is Some ==> lookup(fields, n) is Some || exists|j: int|
                i <= j < args.len() && (#[trigger] args[j])->name@ == n
        },
    decreases args.len() - i,
{
    if i < args.len() {
        let arg = args[i as int];
        assert(arg is Named);
        if let (Ok(v), w1) = evaluated(cx, fuel, arg->value, env, w) {
            let more = bind(fields, arg->name@, v);
            law_lookup_after_bind(fields, arg->name@, v, n);
            named_only(cx, fuel, order, args, i + 1, more, name, span, env, w1, n);
        }
    }
}

proof fn missing_is_found(order: Seq<Seq<char>>, fs: Seq<(Seq<char>, Val)>, i: nat, k: int)
    requires
        i <= k < order.len(),
        lookup(fs, order[k]) is None,
    ensures
        missing_field(order, fs, i) is Some,
    decreases k - i,
{
    if lookup(fs, order[i as int]) is Some {
        missing_is_found(order, fs, i + 1, k);
    }
}

/// When a construction is refused, whatever its arguments give: if they are mixed;
/// if they come by position and are not as many as the fields; if one is named that
/// is no field; and if a field is not named.
pub proof fn law_struct_refuses(
    cx: Cx,
    fuel: nat,
    decl: StructShape,
    name: Seq<char>,
    args: Seq<Arg>,
    span: Span,
    env: Env,
    w: World,
    k: int,
)
    requires
        ({
            ||| !all_named(args) && !all_positional(args)
            ||| all_positional(args) && args.len() != decl.fields.len()
            ||| all_named(args) && 0 <= k < args.len() && !decl.fields.contains(args[k]->name@)
            ||| all_named(args) && args.len() > 0 && 0 <= k < decl.fields.len() && forall|j: int|
                0 <= j < args.len() ==> (#[trigger] args[j])->name@ != decl.fields[k]
        }),
    ensures
        struct_made(cx, fuel, decl, name, args, span, env, w).0 is Err,
{
    if args.len() > 0 && all_named(args) {
        assert(args[0] is Named);
        let n = if 0 <= k < decl.fields.len() {
            decl.fields[k]
        } else {
            name
        };
        let none = Seq::<(Seq<char>, Val)>::empty();
        named_only(cx, fuel, decl.fields, args, 0, none, name, span, env, w, n);
        let got = fields_by_name(cx, fuel, decl.fields, args, 0, none, name, span, env, w);
        if let Ok(fs) = got.0 {
            if 0 <= k < args.len() && !decl.fields.contains(args[k]->name@) {
                assert(decl.fields.contains(args[k]->name@));
            } else {
                assert(lookup(fs, n) is None);
                missing_is_found(decl.fields, fs, 0, k);
            }
        }
    }
}

proof fn filled_in_order(
    cx: Cx,
    fuel: nat,
    order: Seq<Seq<char>>,
    args: Seq<Arg>,
    i: nat,
    fields: Seq<(Seq<char>, Val)>,
    env: Env,
    ws: Seq<World>,
    vs: Seq<Val>,
) -> (fs: Seq<(Seq<char>, Val)>)
    requires
        args_give(cx, fuel, args, env, ws, vs),
        args.len() == order.len(),
        order.no_duplicates(),
        i <= args.len(),
        forall|j: int| 0 <= j < i ==> lookup(fields, #[trigger] order[j]) == Some(vs[j]),
    ensures
        fields_in_order(cx, fuel, order, args, i, fields, env, ws[i as int]) == (
            Ok::<Seq<(Seq<char>, Val)>, Halt>(fs),
            ws.last(),
        ),
        forall|j: int| 0 <= j < order.len() ==> lookup(fs, #[trigger] order[j]) == Some(vs[j]),
    decreases args.len() - i,
{
    if i < args.len() {
        let n = i as int + 1;
        let (here, next) = (ws[i as int], ws[n]);
        assert(args[i as int] matches Arg::Positional(e) && evaluated(cx, fuel, e, env, here) == (
            Ok::<Val, Halt>(vs[i as int]),
            next,
        ));
        let more = bind(fields, order[i as int], vs[i as int]);
        assert forall|j: int| 0 <= j < i + 1 implies lookup(more, #[trigger] order[j]) == Some(
            vs[j],
        ) by {
            law_lookup_after_bind(fields, order[i as int], vs[i as int], order[j]);
        }
        filled_in_order(cx, fuel, order, args, i + 1, more, env, ws, vs)
    } else {
        fields
    }
}

proof fn none_missing(order: Seq<Seq<char>>, fs: Seq<(Seq<char>, Val)>, i: nat)
    requires
        forall|j: int| 0 <= j < order.len() ==> lookup(fs, #[trigger] order[j]) is Some,
    ensures
        missing_field(order, fs, i) is None,
    decreases order.len() - i,
{
    if i < order.len() {
        assert(lookup(fs, order[i as int]) is Some);
        none_missing(order, fs, i + 1);
    }
}

/// A struct that is built by position is a new one of that type: its arguments are
/// evaluated from left to right, each field has the value at its place, and the
/// fields are in the order of the declaration. Nothing else changes.
pub proof fn law_struct_is_built(
    cx: Cx,
    fuel: nat,
    decl: StructShape,
    name: Seq<char>,
    args: Seq<Arg>,
    span: Span,
    env: Env,
    ws: Seq<World>,
    vs: Seq<Val>,
)
    requires
        args_give(cx, fuel, args, env, ws, vs),
        args.len() == decl.fields.len(),
        decl.fields.no_duplicates(),
        ws.last().structs.len() < usize::MAX,
    ensures
        ({
            let at = ws.last().next_struct();
            let got = struct_made(cx, fuel, decl, name, args, span, env, ws[0]);
            let new = got.1.instance(at);
            &&& got.0 == Ok::<Val, Halt>(Val::Struct(at))
            &&& got.1 == ws.last().add_struct(new)
            &&& new.name == name
            &&& new.order == decl.fields
            &&& forall|j: int|
                0 <= j < decl.fields.len() ==> lookup(new.fields, #[trigger] decl.fields[j])
                    == Some(vs[j])
        }),
{
    assert forall|j: int| 0 <= j < args.len() implies (#[trigger] args[j]) is Positional by {
        let n = j + 1;
        let (here, next) = (ws[j], ws[n]);
    }
    assert(all_positional(args));
    if args.len() > 0 {
        assert(!(args[0] is Named));
    }
    let fs = filled_in_order(cx, fuel, decl.fields, args, 0, Seq::empty(), env, ws, vs);
    none_missing(decl.fields, fs, 0);
    let inst = StructVal { name, fields: fs, order: decl.fields };
    let after = ws.last().add_struct(inst);
    assert(after.instance(ws.last().next_struct()) == inst);
}

// ---------------------------------------------------------------------------
// Variants
// ---------------------------------------------------------------------------

/// A payload so far: as many values as names, and the names are the first ones.
spec fn names_follow(names: Seq<Seq<char>>, i: nat, done: Payloads) -> bool {
    i <= names.len() && done.names == names.take(i as int) && done.values.len() == i
}

proof fn next_follows(names: Seq<Seq<char>>, i: nat, done: Payloads, v: Val)
    requires
        names_follow(names, i, done),
        i < names.len(),
    ensures
        names_follow(
            names,
            i + 1,
            Payloads { values: done.values.push(v), names: done.names.push(names[i as int]) },
        ),
{
    assert(names.take((i + 1) as int) =~= names.take(i as int).push(names[i as int]));
}

/// A payload that was built has all the names in their order, with a value each.
spec fn names_all(names: Seq<Seq<char>>, out: Out<Payloads>) -> bool {
    out.0 matches Ok(p) ==> p.names == names && p.values.len() == names.len()
}

proof fn by_name_names(
    cx: Cx,
    fuel: nat,
    variant: Seq<char>,
    names: Seq<Seq<char>>,
    args: Seq<Arg>,
    i: nat,
    done: Payloads,
    span: Span,
    env: Env,
    w: World,
)
    requires
        names_follow(names, i, done),
    ensures
        names_all(
            names,
            payload_by_name(cx, fuel, variant, names, args, i, done, span, env, w),
        ),
    decreases names.len() - i,
{
    assert(names.take(names.len() as int) =~= names);
    if i < names.len() {
        if let Some(e) = arg_named(args, names[i as int], 0) {
            if let (Ok(v), w1) = evaluated(cx, fuel, e, env, w) {
                let more = Payloads {
                    values: done.values.push(v),
                    names: done.names.push(names[i as int]),
                };
                next_follows(names, i, done, v);
                by_name_names(cx, fuel, variant, names, args, i + 1, more, span, env, w1);
            }
        }
    }
}

proof fn in_order_names(
    cx: Cx,
    fuel: nat,
    names: Seq<Seq<char>>,
    args: Seq<Arg>,
    i: nat,
    done: Payloads,
    env: Env,
    w: World,
)
    requires
        args.len() == names.len(),
        names_follow(names, i, done),
    ensures
        names_all(names, payload_in_order(cx, fuel, names, args, i, done, env, w)),
    decreases names.len() - i,
{
    assert(names.take(names.len() as int) =~= names);
    if i < names.len() {
        if let (Ok(v), w1) = evaluated(cx, fuel, arg_value(args[i as int]), env, w) {
            let more = Payloads {
                values: done.values.push(v),
                names: done.names.push(names[i as int]),
            };
            next_follows(names, i, done, v);
            in_order_names(cx, fuel, names, args, i + 1, more, env, w1);
        }
    }
}

/// However its arguments come, a variant with names has its values in the order of
/// the declaration, under the names of the declaration.
pub proof fn law_payload_follows_declaration(
    cx: Cx,
    fuel: nat,
    names: Seq<Seq<char>>,
    variant: Seq<char>,
    args: Seq<Arg>,
    span: Span,
    env: Env,
    w: World,
)
    ensures
        payload_made(
            cx,
            fuel,
            PayloadShape::Named(names),
            variant,
            args,
            span,
            env,
            w,
        ).0 matches Ok(p) ==> p.names == names && p.values.len() == names.len(),
{
    let none = Payloads { values: Seq::empty(), names: Seq::empty() };
    assert(names.take(0) =~= Seq::<Seq<char>>::empty());
    by_name_names(cx, fuel, variant, names, args, 0, none, span, env, w);
    if args.len() == names.len() {
        in_order_names(cx, fuel, names, args, 0, none, env, w);
    }
}

proof fn found_in_place(names: Seq<Seq<char>>, args: Seq<Arg>, k: int, i: nat)
    requires
        names.no_duplicates(),
        args.len() == names.len(),
        all_named(args),
        named_in_place(names, args),
        i <= k < args.len(),
    ensures
        arg_named(args, names[k], i) == Some(arg_value(args[k])),
    decreases k - i,
{
    assert(args[i as int] is Named);
    if i < k {
        assert(names[i as int] != names[k]);
        found_in_place(names, args, k, i + 1);
    }
}

proof fn by_name_is_in_order(
    cx: Cx,
    fuel: nat,
    variant: Seq<char>,
    names: Seq<Seq<char>>,
    args: Seq<Arg>,
    i: nat,
    done: Payloads,
    span: Span,
    env: Env,
    w: World,
)
    requires
        names.no_duplicates(),
        args.len() == names.len(),
        all_named(args),
        named_in_place(names, args),
    ensures
        payload_by_name(cx, fuel, variant, names, args, i, done, span, env, w) == payload_in_order(
            cx,
            fuel,
            names,
            args,
            i,
            done,
            env,
            w,
        ),
    decreases names.len() - i,
{
    if i < names.len() {
        found_in_place(names, args, i as int, 0);
        if let (Ok(v), w1) = evaluated(cx, fuel, arg_value(args[i as int]), env, w) {
            let more = Payloads {
                values: done.values.push(v),
                names: done.names.push(names[i as int]),
            };
            by_name_is_in_order(cx, fuel, variant, names, args, i + 1, more, span, env, w1);
        }
    }
}

proof fn in_order_by_values(
    cx: Cx,
    fuel: nat,
    names: Seq<Seq<char>>,
    args: Seq<Arg>,
    other: Seq<Arg>,
    i: nat,
    done: Payloads,
    env: Env,
    w: World,
)
    requires
        args.len() == other.len(),
        forall|k: int| 0 <= k < args.len() ==> arg_value(#[trigger] args[k]) == arg_value(other[k]),
    ensures
        payload_in_order(cx, fuel, names, args, i, done, env, w) == payload_in_order(
            cx,
            fuel,
            names,
            other,
            i,
            done,
            env,
            w,
        ),
    decreases args.len() - i,
{
    if i < args.len() && i < names.len() {
        if let (Ok(v), w1) = evaluated(cx, fuel, arg_value(args[i as int]), env, w) {
            let more = Payloads {
                values: done.values.push(v),
                names: done.names.push(names[i as int]),
            };
            in_order_by_values(cx, fuel, names, args, other, i + 1, more, env, w1);
        }
    }
}

/// A variant is the same whether its values come by position, by name or mixed, as
/// long as each name stands at its own place.
pub proof fn law_names_in_place_add_nothing(
    cx: Cx,
    fuel: nat,
    names: Seq<Seq<char>>,
    variant: Seq<char>,
    args: Seq<Arg>,
    other: Seq<Arg>,
    span: Span,
    env: Env,
    w: World,
)
    requires
        names.no_duplicates(),
        args.len() == other.len() == names.len(),
        named_in_place(names, args),
        named_in_place(names, other),
        forall|k: int| 0 <= k < args.len() ==> arg_value(#[trigger] args[k]) == arg_value(other[k]),
    ensures
        payload_made(cx, fuel, PayloadShape::Named(names), variant, args, span, env, w)
            == payload_made(cx, fuel, PayloadShape::Named(names), variant, other, span, env, w),
{
    let none = Payloads { values: Seq::empty(), names: Seq::empty() };
    in_order_by_values(cx, fuel, names, args, other, 0, none, env, w);
    if all_named(args) {
        by_name_is_in_order(cx, fuel, variant, names, args, 0, none, span, env, w);
    }
    if all_named(other) {
        by_name_is_in_order(cx, fuel, variant, names, other, 0, none, span, env, w);
    }
}

/// Whether the values of a variant come by name: for each name, in the order of the
/// declaration, the value of the argument of that name, evaluated in turn.
pub open spec fn named_values_give(
    cx: Cx,
    fuel: nat,
    names: Seq<Seq<char>>,
    args: Seq<Arg>,
    places: Seq<int>,
    env: Env,
    ws: Seq<World>,
    vs: Seq<Val>,
) -> bool {
    ws.len() == names.len() + 1 && vs.len() == names.len() && places.len() == names.len() && forall|
        j: int,
        n: int,
    |
        #![trigger ws[j], ws[n]]
        0 <= j < names.len() && n == j + 1 ==> 0 <= places[j] < args.len() && (
        args[places[j]] matches Arg::Named { name, value } && name@ == names[j] && evaluated(
            cx,
            fuel,
            value,
            env,
            ws[j],
        ) == (Ok::<Val, Halt>(vs[j]), ws[n]))
}

proof fn named_is_found(args: Seq<Arg>, name: Seq<char>, at: int, i: nat)
    requires
        i <= at < args.len(),
        all_named(args),
        args[at]->name@ == name,
        forall|p: int, q: int|
            0 <= p < q < args.len() ==> (#[trigger] args[p])->name@ != (#[trigger] args[q])->name@,
    ensures
        arg_named(args, name, i) == Some(args[at]->value),
    decreases at - i,
{
    assert(args[i as int] is Named);
    if i < at {
        assert(args[i as int]->name@ != args[at]->name@);
        named_is_found(args, name, at, i + 1);
    }
}

proof fn to_named_value(
    cx: Cx,
    fuel: nat,
    variant: Seq<char>,
    names: Seq<Seq<char>>,
    args: Seq<Arg>,
    places: Seq<int>,
    span: Span,
    env: Env,
    ws: Seq<World>,
    vs: Seq<Val>,
    i: nat,
)
    requires
        named_values_give(cx, fuel, names, args, places, env, ws, vs),
        all_named(args),
        forall|p: int, q: int|
            0 <= p < q < args.len() ==> (#[trigger] args[p])->name@ != (#[trigger] args[q])->name@,
        i <= names.len(),
    ensures
        payload_by_name(
            cx,
            fuel,
            variant,
            names,
            args,
            i,
            Payloads { values: vs.take(i as int), names: names.take(i as int) },
            span,
            env,
            ws[i as int],
        ) == (Ok::<Payloads, Halt>(Payloads { values: vs, names }), ws.last()),
    decreases names.len() - i,
{
    if i < names.len() {
        let n = i as int + 1;
        let (here, next) = (ws[i as int], ws[n]);
        let at = places[i as int];
        assert(0 <= at < args.len() && evaluated(cx, fuel, args[at]->value, env, here) == (
            Ok::<Val, Halt>(vs[i as int]),
            next,
        ));
        named_is_found(args, names[i as int], at, 0);
        assert(vs.take(n) =~= vs.take(i as int).push(vs[i as int]));
        assert(names.take(n) =~= names.take(i as int).push(names[i as int]));
        to_named_value(cx, fuel, variant, names, args, places, span, env, ws, vs, i + 1);
    } else {
        assert(vs.take(i as int) =~= vs);
        assert(names.take(i as int) =~= names);
    }
}

/// A variant with names whose arguments all come by name, in whatever order, has for each
/// name the value of the argument of that name.
pub proof fn law_variant_by_name(
    cx: Cx,
    fuel: nat,
    variant: Seq<char>,
    names: Seq<Seq<char>>,
    args: Seq<Arg>,
    places: Seq<int>,
    span: Span,
    env: Env,
    ws: Seq<World>,
    vs: Seq<Val>,
)
    requires
        named_values_give(cx, fuel, names, args, places, env, ws, vs),
        all_named(args),
        forall|p: int, q: int|
            0 <= p < q < args.len() ==> (#[trigger] args[p])->name@ != (#[trigger] args[q])->name@,
        args.len() == names.len(),
        args.len() > 0,
    ensures
        payload_made(cx, fuel, PayloadShape::Named(names), variant, args, span, env, ws[0]) == (
            Ok::<Payloads, Halt>(Payloads { values: vs, names }),
            ws.last(),
        ),
{
    assert(vs.take(0) =~= Seq::<Val>::empty());
    assert(names.take(0) =~= Seq::<Seq<char>>::empty());
    to_named_value(cx, fuel, variant, names, args, places, span, env, ws, vs, 0);
}

/// A variant with names whose arguments come by position has the value of each argument
/// at its place. A number of arguments other than that of the names is an error.
pub proof fn law_variant_by_position(
    cx: Cx,
    fuel: nat,
    variant: Seq<char>,
    names: Seq<Seq<char>>,
    args: Seq<Arg>,
    span: Span,
    env: Env,
    ws: Seq<World>,
    vs: Seq<Val>,
)
    requires
        args_give(cx, fuel, args, env, ws, vs),
    ensures
        args.len() == names.len() ==> payload_made(
            cx,
            fuel,
            PayloadShape::Named(names),
            variant,
            args,
            span,
            env,
            ws[0],
        ) == (Ok::<Payloads, Halt>(Payloads { values: vs, names }), ws.last()),
        args.len() != names.len() ==> payload_made(
            cx,
            fuel,
            PayloadShape::Named(names),
            variant,
            args,
            span,
            env,
            ws[0],
        ).0 is Err,
{
    if args.len() == names.len() {
        assert forall|j: int| 0 <= j < args.len() implies (#[trigger] args[j]) is Positional by {
            let n = j + 1;
            let (here, next) = (ws[j], ws[n]);
        }
        if args.len() > 0 {
            assert(!(args[0] is Named));
        }
        assert(vs.take(0) =~= Seq::<Val>::empty());
        assert(names.take(0) =~= Seq::<Seq<char>>::empty());
        to_ordered_value(cx, fuel, names, args, env, ws, vs, 0);
    }
}

proof fn to_ordered_value(
    cx: Cx,
    fuel: nat,
    names: Seq<Seq<char>>,
    args: Seq<Arg>,
    env: Env,
    ws: Seq<World>,
    vs: Seq<Val>,
    i: nat,
)
    requires
        args_give(cx, fuel, args, env, ws, vs),
        args.len() == names.len(),
        i <= args.len(),
    ensures
        payload_in_order(
            cx,
            fuel,
            names,
            args,
            i,
            Payloads { values: vs.take(i as int), names: names.take(i as int) },
            env,
            ws[i as int],
        ) == (Ok::<Payloads, Halt>(Payloads { values: vs, names }), ws.last()),
    decreases args.len() - i,
{
    if i < args.len() {
        let n = i as int + 1;
        let (here, next) = (ws[i as int], ws[n]);
        assert(args[i as int] matches Arg::Positional(e) && evaluated(cx, fuel, e, env, here) == (
            Ok::<Val, Halt>(vs[i as int]),
            next,
        ));
        assert(vs.take(n) =~= vs.take(i as int).push(vs[i as int]));
        assert(names.take(n) =~= names.take(i as int).push(names[i as int]));
        to_ordered_value(cx, fuel, names, args, env, ws, vs, i + 1);
    } else {
        assert(vs.take(i as int) =~= vs);
        assert(names.take(i as int) =~= names);
    }
}

} // verus!
