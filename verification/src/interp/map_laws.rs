//! Laws of maps: what is read after a write.

use super::collection_laws::{
    entry_place_facts, keys_differ, law_map_get_after_insert, law_map_insert,
    law_map_insert_keeps_others,
};
use super::collections::{entry_place, keys_of, put_pair};
use super::equality_laws::{
    law_equality_is_decided, law_equality_is_symmetric, law_equality_is_transitive, lookup_finds,
    tidy,
};
use super::float::is_nan;
use super::semantics::map_called;
use super::show::{
    equal, fields_equal, items_equal, items_found, key_place, pairs_found, place_of, same_items,
};
use super::value::{Halt, Val, World};
use crate::name_map::lookup;
use crate::token::Span;
use vstd::prelude::*;
use vstd::string::*;

verus! {

/// The world behind `m.insert(k, v)`.
pub open spec fn inserted(w: World, fuel: nat, at: usize, k: Val, v: Val, span: Span) -> World {
    map_called(fuel, at, "insert"@, seq![k, v], span, w).1
}

/// What `m.get(k)` gives.
pub open spec fn got(w: World, fuel: nat, at: usize, k: Val, span: Span) -> Result<Val, Halt> {
    map_called(fuel, at, "get"@, seq![k], span, w).0
}

/// Whether each key of some pairs equals `k` in one world as it does in another.
pub open spec fn unmoved(w: World, w2: World, fuel: nat, pairs: Seq<(Val, Val)>, k: Val) -> bool {
    forall|j: int|
        0 <= j < pairs.len() ==> equal(w2, fuel, (#[trigger] pairs[j]).0, k) == equal(
            w,
            fuel,
            pairs[j].0,
            k,
        )
}

proof fn place_unmoved(
    w: World,
    w2: World,
    fuel: nat,
    pairs: Seq<(Val, Val)>,
    k: Val,
    i: nat,
)
    requires
        unmoved(w, w2, fuel, pairs, k),
    ensures
        entry_place(w2, fuel, pairs, k, i) == entry_place(w, fuel, pairs, k, i),
    decreases pairs.len() - i,
{
    if i < pairs.len() {
        assert(equal(w2, fuel, pairs[i as int].0, k) == equal(w, fuel, pairs[i as int].0, k));
        place_unmoved(w, w2, fuel, pairs, k, i + 1);
    }
}

proof fn insert_is(w: World, fuel: nat, at: usize, k: Val, v: Val, span: Span)
    requires
        at < w.maps.len(),
        entry_place(w, fuel, w.map(at), k, 0) is Some,
    ensures
        put_pair(w, fuel, w.map(at), k, v) matches Ok(more) && inserted(w, fuel, at, k, v, span)
            == w.with_map(at, more) && inserted(w, fuel, at, k, v, span).map(at) == more,
        map_called(fuel, at, "insert"@, seq![k, v], span, w).0 == Ok::<Val, Halt>(Val::Unit),
{
    reveal_strlit("insert");
}

proof fn get_is(w: World, fuel: nat, at: usize, k: Val, span: Span)
    ensures
        got(w, fuel, at, k, span) == (match entry_place(w, fuel, w.map(at), k, 0) {
            None => Err(Halt::Budget),
            Some(Some(j)) => Ok(w.map(at)[j as int].1),
            Some(None) => Ok(Val::Null),
        }),
        map_called(fuel, at, "get"@, seq![k], span, w).1 == w,
{
    reveal_strlit("insert");
    reveal_strlit("get");
    assert("insert"@.len() == 6 && "get"@.len() == 3);
}

/// `m.insert(k, v)` and then `m.get(k)` gives `v`, for every key that equals itself
/// and whose equality with the keys of the map the insertion does not change.
pub proof fn law_insert_then_get(w: World, fuel: nat, at: usize, k: Val, v: Val, span: Span)
    requires
        at < w.maps.len(),
        entry_place(w, fuel, w.map(at), k, 0) is Some,
        equal(w, fuel, k, k) == Some(true),
        unmoved(
            w,
            inserted(w, fuel, at, k, v, span),
            fuel,
            inserted(w, fuel, at, k, v, span).map(at),
            k,
        ),
    ensures
        map_called(fuel, at, "insert"@, seq![k, v], span, w).0 == Ok::<Val, Halt>(Val::Unit),
        got(inserted(w, fuel, at, k, v, span), fuel, at, k, span) == Ok::<Val, Halt>(v),
{
    insert_is(w, fuel, at, k, v, span);
    let after = inserted(w, fuel, at, k, v, span);
    law_map_get_after_insert(w, fuel, w.map(at), k, v);
    place_unmoved(w, after, fuel, after.map(at), k, 0);
    get_is(after, fuel, at, k, span);
}

/// Whether no key of some pairs equals both values.
pub open spec fn none_equals_both(
    w: World,
    fuel: nat,
    pairs: Seq<(Val, Val)>,
    k: Val,
    other: Val,
) -> bool {
    forall|j: int|
        0 <= j < pairs.len() ==> !(equal(w, fuel, (#[trigger] pairs[j]).0, k) == Some(true)
            && equal(w, fuel, pairs[j].0, other) == Some(true))
}

/// `m.insert(k, v)` does not change what `m.get(other)` gives, for keys that are not
/// equal, of which no key of the map equals both, and where the insertion does not
/// change how the other one equals the keys of the map.
pub proof fn law_insert_then_get_other(
    w: World,
    fuel: nat,
    at: usize,
    k: Val,
    v: Val,
    other: Val,
    span: Span,
)
    requires
        at < w.maps.len(),
        entry_place(w, fuel, w.map(at), k, 0) is Some,
        entry_place(w, fuel, w.map(at), other, 0) is Some,
        equal(w, fuel, k, other) == Some(false),
        none_equals_both(w, fuel, w.map(at), k, other),
        unmoved(
            w,
            inserted(w, fuel, at, k, v, span),
            fuel,
            inserted(w, fuel, at, k, v, span).map(at),
            other,
        ),
    ensures
        got(inserted(w, fuel, at, k, v, span), fuel, at, other, span) == got(
            w,
            fuel,
            at,
            other,
            span,
        ),
{
    let pairs = w.map(at);
    insert_is(w, fuel, at, k, v, span);
    let after = inserted(w, fuel, at, k, v, span);
    entry_place_facts(w, fuel, pairs, k, 0);
    entry_place_facts(w, fuel, pairs, other, 0);
    law_map_insert_keeps_others(w, fuel, pairs, k, v, other);
    place_unmoved(w, after, fuel, after.map(at), other, 0);
    get_is(w, fuel, at, other, span);
    get_is(after, fuel, at, other, span);
}

/// `m.insert(k, v)` keeps the keys of the map and their order, and adds `k` at the
/// end if none of them equals it. Keys that differ still do, where the insertion
/// does not change how they equal each other.
pub proof fn law_insert_keeps_keys(w: World, fuel: nat, at: usize, k: Val, v: Val, span: Span)
    requires
        at < w.maps.len(),
        entry_place(w, fuel, w.map(at), k, 0) is Some,
    ensures
        keys_of(inserted(w, fuel, at, k, v, span).map(at)) == (match entry_place(
            w,
            fuel,
            w.map(at),
            k,
            0,
        ) {
            Some(Some(_)) => keys_of(w.map(at)),
            _ => keys_of(w.map(at)).push(k),
        }),
        keys_differ(w, fuel, w.map(at)) && (forall|j: int|
            0 <= j < inserted(w, fuel, at, k, v, span).map(at).len() ==> unmoved(
                w,
                inserted(w, fuel, at, k, v, span),
                fuel,
                inserted(w, fuel, at, k, v, span).map(at),
                (#[trigger] inserted(w, fuel, at, k, v, span).map(at)[j]).0,
            )) ==> keys_differ(
            inserted(w, fuel, at, k, v, span),
            fuel,
            inserted(w, fuel, at, k, v, span).map(at),
        ),
{
    let pairs = w.map(at);
    insert_is(w, fuel, at, k, v, span);
    entry_place_facts(w, fuel, pairs, k, 0);
    let after = inserted(w, fuel, at, k, v, span);
    let more = after.map(at);
    match entry_place(w, fuel, pairs, k, 0) {
        Some(Some(_)) => {
            assert(keys_of(more) =~= keys_of(pairs));
        },
        _ => {
            assert(keys_of(more) =~= keys_of(pairs).push(k));
        },
    }
    if keys_differ(w, fuel, pairs) {
        law_map_insert(w, fuel, pairs, k, v);
        if forall|j: int|
            0 <= j < more.len() ==> unmoved(w, after, fuel, more, (#[trigger] more[j]).0) {
            assert forall|i: int, j: int| 0 <= i < j < more.len() implies equal(
                after,
                fuel,
                (#[trigger] more[i]).0,
                (#[trigger] more[j]).0,
            ) == Some(false) by {
                assert(unmoved(w, after, fuel, more, more[j].0));
            }
        }
    }
}

// ---------------------------------------------------------------------------
// Keys whose equality stays
// ---------------------------------------------------------------------------

/// A value that holds no other value and equals itself.
pub open spec fn plain_key(k: Val) -> bool {
    match k {
        Val::Int(_) => true,
        Val::Float(x) => !is_nan(x),
        Val::Bool(_) => true,
        Val::Str(_) => true,
        Val::Unit => true,
        Val::Null => true,
        _ => false,
    }
}

/// A key that holds no other value equals itself, and equals the same keys in every
/// world.
pub proof fn law_plain_keys_are_unmoved(
    w: World,
    w2: World,
    fuel: nat,
    pairs: Seq<(Val, Val)>,
    k: Val,
)
    requires
        plain_key(k),
        fuel > 0,
    ensures
        equal(w, fuel, k, k) == Some(true),
        unmoved(w, w2, fuel, pairs, k),
        entry_place(w, fuel, pairs, k, 0) is Some,
{
    plain_place(w, fuel, pairs, k, 0);
}

proof fn plain_place(w: World, fuel: nat, pairs: Seq<(Val, Val)>, k: Val, i: nat)
    requires
        plain_key(k),
        fuel > 0,
    ensures
        entry_place(w, fuel, pairs, k, i) is Some,
    decreases pairs.len() - i,
{
    if i < pairs.len() {
        plain_place(w, fuel, pairs, k, i + 1);
    }
}

/// Whether a value does not reach a map: it is not the map, and nothing that it
/// holds, down to a depth of `fuel`, reaches it.
pub open spec fn apart(w: World, fuel: nat, v: Val, at: usize) -> bool
    decreases fuel, 0nat,
{
    if fuel == 0 {
        true
    } else {
        let f = (fuel - 1) as nat;
        match v {
            Val::List(x) => items_apart(w, f, w.list(x), at),
            Val::Tuple(x) => items_apart(w, f, x, at),
            Val::SetRef(x) => items_apart(w, f, w.set(x), at),
            Val::MapRef(x) => x != at && pairs_apart(w, f, w.map(x), at),
            Val::Struct(x) => fields_apart(w, f, w.instance(x).fields, at),
            Val::Enum(x) => items_apart(w, f, x.payload, at),
            _ => true,
        }
    }
}

pub open spec fn items_apart(w: World, fuel: nat, vs: Seq<Val>, at: usize) -> bool
    decreases fuel, 1nat,
{
    forall|i: int| 0 <= i < vs.len() ==> apart(w, fuel, #[trigger] vs[i], at)
}

pub open spec fn pairs_apart(w: World, fuel: nat, ps: Seq<(Val, Val)>, at: usize) -> bool
    decreases fuel, 1nat,
{
    forall|i: int|
        0 <= i < ps.len() ==> apart(w, fuel, (#[trigger] ps[i]).0, at) && apart(
            w,
            fuel,
            ps[i].1,
            at,
        )
}

pub open spec fn fields_apart(w: World, fuel: nat, fs: Seq<(Seq<char>, Val)>, at: usize) -> bool
    decreases fuel, 1nat,
{
    forall|i: int| 0 <= i < fs.len() ==> apart(w, fuel, (#[trigger] fs[i]).1, at)
}

proof fn items_still_equal(
    w: World,
    at: usize,
    m: Seq<(Val, Val)>,
    fuel: nat,
    xs: Seq<Val>,
    ys: Seq<Val>,
    i: nat,
)
    requires
        items_apart(w, fuel, xs, at),
        items_apart(w, fuel, ys, at),
    ensures
        items_equal(w.with_map(at, m), fuel, xs, ys, i) == items_equal(w, fuel, xs, ys, i),
    decreases fuel, 1nat, xs.len() - i,
{
    if i < xs.len() && i < ys.len() {
        assert(apart(w, fuel, xs[i as int], at) && apart(w, fuel, ys[i as int], at));
        still_equal(w, at, m, fuel, xs[i as int], ys[i as int]);
        items_still_equal(w, at, m, fuel, xs, ys, i + 1);
    }
}

proof fn fields_still_equal(
    w: World,
    at: usize,
    m: Seq<(Val, Val)>,
    fuel: nat,
    xs: Seq<(Seq<char>, Val)>,
    ys: Seq<(Seq<char>, Val)>,
    i: nat,
)
    requires
        fields_apart(w, fuel, xs, at),
        fields_apart(w, fuel, ys, at),
    ensures
        fields_equal(w.with_map(at, m), fuel, xs, ys, i) == fields_equal(w, fuel, xs, ys, i),
    decreases fuel, 1nat, xs.len() - i,
{
    if i < xs.len() {
        assert(apart(w, fuel, xs[i as int].1, at));
        if lookup(ys, xs[i as int].0) is Some {
            let j = lookup_finds(ys, xs[i as int].0, 0);
            assert(apart(w, fuel, ys[j].1, at));
            still_equal(w, at, m, fuel, xs[i as int].1, ys[j].1);
        }
        fields_still_equal(w, at, m, fuel, xs, ys, i + 1);
    }
}

proof fn place_still(
    w: World,
    at: usize,
    m: Seq<(Val, Val)>,
    fuel: nat,
    x: Val,
    ys: Seq<Val>,
    j: nat,
)
    requires
        apart(w, fuel, x, at),
        items_apart(w, fuel, ys, at),
    ensures
        place_of(w.with_map(at, m), fuel, x, ys, j) == place_of(w, fuel, x, ys, j),
    decreases fuel, 1nat, ys.len() - j,
{
    if j < ys.len() {
        assert(apart(w, fuel, ys[j as int], at));
        still_equal(w, at, m, fuel, x, ys[j as int]);
        place_still(w, at, m, fuel, x, ys, j + 1);
    }
}

proof fn items_still_found(
    w: World,
    at: usize,
    m: Seq<(Val, Val)>,
    fuel: nat,
    xs: Seq<Val>,
    ys: Seq<Val>,
    i: nat,
)
    requires
        items_apart(w, fuel, xs, at),
        items_apart(w, fuel, ys, at),
    ensures
        items_found(w.with_map(at, m), fuel, xs, ys, i) == items_found(w, fuel, xs, ys, i),
    decreases fuel, 2nat, xs.len() - i,
{
    if i < xs.len() {
        assert(apart(w, fuel, xs[i as int], at));
        place_still(w, at, m, fuel, xs[i as int], ys, 0);
        items_still_found(w, at, m, fuel, xs, ys, i + 1);
    }
}

proof fn key_still(
    w: World,
    at: usize,
    m: Seq<(Val, Val)>,
    fuel: nat,
    k: Val,
    ys: Seq<(Val, Val)>,
    j: nat,
)
    requires
        apart(w, fuel, k, at),
        pairs_apart(w, fuel, ys, at),
    ensures
        key_place(w.with_map(at, m), fuel, k, ys, j) == key_place(w, fuel, k, ys, j),
        key_place(w, fuel, k, ys, j) matches Some(Some(n)) ==> n < ys.len(),
    decreases fuel, 1nat, ys.len() - j,
{
    if j < ys.len() {
        assert(apart(w, fuel, ys[j as int].0, at));
        still_equal(w, at, m, fuel, k, ys[j as int].0);
        key_still(w, at, m, fuel, k, ys, j + 1);
    }
}

proof fn pairs_still_found(
    w: World,
    at: usize,
    m: Seq<(Val, Val)>,
    fuel: nat,
    xs: Seq<(Val, Val)>,
    ys: Seq<(Val, Val)>,
    i: nat,
)
    requires
        pairs_apart(w, fuel, xs, at),
        pairs_apart(w, fuel, ys, at),
    ensures
        pairs_found(w.with_map(at, m), fuel, xs, ys, i) == pairs_found(w, fuel, xs, ys, i),
    decreases fuel, 2nat, xs.len() - i,
{
    if i < xs.len() {
        assert(apart(w, fuel, xs[i as int].0, at) && apart(w, fuel, xs[i as int].1, at));
        key_still(w, at, m, fuel, xs[i as int].0, ys, 0);
        if let Some(Some(j)) = key_place(w, fuel, xs[i as int].0, ys, 0) {
            assert(apart(w, fuel, ys[j as int].1, at));
            still_equal(w, at, m, fuel, xs[i as int].1, ys[j as int].1);
        }
        pairs_still_found(w, at, m, fuel, xs, ys, i + 1);
    }
}

proof fn still_equal(w: World, at: usize, m: Seq<(Val, Val)>, fuel: nat, a: Val, b: Val)
    requires
        apart(w, fuel, a, at),
        apart(w, fuel, b, at),
    ensures
        equal(w.with_map(at, m), fuel, a, b) == equal(w, fuel, a, b),
    decreases fuel, 0nat, 0nat,
{
    if fuel > 0 {
        let f = (fuel - 1) as nat;
        let w2 = w.with_map(at, m);
        match (a, b) {
            (Val::List(x), Val::List(y)) => {
                items_still_equal(w, at, m, f, w.list(x), w.list(y), 0);
                assert(same_items(w2, f, w.list(x), w.list(y)) == same_items(
                    w,
                    f,
                    w.list(x),
                    w.list(y),
                ));
            },
            (Val::Tuple(x), Val::Tuple(y)) => {
                items_still_equal(w, at, m, f, x, y, 0);
                assert(same_items(w2, f, x, y) == same_items(w, f, x, y));
            },
            (Val::Enum(x), Val::Enum(y)) => {
                items_still_equal(w, at, m, f, x.payload, y.payload, 0);
                assert(same_items(w2, f, x.payload, y.payload) == same_items(
                    w,
                    f,
                    x.payload,
                    y.payload,
                ));
            },
            (Val::SetRef(x), Val::SetRef(y)) => {
                items_still_found(w, at, m, f, w.set(x), w.set(y), 0);
            },
            (Val::MapRef(x), Val::MapRef(y)) => {
                assert(w2.map(x) == w.map(x) && w2.map(y) == w.map(y));
                pairs_still_found(w, at, m, f, w.map(x), w.map(y), 0);
            },
            (Val::Struct(x), Val::Struct(y)) => {
                let (xs, ys) = (w.instance(x).fields, w.instance(y).fields);
                fields_still_equal(w, at, m, f, xs, ys, 0);
            },
            _ => {},
        }
    }
}

/// Whether all keys of a map, and one more, do not reach the map.
pub open spec fn keys_apart(w: World, fuel: nat, at: usize, k: Val) -> bool {
    apart(w, fuel, k, at) && forall|j: int|
        0 <= j < w.map(at).len() ==> apart(w, fuel, (#[trigger] w.map(at)[j]).0, at)
}

/// An insertion does not change how keys equal each other that do not reach the
/// map: tuples, lists, enums, structs and other maps among them.
pub proof fn law_keys_apart_are_unmoved(
    w: World,
    fuel: nat,
    at: usize,
    k: Val,
    v: Val,
    other: Val,
    span: Span,
)
    requires
        at < w.maps.len(),
        keys_apart(w, fuel, at, k),
        apart(w, fuel, other, at),
    ensures
        unmoved(
            w,
            inserted(w, fuel, at, k, v, span),
            fuel,
            inserted(w, fuel, at, k, v, span).map(at),
            other,
        ),
{
    let pairs = w.map(at);
    if entry_place(w, fuel, pairs, k, 0) is Some {
        insert_is(w, fuel, at, k, v, span);
        entry_place_facts(w, fuel, pairs, k, 0);
        let more = inserted(w, fuel, at, k, v, span).map(at);
        assert forall|j: int| 0 <= j < more.len() implies equal(
            w.with_map(at, more),
            fuel,
            (#[trigger] more[j]).0,
            other,
        ) == equal(w, fuel, more[j].0, other) by {
            if j < pairs.len() {
                assert(more[j].0 == pairs[j].0);
                assert(apart(w, fuel, w.map(at)[j].0, at));
            }
            still_equal(w, at, more, fuel, more[j].0, other);
        }
    } else {
        reveal_strlit("insert");
    }
}

/// Whether all keys of a map, and one more, are tidy.
pub open spec fn keys_tidy(w: World, fuel: nat, at: usize, k: Val) -> bool {
    tidy(w, fuel, k) && forall|j: int|
        0 <= j < w.map(at).len() ==> tidy(w, fuel, (#[trigger] w.map(at)[j]).0)
}

proof fn tidy_place(w: World, fuel: nat, pairs: Seq<(Val, Val)>, k: Val, i: nat)
    requires
        forall|j: int| 0 <= j < pairs.len() ==> tidy(w, fuel, (#[trigger] pairs[j]).0),
    ensures
        entry_place(w, fuel, pairs, k, i) is Some,
    decreases pairs.len() - i,
{
    if i < pairs.len() {
        law_equality_is_decided(w, fuel, pairs[i as int].0, k);
        tidy_place(w, fuel, pairs, k, i + 1);
    }
}

/// Among tidy keys none equals two that are not equal.
pub proof fn law_tidy_keys_are_told_apart(
    w: World,
    fuel: nat,
    at: usize,
    k: Val,
    other: Val,
)
    requires
        keys_tidy(w, fuel, at, k),
        tidy(w, fuel, other),
        equal(w, fuel, k, other) == Some(false),
    ensures
        none_equals_both(w, fuel, w.map(at), k, other),
{
    let pairs = w.map(at);
    assert forall|j: int| 0 <= j < pairs.len() implies !(equal(w, fuel, (#[trigger] pairs[j]).0, k)
        == Some(true) && equal(w, fuel, pairs[j].0, other) == Some(true)) by {
        let key = pairs[j].0;
        assert(tidy(w, fuel, w.map(at)[j].0));
        if equal(w, fuel, key, k) == Some(true) && equal(w, fuel, key, other) == Some(true) {
            law_equality_is_symmetric(w, fuel, key, k);
            law_equality_is_transitive(w, fuel, k, key, other);
        }
    }
}

/// What a map gives back of a write. Its keys, the new one and any other are tidy
/// and do not reach the map; no two keys are equal. Then `m.insert(k, v)` succeeds;
/// `m.get(k)` gives `v` if `k` equals itself; `m.get(other)` gives what it gave
/// before if `other` does not equal `k`; still no two keys are equal; and the keys
/// are the old ones in their order, with `k` behind them if it was not among them.
pub proof fn law_map_gives_back(
    w: World,
    fuel: nat,
    at: usize,
    k: Val,
    v: Val,
    other: Val,
    span: Span,
)
    requires
        at < w.maps.len(),
        keys_differ(w, fuel, w.map(at)),
        keys_tidy(w, fuel, at, k),
        keys_apart(w, fuel, at, k),
        tidy(w, fuel, other),
        apart(w, fuel, other, at),
    ensures
        map_called(fuel, at, "insert"@, seq![k, v], span, w).0 == Ok::<Val, Halt>(Val::Unit),
        equal(w, fuel, k, k) == Some(true) ==> got(
            inserted(w, fuel, at, k, v, span),
            fuel,
            at,
            k,
            span,
        ) == Ok::<Val, Halt>(v),
        equal(w, fuel, k, other) == Some(false) ==> got(
            inserted(w, fuel, at, k, v, span),
            fuel,
            at,
            other,
            span,
        ) == got(w, fuel, at, other, span),
        keys_differ(
            inserted(w, fuel, at, k, v, span),
            fuel,
            inserted(w, fuel, at, k, v, span).map(at),
        ),
        keys_of(inserted(w, fuel, at, k, v, span).map(at)) == (match entry_place(
            w,
            fuel,
            w.map(at),
            k,
            0,
        ) {
            Some(Some(_)) => keys_of(w.map(at)),
            _ => keys_of(w.map(at)).push(k),
        }),
{
    let pairs = w.map(at);
    tidy_place(w, fuel, pairs, k, 0);
    tidy_place(w, fuel, pairs, other, 0);
    insert_is(w, fuel, at, k, v, span);
    entry_place_facts(w, fuel, pairs, k, 0);
    let after = inserted(w, fuel, at, k, v, span);
    let more = after.map(at);
    law_keys_apart_are_unmoved(w, fuel, at, k, v, k, span);
    law_keys_apart_are_unmoved(w, fuel, at, k, v, other, span);
    if equal(w, fuel, k, k) == Some(true) {
        law_insert_then_get(w, fuel, at, k, v, span);
    }
    if equal(w, fuel, k, other) == Some(false) {
        law_tidy_keys_are_told_apart(w, fuel, at, k, other);
        law_insert_then_get_other(w, fuel, at, k, v, other, span);
    }
    assert forall|j: int| 0 <= j < more.len() implies unmoved(
        w,
        after,
        fuel,
        more,
        (#[trigger] more[j]).0,
    ) by {
        if j < pairs.len() {
            assert(more[j].0 == pairs[j].0);
            assert(apart(w, fuel, w.map(at)[j].0, at));
        }
        law_keys_apart_are_unmoved(w, fuel, at, k, v, more[j].0, span);
    }
    law_insert_keeps_keys(w, fuel, at, k, v, span);
}

} // verus!
