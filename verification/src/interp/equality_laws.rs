//! Laws of equality.

use super::collection_laws::{items_differ, keys_differ};
use super::float::{float_rank, is_nan};
use super::show::{
    equal, fields_equal, items_equal, items_found, key_place, pairs_found, place_of, same_items,
};
use super::value::{Val, World};
use crate::name_map::{distinct, lookup, lookup_from};
use vstd::prelude::*;
use vstd::set_lib::*;

verus! {

/// Whether a value nests no deeper than `fuel`, and every set and map in it has
/// items and keys that differ. Contents that change after they were put into a set
/// can become equal to others in it, and a list can be put into itself.
pub open spec fn tidy(w: World, fuel: nat, v: Val) -> bool
    decreases fuel, 0nat,
{
    if fuel == 0 {
        false
    } else {
        let f = (fuel - 1) as nat;
        match v {
            Val::List(x) => tidy_items(w, f, w.list(x)),
            Val::Tuple(x) => tidy_items(w, f, x),
            Val::SetRef(x) => tidy_items(w, f, w.set(x)) && items_differ(w, f, w.set(x)),
            Val::MapRef(x) => tidy_pairs(w, f, w.map(x)) && keys_differ(w, f, w.map(x)),
            Val::Struct(x) => tidy_fields(w, f, w.instance(x).fields) && distinct(
                w.instance(x).fields,
            ),
            Val::Enum(x) => tidy_items(w, f, x.payload),
            _ => true,
        }
    }
}

pub open spec fn tidy_items(w: World, fuel: nat, vs: Seq<Val>) -> bool
    decreases fuel, 1nat,
{
    forall|i: int| 0 <= i < vs.len() ==> tidy(w, fuel, #[trigger] vs[i])
}

pub open spec fn tidy_pairs(w: World, fuel: nat, ps: Seq<(Val, Val)>) -> bool
    decreases fuel, 1nat,
{
    forall|i: int|
        0 <= i < ps.len() ==> tidy(w, fuel, (#[trigger] ps[i]).0) && tidy(w, fuel, ps[i].1)
}

pub open spec fn tidy_fields(w: World, fuel: nat, fs: Seq<(Seq<char>, Val)>) -> bool
    decreases fuel, 1nat,
{
    forall|i: int| 0 <= i < fs.len() ==> tidy(w, fuel, (#[trigger] fs[i]).1)
}

// ---------------------------------------------------------------------------
// Whether values are equal is decided
// ---------------------------------------------------------------------------

proof fn place_decided(w: World, fuel: nat, x: Val, ys: Seq<Val>, j: nat)
    requires
        tidy(w, fuel, x),
    ensures
        match place_of(w, fuel, x, ys, j) {
            None => false,
            Some(None) => forall|i: int|
                j <= i < ys.len() ==> equal(w, fuel, x, #[trigger] ys[i]) == Some(false),
            Some(Some(at)) => j <= at < ys.len() && equal(w, fuel, x, ys[at as int]) == Some(true),
        },
    decreases fuel, 1nat, ys.len() - j,
{
    if j < ys.len() {
        law_equality_is_decided(w, fuel, x, ys[j as int]);
        place_decided(w, fuel, x, ys, j + 1);
    }
}

proof fn key_decided(w: World, fuel: nat, k: Val, ys: Seq<(Val, Val)>, j: nat)
    requires
        tidy(w, fuel, k),
    ensures
        match key_place(w, fuel, k, ys, j) {
            None => false,
            Some(None) => forall|i: int|
                j <= i < ys.len() ==> equal(w, fuel, k, (#[trigger] ys[i]).0) == Some(false),
            Some(Some(at)) => j <= at < ys.len() && equal(w, fuel, k, ys[at as int].0) == Some(
                true,
            ),
        },
    decreases fuel, 1nat, ys.len() - j,
{
    if j < ys.len() {
        law_equality_is_decided(w, fuel, k, ys[j as int].0);
        key_decided(w, fuel, k, ys, j + 1);
    }
}

proof fn items_decided(w: World, fuel: nat, xs: Seq<Val>, ys: Seq<Val>, i: nat)
    requires
        tidy_items(w, fuel, xs),
        xs.len() == ys.len(),
    ensures
        items_equal(w, fuel, xs, ys, i) matches Some(b) && (b <==> forall|k: int|
            i <= k < xs.len() ==> equal(w, fuel, #[trigger] xs[k], ys[k]) == Some(true)),
    decreases fuel, 1nat, xs.len() - i,
{
    if i < xs.len() {
        assert(tidy(w, fuel, xs[i as int]));
        law_equality_is_decided(w, fuel, xs[i as int], ys[i as int]);
        items_decided(w, fuel, xs, ys, i + 1);
    }
}

/// Whether a field of `ys` has the name and an equal value.
spec fn field_matches(w: World, fuel: nat, x: (Seq<char>, Val), ys: Seq<(Seq<char>, Val)>) -> bool {
    lookup(ys, x.0) matches Some(v) && equal(w, fuel, x.1, v) == Some(true)
}

proof fn fields_decided(
    w: World,
    fuel: nat,
    xs: Seq<(Seq<char>, Val)>,
    ys: Seq<(Seq<char>, Val)>,
    i: nat,
)
    requires
        tidy_fields(w, fuel, xs),
    ensures
        fields_equal(w, fuel, xs, ys, i) matches Some(b) && (b <==> forall|k: int|
            i <= k < xs.len() ==> field_matches(w, fuel, #[trigger] xs[k], ys)),
    decreases fuel, 1nat, xs.len() - i,
{
    if i < xs.len() {
        assert(tidy(w, fuel, xs[i as int].1));
        if let Some(v) = lookup(ys, xs[i as int].0) {
            law_equality_is_decided(w, fuel, xs[i as int].1, v);
        }
        fields_decided(w, fuel, xs, ys, i + 1);
        assert(!field_matches(w, fuel, xs[i as int], ys) || field_matches(
            w,
            fuel,
            xs[i as int],
            ys,
        ));
    }
}

/// Whether `x` equals one of `ys`.
spec fn item_matches(w: World, fuel: nat, x: Val, ys: Seq<Val>) -> bool {
    exists|j: int| 0 <= j < ys.len() && equal(w, fuel, x, #[trigger] ys[j]) == Some(true)
}

proof fn found_decided(w: World, fuel: nat, xs: Seq<Val>, ys: Seq<Val>, i: nat)
    requires
        tidy_items(w, fuel, xs),
    ensures
        items_found(w, fuel, xs, ys, i) matches Some(b) && (b <==> forall|k: int|
            i <= k < xs.len() ==> item_matches(w, fuel, #[trigger] xs[k], ys)),
    decreases fuel, 2nat, xs.len() - i,
{
    if i < xs.len() {
        let x = xs[i as int];
        assert(tidy(w, fuel, x));
        place_decided(w, fuel, x, ys, 0);
        found_decided(w, fuel, xs, ys, i + 1);
        match place_of(w, fuel, x, ys, 0) {
            Some(Some(at)) => {
                assert(equal(w, fuel, x, ys[at as int]) == Some(true));
                assert(item_matches(w, fuel, xs[i as int], ys));
            },
            _ => {
                assert(!item_matches(w, fuel, xs[i as int], ys));
            },
        }
    }
}

/// Whether the first pair of `ys` whose key equals that of `x` has an equal value.
spec fn pair_matches(w: World, fuel: nat, x: (Val, Val), ys: Seq<(Val, Val)>) -> bool {
    key_place(w, fuel, x.0, ys, 0) matches Some(Some(j)) && equal(w, fuel, x.1, ys[j as int].1)
        == Some(true)
}

proof fn pairs_decided(w: World, fuel: nat, xs: Seq<(Val, Val)>, ys: Seq<(Val, Val)>, i: nat)
    requires
        tidy_pairs(w, fuel, xs),
    ensures
        pairs_found(w, fuel, xs, ys, i) matches Some(b) && (b <==> forall|k: int|
            i <= k < xs.len() ==> pair_matches(w, fuel, #[trigger] xs[k], ys)),
    decreases fuel, 2nat, xs.len() - i,
{
    if i < xs.len() {
        let x = xs[i as int];
        assert(tidy(w, fuel, xs[i as int].0) && tidy(w, fuel, xs[i as int].1));
        key_decided(w, fuel, x.0, ys, 0);
        if let Some(Some(j)) = key_place(w, fuel, x.0, ys, 0) {
            law_equality_is_decided(w, fuel, x.1, ys[j as int].1);
        }
        pairs_decided(w, fuel, xs, ys, i + 1);
        assert(pair_matches(w, fuel, xs[i as int], ys) || !pair_matches(
            w,
            fuel,
            xs[i as int],
            ys,
        ));
    }
}

/// Whether a tidy value equals another is decided within the same depth.
pub proof fn law_equality_is_decided(w: World, fuel: nat, a: Val, b: Val)
    requires
        tidy(w, fuel, a),
    ensures
        equal(w, fuel, a, b) is Some,
    decreases fuel, 0nat, 0nat,
{
    let f = (fuel - 1) as nat;
    match (a, b) {
        (Val::List(x), Val::List(y)) => {
            if w.list(x).len() == w.list(y).len() {
                items_decided(w, f, w.list(x), w.list(y), 0);
            }
        },
        (Val::Tuple(x), Val::Tuple(y)) => {
            if x.len() == y.len() {
                items_decided(w, f, x, y, 0);
            }
        },
        (Val::Enum(x), Val::Enum(y)) => {
            if x.payload.len() == y.payload.len() {
                items_decided(w, f, x.payload, y.payload, 0);
            }
        },
        (Val::SetRef(x), Val::SetRef(y)) => {
            found_decided(w, f, w.set(x), w.set(y), 0);
        },
        (Val::MapRef(x), Val::MapRef(y)) => {
            pairs_decided(w, f, w.map(x), w.map(y), 0);
        },
        (Val::Struct(x), Val::Struct(y)) => {
            fields_decided(w, f, w.instance(x).fields, w.instance(y).fields, 0);
        },
        _ => {},
    }
}

// ---------------------------------------------------------------------------
// Both ways round, and through a third
// ---------------------------------------------------------------------------

/// `n` places that differ and lie below `n` are all of them.
proof fn places_are_all(places: Seq<int>, n: nat, j: int)
    requires
        places.len() == n,
        places.no_duplicates(),
        forall|i: int| 0 <= i < n ==> 0 <= #[trigger] places[i] < n,
        0 <= j < n,
    ensures
        places.contains(j),
{
    places.unique_seq_to_set();
    lemma_int_range(0, n as int);
    let all = set_int_range(0, n as int);
    assert(places.to_set().subset_of(all));
    lemma_subset_equality(places.to_set(), all);
    assert(all.contains(j));
    assert(places.to_set().contains(j));
}

pub(crate) proof fn lookup_finds<T>(fs: Seq<(Seq<char>, T)>, name: Seq<char>, i: nat) -> (at: int)
    requires
        lookup_from(fs, name, i) is Some,
    ensures
        i <= at < fs.len(),
        fs[at].0 == name,
        lookup_from(fs, name, i) == Some(fs[at].1),
    decreases fs.len() - i,
{
    if fs[i as int].0 == name {
        i as int
    } else {
        lookup_finds(fs, name, i + 1)
    }
}

pub(crate) proof fn lookup_of_place<T>(fs: Seq<(Seq<char>, T)>, at: int, i: nat)
    requires
        distinct(fs),
        i <= at < fs.len(),
    ensures
        lookup_from(fs, fs[at].0, i) == Some(fs[at].1),
    decreases at - i,
{
    if i < at {
        assert(fs[i as int].0 != fs[at].0);
        lookup_of_place(fs, at, i + 1);
    }
}

proof fn items_turn(w: World, fuel: nat, xs: Seq<Val>, ys: Seq<Val>)
    requires
        tidy_items(w, fuel, xs),
        tidy_items(w, fuel, ys),
        same_items(w, fuel, xs, ys) == Some(true),
    ensures
        same_items(w, fuel, ys, xs) == Some(true),
    decreases fuel, 1nat,
{
    items_decided(w, fuel, xs, ys, 0);
    items_decided(w, fuel, ys, xs, 0);
    assert forall|k: int| 0 <= k < ys.len() implies equal(w, fuel, #[trigger] ys[k], xs[k])
        == Some(true) by {
        assert(equal(w, fuel, xs[k], ys[k]) == Some(true));
        turns(w, fuel, xs[k], ys[k]);
    }
}

proof fn items_chain(w: World, fuel: nat, xs: Seq<Val>, ys: Seq<Val>, zs: Seq<Val>)
    requires
        tidy_items(w, fuel, xs),
        tidy_items(w, fuel, ys),
        tidy_items(w, fuel, zs),
        same_items(w, fuel, xs, ys) == Some(true),
        same_items(w, fuel, ys, zs) == Some(true),
    ensures
        same_items(w, fuel, xs, zs) == Some(true),
    decreases fuel, 1nat,
{
    items_decided(w, fuel, xs, ys, 0);
    items_decided(w, fuel, ys, zs, 0);
    items_decided(w, fuel, xs, zs, 0);
    assert forall|k: int| 0 <= k < xs.len() implies equal(w, fuel, #[trigger] xs[k], zs[k])
        == Some(true) by {
        assert(equal(w, fuel, xs[k], ys[k]) == Some(true));
        assert(equal(w, fuel, ys[k], zs[k]) == Some(true));
        chains(w, fuel, xs[k], ys[k], zs[k]);
    }
}

proof fn fields_turn(w: World, fuel: nat, xs: Seq<(Seq<char>, Val)>, ys: Seq<(Seq<char>, Val)>)
    requires
        tidy_fields(w, fuel, xs),
        tidy_fields(w, fuel, ys),
        distinct(xs),
        distinct(ys),
        xs.len() == ys.len(),
        fields_equal(w, fuel, xs, ys, 0) == Some(true),
    ensures
        fields_equal(w, fuel, ys, xs, 0) == Some(true),
    decreases fuel, 1nat,
{
    fields_decided(w, fuel, xs, ys, 0);
    fields_decided(w, fuel, ys, xs, 0);
    let n = xs.len();
    let places = Seq::new(n, |k: int| choose|j: int| 0 <= j < n && (#[trigger] ys[j]).0 == xs[k].0);
    assert forall|k: int| 0 <= k < n implies 0 <= #[trigger] places[k] < n && ys[places[k]].0
        == xs[k].0 by {
        assert(field_matches(w, fuel, xs[k], ys));
        let at = lookup_finds(ys, xs[k].0, 0);
        assert(ys[at].0 == xs[k].0);
    }
    assert forall|i: int, j: int| 0 <= i < n && 0 <= j < n && i != j implies places[i]
        != places[j] by {
        assert(ys[places[i]].0 == xs[i].0 && ys[places[j]].0 == xs[j].0);
        if i < j {
            assert(xs[i].0 != xs[j].0);
        } else {
            assert(xs[j].0 != xs[i].0);
        }
    }
    assert forall|j: int| 0 <= j < n implies field_matches(w, fuel, #[trigger] ys[j], xs) by {
        places_are_all(places, n, j);
        let k = choose|k: int| 0 <= k < n && places[k] == j;
        assert(ys[places[k]].0 == xs[k].0);
        assert(field_matches(w, fuel, xs[k], ys));
        lookup_of_place(xs, k, 0);
        lookup_of_place(ys, j, 0);
        assert(tidy(w, fuel, xs[k].1) && tidy(w, fuel, ys[j].1));
        turns(w, fuel, xs[k].1, ys[j].1);
    }
}

proof fn fields_chain(
    w: World,
    fuel: nat,
    xs: Seq<(Seq<char>, Val)>,
    ys: Seq<(Seq<char>, Val)>,
    zs: Seq<(Seq<char>, Val)>,
)
    requires
        tidy_fields(w, fuel, xs),
        tidy_fields(w, fuel, ys),
        tidy_fields(w, fuel, zs),
        fields_equal(w, fuel, xs, ys, 0) == Some(true),
        fields_equal(w, fuel, ys, zs, 0) == Some(true),
    ensures
        fields_equal(w, fuel, xs, zs, 0) == Some(true),
    decreases fuel, 1nat,
{
    fields_decided(w, fuel, xs, ys, 0);
    fields_decided(w, fuel, ys, zs, 0);
    fields_decided(w, fuel, xs, zs, 0);
    assert forall|k: int| 0 <= k < xs.len() implies field_matches(
        w,
        fuel,
        #[trigger] xs[k],
        zs,
    ) by {
        assert(field_matches(w, fuel, xs[k], ys));
        let j = lookup_finds(ys, xs[k].0, 0);
        assert(field_matches(w, fuel, ys[j], zs));
        let m = lookup_finds(zs, ys[j].0, 0);
        assert(tidy(w, fuel, xs[k].1) && tidy(w, fuel, ys[j].1) && tidy(w, fuel, zs[m].1));
        chains(w, fuel, xs[k].1, ys[j].1, zs[m].1);
    }
}

/// The places in `ys` of what the items of `xs` equal: none twice.
proof fn matched(w: World, fuel: nat, xs: Seq<Val>, ys: Seq<Val>) -> (places: Seq<int>)
    requires
        tidy_items(w, fuel, xs),
        tidy_items(w, fuel, ys),
        items_differ(w, fuel, xs),
        forall|k: int| 0 <= k < xs.len() ==> item_matches(w, fuel, #[trigger] xs[k], ys),
    ensures
        places.len() == xs.len(),
        places.no_duplicates(),
        forall|k: int|
            0 <= k < xs.len() ==> 0 <= #[trigger] places[k] < ys.len() && equal(
                w,
                fuel,
                xs[k],
                ys[places[k]],
            ) == Some(true),
    decreases fuel, 1nat,
{
    let n = xs.len();
    let places = Seq::new(
        n,
        |k: int|
            choose|j: int| 0 <= j < ys.len() && equal(w, fuel, xs[k], #[trigger] ys[j]) == Some(
                true,
            ),
    );
    assert forall|k: int| 0 <= k < n implies 0 <= #[trigger] places[k] < ys.len() && equal(
        w,
        fuel,
        xs[k],
        ys[places[k]],
    ) == Some(true) by {
        assert(item_matches(w, fuel, xs[k], ys));
    }
    assert forall|i: int, j: int| 0 <= i < j < n implies places[i] != places[j] by {
        if places[i] == places[j] {
            let y = ys[places[i]];
            assert(tidy(w, fuel, xs[i]) && tidy(w, fuel, xs[j]) && tidy(w, fuel, y));
            turns(w, fuel, xs[j], y);
            chains(w, fuel, xs[i], y, xs[j]);
            assert(equal(w, fuel, xs[i], xs[j]) == Some(false));
        }
    }
    assert(places.no_duplicates()) by {
        assert forall|i: int, j: int|
            0 <= i < places.len() && 0 <= j < places.len() && i != j implies places[i]
            != places[j] by {
            if j < i {
                assert(places[j] != places[i]);
            }
        }
    }
    places
}

proof fn found_turn(w: World, fuel: nat, xs: Seq<Val>, ys: Seq<Val>)
    requires
        tidy_items(w, fuel, xs),
        tidy_items(w, fuel, ys),
        items_differ(w, fuel, xs),
        xs.len() == ys.len(),
        items_found(w, fuel, xs, ys, 0) == Some(true),
    ensures
        items_found(w, fuel, ys, xs, 0) == Some(true),
    decreases fuel, 2nat,
{
    found_decided(w, fuel, xs, ys, 0);
    found_decided(w, fuel, ys, xs, 0);
    let places = matched(w, fuel, xs, ys);
    assert forall|j: int| 0 <= j < ys.len() implies item_matches(w, fuel, #[trigger] ys[j], xs) by {
        places_are_all(places, xs.len(), j);
        let k = choose|k: int| 0 <= k < places.len() && places[k] == j;
        assert(equal(w, fuel, xs[k], ys[places[k]]) == Some(true));
        turns(w, fuel, xs[k], ys[j]);
        assert(equal(w, fuel, ys[j], xs[k]) == Some(true));
    }
}

proof fn found_chain(w: World, fuel: nat, xs: Seq<Val>, ys: Seq<Val>, zs: Seq<Val>)
    requires
        tidy_items(w, fuel, xs),
        tidy_items(w, fuel, ys),
        tidy_items(w, fuel, zs),
        items_found(w, fuel, xs, ys, 0) == Some(true),
        items_found(w, fuel, ys, zs, 0) == Some(true),
    ensures
        items_found(w, fuel, xs, zs, 0) == Some(true),
    decreases fuel, 1nat,
{
    found_decided(w, fuel, xs, ys, 0);
    found_decided(w, fuel, ys, zs, 0);
    found_decided(w, fuel, xs, zs, 0);
    assert forall|k: int| 0 <= k < xs.len() implies item_matches(w, fuel, #[trigger] xs[k], zs) by {
        assert(item_matches(w, fuel, xs[k], ys));
        let j = choose|j: int|
            0 <= j < ys.len() && equal(w, fuel, xs[k], #[trigger] ys[j]) == Some(true);
        assert(item_matches(w, fuel, ys[j], zs));
        let m = choose|m: int|
            0 <= m < zs.len() && equal(w, fuel, ys[j], #[trigger] zs[m]) == Some(true);
        chains(w, fuel, xs[k], ys[j], zs[m]);
        assert(equal(w, fuel, xs[k], zs[m]) == Some(true));
    }
}

/// Two keys of one map that equal one value are one key.
proof fn one_key(w: World, fuel: nat, ps: Seq<(Val, Val)>, i: int, j: int, y: Val)
    requires
        tidy_pairs(w, fuel, ps),
        keys_differ(w, fuel, ps),
        tidy(w, fuel, y),
        0 <= i < ps.len(),
        0 <= j < ps.len(),
        equal(w, fuel, ps[i].0, y) == Some(true),
        equal(w, fuel, ps[j].0, y) == Some(true),
    ensures
        i == j,
    decreases fuel, 1nat,
{
    if i != j {
        assert(tidy(w, fuel, ps[i].0) && tidy(w, fuel, ps[j].0));
        turns(w, fuel, ps[i].0, y);
        turns(w, fuel, ps[j].0, y);
        chains(w, fuel, ps[i].0, y, ps[j].0);
        chains(w, fuel, ps[j].0, y, ps[i].0);
        if i < j {
            assert(equal(w, fuel, ps[i].0, ps[j].0) == Some(false));
        } else {
            assert(equal(w, fuel, ps[j].0, ps[i].0) == Some(false));
        }
    }
}

proof fn pairs_turn(w: World, fuel: nat, xs: Seq<(Val, Val)>, ys: Seq<(Val, Val)>)
    requires
        tidy_pairs(w, fuel, xs),
        tidy_pairs(w, fuel, ys),
        keys_differ(w, fuel, xs),
        xs.len() == ys.len(),
        pairs_found(w, fuel, xs, ys, 0) == Some(true),
    ensures
        pairs_found(w, fuel, ys, xs, 0) == Some(true),
    decreases fuel, 2nat,
{
    pairs_decided(w, fuel, xs, ys, 0);
    pairs_decided(w, fuel, ys, xs, 0);
    let n = xs.len();
    let places = Seq::new(n, |k: int| key_place(w, fuel, xs[k].0, ys, 0)->0->0 as int);
    assert forall|k: int| 0 <= k < n implies 0 <= #[trigger] places[k] < n && equal(
        w,
        fuel,
        xs[k].0,
        ys[places[k]].0,
    ) == Some(true) && equal(w, fuel, xs[k].1, ys[places[k]].1) == Some(true) by {
        assert(pair_matches(w, fuel, xs[k], ys));
        assert(tidy(w, fuel, xs[k].0));
        key_decided(w, fuel, xs[k].0, ys, 0);
    }
    assert forall|i: int, j: int| 0 <= i < n && 0 <= j < n && i != j implies places[i]
        != places[j] by {
        assert(equal(w, fuel, xs[i].0, ys[places[i]].0) == Some(true));
        assert(equal(w, fuel, xs[j].0, ys[places[j]].0) == Some(true));
        if places[i] == places[j] {
            assert(tidy(w, fuel, ys[places[i]].0));
            one_key(w, fuel, xs, i, j, ys[places[i]].0);
        }
    }
    assert forall|j: int| 0 <= j < n implies pair_matches(w, fuel, #[trigger] ys[j], xs) by {
        places_are_all(places, n, j);
        let k = choose|k: int| 0 <= k < n && places[k] == j;
        assert(equal(w, fuel, xs[k].0, ys[places[k]].0) == Some(true));
        assert(tidy(w, fuel, xs[k].0) && tidy(w, fuel, xs[k].1));
        assert(tidy(w, fuel, ys[j].0) && tidy(w, fuel, ys[j].1));
        turns(w, fuel, xs[k].0, ys[j].0);
        turns(w, fuel, xs[k].1, ys[j].1);
        key_decided(w, fuel, ys[j].0, xs, 0);
        let at = key_place(w, fuel, ys[j].0, xs, 0)->0->0 as int;
        assert(equal(w, fuel, ys[j].0, xs[k].0) == Some(true));
        assert(tidy(w, fuel, xs[at].0));
        turns(w, fuel, ys[j].0, xs[at].0);
        one_key(w, fuel, xs, at, k, ys[j].0);
    }
}

proof fn pairs_chain(
    w: World,
    fuel: nat,
    xs: Seq<(Val, Val)>,
    ys: Seq<(Val, Val)>,
    zs: Seq<(Val, Val)>,
)
    requires
        tidy_pairs(w, fuel, xs),
        tidy_pairs(w, fuel, ys),
        tidy_pairs(w, fuel, zs),
        keys_differ(w, fuel, zs),
        pairs_found(w, fuel, xs, ys, 0) == Some(true),
        pairs_found(w, fuel, ys, zs, 0) == Some(true),
    ensures
        pairs_found(w, fuel, xs, zs, 0) == Some(true),
    decreases fuel, 2nat,
{
    pairs_decided(w, fuel, xs, ys, 0);
    pairs_decided(w, fuel, ys, zs, 0);
    pairs_decided(w, fuel, xs, zs, 0);
    assert forall|k: int| 0 <= k < xs.len() implies pair_matches(w, fuel, #[trigger] xs[k], zs) by {
        let x = xs[k];
        assert(pair_matches(w, fuel, xs[k], ys));
        assert(tidy(w, fuel, xs[k].0) && tidy(w, fuel, xs[k].1));
        key_decided(w, fuel, x.0, ys, 0);
        let j = key_place(w, fuel, x.0, ys, 0)->0->0 as int;
        assert(pair_matches(w, fuel, ys[j], zs));
        assert(tidy(w, fuel, ys[j].0) && tidy(w, fuel, ys[j].1));
        key_decided(w, fuel, ys[j].0, zs, 0);
        let m = key_place(w, fuel, ys[j].0, zs, 0)->0->0 as int;
        assert(tidy(w, fuel, zs[m].0) && tidy(w, fuel, zs[m].1));
        chains(w, fuel, x.0, ys[j].0, zs[m].0);
        chains(w, fuel, x.1, ys[j].1, zs[m].1);
        key_decided(w, fuel, x.0, zs, 0);
        assert(equal(w, fuel, x.0, zs[m].0) == Some(true));
        let at = key_place(w, fuel, x.0, zs, 0)->0->0 as int;
        assert(tidy(w, fuel, zs[at].0));
        turns(w, fuel, x.0, zs[m].0);
        turns(w, fuel, x.0, zs[at].0);
        one_key(w, fuel, zs, at, m, x.0);
    }
}

proof fn turns(w: World, fuel: nat, a: Val, b: Val)
    requires
        tidy(w, fuel, a),
        tidy(w, fuel, b),
        equal(w, fuel, a, b) == Some(true),
    ensures
        equal(w, fuel, b, a) == Some(true),
    decreases fuel, 0nat,
{
    let f = (fuel - 1) as nat;
    match (a, b) {
        (Val::List(x), Val::List(y)) => {
            items_turn(w, f, w.list(x), w.list(y));
        },
        (Val::Tuple(x), Val::Tuple(y)) => {
            items_turn(w, f, x, y);
        },
        (Val::Enum(x), Val::Enum(y)) => {
            items_turn(w, f, x.payload, y.payload);
        },
        (Val::SetRef(x), Val::SetRef(y)) => {
            found_turn(w, f, w.set(x), w.set(y));
        },
        (Val::MapRef(x), Val::MapRef(y)) => {
            pairs_turn(w, f, w.map(x), w.map(y));
        },
        (Val::Struct(x), Val::Struct(y)) => {
            fields_turn(w, f, w.instance(x).fields, w.instance(y).fields);
        },
        _ => {},
    }
}

proof fn chains(w: World, fuel: nat, a: Val, b: Val, c: Val)
    requires
        tidy(w, fuel, a),
        tidy(w, fuel, b),
        tidy(w, fuel, c),
        equal(w, fuel, a, b) == Some(true),
        equal(w, fuel, b, c) == Some(true),
    ensures
        equal(w, fuel, a, c) == Some(true),
    decreases fuel, 0nat,
{
    let f = (fuel - 1) as nat;
    match (a, b, c) {
        (Val::List(x), Val::List(y), Val::List(z)) => {
            items_chain(w, f, w.list(x), w.list(y), w.list(z));
        },
        (Val::Tuple(x), Val::Tuple(y), Val::Tuple(z)) => {
            items_chain(w, f, x, y, z);
        },
        (Val::Enum(x), Val::Enum(y), Val::Enum(z)) => {
            items_chain(w, f, x.payload, y.payload, z.payload);
        },
        (Val::SetRef(x), Val::SetRef(y), Val::SetRef(z)) => {
            found_chain(w, f, w.set(x), w.set(y), w.set(z));
        },
        (Val::MapRef(x), Val::MapRef(y), Val::MapRef(z)) => {
            pairs_chain(w, f, w.map(x), w.map(y), w.map(z));
        },
        (Val::Struct(x), Val::Struct(y), Val::Struct(z)) => {
            let (xs, ys) = (w.instance(x).fields, w.instance(y).fields);
            fields_chain(w, f, xs, ys, w.instance(z).fields);
        },
        _ => {},
    }
}

/// Equality holds both ways round or neither.
pub proof fn law_equality_is_symmetric(w: World, fuel: nat, a: Val, b: Val)
    requires
        tidy(w, fuel, a),
        tidy(w, fuel, b),
    ensures
        equal(w, fuel, a, b) is Some,
        equal(w, fuel, a, b) == equal(w, fuel, b, a),
{
    law_equality_is_decided(w, fuel, a, b);
    law_equality_is_decided(w, fuel, b, a);
    if equal(w, fuel, a, b) == Some(true) {
        turns(w, fuel, a, b);
    }
    if equal(w, fuel, b, a) == Some(true) {
        turns(w, fuel, b, a);
    }
}

/// Values that equal one value are equal.
pub proof fn law_equality_is_transitive(w: World, fuel: nat, a: Val, b: Val, c: Val)
    requires
        tidy(w, fuel, a),
        tidy(w, fuel, b),
        tidy(w, fuel, c),
        equal(w, fuel, a, b) == Some(true),
        equal(w, fuel, b, c) == Some(true),
    ensures
        equal(w, fuel, a, c) == Some(true),
{
    chains(w, fuel, a, b, c);
}

// ---------------------------------------------------------------------------
// What makes values equal
// ---------------------------------------------------------------------------

/// Plain values are equal just if they are the same; floats, as numbers; values of
/// different kinds never are.
pub proof fn law_plain_equality(w: World, fuel: nat, a: Val, b: Val)
    requires
        fuel > 0,
    ensures
        a is Int && b is Int || a is Bool && b is Bool || a is Str && b is Str || a is Null && b
            is Null || a is Unit && b is Unit ==> equal(w, fuel, a, b) == Some(a == b),
        a is Float && b is Float ==> equal(w, fuel, a, b) == Some(
            !is_nan(a->Float_0) && !is_nan(b->Float_0) && float_rank(a->Float_0) == float_rank(
                b->Float_0,
            ),
        ),
        !same_kind(a, b) ==> equal(w, fuel, a, b) == Some(false),
{
}

/// Whether two values are of one kind that can be equal.
pub open spec fn same_kind(a: Val, b: Val) -> bool {
    ||| a is Int && b is Int
    ||| a is Float && b is Float
    ||| a is Bool && b is Bool
    ||| a is Str && b is Str
    ||| a is List && b is List
    ||| a is MapRef && b is MapRef
    ||| a is SetRef && b is SetRef
    ||| a is Tuple && b is Tuple
    ||| a is Unit && b is Unit
    ||| a is Null && b is Null
    ||| a is Struct && b is Struct
    ||| a is Enum && b is Enum
}

/// Whether items are equal one by one.
pub open spec fn each_equal(w: World, fuel: nat, xs: Seq<Val>, ys: Seq<Val>) -> bool {
    xs.len() == ys.len() && forall|k: int|
        0 <= k < xs.len() ==> equal(w, fuel, #[trigger] xs[k], ys[k]) == Some(true)
}

proof fn items_tell(w: World, fuel: nat, xs: Seq<Val>, ys: Seq<Val>, i: nat)
    requires
        xs.len() == ys.len(),
        items_equal(w, fuel, xs, ys, i) is Some,
    ensures
        items_equal(w, fuel, xs, ys, i) == Some(true) <==> forall|k: int|
            i <= k < xs.len() ==> equal(w, fuel, #[trigger] xs[k], ys[k]) == Some(true),
    decreases xs.len() - i,
{
    if i < xs.len() {
        if equal(w, fuel, xs[i as int], ys[i as int]) == Some(true) {
            items_tell(w, fuel, xs, ys, i + 1);
        }
    }
}

/// Lists and tuples are equal just if they have as many items and each equals the one
/// at its place; enum values, if they are of one enum and one variant and their
/// values are equal so.
pub proof fn law_equality_item_by_item(w: World, fuel: nat, a: Val, b: Val)
    requires
        fuel > 0,
        equal(w, fuel, a, b) is Some,
    ensures
        a is List && b is List ==> (equal(w, fuel, a, b) == Some(true) <==> each_equal(
            w,
            (fuel - 1) as nat,
            w.list(a->List_0),
            w.list(b->List_0),
        )),
        a is Tuple && b is Tuple ==> (equal(w, fuel, a, b) == Some(true) <==> each_equal(
            w,
            (fuel - 1) as nat,
            a->Tuple_0,
            b->Tuple_0,
        )),
        a is Enum && b is Enum ==> (equal(w, fuel, a, b) == Some(true) <==> a->Enum_0.enum_name
            == b->Enum_0.enum_name && a->Enum_0.variant == b->Enum_0.variant && each_equal(
            w,
            (fuel - 1) as nat,
            a->Enum_0.payload,
            b->Enum_0.payload,
        )),
{
    let f = (fuel - 1) as nat;
    match (a, b) {
        (Val::List(x), Val::List(y)) => {
            let (xs, ys) = (w.list(x), w.list(y));
            assert(equal(w, fuel, a, b) == same_items(w, f, xs, ys));
            assert(xs.len() == ys.len() ==> same_items(w, f, xs, ys) == items_equal(
                w,
                f,
                xs,
                ys,
                0,
            ));
            if xs.len() == ys.len() {
                items_tell(w, f, xs, ys, 0);
            }
        },
        (Val::Tuple(xs), Val::Tuple(ys)) => {
            assert(equal(w, fuel, a, b) == same_items(w, f, xs, ys));
            assert(xs.len() == ys.len() ==> same_items(w, f, xs, ys) == items_equal(
                w,
                f,
                xs,
                ys,
                0,
            ));
            if xs.len() == ys.len() {
                items_tell(w, f, xs, ys, 0);
            }
        },
        (Val::Enum(x), Val::Enum(y)) => {
            let (xs, ys) = (x.payload, y.payload);
            if x.enum_name == y.enum_name && x.variant == y.variant {
                assert(equal(w, fuel, a, b) == same_items(w, f, xs, ys));
                assert(xs.len() == ys.len() ==> same_items(w, f, xs, ys) == items_equal(
                    w,
                    f,
                    xs,
                    ys,
                    0,
                ));
                if xs.len() == ys.len() {
                    items_tell(w, f, xs, ys, 0);
                }
            }
        },
        _ => {},
    }
}

proof fn fields_tell(
    w: World,
    fuel: nat,
    xs: Seq<(Seq<char>, Val)>,
    ys: Seq<(Seq<char>, Val)>,
    i: nat,
)
    requires
        fields_equal(w, fuel, xs, ys, i) is Some,
    ensures
        fields_equal(w, fuel, xs, ys, i) == Some(true) <==> forall|k: int|
            i <= k < xs.len() ==> field_equal(w, fuel, #[trigger] xs[k], ys),
    decreases xs.len() - i,
{
    if i < xs.len() {
        if field_equal(w, fuel, xs[i as int], ys) {
            fields_tell(w, fuel, xs, ys, i + 1);
        }
    }
}

/// Whether a field of this name is among others and has an equal value.
pub open spec fn field_equal(
    w: World,
    fuel: nat,
    x: (Seq<char>, Val),
    ys: Seq<(Seq<char>, Val)>,
) -> bool {
    lookup(ys, x.0) matches Some(v) && equal(w, fuel, x.1, v) == Some(true)
}

/// Structs are equal just if they are of one type, have as many fields, and each field
/// of the first has an equal one of its name in the second.
pub proof fn law_equality_field_by_field(w: World, fuel: nat, x: usize, y: usize)
    requires
        fuel > 0,
        equal(w, fuel, Val::Struct(x), Val::Struct(y)) is Some,
    ensures
        equal(w, fuel, Val::Struct(x), Val::Struct(y)) == Some(true) <==> w.instance(x).name
            == w.instance(y).name && w.instance(x).fields.len() == w.instance(y).fields.len()
            && forall|k: int|
            0 <= k < w.instance(x).fields.len() ==> field_equal(
                w,
                (fuel - 1) as nat,
                #[trigger] w.instance(x).fields[k],
                w.instance(y).fields,
            ),
{
    let f = (fuel - 1) as nat;
    let (xi, yi) = (w.instance(x), w.instance(y));
    if xi.name == yi.name && xi.fields.len() == yi.fields.len() {
        fields_tell(w, f, xi.fields, yi.fields, 0);
    }
}

} // verus!
