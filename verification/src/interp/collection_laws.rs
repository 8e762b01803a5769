//! Laws of ordering, of sorting, and of maps and sets.

use super::collections::{
    best_from, entry_place, extreme_of, insert_place, item_place, kept, put_all, put_item,
    put_pair, sorted, sorted_from,
};
use super::places::{declared, fit_items, fit_named, fits, lookup_fits, valid, valid_instance};
use super::registry::Decls;
use super::show::{
    compared, equal, field_or_unit, fields_compared, items_compared, items_found, key_place,
    pairs_found, place_of,
};
use super::value::{Halt, Val, World};
use crate::text::{text_order_from, Order};
use crate::token::Span;
use vstd::prelude::*;
use vstd::string::*;

verus! {

broadcast use {lookup_fits, valid_instance};

// ---------------------------------------------------------------------------
// Ordering
// ---------------------------------------------------------------------------

proof fn flip_texts(a: Seq<char>, b: Seq<char>, i: nat)
    ensures
        text_order_from(b, a, i) == text_order_from(a, b, i).flipped(),
    decreases a.len() - i,
{
    if i < a.len() && i < b.len() && a[i as int] == b[i as int] {
        flip_texts(a, b, i + 1);
    }
}

/// Two values that order one way order the other way round when they change
/// sides.
pub proof fn law_order_flips(reg: Decls, w: World, fuel: nat, a: Val, b: Val, span: Span)
    requires
        valid(w),
        declared(reg, w),
        fits(w, a),
        fits(w, b),
    ensures
        compared(reg, w, fuel, a, b, span) matches Ok(o) ==> compared(reg, w, fuel, b, a, span)
            == Ok::<Order, Halt>(o.flipped()),
    decreases fuel, 0nat, 0nat,
{
    if fuel > 0 {
        let f = (fuel - 1) as nat;
        match (a, b) {
            (Val::Str(x), Val::Str(y)) => {
                flip_texts(x, y, 0);
            },
            (Val::Struct(x), Val::Struct(y)) => {
                reveal(declared);
                let xi = w.instance(x);
                let yi = w.instance(y);
                assert(w.structs[x as int] == xi && w.structs[y as int] == yi);
                if xi.name == yi.name {
                    flip_fields(reg, w, f, xi.order, xi.fields, yi.fields, 0, span);
                }
            },
            (Val::Enum(x), Val::Enum(y)) => {
                flip_items(reg, w, f, x.payload, y.payload, 0, span);
            },
            _ => {},
        }
    }
}

proof fn flip_fields(
    reg: Decls,
    w: World,
    fuel: nat,
    names: Seq<Seq<char>>,
    xs: Seq<(Seq<char>, Val)>,
    ys: Seq<(Seq<char>, Val)>,
    i: nat,
    span: Span,
)
    requires
        valid(w),
        declared(reg, w),
        fit_named(w, xs),
        fit_named(w, ys),
    ensures
        fields_compared(reg, w, fuel, names, xs, ys, i, span) matches Ok(o) ==> fields_compared(
            reg,
            w,
            fuel,
            names,
            ys,
            xs,
            i,
            span,
        ) == Ok::<Order, Halt>(o.flipped()),
    decreases fuel, 1nat, names.len() - i,
{
    if i < names.len() {
        let x = field_or_unit(xs, names[i as int]);
        let y = field_or_unit(ys, names[i as int]);
        assert(fits(w, Val::Unit));
        law_order_flips(reg, w, fuel, x, y, span);
        flip_fields(reg, w, fuel, names, xs, ys, i + 1, span);
    }
}

proof fn flip_items(
    reg: Decls,
    w: World,
    fuel: nat,
    xs: Seq<Val>,
    ys: Seq<Val>,
    i: nat,
    span: Span,
)
    requires
        valid(w),
        declared(reg, w),
        fit_items(w, xs),
        fit_items(w, ys),
    ensures
        items_compared(reg, w, fuel, xs, ys, i, span) matches Ok(o) ==> items_compared(
            reg,
            w,
            fuel,
            ys,
            xs,
            i,
            span,
        ) == Ok::<Order, Halt>(o.flipped()),
    decreases fuel, 1nat, xs.len() - i,
{
    if i < xs.len() && i < ys.len() {
        assert(fits(w, xs[i as int]) && fits(w, ys[i as int]));
        law_order_flips(reg, w, fuel, xs[i as int], ys[i as int], span);
        flip_items(reg, w, fuel, xs, ys, i + 1, span);
    }
}

/// Whether `b` can stand behind `a`: it does not come before it.
pub open spec fn follows(reg: Decls, w: World, fuel: nat, a: Val, b: Val, span: Span) -> bool {
    compared(reg, w, fuel, b, a, span) matches Ok(o) && o != Order::Less
}

/// Whether each item can stand behind the one in front of it.
pub open spec fn in_order(reg: Decls, w: World, fuel: nat, vs: Seq<Val>, span: Span) -> bool {
    forall|i: int, j: int|
        0 <= i && j == i + 1 && j < vs.len() ==> follows(
            reg,
            w,
            fuel,
            #[trigger] vs[i],
            #[trigger] vs[j],
            span,
        )
}

/// An item goes behind every item that it does not come before, equal ones among
/// them, and in front of the rest.
pub proof fn law_insert_place(
    reg: Decls,
    w: World,
    fuel: nat,
    done: Seq<Val>,
    x: Val,
    k: nat,
    span: Span,
)
    requires
        k <= done.len(),
    ensures
        insert_place(reg, w, fuel, done, x, k, span) matches Ok(at) ==> {
            &&& at <= k
            &&& at > 0 ==> follows(reg, w, fuel, done[at - 1], x, span)
            &&& forall|j: int|
                at <= j < k ==> compared(reg, w, fuel, x, #[trigger] done[j], span) == Ok::<
                    Order,
                    Halt,
                >(Order::Less)
        },
    decreases k,
{
    if k > 0 {
        law_insert_place(reg, w, fuel, done, x, (k - 1) as nat, span);
    }
}

proof fn insert_counts(done: Seq<Val>, x: Val, at: int)
    requires
        0 <= at <= done.len(),
    ensures
        done.insert(at, x).to_multiset() == done.to_multiset().insert(x),
{
    let front = done.take(at);
    let back = done.skip(at);
    assert(done =~= front + back);
    assert(done.insert(at, x) =~= front.push(x) + back);
    vstd::seq_lib::lemma_multiset_commutative(front, back);
    vstd::seq_lib::lemma_multiset_commutative(front.push(x), back);
    front.to_multiset_ensures();
    assert(front.push(x).to_multiset() =~= front.to_multiset().insert(x));
    assert(done.insert(at, x).to_multiset() =~= done.to_multiset().insert(x));
}

proof fn insert_fits(w: World, done: Seq<Val>, x: Val, at: int)
    requires
        0 <= at <= done.len(),
        fit_items(w, done),
        fits(w, x),
    ensures
        fit_items(w, done.insert(at, x)),
{
    let more = done.insert(at, x);
    assert forall|j: int| 0 <= j < more.len() implies fits(w, #[trigger] more[j]) by {
        if j < at {
            assert(more[j] == done[j]);
        } else if j > at {
            assert(more[j] == done[j - 1]);
        }
    }
}

proof fn insert_keeps_order(
    reg: Decls,
    w: World,
    fuel: nat,
    done: Seq<Val>,
    x: Val,
    at: nat,
    span: Span,
)
    requires
        valid(w),
        declared(reg, w),
        fit_items(w, done),
        fits(w, x),
        in_order(reg, w, fuel, done, span),
        insert_place(reg, w, fuel, done, x, done.len(), span) == Ok::<nat, Halt>(at),
    ensures
        at <= done.len(),
        in_order(reg, w, fuel, done.insert(at as int, x), span),
{
    law_insert_place(reg, w, fuel, done, x, done.len(), span);
    let more = done.insert(at as int, x);
    assert forall|i: int, j: int| 0 <= i && j == i + 1 && j < more.len() implies follows(
        reg,
        w,
        fuel,
        #[trigger] more[i],
        #[trigger] more[j],
        span,
    ) by {
        if j < at {
            assert(more[i] == done[i] && more[j] == done[j]);
        } else if j == at {
            assert(more[i] == done[i] && more[j] == x);
        } else if i == at {
            assert(more[i] == x && more[j] == done[i]);
            assert(compared(reg, w, fuel, x, done[i], span) == Ok::<Order, Halt>(Order::Less));
            assert(fits(w, done[i]));
            law_order_flips(reg, w, fuel, x, done[i], span);
        } else {
            assert(more[i] == done[i - 1] && more[j] == done[i]);
            assert(follows(reg, w, fuel, done[i - 1], done[i], span));
        }
    }
}

proof fn sort_steps(
    reg: Decls,
    w: World,
    fuel: nat,
    items: Seq<Val>,
    i: nat,
    done: Seq<Val>,
    span: Span,
)
    requires
        valid(w),
        declared(reg, w),
        fit_items(w, items),
        fit_items(w, done),
        in_order(reg, w, fuel, done, span),
        i <= items.len(),
        done.to_multiset() == items.take(i as int).to_multiset(),
    ensures
        sorted_from(reg, w, fuel, items, i, done, span) matches Ok(vs) ==> in_order(
            reg,
            w,
            fuel,
            vs,
            span,
        ) && vs.to_multiset() == items.to_multiset(),
    decreases items.len() - i,
{
    if i < items.len() {
        let x = items[i as int];
        assert(fits(w, x));
        if let Ok(at) = insert_place(reg, w, fuel, done, x, done.len(), span) {
            insert_keeps_order(reg, w, fuel, done, x, at, span);
            insert_counts(done, x, at as int);
            insert_fits(w, done, x, at as int);
            assert(items.take((i + 1) as int) =~= items.take(i as int).push(x));
            items.take(i as int).to_multiset_ensures();
            assert(items.take((i + 1) as int).to_multiset() =~= items.take(i as int).to_multiset().insert(
                x,
            ));
            sort_steps(reg, w, fuel, items, i + 1, done.insert(at as int, x), span);
        }
    } else {
        assert(items.take(i as int) =~= items);
    }
}

/// Sorting gives the same items, in order.
pub proof fn law_sorted(reg: Decls, w: World, fuel: nat, items: Seq<Val>, span: Span)
    requires
        valid(w),
        declared(reg, w),
        fit_items(w, items),
    ensures
        sorted(reg, w, fuel, items, span) matches Ok(vs) ==> in_order(reg, w, fuel, vs, span)
            && vs.to_multiset() == items.to_multiset(),
{
    assert(items.take(0) =~= Seq::<Val>::empty());
    sort_steps(reg, w, fuel, items, 0, Seq::empty(), span);
}

proof fn sorted_stays(
    reg: Decls,
    w: World,
    fuel: nat,
    items: Seq<Val>,
    i: nat,
    span: Span,
)
    requires
        i <= items.len(),
        in_order(reg, w, fuel, items, span),
    ensures
        sorted_from(reg, w, fuel, items, i, items.take(i as int), span) == Ok::<Seq<Val>, Halt>(
            items,
        ),
    decreases items.len() - i,
{
    if i < items.len() {
        let done = items.take(i as int);
        let x = items[i as int];
        if i > 0 {
            assert(follows(reg, w, fuel, items[i - 1], items[i as int], span));
            assert(done[i - 1] == items[i - 1]);
        }
        assert(insert_place(reg, w, fuel, done, x, done.len(), span) == Ok::<nat, Halt>(i));
        assert(done.insert(i as int, x) =~= items.take((i + 1) as int));
        sorted_stays(reg, w, fuel, items, i + 1, span);
    } else {
        assert(items.take(i as int) =~= items);
    }
}

/// Items that are in order already stay as they are, equal ones among them.
pub proof fn law_sorted_stays(reg: Decls, w: World, fuel: nat, items: Seq<Val>, span: Span)
    requires
        in_order(reg, w, fuel, items, span),
    ensures
        sorted(reg, w, fuel, items, span) == Ok::<Seq<Val>, Halt>(items),
{
    assert(items.take(0) =~= Seq::<Val>::empty());
    sorted_stays(reg, w, fuel, items, 0, span);
}

proof fn best_is_item(
    reg: Decls,
    w: World,
    fuel: nat,
    items: Seq<Val>,
    i: nat,
    best: Val,
    want: Order,
    span: Span,
)
    requires
        items.contains(best),
    ensures
        best_from(reg, w, fuel, items, i, best, want, span) matches Ok(v) ==> items.contains(v),
    decreases items.len() - i,
{
    if i < items.len() {
        assert(items.contains(items[i as int]));
        best_is_item(reg, w, fuel, items, i + 1, best, want, span);
        best_is_item(reg, w, fuel, items, i + 1, items[i as int], want, span);
    }
}

/// The smallest and the greatest item of a list are items of the list.
pub proof fn law_extreme_is_item(
    reg: Decls,
    w: World,
    fuel: nat,
    items: Seq<Val>,
    want: Order,
    span: Span,
)
    ensures
        extreme_of(reg, w, fuel, items, want, span) matches Ok(v) ==> items.contains(v),
{
    if items.len() > 0 {
        assert(items.contains(items[0]));
        best_is_item(reg, w, fuel, items, 1, items[0], want, span);
    }
}

proof fn best_of_ints(
    reg: Decls,
    w: World,
    fuel: nat,
    items: Seq<Val>,
    i: nat,
    best: int,
    span: Span,
)
    requires
        fuel > 0,
        forall|j: int| 0 <= j < items.len() ==> (#[trigger] items[j]) is Int,
        forall|j: int| 0 <= j < i && j < items.len() ==> best <= (#[trigger] items[j])->Int_0,
    ensures
        best_from(reg, w, fuel, items, i, Val::Int(best), Order::Less, span) matches Ok(Val::Int(m))
            && forall|j: int| 0 <= j < items.len() ==> m <= (#[trigger] items[j])->Int_0,
    decreases items.len() - i,
{
    if i < items.len() {
        let n = items[i as int]->Int_0;
        best_of_ints(
            reg,
            w,
            fuel,
            items,
            i + 1,
            if n < best {
                n
            } else {
                best
            },
            span,
        );
    }
}

/// The smallest of integers is one of them and not greater than any.
pub proof fn law_min_of_ints(reg: Decls, w: World, fuel: nat, items: Seq<Val>, span: Span)
    requires
        fuel > 0,
        items.len() > 0,
        forall|j: int| 0 <= j < items.len() ==> (#[trigger] items[j]) is Int,
    ensures
        extreme_of(reg, w, fuel, items, Order::Less, span) matches Ok(Val::Int(m)) && items.contains(
            Val::Int(m),
        ) && forall|j: int| 0 <= j < items.len() ==> m <= (#[trigger] items[j])->Int_0,
{
    assert(items[0] is Int);
    best_of_ints(reg, w, fuel, items, 1, items[0]->Int_0, span);
    law_extreme_is_item(reg, w, fuel, items, Order::Less, span);
}

// ---------------------------------------------------------------------------
// Maps
// ---------------------------------------------------------------------------

/// Whether no two keys are equal.
pub open spec fn keys_differ(w: World, fuel: nat, pairs: Seq<(Val, Val)>) -> bool {
    forall|i: int, j: int|
        0 <= i < j < pairs.len() ==> equal(
            w,
            fuel,
            (#[trigger] pairs[i]).0,
            (#[trigger] pairs[j]).0,
        ) == Some(false)
}

pub(crate) proof fn entry_place_facts(w: World, fuel: nat, pairs: Seq<(Val, Val)>, k: Val, i: nat)
    ensures
        match entry_place(w, fuel, pairs, k, i) {
            None => true,
            Some(None) => forall|j: int|
                i <= j < pairs.len() ==> equal(w, fuel, (#[trigger] pairs[j]).0, k) == Some(false),
            Some(Some(at)) => i <= at < pairs.len() && equal(w, fuel, pairs[at as int].0, k)
                == Some(true) && forall|j: int|
                i <= j < at ==> equal(w, fuel, (#[trigger] pairs[j]).0, k) == Some(false),
        },
    decreases pairs.len() - i,
{
    if i < pairs.len() {
        entry_place_facts(w, fuel, pairs, k, i + 1);
    }
}

proof fn entry_place_is(w: World, fuel: nat, pairs: Seq<(Val, Val)>, k: Val, i: nat, at: nat)
    requires
        i <= at < pairs.len(),
        equal(w, fuel, pairs[at as int].0, k) == Some(true),
        forall|j: int|
            i <= j < at ==> equal(w, fuel, (#[trigger] pairs[j]).0, k) == Some(false),
    ensures
        entry_place(w, fuel, pairs, k, i) == Some(Some(at)),
    decreases at - i,
{
    if i < at {
        assert(equal(w, fuel, pairs[i as int].0, k) == Some(false));
        entry_place_is(w, fuel, pairs, k, i + 1, at);
    }
}

/// Inserting into a map whose keys differ gives one whose keys differ. The keys
/// that it has keep their places, and at most one pair is added, at the end.
pub proof fn law_map_insert(w: World, fuel: nat, pairs: Seq<(Val, Val)>, k: Val, v: Val)
    requires
        keys_differ(w, fuel, pairs),
    ensures
        put_pair(w, fuel, pairs, k, v) matches Ok(more) ==> {
            &&& keys_differ(w, fuel, more)
            &&& pairs.len() <= more.len() <= pairs.len() + 1
            &&& forall|i: int| 0 <= i < pairs.len() ==> (#[trigger] more[i]).0 == pairs[i].0
            &&& more.len() > pairs.len() ==> more == pairs.push((k, v))
        },
{
    entry_place_facts(w, fuel, pairs, k, 0);
    if let Ok(more) = put_pair(w, fuel, pairs, k, v) {
        assert forall|i: int, j: int| 0 <= i < j < more.len() implies equal(
            w,
            fuel,
            (#[trigger] more[i]).0,
            (#[trigger] more[j]).0,
        ) == Some(false) by {
            if j < pairs.len() {
                assert(more[i].0 == pairs[i].0 && more[j].0 == pairs[j].0);
                assert(equal(w, fuel, pairs[i].0, pairs[j].0) == Some(false));
            } else {
                assert(more[i].0 == pairs[i].0 && more[j].0 == k);
                assert(equal(w, fuel, pairs[i].0, k) == Some(false));
            }
        }
    }
}

/// A key that was just inserted has the new value, if it equals itself.
pub proof fn law_map_get_after_insert(w: World, fuel: nat, pairs: Seq<(Val, Val)>, k: Val, v: Val)
    requires
        equal(w, fuel, k, k) == Some(true),
    ensures
        put_pair(w, fuel, pairs, k, v) matches Ok(more) ==> (entry_place(
            w,
            fuel,
            more,
            k,
            0,
        ) matches Some(Some(at)) && at < more.len() && more[at as int].1 == v),
{
    entry_place_facts(w, fuel, pairs, k, 0);
    if let Ok(more) = put_pair(w, fuel, pairs, k, v) {
        match entry_place(w, fuel, pairs, k, 0) {
            Some(Some(at)) => {
                assert forall|j: int| 0 <= j < at implies equal(w, fuel, (#[trigger] more[j]).0, k)
                    == Some(false) by {
                    assert(more[j] == pairs[j]);
                }
                entry_place_is(w, fuel, more, k, 0, at);
            },
            _ => {
                assert forall|j: int| 0 <= j < pairs.len() implies equal(
                    w,
                    fuel,
                    (#[trigger] more[j]).0,
                    k,
                ) == Some(false) by {
                    assert(more[j] == pairs[j]);
                }
                entry_place_is(w, fuel, more, k, 0, pairs.len());
            },
        }
    }
}

proof fn entry_place_none(w: World, fuel: nat, pairs: Seq<(Val, Val)>, k: Val, i: nat)
    requires
        forall|j: int|
            i <= j < pairs.len() ==> equal(w, fuel, (#[trigger] pairs[j]).0, k) == Some(false),
    ensures
        entry_place(w, fuel, pairs, k, i) == Some(None::<nat>),
    decreases pairs.len() - i,
{
    if i < pairs.len() {
        assert(equal(w, fuel, pairs[i as int].0, k) == Some(false));
        entry_place_none(w, fuel, pairs, k, i + 1);
    }
}

/// Inserting under one key leaves every other key where it was, with the value
/// that it had: a key that differs from the new one and from the pair that the new
/// one replaces.
pub proof fn law_map_insert_keeps_others(
    w: World,
    fuel: nat,
    pairs: Seq<(Val, Val)>,
    k: Val,
    v: Val,
    other: Val,
)
    requires
        equal(w, fuel, k, other) == Some(false),
        entry_place(w, fuel, pairs, other, 0) is Some,
        entry_place(w, fuel, pairs, k, 0) matches Some(Some(at)) ==> entry_place(
            w,
            fuel,
            pairs,
            other,
            0,
        ) != Some(Some(at)),
    ensures
        put_pair(w, fuel, pairs, k, v) matches Ok(more) ==> {
            &&& entry_place(w, fuel, more, other, 0) == entry_place(w, fuel, pairs, other, 0)
            &&& entry_place(w, fuel, pairs, other, 0) matches Some(Some(at)) ==> more[at as int]
                == pairs[at as int]
        },
{
    entry_place_facts(w, fuel, pairs, k, 0);
    entry_place_facts(w, fuel, pairs, other, 0);
    if let Ok(more) = put_pair(w, fuel, pairs, k, v) {
        assert(forall|j: int| 0 <= j < pairs.len() ==> (#[trigger] more[j]).0 == pairs[j].0);
        match entry_place(w, fuel, pairs, other, 0) {
            Some(Some(at)) => {
                assert forall|j: int| 0 <= j < at implies equal(
                    w,
                    fuel,
                    (#[trigger] more[j]).0,
                    other,
                ) == Some(false) by {
                    assert(more[j].0 == pairs[j].0);
                }
                assert(more[at as int].0 == pairs[at as int].0);
                entry_place_is(w, fuel, more, other, 0, at);
            },
            _ => {
                assert forall|j: int| 0 <= j < more.len() implies equal(
                    w,
                    fuel,
                    (#[trigger] more[j]).0,
                    other,
                ) == Some(false) by {
                    if j < pairs.len() {
                        assert(more[j].0 == pairs[j].0);
                    }
                }
                entry_place_none(w, fuel, more, other, 0);
            },
        }
    }
}

// ---------------------------------------------------------------------------
// Sets
// ---------------------------------------------------------------------------

/// Whether no two items are equal.
pub open spec fn items_differ(w: World, fuel: nat, items: Seq<Val>) -> bool {
    forall|i: int, j: int|
        0 <= i < j < items.len() ==> equal(w, fuel, #[trigger] items[i], #[trigger] items[j])
            == Some(false)
}

proof fn item_place_facts(w: World, fuel: nat, items: Seq<Val>, x: Val, i: nat)
    ensures
        match item_place(w, fuel, items, x, i) {
            None => true,
            Some(None) => forall|j: int|
                i <= j < items.len() ==> equal(w, fuel, #[trigger] items[j], x) == Some(false),
            Some(Some(at)) => i <= at < items.len() && equal(w, fuel, items[at as int], x) == Some(
                true,
            ) && forall|j: int|
                i <= j < at ==> equal(w, fuel, #[trigger] items[j], x) == Some(false),
        },
    decreases items.len() - i,
{
    if i < items.len() {
        item_place_facts(w, fuel, items, x, i + 1);
    }
}

proof fn item_place_is(w: World, fuel: nat, items: Seq<Val>, x: Val, i: nat, at: nat)
    requires
        i <= at < items.len(),
        equal(w, fuel, items[at as int], x) == Some(true),
        forall|j: int| i <= j < at ==> equal(w, fuel, #[trigger] items[j], x) == Some(false),
    ensures
        item_place(w, fuel, items, x, i) == Some(Some(at)),
    decreases at - i,
{
    if i < at {
        assert(equal(w, fuel, items[i as int], x) == Some(false));
        item_place_is(w, fuel, items, x, i + 1, at);
    }
}

/// Inserting into a set whose items differ gives one whose items differ: the same
/// set, or the set with the item at the end. An item that equals itself is then
/// in the set, and inserting it once more changes nothing.
pub proof fn law_set_insert(w: World, fuel: nat, items: Seq<Val>, x: Val)
    requires
        items_differ(w, fuel, items),
    ensures
        put_item(w, fuel, items, x) matches Ok(more) ==> {
            &&& items_differ(w, fuel, more)
            &&& more == items || more == items.push(x)
            &&& equal(w, fuel, x, x) == Some(true) ==> (item_place(
                w,
                fuel,
                more,
                x,
                0,
            ) matches Some(Some(_)))
            &&& equal(w, fuel, x, x) == Some(true) ==> put_item(w, fuel, more, x) == Ok::<
                Seq<Val>,
                Halt,
            >(more)
        },
{
    item_place_facts(w, fuel, items, x, 0);
    if let Ok(more) = put_item(w, fuel, items, x) {
        if let Some(None) = item_place(w, fuel, items, x, 0) {
            assert forall|i: int, j: int| 0 <= i < j < more.len() implies equal(
                w,
                fuel,
                #[trigger] more[i],
                #[trigger] more[j],
            ) == Some(false) by {
                assert(more[i] == items[i]);
                if j < items.len() {
                    assert(more[j] == items[j]);
                }
            }
            if equal(w, fuel, x, x) == Some(true) {
                assert forall|j: int| 0 <= j < items.len() implies equal(
                    w,
                    fuel,
                    #[trigger] more[j],
                    x,
                ) == Some(false) by {
                    assert(more[j] == items[j]);
                }
                item_place_is(w, fuel, more, x, 0, items.len());
            }
        }
    }
}

/// The union of sets whose items differ has items that differ, those of the first
/// set at the front.
pub proof fn law_set_union(w: World, fuel: nat, set: Seq<Val>, items: Seq<Val>, i: nat)
    requires
        items_differ(w, fuel, set),
    ensures
        put_all(w, fuel, set, items, i) matches Ok(more) ==> items_differ(w, fuel, more)
            && set.is_prefix_of(more),
    decreases items.len() - i,
{
    if i < items.len() {
        law_set_insert(w, fuel, set, items[i as int]);
        if let Ok(next) = put_item(w, fuel, set, items[i as int]) {
            law_set_union(w, fuel, next, items, i + 1);
        }
    }
}

/// Whether an item of a set equals `x`.
pub open spec fn is_in(w: World, fuel: nat, set: Seq<Val>, x: Val) -> bool {
    exists|j: int| 0 <= j < set.len() && equal(w, fuel, #[trigger] set[j], x) == Some(true)
}

/// The items at these places.
pub open spec fn picked(items: Seq<Val>, places: Seq<int>) -> Seq<Val> {
    places.map_values(|p: int| items[p])
}

/// The union lists the first set as it is, and behind it items of the second in
/// their order: an item is left out exactly if it equals one that is listed
/// before it. So every item of the second is listed or equals a listed one, and
/// no added item equals one in front of it.
pub proof fn law_union_lists(w: World, fuel: nat, set: Seq<Val>, items: Seq<Val>)
    ensures
        put_all(w, fuel, set, items, 0) matches Ok(more) ==> exists|places: Seq<int>|
            #![trigger picked(items, places)]
            {
                &&& more == set + picked(items, places)
                &&& places_rise(places, 0, items.len() as int)
                &&& forall|p: int|
                    0 <= p < items.len() ==> (#[trigger] places.contains(p) <==> !is_in(
                        w,
                        fuel,
                        set + picked(items, below(places, p)),
                        items[p],
                    ))
            },
{
    if let Ok(more) = put_all(w, fuel, set, items, 0) {
        assert(set + picked(items, Seq::empty()) =~= set);
        let places = union_places(w, fuel, set, items, 0, Seq::empty());
        assert(more == set + picked(items, places));
    }
}

/// Whether places rise strictly, from `lo` on and below `hi`.
pub open spec fn places_rise(places: Seq<int>, lo: int, hi: int) -> bool {
    &&& forall|i: int| 0 <= i < places.len() ==> lo <= #[trigger] places[i] < hi
    &&& forall|i: int, j: int|
        0 <= i < j < places.len() ==> #[trigger] places[i] < #[trigger] places[j]
}

/// The places below `p`.
pub open spec fn below(places: Seq<int>, p: int) -> Seq<int> {
    places.filter(|q: int| q < p)
}

proof fn all_below(places: Seq<int>, p: int)
    requires
        forall|i: int| 0 <= i < places.len() ==> #[trigger] places[i] < p,
    ensures
        below(places, p) == places,
    decreases places.len(),
{
    reveal(Seq::filter);
    if places.len() > 0 {
        let front = places.drop_last();
        assert forall|i: int| 0 <= i < front.len() implies #[trigger] front[i] < p by {
            assert(front[i] == places[i]);
        }
        all_below(front, p);
        assert(places[places.len() - 1] < p);
        assert(front.push(places.last()) =~= places);
    }
    assert(below(places, p) =~= places);
}

proof fn below_push(places: Seq<int>, q: int, p: int)
    requires
        p <= q,
    ensures
        below(places.push(q), p) == below(places, p),
{
    reveal(Seq::filter);
    assert(places.push(q).drop_last() =~= places);
}

proof fn union_places(
    w: World,
    fuel: nat,
    set: Seq<Val>,
    items: Seq<Val>,
    i: nat,
    done: Seq<int>,
) -> (places: Seq<int>)
    requires
        i <= items.len(),
        places_rise(done, 0, i as int),
        forall|p: int|
            0 <= p < i ==> (#[trigger] done.contains(p) <==> !is_in(
                w,
                fuel,
                set + picked(items, below(done, p)),
                items[p],
            )),
    ensures
        put_all(w, fuel, set + picked(items, done), items, i) matches Ok(more) ==> {
            &&& more == set + picked(items, places)
            &&& places_rise(places, 0, items.len() as int)
            &&& forall|p: int|
                0 <= p < items.len() ==> (#[trigger] places.contains(p) <==> !is_in(
                    w,
                    fuel,
                    set + picked(items, below(places, p)),
                    items[p],
                ))
        },
    decreases items.len() - i,
{
    if i >= items.len() {
        done
    } else {
        let x = items[i as int];
        let here = set + picked(items, done);
        item_place_facts(w, fuel, here, x, 0);
        all_below(done, i as int);
        match item_place(w, fuel, here, x, 0) {
            None => done,
            Some(Some(at)) => {
                assert(equal(w, fuel, here[at as int], x) == Some(true));
                assert(is_in(w, fuel, here, x));
                assert(!done.contains(i as int));
                union_places(w, fuel, set, items, i + 1, done)
            },
            Some(None) => {
                let more = done.push(i as int);
                assert(!is_in(w, fuel, here, x));
                assert(here.push(x) =~= set + picked(items, more));
                below_push(done, i as int, i as int);
                assert forall|p: int| 0 <= p < i + 1 implies (#[trigger] more.contains(p)
                    <==> !is_in(w, fuel, set + picked(items, below(more, p)), items[p])) by {
                    if p < i {
                        below_push(done, i as int, p);
                        if more.contains(p) {
                            let k = choose|k: int| 0 <= k < more.len() && more[k] == p;
                            assert(done[k] == p);
                        }
                        if done.contains(p) {
                            let k = choose|k: int| 0 <= k < done.len() && done[k] == p;
                            assert(more[k] == p);
                        }
                        assert(more.contains(p) == done.contains(p));
                    } else {
                        assert(more[done.len() as int] == p);
                    }
                }
                union_places(w, fuel, set, items, i + 1, more)
            },
        }
    }
}

/// The intersection lists the items of the first set that equal one of the second,
/// in the order of the first.
pub proof fn law_intersect_lists(w: World, fuel: nat, items: Seq<Val>, other: Seq<Val>)
    ensures
        kept(w, fuel, items, other, 0, Seq::empty()) matches Ok(common) ==> common == items.filter(
            |x: Val| is_in(w, fuel, other, x),
        ),
{
    reveal(Seq::filter);
    assert(items.take(0).len() == 0);
    assert(items.take(0).filter(|x: Val| is_in(w, fuel, other, x)) =~= Seq::<Val>::empty());
    kept_steps(w, fuel, items, other, 0, Seq::empty());
}

proof fn kept_steps(
    w: World,
    fuel: nat,
    items: Seq<Val>,
    other: Seq<Val>,
    i: nat,
    done: Seq<Val>,
)
    requires
        i <= items.len(),
        done == items.take(i as int).filter(|x: Val| is_in(w, fuel, other, x)),
    ensures
        kept(w, fuel, items, other, i, done) matches Ok(common) ==> common == items.filter(
            |x: Val| is_in(w, fuel, other, x),
        ),
    decreases items.len() - i,
{
    if i < items.len() {
        reveal(Seq::filter);
        let x = items[i as int];
        item_place_facts(w, fuel, other, x, 0);
        assert(items.take((i + 1) as int).drop_last() =~= items.take(i as int));
        match item_place(w, fuel, other, x, 0) {
            None => {},
            Some(Some(at)) => {
                assert(equal(w, fuel, other[at as int], x) == Some(true));
                assert(is_in(w, fuel, other, x));
                kept_steps(w, fuel, items, other, i + 1, done.push(x));
            },
            Some(None) => {
                assert(!is_in(w, fuel, other, x));
                kept_steps(w, fuel, items, other, i + 1, done);
            },
        }
    } else {
        assert(items.take(i as int) =~= items);
    }
}

// ---------------------------------------------------------------------------
// Equality of maps and sets
// ---------------------------------------------------------------------------

proof fn place_of_facts(w: World, fuel: nat, x: Val, ys: Seq<Val>, j: nat)
    ensures
        match place_of(w, fuel, x, ys, j) {
            None => true,
            Some(None) => forall|i: int|
                j <= i < ys.len() ==> equal(w, fuel, x, #[trigger] ys[i]) == Some(false),
            Some(Some(at)) => j <= at < ys.len() && equal(w, fuel, x, ys[at as int]) == Some(true),
        },
    decreases ys.len() - j,
{
    if j < ys.len() {
        place_of_facts(w, fuel, x, ys, j + 1);
    }
}

/// Whether `x` equals one of `ys`.
pub open spec fn one_equals(w: World, fuel: nat, x: Val, ys: Seq<Val>) -> bool {
    exists|j: int| 0 <= j < ys.len() && equal(w, fuel, x, #[trigger] ys[j]) == Some(true)
}

proof fn items_found_facts(w: World, fuel: nat, xs: Seq<Val>, ys: Seq<Val>, i: nat)
    ensures
        items_found(w, fuel, xs, ys, i) matches Some(b) ==> (b <==> forall|k: int|
            i <= k < xs.len() ==> one_equals(w, fuel, #[trigger] xs[k], ys)),
    decreases xs.len() - i,
{
    if i < xs.len() {
        let x = xs[i as int];
        place_of_facts(w, fuel, x, ys, 0);
        items_found_facts(w, fuel, xs, ys, i + 1);
        match place_of(w, fuel, x, ys, 0) {
            Some(Some(at)) => {
                assert(equal(w, fuel, x, ys[at as int]) == Some(true));
                assert(one_equals(w, fuel, x, ys));
            },
            Some(None) => {
                assert(!one_equals(w, fuel, xs[i as int], ys));
            },
            None => {},
        }
    }
}

/// Sets of one size are equal if each item of the first equals one of the second,
/// whatever the order.
pub proof fn law_set_equality(w: World, fuel: nat, x: usize, y: usize)
    requires
        fuel > 0,
    ensures
        equal(w, fuel, Val::SetRef(x), Val::SetRef(y)) matches Some(b) ==> (b <==> w.set(x).len()
            == w.set(y).len() && forall|k: int|
            0 <= k < w.set(x).len() ==> one_equals(
                w,
                (fuel - 1) as nat,
                #[trigger] w.set(x)[k],
                w.set(y),
            )),
{
    items_found_facts(w, (fuel - 1) as nat, w.set(x), w.set(y), 0);
}

/// The order of the items of sets does not matter to their equality.
pub proof fn law_set_equality_ignores_order(
    w: World,
    fuel: nat,
    x: usize,
    y: usize,
    x2: usize,
    y2: usize,
)
    requires
        fuel > 0,
        w.set(x).to_multiset() == w.set(x2).to_multiset(),
        w.set(y).to_multiset() == w.set(y2).to_multiset(),
        equal(w, fuel, Val::SetRef(x), Val::SetRef(y)) is Some,
        equal(w, fuel, Val::SetRef(x2), Val::SetRef(y2)) is Some,
    ensures
        equal(w, fuel, Val::SetRef(x), Val::SetRef(y)) == equal(
            w,
            fuel,
            Val::SetRef(x2),
            Val::SetRef(y2),
        ),
{
    let f = (fuel - 1) as nat;
    law_set_equality(w, fuel, x, y);
    law_set_equality(w, fuel, x2, y2);
    same_members(w.set(x), w.set(x2));
    same_members(w.set(y), w.set(y2));
    same_members(w.set(x2), w.set(x));
    same_members(w.set(y2), w.set(y));
    if equal(w, fuel, Val::SetRef(x), Val::SetRef(y)) == Some(true) {
        found_in_permutation(w, f, w.set(x), w.set(y), w.set(x2), w.set(y2));
    }
    if equal(w, fuel, Val::SetRef(x2), Val::SetRef(y2)) == Some(true) {
        found_in_permutation(w, f, w.set(x2), w.set(y2), w.set(x), w.set(y));
    }
}

proof fn same_members<T>(a: Seq<T>, b: Seq<T>)
    requires
        a.to_multiset() == b.to_multiset(),
    ensures
        a.len() == b.len(),
        forall|v: T| a.contains(v) ==> #[trigger] b.contains(v),
{
    a.to_multiset_ensures();
    b.to_multiset_ensures();
    assert forall|v: T| a.contains(v) implies #[trigger] b.contains(v) by {
        assert(a.to_multiset().count(v) > 0);
    }
}

proof fn found_in_permutation(
    w: World,
    f: nat,
    xs: Seq<Val>,
    ys: Seq<Val>,
    xs2: Seq<Val>,
    ys2: Seq<Val>,
)
    requires
        forall|v: Val| xs2.contains(v) ==> #[trigger] xs.contains(v),
        forall|v: Val| ys.contains(v) ==> #[trigger] ys2.contains(v),
        forall|k: int| 0 <= k < xs.len() ==> one_equals(w, f, #[trigger] xs[k], ys),
    ensures
        forall|k: int| 0 <= k < xs2.len() ==> one_equals(w, f, #[trigger] xs2[k], ys2),
{
    assert forall|k: int| 0 <= k < xs2.len() implies one_equals(w, f, #[trigger] xs2[k], ys2) by {
        assert(xs2.contains(xs2[k]));
        assert(xs.contains(xs2[k]));
        let i = choose|i: int| 0 <= i < xs.len() && xs[i] == xs2[k];
        assert(one_equals(w, f, xs[i], ys));
        let j = choose|j: int|
            0 <= j < ys.len() && equal(w, f, xs[i], #[trigger] ys[j]) == Some(true);
        assert(ys.contains(ys[j]));
        assert(ys2.contains(ys[j]));
        let j2 = choose|j2: int| 0 <= j2 < ys2.len() && ys2[j2] == ys[j];
        assert(equal(w, f, xs2[k], ys2[j2]) == Some(true));
    }
}

proof fn key_place_facts(w: World, fuel: nat, k: Val, ys: Seq<(Val, Val)>, j: nat)
    ensures
        match key_place(w, fuel, k, ys, j) {
            None => true,
            Some(None) => forall|i: int|
                j <= i < ys.len() ==> equal(w, fuel, k, (#[trigger] ys[i]).0) == Some(false),
            Some(Some(at)) => j <= at < ys.len() && equal(w, fuel, k, ys[at as int].0) == Some(
                true,
            ),
        },
    decreases ys.len() - j,
{
    if j < ys.len() {
        key_place_facts(w, fuel, k, ys, j + 1);
    }
}

/// Whether the key and the value of a pair equal those of one of `ys`.
pub open spec fn pair_equals(w: World, fuel: nat, p: (Val, Val), ys: Seq<(Val, Val)>) -> bool {
    exists|j: int|
        0 <= j < ys.len() && equal(w, fuel, p.0, (#[trigger] ys[j]).0) == Some(true) && equal(
            w,
            fuel,
            p.1,
            ys[j].1,
        ) == Some(true)
}

/// Whether a key equals at most one key of `ys`.
pub open spec fn key_is_single(w: World, fuel: nat, k: Val, ys: Seq<(Val, Val)>) -> bool {
    forall|i: int, j: int|
        0 <= i < ys.len() && 0 <= j < ys.len() && equal(w, fuel, k, (#[trigger] ys[i]).0) == Some(
            true,
        ) && equal(w, fuel, k, (#[trigger] ys[j]).0) == Some(true) ==> i == j
}

proof fn pairs_found_facts(w: World, fuel: nat, xs: Seq<(Val, Val)>, ys: Seq<(Val, Val)>, i: nat)
    requires
        forall|k: int| 0 <= k < xs.len() ==> key_is_single(w, fuel, (#[trigger] xs[k]).0, ys),
    ensures
        pairs_found(w, fuel, xs, ys, i) matches Some(b) ==> (b <==> forall|k: int|
            i <= k < xs.len() ==> pair_equals(w, fuel, #[trigger] xs[k], ys)),
    decreases xs.len() - i,
{
    if i < xs.len() {
        let p = xs[i as int];
        key_place_facts(w, fuel, p.0, ys, 0);
        pairs_found_facts(w, fuel, xs, ys, i + 1);
        assert(key_is_single(w, fuel, xs[i as int].0, ys));
        match key_place(w, fuel, p.0, ys, 0) {
            Some(Some(at)) => {
                assert(equal(w, fuel, p.0, ys[at as int].0) == Some(true));
                if equal(w, fuel, p.1, ys[at as int].1) == Some(true) {
                    assert(pair_equals(w, fuel, xs[i as int], ys));
                } else if equal(w, fuel, p.1, ys[at as int].1) == Some(false) {
                    assert(!pair_equals(w, fuel, xs[i as int], ys));
                }
            },
            Some(None) => {
                assert(!pair_equals(w, fuel, xs[i as int], ys));
            },
            None => {},
        }
    }
}

/// Maps of one size are equal if each pair of the first equals one of the second
/// in key and value, whatever the order; no key may equal two of the second.
pub proof fn law_map_equality(w: World, fuel: nat, x: usize, y: usize)
    requires
        fuel > 0,
        forall|k: int|
            0 <= k < w.map(x).len() ==> key_is_single(
                w,
                (fuel - 1) as nat,
                (#[trigger] w.map(x)[k]).0,
                w.map(y),
            ),
    ensures
        equal(w, fuel, Val::MapRef(x), Val::MapRef(y)) matches Some(b) ==> (b <==> w.map(x).len()
            == w.map(y).len() && forall|k: int|
            0 <= k < w.map(x).len() ==> pair_equals(
                w,
                (fuel - 1) as nat,
                #[trigger] w.map(x)[k],
                w.map(y),
            )),
{
    pairs_found_facts(w, (fuel - 1) as nat, w.map(x), w.map(y), 0);
}

/// The order of the pairs of maps does not matter to their equality.
pub proof fn law_map_equality_ignores_order(
    w: World,
    fuel: nat,
    x: usize,
    y: usize,
    x2: usize,
    y2: usize,
)
    requires
        fuel > 0,
        w.map(x).to_multiset() == w.map(x2).to_multiset(),
        w.map(y).to_multiset() == w.map(y2).to_multiset(),
        forall|k: int|
            0 <= k < w.map(x).len() ==> key_is_single(
                w,
                (fuel - 1) as nat,
                (#[trigger] w.map(x)[k]).0,
                w.map(y),
            ),
        forall|k: int|
            0 <= k < w.map(x2).len() ==> key_is_single(
                w,
                (fuel - 1) as nat,
                (#[trigger] w.map(x2)[k]).0,
                w.map(y2),
            ),
        equal(w, fuel, Val::MapRef(x), Val::MapRef(y)) is Some,
        equal(w, fuel, Val::MapRef(x2), Val::MapRef(y2)) is Some,
    ensures
        equal(w, fuel, Val::MapRef(x), Val::MapRef(y)) == equal(
            w,
            fuel,
            Val::MapRef(x2),
            Val::MapRef(y2),
        ),
{
    let f = (fuel - 1) as nat;
    law_map_equality(w, fuel, x, y);
    law_map_equality(w, fuel, x2, y2);
    same_members(w.map(x), w.map(x2));
    same_members(w.map(y), w.map(y2));
    same_members(w.map(x2), w.map(x));
    same_members(w.map(y2), w.map(y));
    if equal(w, fuel, Val::MapRef(x), Val::MapRef(y)) == Some(true) {
        pairs_in_permutation(w, f, w.map(x), w.map(y), w.map(x2), w.map(y2));
    }
    if equal(w, fuel, Val::MapRef(x2), Val::MapRef(y2)) == Some(true) {
        pairs_in_permutation(w, f, w.map(x2), w.map(y2), w.map(x), w.map(y));
    }
}

proof fn pairs_in_permutation(
    w: World,
    f: nat,
    xs: Seq<(Val, Val)>,
    ys: Seq<(Val, Val)>,
    xs2: Seq<(Val, Val)>,
    ys2: Seq<(Val, Val)>,
)
    requires
        forall|p: (Val, Val)| xs2.contains(p) ==> #[trigger] xs.contains(p),
        forall|p: (Val, Val)| ys.contains(p) ==> #[trigger] ys2.contains(p),
        forall|k: int| 0 <= k < xs.len() ==> pair_equals(w, f, #[trigger] xs[k], ys),
    ensures
        forall|k: int| 0 <= k < xs2.len() ==> pair_equals(w, f, #[trigger] xs2[k], ys2),
{
    assert forall|k: int| 0 <= k < xs2.len() implies pair_equals(
        w,
        f,
        #[trigger] xs2[k],
        ys2,
    ) by {
        assert(xs2.contains(xs2[k]));
        assert(xs.contains(xs2[k]));
        let i = choose|i: int| 0 <= i < xs.len() && xs[i] == xs2[k];
        assert(pair_equals(w, f, xs[i], ys));
        let j = choose|j: int|
            0 <= j < ys.len() && equal(w, f, xs[i].0, (#[trigger] ys[j]).0) == Some(true) && equal(
                w,
                f,
                xs[i].1,
                ys[j].1,
            ) == Some(true);
        assert(ys.contains(ys[j]));
        assert(ys2.contains(ys[j]));
        let j2 = choose|j2: int| 0 <= j2 < ys2.len() && ys2[j2] == ys[j];
        assert(equal(w, f, xs2[k].0, ys2[j2].0) == Some(true));
    }
}

} // verus!
