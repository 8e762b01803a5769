//! Lists, maps and sets: lookup, insertion, sums, extremes and sorting, and the
//! arguments of the built-in methods.

use super::float::{Answers, FloatOp, FloatTable};
use super::heap::{pair_vals, State};
use super::ops::{float_arith, float_result};
use super::registry::{Decls, Registry};
use super::show::{compare_values, compared, equal, label_of, type_label, values_equal};
use super::value::{
    fail, failure, lemma_vals_empty, lemma_vals_push, seen, seen_vals, val, vals, Halt, Stop, Val,
    Value, World,
};
use crate::integer::{from_usize, is_negative, sum, to_usize};
use crate::text::{cat2, cat3, count_text, decimal, Order};
use crate::token::Span;
use std::rc::Rc;
use vstd::prelude::*;
use vstd::string::*;

verus! {

broadcast use {lemma_vals_push, lemma_vals_empty};

// ---------------------------------------------------------------------------
// Lookup and insertion
// ---------------------------------------------------------------------------

/// The place of the first item at `j` or after it that equals `x`.
pub open spec fn item_place(
    w: World,
    fuel: nat,
    items: Seq<Val>,
    x: Val,
    j: nat,
) -> Option<Option<nat>>
    decreases items.len() - j,
{
    if j >= items.len() {
        Some(None)
    } else {
        match equal(w, fuel, items[j as int], x) {
            None => None,
            Some(true) => Some(Some(j)),
            Some(false) => item_place(w, fuel, items, x, j + 1),
        }
    }
}

/// The place of the first pair at `j` or after it whose key equals `k`.
pub open spec fn entry_place(
    w: World,
    fuel: nat,
    pairs: Seq<(Val, Val)>,
    k: Val,
    j: nat,
) -> Option<Option<nat>>
    decreases pairs.len() - j,
{
    if j >= pairs.len() {
        Some(None)
    } else {
        match equal(w, fuel, pairs[j as int].0, k) {
            None => None,
            Some(true) => Some(Some(j)),
            Some(false) => entry_place(w, fuel, pairs, k, j + 1),
        }
    }
}

/// A map with one more pair: a key that it has keeps its place and gets the new
/// value; a new one goes to the end.
pub open spec fn put_pair(
    w: World,
    fuel: nat,
    pairs: Seq<(Val, Val)>,
    k: Val,
    v: Val,
) -> Result<Seq<(Val, Val)>, Halt> {
    match entry_place(w, fuel, pairs, k, 0) {
        None => Err(Halt::Budget),
        Some(None) => Ok(pairs.push((k, v))),
        Some(Some(j)) => Ok(pairs.update(j as int, (pairs[j as int].0, v))),
    }
}

/// A set with one more item, unless it has an equal one.
pub open spec fn put_item(w: World, fuel: nat, items: Seq<Val>, x: Val) -> Result<Seq<Val>, Halt> {
    match item_place(w, fuel, items, x, 0) {
        None => Err(Halt::Budget),
        Some(None) => Ok(items.push(x)),
        Some(Some(_)) => Ok(items),
    }
}

/// The place of the first item that equals `x`.
pub fn item_index(state: &State, fuel: u64, items: &Vec<Value>, x: &Value) -> (r: Option<
    Option<usize>,
>)
    ensures
        match r {
            None => item_place(state@, fuel as nat, vals(items@), x@, 0) is None,
            Some(None) => item_place(state@, fuel as nat, vals(items@), x@, 0) == Some(
                None::<nat>,
            ),
            Some(Some(j)) => j < items@.len() && item_place(
                state@,
                fuel as nat,
                vals(items@),
                x@,
                0,
            ) == Some(Some(j as nat)),
        },
{
    let mut j: usize = 0;
    while j < items.len()
        invariant
            j <= items.len(),
            item_place(state@, fuel as nat, vals(items@), x@, j as nat) == item_place(
                state@,
                fuel as nat,
                vals(items@),
                x@,
                0,
            ),
        decreases items.len() - j,
    {
        match values_equal(state, fuel, &items[j], x) {
            None => {
                return None;
            },
            Some(true) => {
                return Some(Some(j));
            },
            Some(false) => {},
        }
        j = j + 1;
    }
    Some(None)
}

/// The place of the first pair whose key equals `k`.
pub fn entry_index(state: &State, fuel: u64, pairs: &Vec<(Value, Value)>, k: &Value) -> (r: Option<
    Option<usize>,
>)
    ensures
        match r {
            None => entry_place(state@, fuel as nat, pair_vals(pairs@), k@, 0) is None,
            Some(None) => entry_place(state@, fuel as nat, pair_vals(pairs@), k@, 0) == Some(
                None::<nat>,
            ),
            Some(Some(j)) => j < pairs@.len() && entry_place(
                state@,
                fuel as nat,
                pair_vals(pairs@),
                k@,
                0,
            ) == Some(Some(j as nat)),
        },
{
    let mut j: usize = 0;
    while j < pairs.len()
        invariant
            j <= pairs.len(),
            entry_place(state@, fuel as nat, pair_vals(pairs@), k@, j as nat) == entry_place(
                state@,
                fuel as nat,
                pair_vals(pairs@),
                k@,
                0,
            ),
        decreases pairs.len() - j,
    {
        match values_equal(state, fuel, &pairs[j].0, k) {
            None => {
                return None;
            },
            Some(true) => {
                return Some(Some(j));
            },
            Some(false) => {},
        }
        j = j + 1;
    }
    Some(None)
}

/// Whether a result that changes a collection says the same as `want`, the
/// collection staying as it was where the change failed.
pub open spec fn changed<T>(r: Result<(), Stop>, old: T, new: T, want: Result<T, Halt>) -> bool {
    match r {
        Ok(_) => want == Ok::<T, Halt>(new),
        Err(s) => want == Err::<T, Halt>(s@) && new == old,
    }
}

/// Insert a pair into a map.
pub fn map_insert(
    state: &State,
    fuel: u64,
    entries: &mut Vec<(Value, Value)>,
    key: Value,
    value: Value,
) -> (r: Result<(), Stop>)
    ensures
        changed(
            r,
            pair_vals(old(entries)@),
            pair_vals(final(entries)@),
            put_pair(state@, fuel as nat, pair_vals(old(entries)@), key@, value@),
        ),
{
    let ghost was = entries@;
    match entry_index(state, fuel, entries, &key) {
        None => Err(Stop::Budget),
        Some(None) => {
            entries.push((key, value));
            assert(pair_vals(entries@) =~= pair_vals(was).push((key@, value@)));
            Ok(())
        },
        Some(Some(j)) => {
            entries[j].1 = value;
            assert(pair_vals(entries@) =~= pair_vals(was).update(
                j as int,
                (pair_vals(was)[j as int].0, value@),
            ));
            Ok(())
        },
    }
}

/// Insert an item into a set.
pub fn set_insert(state: &State, fuel: u64, elems: &mut Vec<Value>, value: Value) -> (r: Result<
    (),
    Stop,
>)
    ensures
        changed(
            r,
            vals(old(elems)@),
            vals(final(elems)@),
            put_item(state@, fuel as nat, vals(old(elems)@), value@),
        ),
{
    match item_index(state, fuel, elems, &value) {
        None => Err(Stop::Budget),
        Some(None) => {
            elems.push(value);
            Ok(())
        },
        Some(Some(_)) => Ok(()),
    }
}

/// The items from place `i` on put into a set one after another.
pub open spec fn put_all(
    w: World,
    fuel: nat,
    set: Seq<Val>,
    items: Seq<Val>,
    i: nat,
) -> Result<Seq<Val>, Halt>
    decreases items.len() - i,
{
    if i >= items.len() {
        Ok(set)
    } else {
        match put_item(w, fuel, set, items[i as int]) {
            Ok(more) => put_all(w, fuel, more, items, i + 1),
            Err(h) => Err(h),
        }
    }
}

/// Put items into a set one after another.
pub fn insert_all(state: &State, fuel: u64, set: Vec<Value>, items: &Vec<Value>) -> (r: Result<
    Vec<Value>,
    Stop,
>)
    ensures
        seen_vals(r) == put_all(state@, fuel as nat, vals(set@), vals(items@), 0),
{
    let ghost start = vals(set@);
    let mut out = set;
    let mut i: usize = 0;
    while i < items.len()
        invariant
            i <= items.len(),
            start == vals(set@),
            put_all(state@, fuel as nat, vals(out@), vals(items@), i as nat) == put_all(
                state@,
                fuel as nat,
                start,
                vals(items@),
                0,
            ),
        decreases items.len() - i,
    {
        match set_insert(state, fuel, &mut out, items[i].clone()) {
            Ok(_) => {},
            Err(s) => {
                return Err(s);
            },
        }
        i = i + 1;
    }
    Ok(out)
}

/// `done`, and then the items from place `i` on that equal one of `other`.
pub open spec fn kept(
    w: World,
    fuel: nat,
    items: Seq<Val>,
    other: Seq<Val>,
    i: nat,
    done: Seq<Val>,
) -> Result<Seq<Val>, Halt>
    decreases items.len() - i,
{
    if i >= items.len() {
        Ok(done)
    } else {
        match item_place(w, fuel, other, items[i as int], 0) {
            None => Err(Halt::Budget),
            Some(None) => kept(w, fuel, items, other, i + 1, done),
            Some(Some(_)) => kept(w, fuel, items, other, i + 1, done.push(items[i as int])),
        }
    }
}

/// The items that equal one of `other`.
pub fn keep_common(state: &State, fuel: u64, items: &Vec<Value>, other: &Vec<Value>) -> (r: Result<
    Vec<Value>,
    Stop,
>)
    ensures
        seen_vals(r) == kept(state@, fuel as nat, vals(items@), vals(other@), 0, Seq::empty()),
{
    let mut out: Vec<Value> = Vec::new();
    let mut i: usize = 0;
    while i < items.len()
        invariant
            i <= items.len(),
            kept(state@, fuel as nat, vals(items@), vals(other@), i as nat, vals(out@)) == kept(
                state@,
                fuel as nat,
                vals(items@),
                vals(other@),
                0,
                Seq::empty(),
            ),
        decreases items.len() - i,
    {
        match item_index(state, fuel, other, &items[i]) {
            None => {
                return Err(Stop::Budget);
            },
            Some(None) => {},
            Some(Some(_)) => {
                out.push(items[i].clone());
            },
        }
        i = i + 1;
    }
    Ok(out)
}

// ---------------------------------------------------------------------------
// Sums, extremes and sorting
// ---------------------------------------------------------------------------

/// `acc` and the integers from place `i` on added up.
pub open spec fn int_sum(items: Seq<Val>, i: nat, acc: int, span: Span) -> Result<Val, Halt>
    decreases items.len() - i,
{
    if i >= items.len() {
        Ok(Val::Int(acc))
    } else {
        match items[i as int] {
            Val::Int(n) => int_sum(items, i + 1, acc + n, span),
            other => Err(
                failure("`sum` cannot add "@ + label_of(other) + " to an Int total"@, span),
            ),
        }
    }
}

/// `acc` and the floats from place `i` on added up by the host.
pub open spec fn float_sum(ans: Answers, items: Seq<Val>, i: nat, acc: u64, span: Span) -> Result<
    Val,
    Halt,
>
    decreases items.len() - i,
{
    if i >= items.len() {
        Ok(Val::Float(acc))
    } else {
        match items[i as int] {
            Val::Float(x) => match float_result(ans, FloatOp::Add, acc, x) {
                Ok(more) => float_sum(ans, items, i + 1, more, span),
                Err(h) => Err(h),
            },
            other => Err(
                failure("`sum` cannot add "@ + label_of(other) + " to a Float total"@, span),
            ),
        }
    }
}

/// The sum of a list: integers only or floats only; nothing sums to zero.
pub open spec fn summed(ans: Answers, items: Seq<Val>, span: Span) -> Result<Val, Halt> {
    if items.len() == 0 {
        Ok(Val::Int(0))
    } else {
        match items[0] {
            Val::Int(_) => int_sum(items, 0, 0, span),
            Val::Float(_) => float_sum(ans, items, 0, 0, span),
            other => Err(failure("`sum` requires numbers, found "@ + label_of(other), span)),
        }
    }
}

fn sum_ints(items: &Vec<Value>, span: Span) -> (r: Result<Value, Stop>)
    ensures
        seen(r) == int_sum(vals(items@), 0, 0, span),
{
    let mut acc = from_usize(0);
    let mut i: usize = 0;
    while i < items.len()
        invariant
            i <= items.len(),
            int_sum(vals(items@), i as nat, acc@, span) == int_sum(vals(items@), 0, 0, span),
        decreases items.len() - i,
    {
        match &items[i] {
            Value::Int(n) => {
                acc = sum(&acc, n);
            },
            other => {
                return Err(
                    fail(
                        cat3("`sum` cannot add ", type_label(other), " to an Int total"),
                        span,
                    ),
                );
            },
        }
        i = i + 1;
    }
    Ok(Value::Int(acc))
}

fn sum_floats(table: &FloatTable, items: &Vec<Value>, span: Span) -> (r: Result<Value, Stop>)
    ensures
        seen(r) == float_sum(table@, vals(items@), 0, 0, span),
{
    let mut acc: u64 = 0;
    let mut i: usize = 0;
    while i < items.len()
        invariant
            i <= items.len(),
            float_sum(table@, vals(items@), i as nat, acc, span) == float_sum(
                table@,
                vals(items@),
                0,
                0,
                span,
            ),
        decreases items.len() - i,
    {
        match &items[i] {
            Value::Float(x) => {
                acc = float_arith(table, FloatOp::Add, acc, *x)?;
            },
            other => {
                return Err(
                    fail(
                        cat3("`sum` cannot add ", type_label(other), " to a Float total"),
                        span,
                    ),
                );
            },
        }
        i = i + 1;
    }
    Ok(Value::Float(acc))
}

/// The sum of a list.
pub fn sum_values(table: &FloatTable, items: &Vec<Value>, span: Span) -> (r: Result<Value, Stop>)
    ensures
        seen(r) == summed(table@, vals(items@), span),
{
    assert(vals(items@).len() == items@.len());
    if items.len() == 0 {
        return Ok(Value::Int(from_usize(0)));
    }
    match &items[0] {
        Value::Int(_) => sum_ints(items, span),
        Value::Float(_) => sum_floats(table, items, span),
        other => Err(fail(cat2("`sum` requires numbers, found ", type_label(other)), span)),
    }
}

/// The best of `best` and the items from place `i` on: a later item replaces it
/// only where it orders as `want` against it.
pub open spec fn best_from(
    reg: Decls,
    w: World,
    fuel: nat,
    items: Seq<Val>,
    i: nat,
    best: Val,
    want: Order,
    span: Span,
) -> Result<Val, Halt>
    decreases items.len() - i,
{
    if i >= items.len() {
        Ok(best)
    } else {
        match compared(reg, w, fuel, items[i as int], best, span) {
            Ok(o) => best_from(
                reg,
                w,
                fuel,
                items,
                i + 1,
                if o == want {
                    items[i as int]
                } else {
                    best
                },
                want,
                span,
            ),
            Err(h) => Err(h),
        }
    }
}

/// The smallest item (`Less`) or the greatest (`Greater`) of a list, the first of
/// several; an empty list has none.
pub open spec fn extreme_of(
    reg: Decls,
    w: World,
    fuel: nat,
    items: Seq<Val>,
    want: Order,
    span: Span,
) -> Result<Val, Halt> {
    if items.len() == 0 {
        Err(
            failure(
                "`"@ + (if want == Order::Less {
                    "min"@
                } else {
                    "max"@
                }) + "` on an empty list has no result"@,
                span,
            ),
        )
    } else {
        best_from(reg, w, fuel, items, 1, items[0], want, span)
    }
}

/// The smallest or the greatest item of a list.
pub fn extreme(
    state: &State,
    reg: &Registry,
    fuel: u64,
    items: &Vec<Value>,
    want: Order,
    span: Span,
) -> (r: Result<Value, Stop>)
    ensures
        seen(r) == extreme_of(reg@, state@, fuel as nat, vals(items@), want, span),
{
    assert(vals(items@).len() == items@.len());
    if items.len() == 0 {
        let label = if want == Order::Less {
            "min"
        } else {
            "max"
        };
        return Err(fail(cat3("`", label, "` on an empty list has no result"), span));
    }
    let mut best = items[0].clone();
    let mut i: usize = 1;
    while i < items.len()
        invariant
            1 <= i <= items.len(),
            best_from(reg@, state@, fuel as nat, vals(items@), i as nat, best@, want, span)
                == best_from(
                reg@,
                state@,
                fuel as nat,
                vals(items@),
                1,
                vals(items@)[0],
                want,
                span,
            ),
        decreases items.len() - i,
    {
        let o = match compare_values(state, reg, fuel, &items[i], &best, span) {
            Ok(o) => o,
            Err(s) => {
                return Err(s);
            },
        };
        if o == want {
            best = items[i].clone();
        }
        i = i + 1;
    }
    Ok(best)
}

/// Where `x` goes among the first `k` items, which are in order: behind the last
/// of them that it does not come before.
pub open spec fn insert_place(
    reg: Decls,
    w: World,
    fuel: nat,
    done: Seq<Val>,
    x: Val,
    k: nat,
    span: Span,
) -> Result<nat, Halt>
    decreases k,
{
    if k == 0 || k > done.len() {
        Ok(0)
    } else {
        match compared(reg, w, fuel, x, done[k - 1], span) {
            Ok(Order::Less) => insert_place(reg, w, fuel, done, x, (k - 1) as nat, span),
            Ok(_) => Ok(k),
            Err(h) => Err(h),
        }
    }
}

/// `done`, which is in order, with the items from place `i` on put in their
/// places.
pub open spec fn sorted_from(
    reg: Decls,
    w: World,
    fuel: nat,
    items: Seq<Val>,
    i: nat,
    done: Seq<Val>,
    span: Span,
) -> Result<Seq<Val>, Halt>
    decreases items.len() - i,
{
    if i >= items.len() {
        Ok(done)
    } else {
        match insert_place(reg, w, fuel, done, items[i as int], done.len(), span) {
            Ok(at) => sorted_from(
                reg,
                w,
                fuel,
                items,
                i + 1,
                done.insert(at as int, items[i as int]),
                span,
            ),
            Err(h) => Err(h),
        }
    }
}

/// The items in ascending order, equal ones in the order they had.
pub open spec fn sorted(reg: Decls, w: World, fuel: nat, items: Seq<Val>, span: Span) -> Result<
    Seq<Val>,
    Halt,
> {
    sorted_from(reg, w, fuel, items, 0, Seq::empty(), span)
}

fn place_for(
    state: &State,
    reg: &Registry,
    fuel: u64,
    done: &Vec<Value>,
    x: &Value,
    span: Span,
) -> (r: Result<usize, Stop>)
    ensures
        match r {
            Ok(at) => at <= done@.len() && insert_place(
                reg@,
                state@,
                fuel as nat,
                vals(done@),
                x@,
                done@.len(),
                span,
            ) == Ok::<nat, Halt>(at as nat),
            Err(s) => insert_place(
                reg@,
                state@,
                fuel as nat,
                vals(done@),
                x@,
                done@.len(),
                span,
            ) == Err::<nat, Halt>(s@),
        },
{
    let mut k: usize = done.len();
    while k > 0
        invariant
            k <= done.len(),
            insert_place(reg@, state@, fuel as nat, vals(done@), x@, k as nat, span)
                == insert_place(
                reg@,
                state@,
                fuel as nat,
                vals(done@),
                x@,
                done@.len(),
                span,
            ),
        decreases k,
    {
        match compare_values(state, reg, fuel, x, &done[k - 1], span) {
            Ok(Order::Less) => {},
            Ok(_) => {
                return Ok(k);
            },
            Err(s) => {
                return Err(s);
            },
        }
        k = k - 1;
    }
    Ok(0)
}

/// Sort values in ascending order, keeping the order of equal ones. The first
/// two values that do not order against each other are the error.
pub fn sort_values(
    state: &State,
    reg: &Registry,
    fuel: u64,
    items: &Vec<Value>,
    span: Span,
) -> (r: Result<Vec<Value>, Stop>)
    ensures
        seen_vals(r) == sorted(reg@, state@, fuel as nat, vals(items@), span),
{
    let mut done: Vec<Value> = Vec::new();
    let mut i: usize = 0;
    while i < items.len()
        invariant
            i <= items.len(),
            sorted_from(
                reg@,
                state@,
                fuel as nat,
                vals(items@),
                i as nat,
                vals(done@),
                span,
            ) == sorted(reg@, state@, fuel as nat, vals(items@), span),
        decreases items.len() - i,
    {
        let at = match place_for(state, reg, fuel, &done, &items[i], span) {
            Ok(at) => at,
            Err(s) => {
                return Err(s);
            },
        };
        let ghost was = done@;
        done.insert(at, items[i].clone());
        assert(vals(done@) =~= vals(was).insert(at as int, val(items@[i as int])));
        i = i + 1;
    }
    Ok(done)
}

// ---------------------------------------------------------------------------
// Reshaping
// ---------------------------------------------------------------------------

/// The first `n` items.
pub open spec fn taken(items: Seq<Val>, n: nat) -> Seq<Val> {
    if n < items.len() {
        items.take(n as int)
    } else {
        items
    }
}

/// The items behind the first `n`.
pub open spec fn skipped(items: Seq<Val>, n: nat) -> Seq<Val> {
    if n < items.len() {
        items.skip(n as int)
    } else {
        Seq::empty()
    }
}

/// Each item in a pair behind its place.
pub open spec fn enumerated(items: Seq<Val>) -> Seq<Val> {
    Seq::new(items.len(), |i: int| Val::Tuple(seq![Val::Int(i), items[i]]))
}

/// Pairs of the items at one place, up to the end of the shorter list.
pub open spec fn zipped(xs: Seq<Val>, ys: Seq<Val>) -> Seq<Val> {
    Seq::new(
        if xs.len() < ys.len() {
            xs.len()
        } else {
            ys.len()
        },
        |i: int| Val::Tuple(seq![xs[i], ys[i]]),
    )
}

/// The keys of a map.
pub open spec fn keys_of(pairs: Seq<(Val, Val)>) -> Seq<Val> {
    Seq::new(pairs.len(), |i: int| pairs[i].0)
}

/// The values of a map.
pub open spec fn values_of(pairs: Seq<(Val, Val)>) -> Seq<Val> {
    Seq::new(pairs.len(), |i: int| pairs[i].1)
}

/// The pairs of a map, as tuples.
pub open spec fn entries_of(pairs: Seq<(Val, Val)>) -> Seq<Val> {
    Seq::new(pairs.len(), |i: int| Val::Tuple(seq![pairs[i].0, pairs[i].1]))
}

/// A tuple of two.
pub fn pair_value(a: Value, b: Value) -> (r: Value)
    ensures
        r@ == Val::Tuple(seq![a@, b@]),
{
    let mut items: Vec<Value> = Vec::new();
    items.push(a);
    items.push(b);
    assert(vals(items@) =~= seq![a@, b@]);
    Value::Tuple(Rc::new(items))
}

/// A copy of the items from `from` to `to`.
fn slice_values(items: &Vec<Value>, from: usize, to: usize) -> (r: Vec<Value>)
    requires
        from <= to <= items@.len(),
    ensures
        vals(r@) == vals(items@).subrange(from as int, to as int),
{
    let mut out: Vec<Value> = Vec::new();
    let mut i: usize = from;
    while i < to
        invariant
            from <= i <= to <= items@.len(),
            vals(out@) == vals(items@).subrange(from as int, i as int),
        decreases to - i,
    {
        out.push(items[i].clone());
        i = i + 1;
        assert(vals(items@).subrange(from as int, i as int) =~= vals(items@).subrange(
            from as int,
            i - 1,
        ).push(vals(items@)[i - 1]));
    }
    out
}

pub fn take_values(items: &Vec<Value>, n: usize) -> (r: Vec<Value>)
    ensures
        vals(r@) == taken(vals(items@), n as nat),
{
    let to: usize = if n < items.len() {
        n
    } else {
        items.len()
    };
    let r = slice_values(items, 0, to);
    assert(vals(items@).subrange(0, to as int) =~= taken(vals(items@), n as nat));
    r
}

pub fn skip_values(items: &Vec<Value>, n: usize) -> (r: Vec<Value>)
    ensures
        vals(r@) == skipped(vals(items@), n as nat),
{
    let from: usize = if n < items.len() {
        n
    } else {
        items.len()
    };
    let r = slice_values(items, from, items.len());
    assert(vals(items@).subrange(from as int, items@.len() as int) =~= skipped(
        vals(items@),
        n as nat,
    ));
    r
}

pub fn enumerate_values(items: &Vec<Value>) -> (r: Vec<Value>)
    ensures
        vals(r@) == enumerated(vals(items@)),
{
    let mut out: Vec<Value> = Vec::new();
    let mut i: usize = 0;
    while i < items.len()
        invariant
            i <= items.len(),
            vals(out@) == enumerated(vals(items@)).take(i as int),
        decreases items.len() - i,
    {
        out.push(pair_value(Value::Int(from_usize(i)), items[i].clone()));
        i = i + 1;
        assert(enumerated(vals(items@)).take(i as int) =~= enumerated(vals(items@)).take(
            i - 1,
        ).push(enumerated(vals(items@))[i - 1]));
    }
    assert(enumerated(vals(items@)).take(i as int) =~= enumerated(vals(items@)));
    out
}

pub fn zip_values(xs: &Vec<Value>, ys: &Vec<Value>) -> (r: Vec<Value>)
    ensures
        vals(r@) == zipped(vals(xs@), vals(ys@)),
{
    let mut out: Vec<Value> = Vec::new();
    let mut i: usize = 0;
    let ghost all = zipped(vals(xs@), vals(ys@));
    while i < xs.len() && i < ys.len()
        invariant
            i <= xs.len(),
            i <= ys.len(),
            all == zipped(vals(xs@), vals(ys@)),
            vals(out@) == all.take(i as int),
        decreases xs.len() - i,
    {
        out.push(pair_value(xs[i].clone(), ys[i].clone()));
        i = i + 1;
        assert(all.take(i as int) =~= all.take(i - 1).push(all[i - 1]));
    }
    assert(all.take(i as int) =~= all);
    out
}

pub fn reverse_values(items: &Vec<Value>) -> (r: Vec<Value>)
    ensures
        vals(r@) == vals(items@).reverse(),
{
    let mut out: Vec<Value> = Vec::new();
    let mut n: usize = items.len();
    let ghost all = vals(items@).reverse();
    while n > 0
        invariant
            n <= items.len(),
            all == vals(items@).reverse(),
            vals(out@) == all.take(items@.len() - n),
        decreases n,
    {
        out.push(items[n - 1].clone());
        n = n - 1;
        assert(all.take(items@.len() - n) =~= all.take(items@.len() - n - 1).push(
            all[items@.len() - n - 1],
        ));
    }
    assert(all.take(items@.len() as int) =~= all);
    out
}

pub fn map_keys(pairs: &Vec<(Value, Value)>) -> (r: Vec<Value>)
    ensures
        vals(r@) == keys_of(pair_vals(pairs@)),
{
    let mut out: Vec<Value> = Vec::new();
    let mut i: usize = 0;
    let ghost all = keys_of(pair_vals(pairs@));
    while i < pairs.len()
        invariant
            i <= pairs.len(),
            all == keys_of(pair_vals(pairs@)),
            vals(out@) == all.take(i as int),
        decreases pairs.len() - i,
    {
        out.push(pairs[i].0.clone());
        i = i + 1;
        assert(all.take(i as int) =~= all.take(i - 1).push(all[i - 1]));
    }
    assert(all.take(i as int) =~= all);
    out
}

pub fn map_values(pairs: &Vec<(Value, Value)>) -> (r: Vec<Value>)
    ensures
        vals(r@) == values_of(pair_vals(pairs@)),
{
    let mut out: Vec<Value> = Vec::new();
    let mut i: usize = 0;
    let ghost all = values_of(pair_vals(pairs@));
    while i < pairs.len()
        invariant
            i <= pairs.len(),
            all == values_of(pair_vals(pairs@)),
            vals(out@) == all.take(i as int),
        decreases pairs.len() - i,
    {
        out.push(pairs[i].1.clone());
        i = i + 1;
        assert(all.take(i as int) =~= all.take(i - 1).push(all[i - 1]));
    }
    assert(all.take(i as int) =~= all);
    out
}

pub fn map_entries(pairs: &Vec<(Value, Value)>) -> (r: Vec<Value>)
    ensures
        vals(r@) == entries_of(pair_vals(pairs@)),
{
    let mut out: Vec<Value> = Vec::new();
    let mut i: usize = 0;
    let ghost all = entries_of(pair_vals(pairs@));
    while i < pairs.len()
        invariant
            i <= pairs.len(),
            all == entries_of(pair_vals(pairs@)),
            vals(out@) == all.take(i as int),
        decreases pairs.len() - i,
    {
        out.push(pair_value(pairs[i].0.clone(), pairs[i].1.clone()));
        i = i + 1;
        assert(all.take(i as int) =~= all.take(i - 1).push(all[i - 1]));
    }
    assert(all.take(i as int) =~= all);
    out
}

// ---------------------------------------------------------------------------
// Arguments of the built-in methods
// ---------------------------------------------------------------------------

/// No argument at all.
pub open spec fn no_args(name: Seq<char>, args: Seq<Val>, span: Span) -> Result<(), Halt> {
    if args.len() == 0 {
        Ok(())
    } else {
        Err(failure("`"@ + name + "` takes no arguments, got "@ + decimal(args.len()), span))
    }
}

/// Exactly one argument.
pub open spec fn one_arg(name: Seq<char>, args: Seq<Val>, span: Span) -> Result<Val, Halt> {
    if args.len() != 1 {
        Err(
            failure(
                "`"@ + name + "` takes exactly one argument, got "@ + decimal(args.len()),
                span,
            ),
        )
    } else {
        Ok(args[0])
    }
}

/// Exactly two arguments.
pub open spec fn two_args(name: Seq<char>, args: Seq<Val>, span: Span) -> Result<(Val, Val), Halt> {
    if args.len() != 2 {
        Err(
            failure(
                "`"@ + name + "` takes exactly two arguments, got "@ + decimal(args.len()),
                span,
            ),
        )
    } else {
        Ok((args[0], args[1]))
    }
}

/// Require no argument.
pub fn arg0(name: &str, args: &Vec<Value>, span: Span) -> (r: Result<(), Stop>)
    ensures
        seen(r) == no_args(name@, vals(args@), span),
{
    assert(vals(args@).len() == args@.len());
    if args.len() == 0 {
        Ok(())
    } else {
        Err(
            fail(
                cat2(
                    cat3("`", name, "` takes no arguments, got ").as_str(),
                    count_text(args.len()).as_str(),
                ),
                span,
            ),
        )
    }
}

/// Require exactly one argument.
pub fn arg1(name: &str, args: &Vec<Value>, span: Span) -> (r: Result<Value, Stop>)
    ensures
        seen(r) == one_arg(name@, vals(args@), span),
{
    assert(vals(args@).len() == args@.len());
    if args.len() != 1 {
        return Err(
            fail(
                cat2(
                    cat3("`", name, "` takes exactly one argument, got ").as_str(),
                    count_text(args.len()).as_str(),
                ),
                span,
            ),
        );
    }
    Ok(args[0].clone())
}

/// Require exactly two arguments.
pub fn arg2(name: &str, args: &Vec<Value>, span: Span) -> (r: Result<(Value, Value), Stop>)
    ensures
        seen(r) == two_args(name@, vals(args@), span),
{
    assert(vals(args@).len() == args@.len());
    if args.len() != 2 {
        return Err(
            fail(
                cat2(
                    cat3("`", name, "` takes exactly two arguments, got ").as_str(),
                    count_text(args.len()).as_str(),
                ),
                span,
            ),
        );
    }
    Ok((args[0].clone(), args[1].clone()))
}

/// The place of a list argument.
pub open spec fn list_arg(v: Val, method: Seq<char>, span: Span) -> Result<usize, Halt> {
    match v {
        Val::List(at) => Ok(at),
        other => Err(
            failure("`"@ + method + "` expects a List argument, found "@ + label_of(other), span),
        ),
    }
}

/// The place of a set argument.
pub open spec fn set_arg(v: Val, method: Seq<char>, span: Span) -> Result<usize, Halt> {
    match v {
        Val::SetRef(at) => Ok(at),
        other => Err(
            failure("`"@ + method + "` expects a Set argument, found "@ + label_of(other), span),
        ),
    }
}

/// A count: a negative one counts as zero, one that is too large as the largest.
pub open spec fn count_arg(v: Val, method: Seq<char>, span: Span) -> Result<usize, Halt> {
    match v {
        Val::Int(n) => Ok(
            if n < 0 {
                0
            } else if n <= usize::MAX {
                n as usize
            } else {
                usize::MAX
            },
        ),
        other => Err(
            failure("`"@ + method + "` expects an Int count, found "@ + label_of(other), span),
        ),
    }
}

pub fn as_list(v: &Value, method: &str, span: Span) -> (r: Result<usize, Stop>)
    ensures
        seen(r) == list_arg(v@, method@, span),
{
    match v {
        Value::List(at) => Ok(*at),
        other => Err(
            fail(
                cat2(
                    cat3("`", method, "` expects a List argument, found ").as_str(),
                    type_label(other),
                ),
                span,
            ),
        ),
    }
}

pub fn as_set(v: &Value, method: &str, span: Span) -> (r: Result<usize, Stop>)
    ensures
        seen(r) == set_arg(v@, method@, span),
{
    match v {
        Value::SetRef(at) => Ok(*at),
        other => Err(
            fail(
                cat2(
                    cat3("`", method, "` expects a Set argument, found ").as_str(),
                    type_label(other),
                ),
                span,
            ),
        ),
    }
}

pub fn as_count(v: &Value, method: &str, span: Span) -> (r: Result<usize, Stop>)
    ensures
        seen(r) == count_arg(v@, method@, span),
{
    match v {
        Value::Int(n) => Ok(
            match to_usize(n) {
                Some(k) => k,
                None => if is_negative(n) {
                    0
                } else {
                    usize::MAX
                },
            },
        ),
        other => Err(
            fail(
                cat2(
                    cat3("`", method, "` expects an Int count, found ").as_str(),
                    type_label(other),
                ),
                span,
            ),
        ),
    }
}

} // verus!
