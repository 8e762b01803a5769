//! Laws of the built-in methods of lists, maps, sets and texts.

use super::collections::{
    entry_place, insert_place, int_sum, item_place, keys_of, put_all, put_item, sorted, sorted_from,
    values_of,
};
use super::semantics::{
    applied, builtin_method_called, filtered, folded, list_callback, list_called, map_called,
    mapped, method_args_evaluated, predicate, set_called, sought, str_called,
};
use super::registry::Decls;
use super::show::{compared, equal};
use super::value::{Env, Halt, Val, World};
use super::Cx;
use crate::ast::Arg;
use crate::text::Order;
use crate::token::Span;
use vstd::prelude::*;
use vstd::string::*;

verus! {

/// The names of the methods, letter by letter.
proof fn method_names()
    ensures
        "fold"@.len() == 4,
        "fold"@[0] == 'f' && "fold"@[1] == 'o' && "fold"@[2] == 'l' && "fold"@[3] == 'd',
        "map"@.len() == 3,
        "map"@[0] == 'm' && "map"@[1] == 'a' && "map"@[2] == 'p',
        "filter"@.len() == 6,
        "filter"@[0] == 'f' && "filter"@[1] == 'i' && "filter"@[2] == 'l' && "filter"@[3] == 't'
            && "filter"@[4] == 'e' && "filter"@[5] == 'r',
        "reduce"@.len() == 6,
        "reduce"@[0] == 'r' && "reduce"@[1] == 'e' && "reduce"@[2] == 'd' && "reduce"@[3] == 'u'
            && "reduce"@[4] == 'c' && "reduce"@[5] == 'e',
        "any"@.len() == 3,
        "any"@[0] == 'a' && "any"@[1] == 'n' && "any"@[2] == 'y',
        "all"@.len() == 3,
        "all"@[0] == 'a' && "all"@[1] == 'l' && "all"@[2] == 'l',
        "find"@.len() == 4,
        "find"@[0] == 'f' && "find"@[1] == 'i' && "find"@[2] == 'n' && "find"@[3] == 'd',
        "contains"@.len() == 8,
        "contains"@[0] == 'c' && "contains"@[1] == 'o' && "contains"@[2] == 'n'
            && "contains"@[3] == 't' && "contains"@[4] == 'a' && "contains"@[5] == 'i'
            && "contains"@[6] == 'n' && "contains"@[7] == 's',
        "take"@.len() == 4,
        "take"@[0] == 't' && "take"@[1] == 'a' && "take"@[2] == 'k' && "take"@[3] == 'e',
        "skip"@.len() == 4,
        "skip"@[0] == 's' && "skip"@[1] == 'k' && "skip"@[2] == 'i' && "skip"@[3] == 'p',
        "zip"@.len() == 3,
        "zip"@[0] == 'z' && "zip"@[1] == 'i' && "zip"@[2] == 'p',
        "append"@.len() == 6,
        "append"@[0] == 'a' && "append"@[1] == 'p' && "append"@[2] == 'p' && "append"@[3] == 'e'
            && "append"@[4] == 'n' && "append"@[5] == 'd',
        "sum"@.len() == 3,
        "sum"@[0] == 's' && "sum"@[1] == 'u' && "sum"@[2] == 'm',
        "count"@.len() == 5,
        "count"@[0] == 'c' && "count"@[1] == 'o' && "count"@[2] == 'u' && "count"@[3] == 'n'
            && "count"@[4] == 't',
        "len"@.len() == 3,
        "len"@[0] == 'l' && "len"@[1] == 'e' && "len"@[2] == 'n',
        "is_empty"@.len() == 8,
        "is_empty"@[0] == 'i' && "is_empty"@[1] == 's' && "is_empty"@[2] == '_'
            && "is_empty"@[3] == 'e' && "is_empty"@[4] == 'm' && "is_empty"@[5] == 'p'
            && "is_empty"@[6] == 't' && "is_empty"@[7] == 'y',
        "first"@.len() == 5,
        "first"@[0] == 'f' && "first"@[1] == 'i' && "first"@[2] == 'r' && "first"@[3] == 's'
            && "first"@[4] == 't',
        "last"@.len() == 4,
        "last"@[0] == 'l' && "last"@[1] == 'a' && "last"@[2] == 's' && "last"@[3] == 't',
        "min"@.len() == 3,
        "min"@[0] == 'm' && "min"@[1] == 'i' && "min"@[2] == 'n',
        "max"@.len() == 3,
        "max"@[0] == 'm' && "max"@[1] == 'a' && "max"@[2] == 'x',
        "enumerate"@.len() == 9,
        "enumerate"@[0] == 'e' && "enumerate"@[1] == 'n' && "enumerate"@[2] == 'u'
            && "enumerate"@[3] == 'm' && "enumerate"@[4] == 'e' && "enumerate"@[5] == 'r'
            && "enumerate"@[6] == 'a' && "enumerate"@[7] == 't' && "enumerate"@[8] == 'e',
        "reverse"@.len() == 7,
        "reverse"@[0] == 'r' && "reverse"@[1] == 'e' && "reverse"@[2] == 'v'
            && "reverse"@[3] == 'e' && "reverse"@[4] == 'r' && "reverse"@[5] == 's'
            && "reverse"@[6] == 'e',
        "sorted"@.len() == 6,
        "sorted"@[0] == 's' && "sorted"@[1] == 'o' && "sorted"@[2] == 'r' && "sorted"@[3] == 't'
            && "sorted"@[4] == 'e' && "sorted"@[5] == 'd',
        "sort"@.len() == 4,
        "sort"@[0] == 's' && "sort"@[1] == 'o' && "sort"@[2] == 'r' && "sort"@[3] == 't',
        "collect"@.len() == 7,
        "collect"@[0] == 'c' && "collect"@[1] == 'o' && "collect"@[2] == 'l'
            && "collect"@[3] == 'l' && "collect"@[4] == 'e' && "collect"@[5] == 'c'
            && "collect"@[6] == 't',
        "pop_last"@.len() == 8,
        "pop_last"@[0] == 'p' && "pop_last"@[1] == 'o' && "pop_last"@[2] == 'p'
            && "pop_last"@[3] == '_' && "pop_last"@[4] == 'l' && "pop_last"@[5] == 'a'
            && "pop_last"@[6] == 's' && "pop_last"@[7] == 't',
        "insert"@.len() == 6,
        "insert"@[0] == 'i' && "insert"@[1] == 'n' && "insert"@[2] == 's' && "insert"@[3] == 'e'
            && "insert"@[4] == 'r' && "insert"@[5] == 't',
        "get"@.len() == 3,
        "get"@[0] == 'g' && "get"@[1] == 'e' && "get"@[2] == 't',
        "has"@.len() == 3,
        "has"@[0] == 'h' && "has"@[1] == 'a' && "has"@[2] == 's',
        "keys"@.len() == 4,
        "keys"@[0] == 'k' && "keys"@[1] == 'e' && "keys"@[2] == 'y' && "keys"@[3] == 's',
        "values"@.len() == 6,
        "values"@[0] == 'v' && "values"@[1] == 'a' && "values"@[2] == 'l' && "values"@[3] == 'u'
            && "values"@[4] == 'e' && "values"@[5] == 's',
        "items"@.len() == 5,
        "items"@[0] == 'i' && "items"@[1] == 't' && "items"@[2] == 'e' && "items"@[3] == 'm'
            && "items"@[4] == 's',
        "union"@.len() == 5,
        "union"@[0] == 'u' && "union"@[1] == 'n' && "union"@[2] == 'i' && "union"@[3] == 'o'
            && "union"@[4] == 'n',
        "intersect"@.len() == 9,
        "intersect"@[0] == 'i' && "intersect"@[1] == 'n' && "intersect"@[2] == 't'
            && "intersect"@[3] == 'e' && "intersect"@[4] == 'r' && "intersect"@[5] == 's'
            && "intersect"@[6] == 'e' && "intersect"@[7] == 'c' && "intersect"@[8] == 't',
{
    reveal_strlit("fold");
    reveal_strlit("map");
    reveal_strlit("filter");
    reveal_strlit("reduce");
    reveal_strlit("any");
    reveal_strlit("all");
    reveal_strlit("find");
    reveal_strlit("contains");
    reveal_strlit("take");
    reveal_strlit("skip");
    reveal_strlit("zip");
    reveal_strlit("append");
    reveal_strlit("sum");
    reveal_strlit("count");
    reveal_strlit("len");
    reveal_strlit("is_empty");
    reveal_strlit("first");
    reveal_strlit("last");
    reveal_strlit("min");
    reveal_strlit("max");
    reveal_strlit("enumerate");
    reveal_strlit("reverse");
    reveal_strlit("sorted");
    reveal_strlit("sort");
    reveal_strlit("collect");
    reveal_strlit("pop_last");
    reveal_strlit("insert");
    reveal_strlit("get");
    reveal_strlit("has");
    reveal_strlit("keys");
    reveal_strlit("values");
    reveal_strlit("items");
    reveal_strlit("union");
    reveal_strlit("intersect");
}

// ---------------------------------------------------------------------------
// Methods that call back
// ---------------------------------------------------------------------------

/// Whether a function, called on each of the first `k` items in turn, gives these
/// values.
pub open spec fn calls_give(
    cx: Cx,
    fuel: nat,
    g: Val,
    items: Seq<Val>,
    span: Span,
    ws: Seq<World>,
    vs: Seq<Val>,
    k: nat,
) -> bool {
    k <= items.len() && ws.len() == k + 1 && vs.len() == k && forall|j: int, n: int|
        #![trigger ws[j], ws[n]]
        0 <= j < k && n == j + 1 ==> applied(cx, fuel, g, seq![items[j]], span, ws[j]) == (
            Ok::<Val, Halt>(vs[j]),
            ws[n],
        )
}

proof fn to_mapped(
    cx: Cx,
    fuel: nat,
    g: Val,
    items: Seq<Val>,
    span: Span,
    ws: Seq<World>,
    vs: Seq<Val>,
    k: nat,
    i: nat,
)
    requires
        calls_give(cx, fuel, g, items, span, ws, vs, k),
        i <= k,
    ensures
        mapped(cx, fuel, g, items, i, vs.take(i as int), span, ws[i as int]) == mapped(
            cx,
            fuel,
            g,
            items,
            k,
            vs,
            span,
            ws[k as int],
        ),
    decreases k - i,
{
    if i < k {
        let n = i as int + 1;
        assert(applied(cx, fuel, g, seq![items[i as int]], span, ws[i as int]) == (
            Ok::<Val, Halt>(vs[i as int]),
            ws[n],
        ));
        assert(vs.take(n) =~= vs.take(i as int).push(vs[i as int]));
        to_mapped(cx, fuel, g, items, span, ws, vs, k, i + 1);
    } else {
        assert(vs.take(i as int) =~= vs);
    }
}

/// `xs.map(f)` calls `f` on each item in order and is a new list of what it gives; the
/// first call that ends in an error ends it.
pub proof fn law_map_method(
    cx: Cx,
    fuel: nat,
    at: usize,
    g: Val,
    span: Span,
    ws: Seq<World>,
    vs: Seq<Val>,
    k: nat,
)
    requires
        ws.len() > 0,
        calls_give(cx, fuel, g, ws[0].list(at), span, ws, vs, k),
    ensures
        k == ws[0].list(at).len() ==> list_called(cx, fuel, at, "map"@, seq![g], span, ws[0]) == (
            Ok::<Val, Halt>(Val::List(ws.last().next_list())),
            ws.last().add_list(vs),
        ),
        k < ws[0].list(at).len() ==> {
            let call = applied(
                cx,
                fuel,
                g,
                seq![ws[0].list(at)[k as int]],
                span,
                ws.last(),
            );
            call.0 is Err ==> list_called(cx, fuel, at, "map"@, seq![g], span, ws[0]) == call
        },
{
    method_names();
    let items = ws[0].list(at);
    assert(vs.take(0) =~= Seq::<Val>::empty());
    to_mapped(cx, fuel, g, items, span, ws, vs, k, 0);
    let got = mapped(cx, fuel, g, items, 0, Seq::empty(), span, ws[0]);
    assert(list_callback(cx, fuel, at, "map"@, seq![g], span, ws[0]) is Some);
    assert(k == items.len() ==> got == (Ok::<Seq<Val>, Halt>(vs), ws.last()));
}

/// Whether a predicate, called on each of the first `k` items in turn, gives these
/// Booleans.
pub open spec fn tests_give(
    cx: Cx,
    fuel: nat,
    p: Val,
    items: Seq<Val>,
    span: Span,
    ws: Seq<World>,
    bs: Seq<bool>,
    k: nat,
) -> bool {
    k <= items.len() && ws.len() == k + 1 && bs.len() == k && forall|j: int, n: int|
        #![trigger ws[j], ws[n]]
        0 <= j < k && n == j + 1 ==> applied(cx, fuel, p, seq![items[j]], span, ws[j]) == (
            Ok::<Val, Halt>(Val::Bool(bs[j])),
            ws[n],
        )
}

/// The items of the first `k` for which the Boolean at their place is true, in order.
pub open spec fn chosen(items: Seq<Val>, bs: Seq<bool>, k: nat) -> Seq<Val>
    decreases k,
{
    if k == 0 {
        Seq::empty()
    } else if bs[k - 1] {
        chosen(items, bs, (k - 1) as nat).push(items[k - 1])
    } else {
        chosen(items, bs, (k - 1) as nat)
    }
}

proof fn test_gives(
    cx: Cx,
    fuel: nat,
    p: Val,
    item: Val,
    span: Span,
    w: World,
    b: bool,
    after: World,
)
    requires
        applied(cx, fuel, p, seq![item], span, w) == (Ok::<Val, Halt>(Val::Bool(b)), after),
    ensures
        predicate(cx, fuel, p, item, span, w) == (Ok::<bool, Halt>(b), after),
{
}

proof fn to_filtered(
    cx: Cx,
    fuel: nat,
    p: Val,
    items: Seq<Val>,
    span: Span,
    ws: Seq<World>,
    bs: Seq<bool>,
    k: nat,
    i: nat,
)
    requires
        tests_give(cx, fuel, p, items, span, ws, bs, k),
        i <= k,
    ensures
        filtered(cx, fuel, p, items, i, chosen(items, bs, i), span, ws[i as int]) == filtered(
            cx,
            fuel,
            p,
            items,
            k,
            chosen(items, bs, k),
            span,
            ws[k as int],
        ),
    decreases k - i,
{
    if i < k {
        let n = i as int + 1;
        let (here, next) = (ws[i as int], ws[n]);
        assert(applied(cx, fuel, p, seq![items[i as int]], span, here) == (
            Ok::<Val, Halt>(Val::Bool(bs[i as int])),
            next,
        ));
        test_gives(cx, fuel, p, items[i as int], span, here, bs[i as int], next);
        to_filtered(cx, fuel, p, items, span, ws, bs, k, i + 1);
    }
}

/// `xs.filter(p)` calls `p` on each item in order and is a new list of the items for
/// which it gives `true`, in their order.
pub proof fn law_filter_method(
    cx: Cx,
    fuel: nat,
    at: usize,
    p: Val,
    span: Span,
    ws: Seq<World>,
    bs: Seq<bool>,
)
    requires
        ws.len() > 0,
        tests_give(cx, fuel, p, ws[0].list(at), span, ws, bs, ws[0].list(at).len()),
    ensures
        list_called(cx, fuel, at, "filter"@, seq![p], span, ws[0]) == (
            Ok::<Val, Halt>(Val::List(ws.last().next_list())),
            ws.last().add_list(chosen(ws[0].list(at), bs, ws[0].list(at).len())),
        ),
{
    method_names();
    let items = ws[0].list(at);
    to_filtered(cx, fuel, p, items, span, ws, bs, items.len(), 0);
    let got = filtered(cx, fuel, p, items, 0, Seq::empty(), span, ws[0]);
    assert(got == (Ok::<Seq<Val>, Halt>(chosen(items, bs, items.len())), ws.last()));
}

proof fn to_sought(
    cx: Cx,
    fuel: nat,
    p: Val,
    items: Seq<Val>,
    want: bool,
    span: Span,
    ws: Seq<World>,
    bs: Seq<bool>,
    k: nat,
    i: nat,
)
    requires
        tests_give(cx, fuel, p, items, span, ws, bs, k),
        forall|j: int| 0 <= j < k ==> bs[j] != want,
        i <= k,
    ensures
        sought(cx, fuel, p, items, i, want, span, ws[i as int]) == sought(
            cx,
            fuel,
            p,
            items,
            k,
            want,
            span,
            ws[k as int],
        ),
    decreases k - i,
{
    if i < k {
        let n = i as int + 1;
        let (here, next) = (ws[i as int], ws[n]);
        assert(applied(cx, fuel, p, seq![items[i as int]], span, here) == (
            Ok::<Val, Halt>(Val::Bool(bs[i as int])),
            next,
        ));
        test_gives(cx, fuel, p, items[i as int], span, here, bs[i as int], next);
        assert(bs[i as int] != want);
        to_sought(cx, fuel, p, items, want, span, ws, bs, k, i + 1);
    }
}

/// `any`, `all` and `find` call the predicate on the items in order until it decides.
/// Where it is false for all items, `any` is false and `find` is `null`; at the first
/// for which it is true, `any` is true and `find` is that item. `all` is true where
/// it is true for all, and false at the first for which it is false.
pub proof fn law_any_all_find(
    cx: Cx,
    fuel: nat,
    at: usize,
    p: Val,
    want: bool,
    span: Span,
    ws: Seq<World>,
    bs: Seq<bool>,
    k: nat,
    after: World,
)
    requires
        ws.len() > 0,
        tests_give(cx, fuel, p, ws[0].list(at), span, ws, bs, k),
        forall|j: int| 0 <= j < k ==> bs[j] != want,
        k < ws[0].list(at).len() ==> applied(
            cx,
            fuel,
            p,
            seq![ws[0].list(at)[k as int]],
            span,
            ws.last(),
        ) == (Ok::<Val, Halt>(Val::Bool(want)), after),
        k == ws[0].list(at).len() ==> after == ws.last(),
    ensures
        ({
            let items = ws[0].list(at);
            let hit = k < items.len();
            &&& want ==> list_called(cx, fuel, at, "any"@, seq![p], span, ws[0]) == (
                Ok::<Val, Halt>(Val::Bool(hit)),
                after,
            )
            &&& want ==> list_called(cx, fuel, at, "find"@, seq![p], span, ws[0]) == (
                Ok::<Val, Halt>(
                    if hit {
                        items[k as int]
                    } else {
                        Val::Null
                    },
                ),
                after,
            )
            &&& !want ==> list_called(cx, fuel, at, "all"@, seq![p], span, ws[0]) == (
                Ok::<Val, Halt>(Val::Bool(!hit)),
                after,
            )
        }),
{
    method_names();
    let items = ws[0].list(at);
    to_sought(cx, fuel, p, items, want, span, ws, bs, k, 0);
    if k < items.len() {
        test_gives(cx, fuel, p, items[k as int], span, ws.last(), want, after);
    }
    let got = sought(cx, fuel, p, items, 0, want, span, ws[0]);
    assert(got == sought(cx, fuel, p, items, k, want, span, ws.last()));
    assert(got.1 == after);
    assert(got.0 == Ok::<Option<Val>, Halt>(
        if k < items.len() {
            Some(items[k as int])
        } else {
            None
        },
    ));
}

/// Whether a function combines `acc[0]` and the items from `from` on, from the left, to
/// these values.
pub open spec fn folds_give(
    cx: Cx,
    fuel: nat,
    g: Val,
    items: Seq<Val>,
    from: nat,
    span: Span,
    ws: Seq<World>,
    acc: Seq<Val>,
) -> bool {
    from <= items.len() && ws.len() == items.len() - from + 1 && acc.len() == ws.len() && forall|
        j: int,
        n: int,
    |
        #![trigger ws[j], ws[n]]
        0 <= j < items.len() - from && n == j + 1 ==> applied(
            cx,
            fuel,
            g,
            seq![acc[j], items[from + j]],
            span,
            ws[j],
        ) == (Ok::<Val, Halt>(acc[n]), ws[n])
}

proof fn to_folded(
    cx: Cx,
    fuel: nat,
    g: Val,
    items: Seq<Val>,
    from: nat,
    span: Span,
    ws: Seq<World>,
    acc: Seq<Val>,
    i: nat,
)
    requires
        folds_give(cx, fuel, g, items, from, span, ws, acc),
        i <= items.len() - from,
    ensures
        folded(cx, fuel, g, items, from + i, acc[i as int], span, ws[i as int]) == (
            Ok::<Val, Halt>(acc.last()),
            ws.last(),
        ),
    decreases items.len() - from - i,
{
    if i < items.len() - from {
        let n = i as int + 1;
        assert(applied(cx, fuel, g, seq![acc[i as int], items[from + i as int]], span, ws[i as int])
            == (Ok::<Val, Halt>(acc[n]), ws[n]));
        to_folded(cx, fuel, g, items, from, span, ws, acc, i + 1);
    }
}

/// `xs.fold(init, f)` combines `init` and the items from the left; `xs.reduce(f)` starts
/// with the first item, and needs one.
pub proof fn law_fold_and_reduce(
    cx: Cx,
    fuel: nat,
    at: usize,
    g: Val,
    span: Span,
    ws: Seq<World>,
    acc: Seq<Val>,
)
    requires
        ws.len() > 0,
    ensures
        folds_give(cx, fuel, g, ws[0].list(at), 0, span, ws, acc) ==> list_called(
            cx,
            fuel,
            at,
            "fold"@,
            seq![acc[0], g],
            span,
            ws[0],
        ) == (Ok::<Val, Halt>(acc.last()), ws.last()),
        ws[0].list(at).len() > 0 && acc.len() > 0 && acc[0] == ws[0].list(at)[0] && folds_give(
            cx,
            fuel,
            g,
            ws[0].list(at),
            1,
            span,
            ws,
            acc,
        ) ==> list_called(cx, fuel, at, "reduce"@, seq![g], span, ws[0]) == (
            Ok::<Val, Halt>(acc.last()),
            ws.last(),
        ),
        ws[0].list(at).len() == 0 ==> list_called(
            cx,
            fuel,
            at,
            "reduce"@,
            seq![g],
            span,
            ws[0],
        ).0 is Err,
{
    method_names();
    let items = ws[0].list(at);
    if folds_give(cx, fuel, g, items, 0, span, ws, acc) {
        to_folded(cx, fuel, g, items, 0, span, ws, acc, 0);
    }
    if items.len() > 0 && acc.len() > 0 && acc[0] == items[0] && folds_give(
        cx,
        fuel,
        g,
        items,
        1,
        span,
        ws,
        acc,
    ) {
        to_folded(cx, fuel, g, items, 1, span, ws, acc, 0);
    }
}

// ---------------------------------------------------------------------------
// Methods that look
// ---------------------------------------------------------------------------

/// What the methods of a list give that only look at it: nothing changes.
pub proof fn law_list_looks(cx: Cx, fuel: nat, at: usize, span: Span, w: World)
    ensures
        ({
            let none = Seq::<Val>::empty();
            let items = w.list(at);
            let n = items.len();
            &&& list_called(cx, fuel, at, "len"@, none, span, w) == (
                Ok::<Val, Halt>(Val::Int(n as int)),
                w,
            )
            &&& list_called(cx, fuel, at, "count"@, none, span, w) == (
                Ok::<Val, Halt>(Val::Int(n as int)),
                w,
            )
            &&& list_called(cx, fuel, at, "is_empty"@, none, span, w) == (
                Ok::<Val, Halt>(Val::Bool(n == 0)),
                w,
            )
            &&& list_called(cx, fuel, at, "first"@, none, span, w) == (
                Ok::<Val, Halt>(
                    if n > 0 {
                        items[0]
                    } else {
                        Val::Null
                    },
                ),
                w,
            )
            &&& list_called(cx, fuel, at, "last"@, none, span, w) == (
                Ok::<Val, Halt>(
                    if n > 0 {
                        items[n - 1]
                    } else {
                        Val::Null
                    },
                ),
                w,
            )
        }),
{
    method_names();
}

/// Whether an item of a list or a set equals `x`.
pub open spec fn has_equal(w: World, fuel: nat, items: Seq<Val>, x: Val) -> bool {
    exists|j: int| 0 <= j < items.len() && equal(w, fuel, #[trigger] items[j], x) == Some(true)
}

proof fn place_tells(w: World, fuel: nat, items: Seq<Val>, x: Val, i: nat)
    requires
        i <= items.len(),
        forall|j: int| 0 <= j < items.len() ==> equal(w, fuel, #[trigger] items[j], x) is Some,
        forall|j: int| 0 <= j < i ==> equal(w, fuel, #[trigger] items[j], x) == Some(false),
    ensures
        item_place(w, fuel, items, x, i) matches Some(hit) && (hit is Some <==> has_equal(
            w,
            fuel,
            items,
            x,
        )),
    decreases items.len() - i,
{
    if i < items.len() {
        assert(equal(w, fuel, items[i as int], x) is Some);
        if equal(w, fuel, items[i as int], x) == Some(false) {
            place_tells(w, fuel, items, x, i + 1);
        }
    }
}

/// `contains` on a list and on a set tells whether an item equals the argument.
pub proof fn law_contains(cx: Cx, fuel: nat, at: usize, x: Val, span: Span, w: World)
    ensures
        (forall|j: int|
            0 <= j < w.list(at).len() ==> equal(w, fuel, #[trigger] w.list(at)[j], x) is Some)
            ==> list_called(cx, fuel, at, "contains"@, seq![x], span, w) == (
            Ok::<Val, Halt>(Val::Bool(has_equal(w, fuel, w.list(at), x))),
            w,
        ),
        (forall|j: int|
            0 <= j < w.set(at).len() ==> equal(w, fuel, #[trigger] w.set(at)[j], x) is Some)
            ==> set_called(fuel, at, "contains"@, seq![x], span, w) == (
            Ok::<Val, Halt>(Val::Bool(has_equal(w, fuel, w.set(at), x))),
            w,
        ),
{
    method_names();
    if forall|j: int|
        0 <= j < w.list(at).len() ==> equal(w, fuel, #[trigger] w.list(at)[j], x) is Some {
        place_tells(w, fuel, w.list(at), x, 0);
    }
    if forall|j: int|
        0 <= j < w.set(at).len() ==> equal(w, fuel, #[trigger] w.set(at)[j], x) is Some {
        place_tells(w, fuel, w.set(at), x, 0);
    }
}

/// The sum of the first `k` items, which are integers.
pub open spec fn total(items: Seq<Val>, k: nat) -> int
    decreases k,
{
    if k == 0 {
        0
    } else {
        total(items, (k - 1) as nat) + items[k - 1]->Int_0
    }
}

proof fn to_sum(items: Seq<Val>, i: nat, span: Span)
    requires
        i <= items.len(),
        forall|j: int| 0 <= j < items.len() ==> (#[trigger] items[j]) is Int,
    ensures
        int_sum(items, i, total(items, i), span) == Ok::<Val, Halt>(
            Val::Int(total(items, items.len())),
        ),
    decreases items.len() - i,
{
    if i < items.len() {
        assert(items[i as int] is Int);
        to_sum(items, i + 1, span);
    }
}

/// `sum` of integers is their sum; of no items it is zero.
pub proof fn law_sum(cx: Cx, fuel: nat, at: usize, span: Span, w: World)
    requires
        forall|j: int| 0 <= j < w.list(at).len() ==> (#[trigger] w.list(at)[j]) is Int,
    ensures
        list_called(cx, fuel, at, "sum"@, Seq::empty(), span, w) == (
            Ok::<Val, Halt>(Val::Int(total(w.list(at), w.list(at).len()))),
            w,
        ),
{
    method_names();
    to_sum(w.list(at), 0, span);
    if w.list(at).len() > 0 {
        assert(w.list(at)[0] is Int);
    }
}

// ---------------------------------------------------------------------------
// Methods that make a list
// ---------------------------------------------------------------------------

/// What the new lists hold that the methods of a list make, item by item. The list
/// itself stays as it is.
pub proof fn law_new_lists(
    cx: Cx,
    fuel: nat,
    at: usize,
    n: int,
    other: usize,
    span: Span,
    w: World,
)
    ensures
        ({
            let items = w.list(at);
            let len = items.len() as int;
            let none = Seq::<Val>::empty();
            let new = Ok::<Val, Halt>(Val::List(w.next_list()));
            let take = list_called(cx, fuel, at, "take"@, seq![Val::Int(n)], span, w);
            let skip = list_called(cx, fuel, at, "skip"@, seq![Val::Int(n)], span, w);
            let zip = list_called(cx, fuel, at, "zip"@, seq![Val::List(other)], span, w);
            let cut: int = if n < 0 {
                0
            } else if n < len {
                n
            } else {
                len
            };
            &&& n <= usize::MAX ==> take == (new, w.add_list(items.subrange(0, cut)))
            &&& n <= usize::MAX ==> skip == (new, w.add_list(items.subrange(cut, len)))
            &&& list_called(cx, fuel, at, "collect"@, none, span, w) == (new, w.add_list(items))
            &&& list_called(cx, fuel, at, "reverse"@, none, span, w) == (
                new,
                w.add_list(Seq::new(items.len(), |i: int| items[len - 1 - i])),
            )
            &&& list_called(cx, fuel, at, "enumerate"@, none, span, w) == (
                new,
                w.add_list(
                    Seq::new(items.len(), |i: int| Val::Tuple(seq![Val::Int(i), items[i]])),
                ),
            )
            &&& zip == (
                new,
                w.add_list(
                    Seq::new(
                        if len < w.list(other).len() {
                            items.len()
                        } else {
                            w.list(other).len()
                        },
                        |i: int| Val::Tuple(seq![items[i], w.list(other)[i]]),
                    ),
                ),
            )
        }),
{
    method_names();
    let items = w.list(at);
    let len = items.len() as int;
    let cut: int = if n < 0 {
        0
    } else if n < len {
        n
    } else {
        len
    };
    if n <= usize::MAX {
        let m: nat = if n < 0 {
            0
        } else {
            n as nat
        };
        assert(super::collections::taken(items, m) =~= items.subrange(0, cut));
        assert(super::collections::skipped(items, m) =~= items.subrange(cut, len));
    }
    assert(items.reverse() =~= Seq::new(items.len(), |i: int| items[len - 1 - i]));
    assert(super::collections::enumerated(items) =~= Seq::new(
        items.len(),
        |i: int| Val::Tuple(seq![Val::Int(i), items[i]]),
    ));
    let both: nat = if len < w.list(other).len() {
        items.len()
    } else {
        w.list(other).len()
    };
    assert(super::collections::zipped(items, w.list(other)) =~= Seq::new(
        both,
        |i: int| Val::Tuple(seq![items[i], w.list(other)[i]]),
    ));
}

/// `sorted` is a new list of the items in order; `sort` puts the list itself in order;
/// if the items cannot be ordered, both are an error and nothing changes.
pub proof fn law_sort_methods(cx: Cx, fuel: nat, at: usize, span: Span, w: World)
    ensures
        match sorted(cx.reg, w, fuel, w.list(at), span) {
            Ok(vs) => {
                &&& list_called(cx, fuel, at, "sorted"@, Seq::empty(), span, w) == (
                    Ok::<Val, Halt>(Val::List(w.next_list())),
                    w.add_list(vs),
                )
                &&& list_called(cx, fuel, at, "sort"@, Seq::empty(), span, w) == (
                    Ok::<Val, Halt>(Val::Unit),
                    w.with_list(at, vs),
                )
            },
            Err(h) => {
                &&& list_called(cx, fuel, at, "sorted"@, Seq::empty(), span, w) == (
                    Err::<Val, Halt>(h),
                    w,
                )
                &&& list_called(cx, fuel, at, "sort"@, Seq::empty(), span, w) == (
                    Err::<Val, Halt>(h),
                    w,
                )
            },
        },
{
    method_names();
}

/// `min` and `max` are the smallest and the greatest item.
pub proof fn law_min_and_max_methods(cx: Cx, fuel: nat, at: usize, span: Span, w: World)
    ensures
        list_called(cx, fuel, at, "min"@, Seq::empty(), span, w) == (
            super::collections::extreme_of(cx.reg, w, fuel, w.list(at), Order::Less, span),
            w,
        ),
        list_called(cx, fuel, at, "max"@, Seq::empty(), span, w) == (
            super::collections::extreme_of(cx.reg, w, fuel, w.list(at), Order::Greater, span),
            w,
        ),
{
    method_names();
}

/// `append` puts an item at the end of the list itself; `pop_last` takes the last one
/// off and gives it, or `null` if there is none.
pub proof fn law_append_and_pop(cx: Cx, fuel: nat, at: usize, x: Val, span: Span, w: World)
    ensures
        list_called(cx, fuel, at, "append"@, seq![x], span, w) == (
            Ok::<Val, Halt>(Val::Unit),
            w.with_list(at, w.list(at).push(x)),
        ),
        w.list(at).len() > 0 ==> list_called(cx, fuel, at, "pop_last"@, Seq::empty(), span, w) == (
            Ok::<Val, Halt>(w.list(at)[w.list(at).len() - 1]),
            w.with_list(at, w.list(at).take(w.list(at).len() - 1)),
        ),
        w.list(at).len() == 0 ==> list_called(
            cx,
            fuel,
            at,
            "pop_last"@,
            Seq::empty(),
            span,
            w,
        ) == (Ok::<Val, Halt>(Val::Null), w),
{
    method_names();
    if w.list(at).len() > 0 {
        assert(w.list(at).drop_last() =~= w.list(at).take(w.list(at).len() - 1));
    }
}

// ---------------------------------------------------------------------------
// Maps, sets and texts
// ---------------------------------------------------------------------------

/// The methods of a map, a set and a text that look at it, and the lists that those of
/// a map make.
pub proof fn law_map_set_text_looks(fuel: nat, at: usize, s: Seq<char>, span: Span, w: World)
    ensures
        ({
            let none = Seq::<Val>::empty();
            let pairs = w.map(at);
            let new = Ok::<Val, Halt>(Val::List(w.next_list()));
            &&& map_called(fuel, at, "len"@, none, span, w) == (
                Ok::<Val, Halt>(Val::Int(pairs.len() as int)),
                w,
            )
            &&& set_called(fuel, at, "len"@, none, span, w) == (
                Ok::<Val, Halt>(Val::Int(w.set(at).len() as int)),
                w,
            )
            &&& str_called(s, "len"@, none, span) == Ok::<Val, Halt>(Val::Int(s.len() as int))
            &&& map_called(fuel, at, "keys"@, none, span, w) == (
                new,
                w.add_list(Seq::new(pairs.len(), |i: int| pairs[i].0)),
            )
            &&& map_called(fuel, at, "values"@, none, span, w) == (
                new,
                w.add_list(Seq::new(pairs.len(), |i: int| pairs[i].1)),
            )
            &&& map_called(fuel, at, "items"@, none, span, w) == (
                new,
                w.add_list(
                    Seq::new(
                        pairs.len(),
                        |i: int| Val::Tuple(seq![pairs[i].0, pairs[i].1]),
                    ),
                ),
            )
        }),
{
    method_names();
    let pairs = w.map(at);
    assert(keys_of(pairs) =~= Seq::new(pairs.len(), |i: int| pairs[i].0));
    assert(values_of(pairs) =~= Seq::new(pairs.len(), |i: int| pairs[i].1));
    assert(super::collections::entries_of(pairs) =~= Seq::new(
        pairs.len(),
        |i: int| Val::Tuple(seq![pairs[i].0, pairs[i].1]),
    ));
}

/// Whether a key of a map equals `k`.
pub open spec fn has_key(w: World, fuel: nat, pairs: Seq<(Val, Val)>, k: Val) -> bool {
    exists|j: int| 0 <= j < pairs.len() && equal(w, fuel, (#[trigger] pairs[j]).0, k) == Some(true)
}

proof fn key_tells(w: World, fuel: nat, pairs: Seq<(Val, Val)>, k: Val, i: nat)
    requires
        i <= pairs.len(),
        forall|j: int| 0 <= j < pairs.len() ==> equal(w, fuel, (#[trigger] pairs[j]).0, k) is Some,
        forall|j: int| 0 <= j < i ==> equal(w, fuel, (#[trigger] pairs[j]).0, k) == Some(false),
    ensures
        entry_place(w, fuel, pairs, k, i) matches Some(hit) && (hit is Some <==> has_key(
            w,
            fuel,
            pairs,
            k,
        )),
        entry_place(w, fuel, pairs, k, i) matches Some(Some(at)) ==> at < pairs.len() && equal(
            w,
            fuel,
            pairs[at as int].0,
            k,
        ) == Some(true),
    decreases pairs.len() - i,
{
    if i < pairs.len() {
        assert(equal(w, fuel, pairs[i as int].0, k) is Some);
        if equal(w, fuel, pairs[i as int].0, k) == Some(false) {
            key_tells(w, fuel, pairs, k, i + 1);
        }
    }
}

/// `contains` and `has` tell whether a map has an equal key; `get` gives the value of
/// one, and `null` if there is none. Nothing changes.
pub proof fn law_map_lookups(fuel: nat, at: usize, k: Val, span: Span, w: World)
    requires
        forall|j: int|
            0 <= j < w.map(at).len() ==> equal(w, fuel, (#[trigger] w.map(at)[j]).0, k) is Some,
    ensures
        ({
            let found = has_key(w, fuel, w.map(at), k);
            let got = map_called(fuel, at, "get"@, seq![k], span, w);
            &&& map_called(fuel, at, "contains"@, seq![k], span, w) == (
                Ok::<Val, Halt>(Val::Bool(found)),
                w,
            )
            &&& map_called(fuel, at, "has"@, seq![k], span, w) == (
                Ok::<Val, Halt>(Val::Bool(found)),
                w,
            )
            &&& got.1 == w
            &&& !found ==> got.0 == Ok::<Val, Halt>(Val::Null)
            &&& found ==> exists|j: int|
                0 <= j < w.map(at).len() && equal(w, fuel, (#[trigger] w.map(at)[j]).0, k) == Some(
                    true,
                ) && got.0 == Ok::<Val, Halt>(w.map(at)[j].1)
        }),
{
    method_names();
    key_tells(w, fuel, w.map(at), k, 0);
}

/// `insert` puts an item into the set itself, `union` and `intersect` make a new set and
/// leave both as they are.
pub proof fn law_set_methods(fuel: nat, at: usize, x: Val, other: usize, span: Span, w: World)
    ensures
        put_item(w, fuel, w.set(at), x) matches Ok(more) ==> set_called(
            fuel,
            at,
            "insert"@,
            seq![x],
            span,
            w,
        ) == (Ok::<Val, Halt>(Val::Unit), w.with_set(at, more)),
        put_all(w, fuel, w.set(at), w.set(other), 0) matches Ok(more) ==> set_called(
            fuel,
            at,
            "union"@,
            seq![Val::SetRef(other)],
            span,
            w,
        ) == (Ok::<Val, Halt>(Val::SetRef(w.next_set())), w.add_set(more)),
        super::collections::kept(
            w,
            fuel,
            w.set(at),
            w.set(other),
            0,
            Seq::empty(),
        ) matches Ok(common) ==> set_called(
            fuel,
            at,
            "intersect"@,
            seq![Val::SetRef(other)],
            span,
            w,
        ) == (Ok::<Val, Halt>(Val::SetRef(w.next_set())), w.add_set(common)),
{
    method_names();
}

// ---------------------------------------------------------------------------
// Calls of built-in methods
// ---------------------------------------------------------------------------

proof fn to_method_arg(
    cx: Cx,
    fuel: nat,
    name: Seq<char>,
    args: Seq<Arg>,
    span: Span,
    env: Env,
    ws: Seq<World>,
    vs: Seq<Val>,
    i: nat,
)
    requires
        super::call_laws::args_give(cx, fuel, args, env, ws, vs),
        i <= args.len(),
    ensures
        method_args_evaluated(
            cx,
            fuel,
            name,
            args,
            i,
            vs.take(i as int),
            span,
            env,
            ws[i as int],
        ) == (Ok::<Seq<Val>, Halt>(vs), ws.last()),
    decreases args.len() - i,
{
    if i < args.len() {
        let n = i as int + 1;
        let (here, next) = (ws[i as int], ws[n]);
        assert(args[i as int] matches Arg::Positional(e) && super::semantics::evaluated(
            cx,
            fuel,
            e,
            env,
            here,
        ) == (Ok::<Val, Halt>(vs[i as int]), next));
        assert(vs.take(n) =~= vs.take(i as int).push(vs[i as int]));
        to_method_arg(cx, fuel, name, args, span, env, ws, vs, i + 1);
    } else {
        assert(vs.take(i as int) =~= vs);
    }
}

/// A built-in method is called with the values of its arguments, evaluated from left to
/// right: the method of a list, a map, a set or a text. Other values have none.
pub proof fn law_builtin_method_call(
    cx: Cx,
    fuel: nat,
    recv: Val,
    name: Seq<char>,
    args: Seq<Arg>,
    span: Span,
    env: Env,
    ws: Seq<World>,
    vs: Seq<Val>,
)
    requires
        super::call_laws::args_give(cx, fuel, args, env, ws, vs),
    ensures
        ({
            let got = builtin_method_called(cx, fuel, recv, name, args, span, env, ws[0]);
            match recv {
                Val::List(at) => got == list_called(cx, fuel, at, name, vs, span, ws.last()),
                Val::MapRef(at) => got == map_called(fuel, at, name, vs, span, ws.last()),
                Val::SetRef(at) => got == set_called(fuel, at, name, vs, span, ws.last()),
                Val::Str(s) => got == (str_called(s, name, vs, span), ws.last()),
                _ => got.0 is Err && got.1 == ws.last(),
            }
        }),
{
    assert(vs.take(0) =~= Seq::<Val>::empty());
    to_method_arg(cx, fuel, name, args, span, env, ws, vs, 0);
}

// ---------------------------------------------------------------------------
// What is put in, and what can be sorted
// ---------------------------------------------------------------------------

/// An item goes to the end of a set if none of its items equals it; otherwise the set
/// stays as it is. This never fails where equality is decided.
pub proof fn law_put_item(w: World, fuel: nat, items: Seq<Val>, x: Val)
    requires
        forall|j: int| 0 <= j < items.len() ==> equal(w, fuel, #[trigger] items[j], x) is Some,
    ensures
        put_item(w, fuel, items, x) == Ok::<Seq<Val>, Halt>(
            if has_equal(w, fuel, items, x) {
                items
            } else {
                items.push(x)
            },
        ),
{
    place_tells(w, fuel, items, x, 0);
}

proof fn place_in_order(
    reg: Decls,
    w: World,
    fuel: nat,
    done: Seq<Val>,
    x: Val,
    k: nat,
    span: Span,
)
    requires
        forall|j: int|
            0 <= j < done.len() ==> compared(reg, w, fuel, x, #[trigger] done[j], span) is Ok,
        k <= done.len(),
    ensures
        insert_place(reg, w, fuel, done, x, k, span) matches Ok(at) && at <= k,
    decreases k,
{
    if k > 0 {
        assert(compared(reg, w, fuel, x, done[k - 1], span) is Ok);
        place_in_order(reg, w, fuel, done, x, (k - 1) as nat, span);
    }
}

proof fn sorting_goes_on(
    reg: Decls,
    w: World,
    fuel: nat,
    items: Seq<Val>,
    i: nat,
    done: Seq<Val>,
    span: Span,
)
    requires
        forall|a: Val, b: Val|
            items.contains(a) && items.contains(b) ==> (#[trigger] compared(
                reg,
                w,
                fuel,
                a,
                b,
                span,
            )) is Ok,
        forall|j: int| 0 <= j < done.len() ==> items.contains(#[trigger] done[j]),
    ensures
        sorted_from(reg, w, fuel, items, i, done, span) is Ok,
    decreases items.len() - i,
{
    if i < items.len() {
        let x = items[i as int];
        assert(items.contains(x));
        place_in_order(reg, w, fuel, done, x, done.len(), span);
        let at = insert_place(reg, w, fuel, done, x, done.len(), span)->Ok_0;
        let more = done.insert(at as int, x);
        assert forall|j: int| 0 <= j < more.len() implies items.contains(#[trigger] more[j]) by {
            if j < at {
                assert(more[j] == done[j]);
            } else if j > at {
                assert(more[j] == done[j - 1]);
            }
        }
        sorting_goes_on(reg, w, fuel, items, i + 1, more, span);
    }
}

/// Items of which each two can be ordered can be sorted.
pub proof fn law_orderable_items_sort(
    reg: Decls,
    w: World,
    fuel: nat,
    items: Seq<Val>,
    span: Span,
)
    requires
        forall|a: Val, b: Val|
            items.contains(a) && items.contains(b) ==> (#[trigger] compared(
                reg,
                w,
                fuel,
                a,
                b,
                span,
            )) is Ok,
    ensures
        sorted(reg, w, fuel, items, span) is Ok,
{
    sorting_goes_on(reg, w, fuel, items, 0, Seq::empty(), span);
}

} // verus!
