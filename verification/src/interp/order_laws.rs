//! Laws of ordering: which of two values comes first.

use super::collections::{best_from, extreme_of};
use super::float::{float_rank, is_nan};
use super::registry::Decls;
use super::show::{
    compared, field_or_unit, fields_compared, items_compared, no_ord_message, variant_place,
    variant_rank,
};
use super::value::{failure, Halt, Val, World};
use crate::name_map::lookup;
use crate::text::{text_order, text_order_from, Order};
use crate::token::Span;
use vstd::prelude::*;
use vstd::string::*;

verus! {

// ---------------------------------------------------------------------------
// Plain values
// ---------------------------------------------------------------------------

/// Integers order by their value, Booleans `false` first.
pub proof fn law_numbers_order(
    reg: Decls,
    w: World,
    fuel: nat,
    a: int,
    b: int,
    p: bool,
    q: bool,
    span: Span,
)
    requires
        fuel > 0,
    ensures
        ({
            let o = compared(reg, w, fuel, Val::Int(a), Val::Int(b), span);
            &&& a < b <==> o == Ok::<Order, Halt>(Order::Less)
            &&& a == b <==> o == Ok::<Order, Halt>(Order::Equal)
            &&& a > b <==> o == Ok::<Order, Halt>(Order::Greater)
        }),
        ({
            let o = compared(reg, w, fuel, Val::Bool(p), Val::Bool(q), span);
            &&& !p && q <==> o == Ok::<Order, Halt>(Order::Less)
            &&& p == q <==> o == Ok::<Order, Halt>(Order::Equal)
            &&& p && !q <==> o == Ok::<Order, Halt>(Order::Greater)
        }),
{
}

/// Floats order as numbers, both zeros as one; a NaN cannot be ordered.
pub proof fn law_floats_order(reg: Decls, w: World, fuel: nat, a: u64, b: u64, span: Span)
    requires
        fuel > 0,
    ensures
        ({
            let o = compared(reg, w, fuel, Val::Float(a), Val::Float(b), span);
            &&& is_nan(a) || is_nan(b) <==> o is Err
            &&& !is_nan(a) && !is_nan(b) ==> {
                &&& float_rank(a) < float_rank(b) <==> o == Ok::<Order, Halt>(Order::Less)
                &&& float_rank(a) == float_rank(b) <==> o == Ok::<Order, Halt>(Order::Equal)
                &&& float_rank(a) > float_rank(b) <==> o == Ok::<Order, Halt>(Order::Greater)
            }
        }),
{
}

/// Whether a text comes before another as in a dictionary: at the first place where
/// they differ it has the smaller character, or it is the beginning of the other.
pub open spec fn comes_before(a: Seq<char>, b: Seq<char>) -> bool {
    exists|k: int|
        0 <= k <= a.len() && k < b.len() && #[trigger] a.take(k) == b.take(k) && (k < a.len()
            ==> (a[k] as int) < (b[k] as int))
}

proof fn texts_from(a: Seq<char>, b: Seq<char>, i: nat)
    requires
        i <= a.len(),
        i <= b.len(),
        a.take(i as int) == b.take(i as int),
    ensures
        text_order_from(a, b, i) == Order::Less ==> comes_before(a, b),
        text_order_from(a, b, i) == Order::Equal ==> a == b,
        text_order_from(a, b, i) == Order::Greater ==> comes_before(b, a),
    decreases a.len() - i,
{
    if i < a.len() && i < b.len() && a[i as int] == b[i as int] {
        assert(a.take((i + 1) as int) =~= a.take(i as int).push(a[i as int]));
        assert(b.take((i + 1) as int) =~= b.take(i as int).push(b[i as int]));
        texts_from(a, b, i + 1);
    } else if i >= a.len() && i >= b.len() {
        assert(a =~= a.take(i as int));
        assert(b =~= b.take(i as int));
    } else {
        assert(a.take(i as int) == b.take(i as int));
        assert(b.take(i as int) == a.take(i as int));
    }
}

/// A text never comes before one that comes before it.
proof fn before_one_way(a: Seq<char>, b: Seq<char>)
    requires
        comes_before(a, b),
    ensures
        a != b,
        !comes_before(b, a),
{
    let k = choose|k: int|
        0 <= k <= a.len() && k < b.len() && #[trigger] a.take(k) == b.take(k) && (k < a.len()
            ==> (a[k] as int) < (b[k] as int));
    if comes_before(b, a) {
        let m = choose|m: int|
            0 <= m <= b.len() && m < a.len() && #[trigger] b.take(m) == a.take(m) && (m < b.len()
                ==> (b[m] as int) < (a[m] as int));
        if k < m {
            assert(b.take(m)[k] == a.take(m)[k]);
        } else if m < k {
            assert(a.take(k)[m] == b.take(k)[m]);
        }
    }
    if a == b {
        assert(k < a.len());
    }
}

/// Texts order as in a dictionary, by the numbers of their characters.
pub proof fn law_texts_order(
    reg: Decls,
    w: World,
    fuel: nat,
    a: Seq<char>,
    b: Seq<char>,
    span: Span,
)
    requires
        fuel > 0,
    ensures
        ({
            let o = compared(reg, w, fuel, Val::Str(a), Val::Str(b), span);
            &&& comes_before(a, b) <==> o == Ok::<Order, Halt>(Order::Less)
            &&& a == b <==> o == Ok::<Order, Halt>(Order::Equal)
            &&& comes_before(b, a) <==> o == Ok::<Order, Halt>(Order::Greater)
        }),
{
    assert(a.take(0) =~= b.take(0));
    texts_from(a, b, 0);
    if comes_before(a, b) {
        before_one_way(a, b);
    }
    if comes_before(b, a) {
        before_one_way(b, a);
    }
    assert(text_order(a, b) == text_order_from(a, b, 0));
}

/// Values of two kinds cannot be ordered, nor can lists, tuples, maps, sets, `null`,
/// `()` and functions.
pub proof fn law_unorderable(reg: Decls, w: World, fuel: nat, a: Val, b: Val, span: Span)
    requires
        fuel > 0,
        !(a is Int && b is Int),
        !(a is Float && b is Float),
        !(a is Str && b is Str),
        !(a is Bool && b is Bool),
        !(a is Struct && b is Struct),
        !(a is Enum && b is Enum),
    ensures
        compared(reg, w, fuel, a, b, span) is Err,
{
}

// ---------------------------------------------------------------------------
// Structs
// ---------------------------------------------------------------------------

/// How the fields of this name order in two structs.
pub open spec fn field_order(
    reg: Decls,
    w: World,
    fuel: nat,
    x: usize,
    y: usize,
    name: Seq<char>,
    span: Span,
) -> Result<Order, Halt> {
    compared(
        reg,
        w,
        fuel,
        match lookup(w.instance(x).fields, name) {
            Some(v) => v,
            None => Val::Unit,
        },
        match lookup(w.instance(y).fields, name) {
            Some(v) => v,
            None => Val::Unit,
        },
        span,
    )
}

proof fn fields_skip(
    reg: Decls,
    w: World,
    fuel: nat,
    x: usize,
    y: usize,
    i: nat,
    k: nat,
    span: Span,
)
    requires
        i <= k <= w.instance(x).order.len(),
        forall|j: int|
            0 <= j < k ==> field_order(
                reg,
                w,
                fuel,
                x,
                y,
                #[trigger] w.instance(x).order[j],
                span,
            ) == Ok::<Order, Halt>(Order::Equal),
    ensures
        ({
            let (n, xs, ys) = (w.instance(x).order, w.instance(x).fields, w.instance(y).fields);
            fields_compared(reg, w, fuel, n, xs, ys, i, span) == fields_compared(
                reg,
                w,
                fuel,
                n,
                xs,
                ys,
                k,
                span,
            )
        }),
    decreases k - i,
{
    if i < k {
        let name = w.instance(x).order[i as int];
        assert(field_order(reg, w, fuel, x, y, name, span) == Ok::<Order, Halt>(Order::Equal));
        assert(field_or_unit(w.instance(x).fields, name) == match lookup(
            w.instance(x).fields,
            name,
        ) {
            Some(v) => v,
            None => Val::Unit,
        });
        fields_skip(reg, w, fuel, x, y, i + 1, k, span);
    }
}

proof fn fields_equal_all(
    reg: Decls,
    w: World,
    fuel: nat,
    x: usize,
    y: usize,
    i: nat,
    span: Span,
)
    requires
        fields_compared(
            reg,
            w,
            fuel,
            w.instance(x).order,
            w.instance(x).fields,
            w.instance(y).fields,
            i,
            span,
        ) == Ok::<Order, Halt>(Order::Equal),
    ensures
        forall|j: int|
            i <= j < w.instance(x).order.len() ==> field_order(
                reg,
                w,
                fuel,
                x,
                y,
                #[trigger] w.instance(x).order[j],
                span,
            ) == Ok::<Order, Halt>(Order::Equal),
    decreases w.instance(x).order.len() - i,
{
    if i < w.instance(x).order.len() {
        let name = w.instance(x).order[i as int];
        assert(field_order(reg, w, fuel, x, y, name, span) == compared(
            reg,
            w,
            fuel,
            field_or_unit(w.instance(x).fields, name),
            field_or_unit(w.instance(y).fields, name),
            span,
        ));
        fields_equal_all(reg, w, fuel, x, y, i + 1, span);
    }
}

/// Two structs of one type that derives `Ord` order as their first field, in the order
/// of the declaration, whose values do not order as equal. They order as equal just
/// if every field does.
pub proof fn law_structs_order_by_first_difference(
    reg: Decls,
    w: World,
    fuel: nat,
    x: usize,
    y: usize,
    k: nat,
    span: Span,
)
    requires
        fuel > 0,
        w.instance(x).name == w.instance(y).name,
        reg.ordered(w.instance(x).name),
        k <= w.instance(x).order.len(),
        forall|j: int|
            0 <= j < k ==> field_order(
                reg,
                w,
                (fuel - 1) as nat,
                x,
                y,
                #[trigger] w.instance(x).order[j],
                span,
            ) == Ok::<Order, Halt>(Order::Equal),
    ensures
        ({
            let all = compared(reg, w, fuel, Val::Struct(x), Val::Struct(y), span);
            &&& k == w.instance(x).order.len() ==> all == Ok::<Order, Halt>(Order::Equal)
            &&& k < w.instance(x).order.len() ==> {
                let one = field_order(
                    reg,
                    w,
                    (fuel - 1) as nat,
                    x,
                    y,
                    w.instance(x).order[k as int],
                    span,
                );
                one != Ok::<Order, Halt>(Order::Equal) ==> all == one
            }
            &&& all == Ok::<Order, Halt>(Order::Equal) ==> forall|j: int|
                0 <= j < w.instance(x).order.len() ==> field_order(
                    reg,
                    w,
                    (fuel - 1) as nat,
                    x,
                    y,
                    #[trigger] w.instance(x).order[j],
                    span,
                ) == Ok::<Order, Halt>(Order::Equal)
        }),
{
    let f = (fuel - 1) as nat;
    let (n, xs, ys) = (w.instance(x).order, w.instance(x).fields, w.instance(y).fields);
    fields_skip(reg, w, f, x, y, 0, k, span);
    let all = compared(reg, w, fuel, Val::Struct(x), Val::Struct(y), span);
    assert(all == fields_compared(reg, w, f, n, xs, ys, 0, span));
    if k < n.len() {
        assert(field_order(reg, w, f, x, y, n[k as int], span) == compared(
            reg,
            w,
            f,
            field_or_unit(xs, n[k as int]),
            field_or_unit(ys, n[k as int]),
            span,
        ));
    }
    if all == Ok::<Order, Halt>(Order::Equal) {
        fields_equal_all(reg, w, f, x, y, 0, span);
    }
}

/// Structs and enums of different types cannot be ordered, nor can those of a type
/// that does not derive `Ord`.
pub proof fn law_order_needs_derive(
    reg: Decls,
    w: World,
    fuel: nat,
    a: Val,
    b: Val,
    span: Span,
)
    requires
        fuel > 0,
    ensures
        a is Struct && b is Struct ==> {
            let (x, y) = (w.instance(a->Struct_0), w.instance(b->Struct_0));
            &&& x.name != y.name ==> compared(reg, w, fuel, a, b, span) is Err
            &&& x.name == y.name && !reg.ordered(x.name) ==> compared(reg, w, fuel, a, b, span)
                == Err::<Order, Halt>(failure(no_ord_message(x.name), span))
        },
        a is Enum && b is Enum ==> {
            let (x, y) = (a->Enum_0, b->Enum_0);
            &&& x.enum_name != y.enum_name ==> compared(reg, w, fuel, a, b, span) is Err
            &&& x.enum_name == y.enum_name && !reg.ordered(x.enum_name) ==> compared(
                reg,
                w,
                fuel,
                a,
                b,
                span,
            ) == Err::<Order, Halt>(failure(no_ord_message(x.enum_name), span))
        },
{
}

// ---------------------------------------------------------------------------
// Enums
// ---------------------------------------------------------------------------

proof fn place_is(variants: Seq<crate::ast::VariantShape>, name: Seq<char>, i: nat, at: nat)
    requires
        i <= at < variants.len(),
        variants[at as int].name == name,
        forall|j: int| 0 <= j < at ==> (#[trigger] variants[j]).name != name,
    ensures
        variant_place(variants, name, i) == at,
    decreases at - i,
{
    if i < at {
        assert(variants[i as int].name != name);
        place_is(variants, name, i + 1, at);
    }
}

/// Whether a variant is declared at this place of its enum.
pub open spec fn declared_at(reg: Decls, enum_name: Seq<char>, variant: Seq<char>, at: nat) -> bool {
    lookup(reg.enums, enum_name) matches Some(e) && at < e.variants.len() && at < usize::MAX
        && e.variants[at as int].name == variant && forall|j: int|
        0 <= j < at ==> (#[trigger] e.variants[j]).name != variant
}

proof fn items_skip(
    reg: Decls,
    w: World,
    fuel: nat,
    xs: Seq<Val>,
    ys: Seq<Val>,
    i: nat,
    k: nat,
    span: Span,
)
    requires
        i <= k <= xs.len(),
        k <= ys.len(),
        forall|j: int|
            0 <= j < k ==> compared(reg, w, fuel, #[trigger] xs[j], ys[j], span) == Ok::<
                Order,
                Halt,
            >(Order::Equal),
    ensures
        items_compared(reg, w, fuel, xs, ys, i, span) == items_compared(
            reg,
            w,
            fuel,
            xs,
            ys,
            k,
            span,
        ),
    decreases k - i,
{
    if i < k {
        assert(compared(reg, w, fuel, xs[i as int], ys[i as int], span) == Ok::<Order, Halt>(
            Order::Equal,
        ));
        items_skip(reg, w, fuel, xs, ys, i + 1, k, span);
    }
}

/// Two values of one enum that derives `Ord` order by their variants, in the order of
/// the declaration.
pub proof fn law_variants_order(
    reg: Decls,
    w: World,
    fuel: nat,
    a: Val,
    b: Val,
    i: nat,
    j: nat,
    span: Span,
)
    requires
        fuel > 0,
        a is Enum,
        b is Enum,
        a->Enum_0.enum_name == b->Enum_0.enum_name,
        reg.ordered(a->Enum_0.enum_name),
        declared_at(reg, a->Enum_0.enum_name, a->Enum_0.variant, i),
        declared_at(reg, b->Enum_0.enum_name, b->Enum_0.variant, j),
    ensures
        i < j ==> compared(reg, w, fuel, a, b, span) == Ok::<Order, Halt>(Order::Less),
        i > j ==> compared(reg, w, fuel, a, b, span) == Ok::<Order, Halt>(Order::Greater),
{
    let e = lookup(reg.enums, a->Enum_0.enum_name)->0;
    place_is(e.variants, a->Enum_0.variant, 0, i);
    place_is(e.variants, b->Enum_0.variant, 0, j);
    assert(variant_rank(reg, a->Enum_0.enum_name, a->Enum_0.variant) == i);
    assert(variant_rank(reg, b->Enum_0.enum_name, b->Enum_0.variant) == j);
}

/// Two values of one variant order as their first values that do not order as equal;
/// as equal, if all do.
pub proof fn law_payloads_order(
    reg: Decls,
    w: World,
    fuel: nat,
    a: Val,
    b: Val,
    k: nat,
    span: Span,
)
    requires
        fuel > 0,
        a is Enum,
        b is Enum,
        a->Enum_0.enum_name == b->Enum_0.enum_name,
        a->Enum_0.variant == b->Enum_0.variant,
        reg.ordered(a->Enum_0.enum_name),
        k <= a->Enum_0.payload.len() == b->Enum_0.payload.len(),
        forall|j: int|
            0 <= j < k ==> compared(
                reg,
                w,
                (fuel - 1) as nat,
                #[trigger] a->Enum_0.payload[j],
                b->Enum_0.payload[j],
                span,
            ) == Ok::<Order, Halt>(Order::Equal),
    ensures
        k == a->Enum_0.payload.len() ==> compared(reg, w, fuel, a, b, span) == Ok::<Order, Halt>(
            Order::Equal,
        ),
        k < a->Enum_0.payload.len() ==> {
            let one = compared(
                reg,
                w,
                (fuel - 1) as nat,
                a->Enum_0.payload[k as int],
                b->Enum_0.payload[k as int],
                span,
            );
            one != Ok::<Order, Halt>(Order::Equal) ==> compared(reg, w, fuel, a, b, span) == one
        },
{
    let f = (fuel - 1) as nat;
    items_skip(reg, w, f, a->Enum_0.payload, b->Enum_0.payload, 0, k, span);
    assert(compared(reg, w, fuel, a, b, span) == items_compared(
        reg,
        w,
        f,
        a->Enum_0.payload,
        b->Enum_0.payload,
        0,
        span,
    ));
}

// ---------------------------------------------------------------------------
// The greatest and the smallest
// ---------------------------------------------------------------------------

proof fn greatest_of_ints(
    reg: Decls,
    w: World,
    fuel: nat,
    items: Seq<Val>,
    i: nat,
    best: int,
    span: Span,
)
    requires
        fuel > 0,
        items.contains(Val::Int(best)),
        forall|j: int| 0 <= j < items.len() ==> (#[trigger] items[j]) is Int,
        forall|j: int| 0 <= j < i && j < items.len() ==> (#[trigger] items[j])->Int_0 <= best,
    ensures
        best_from(reg, w, fuel, items, i, Val::Int(best), Order::Greater, span) matches Ok(
            Val::Int(m),
        ) && items.contains(Val::Int(m)) && forall|j: int|
            0 <= j < items.len() ==> (#[trigger] items[j])->Int_0 <= m,
    decreases items.len() - i,
{
    if i < items.len() {
        let n = items[i as int]->Int_0;
        assert(items[i as int] == Val::Int(n));
        greatest_of_ints(
            reg,
            w,
            fuel,
            items,
            i + 1,
            if n > best {
                n
            } else {
                best
            },
            span,
        );
    }
}

/// The greatest of integers is one of them and not smaller than any.
pub proof fn law_max_of_ints(reg: Decls, w: World, fuel: nat, items: Seq<Val>, span: Span)
    requires
        fuel > 0,
        items.len() > 0,
        forall|j: int| 0 <= j < items.len() ==> (#[trigger] items[j]) is Int,
    ensures
        extreme_of(reg, w, fuel, items, Order::Greater, span) matches Ok(Val::Int(m))
            && items.contains(Val::Int(m)) && forall|j: int|
            0 <= j < items.len() ==> (#[trigger] items[j])->Int_0 <= m,
{
    assert(items[0] is Int);
    assert(items[0] == Val::Int(items[0]->Int_0));
    greatest_of_ints(reg, w, fuel, items, 1, items[0]->Int_0, span);
}

/// No items have no smallest and no greatest: that is an error.
pub proof fn law_extreme_of_none(reg: Decls, w: World, fuel: nat, want: Order, span: Span)
    ensures
        extreme_of(reg, w, fuel, Seq::empty(), want, span) is Err,
{
}

} // verus!
