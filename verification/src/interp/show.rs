//! Rendering, equality and ordering of values.

use super::float::{
    equal_floats, float_order, floats_equal, infinite, is_infinite, is_nan, nan, order_floats,
    Answers, FloatTable, Question, QuestionView, SIGN_BIT,
};
use super::heap::{pair_vals, State};
use super::registry::{Decls, Registry};
use super::value::{
    fail, failure, seen, vals, EnumInstance, Halt, Stop, StructInstance, StructVal, Val, Value,
    World,
};
use crate::ast::{LitPattern, VariantShape};
use crate::error::{runtime_diag, Diagnostic};
use crate::integer::order;
use crate::name_map::lookup;
use crate::text::{
    lemma_texts_empty, lemma_texts_push, cat2, cat3, chars_of, int_order, join, joined, order_texts,
    signed_decimal, text_order, texts, Order,
};
use crate::token::Span;
use vstd::prelude::*;
use vstd::string::*;

verus! {

broadcast use {lemma_texts_push, lemma_texts_empty};

/// The label of a value's type in messages.
pub open spec fn label_of(v: Val) -> Seq<char> {
    match v {
        Val::Int(_) => "Int"@,
        Val::Float(_) => "Float"@,
        Val::Bool(_) => "Bool"@,
        Val::Str(_) => "String"@,
        Val::List(_) => "List"@,
        Val::MapRef(_) => "Map"@,
        Val::SetRef(_) => "Set"@,
        Val::Tuple(_) => "tuple"@,
        Val::Unit => "()"@,
        Val::Null => "null"@,
        Val::Struct(_) => "struct"@,
        Val::Enum(_) => "enum"@,
        Val::Closure(_) => "function"@,
        Val::Builtin(_) => "builtin"@,
    }
}

/// The label of a value's type in messages.
pub fn type_label(v: &Value) -> (r: &'static str)
    ensures
        r@ == label_of(v@),
{
    match v {
        Value::Int(_) => "Int",
        Value::Float(_) => "Float",
        Value::Bool(_) => "Bool",
        Value::Str(_) => "String",
        Value::List(_) => "List",
        Value::MapRef(_) => "Map",
        Value::SetRef(_) => "Set",
        Value::Tuple(_) => "tuple",
        Value::Unit => "()",
        Value::Null => "null",
        Value::Struct(_) => "struct",
        Value::Enum(_) => "enum",
        Value::Closure(_) => "function",
        Value::Builtin(_) => "builtin",
    }
}

// ---------------------------------------------------------------------------
// Equality
// ---------------------------------------------------------------------------

/// The language's `==`: contents are compared, not places. Floats follow IEEE,
/// functions equal nothing, and the order of maps and sets does not matter.
/// `None`: the values nest deeper than `fuel`.
pub open spec fn equal(w: World, fuel: nat, a: Val, b: Val) -> Option<bool>
    decreases fuel, 0nat, 0nat,
{
    if fuel == 0 {
        None
    } else {
        let f = (fuel - 1) as nat;
        match (a, b) {
            (Val::Int(x), Val::Int(y)) => Some(x == y),
            (Val::Float(x), Val::Float(y)) => Some(floats_equal(x, y)),
            (Val::Bool(x), Val::Bool(y)) => Some(x == y),
            (Val::Str(x), Val::Str(y)) => Some(x == y),
            (Val::Unit, Val::Unit) => Some(true),
            (Val::Null, Val::Null) => Some(true),
            (Val::List(x), Val::List(y)) => same_items(w, f, w.list(x), w.list(y)),
            (Val::Tuple(x), Val::Tuple(y)) => same_items(w, f, x, y),
            (Val::MapRef(x), Val::MapRef(y)) => {
                let xs = w.map(x);
                let ys = w.map(y);
                if xs.len() != ys.len() {
                    Some(false)
                } else {
                    pairs_found(w, f, xs, ys, 0)
                }
            },
            (Val::SetRef(x), Val::SetRef(y)) => {
                let xs = w.set(x);
                let ys = w.set(y);
                if xs.len() != ys.len() {
                    Some(false)
                } else {
                    items_found(w, f, xs, ys, 0)
                }
            },
            (Val::Struct(x), Val::Struct(y)) => {
                let xi = w.instance(x);
                let yi = w.instance(y);
                if xi.name != yi.name || xi.fields.len() != yi.fields.len() {
                    Some(false)
                } else {
                    fields_equal(w, f, xi.fields, yi.fields, 0)
                }
            },
            (Val::Enum(x), Val::Enum(y)) => if x.enum_name != y.enum_name || x.variant
                != y.variant {
                Some(false)
            } else {
                same_items(w, f, x.payload, y.payload)
            },
            _ => Some(false),
        }
    }
}

/// Whether two sequences have one length and equal items at each place.
pub open spec fn same_items(w: World, fuel: nat, xs: Seq<Val>, ys: Seq<Val>) -> Option<bool>
    decreases fuel, 2nat, 0nat,
{
    if xs.len() != ys.len() {
        Some(false)
    } else {
        items_equal(w, fuel, xs, ys, 0)
    }
}

pub open spec fn items_equal(
    w: World,
    fuel: nat,
    xs: Seq<Val>,
    ys: Seq<Val>,
    i: nat,
) -> Option<bool>
    decreases fuel, 1nat, xs.len() - i,
{
    if i >= xs.len() || i >= ys.len() {
        Some(true)
    } else {
        match equal(w, fuel, xs[i as int], ys[i as int]) {
            Some(true) => items_equal(w, fuel, xs, ys, i + 1),
            other => other,
        }
    }
}

/// Whether every field from place `i` on is also a field of `ys`, and equal.
pub open spec fn fields_equal(
    w: World,
    fuel: nat,
    xs: Seq<(Seq<char>, Val)>,
    ys: Seq<(Seq<char>, Val)>,
    i: nat,
) -> Option<bool>
    decreases fuel, 1nat, xs.len() - i,
{
    if i >= xs.len() {
        Some(true)
    } else {
        match lookup(ys, xs[i as int].0) {
            None => Some(false),
            Some(v) => match equal(w, fuel, xs[i as int].1, v) {
                Some(true) => fields_equal(w, fuel, xs, ys, i + 1),
                other => other,
            },
        }
    }
}

/// The place of the first item at `j` or after it that `x` equals.
pub open spec fn place_of(w: World, fuel: nat, x: Val, ys: Seq<Val>, j: nat) -> Option<Option<nat>>
    decreases fuel, 1nat, ys.len() - j,
{
    if j >= ys.len() {
        Some(None)
    } else {
        match equal(w, fuel, x, ys[j as int]) {
            None => None,
            Some(true) => Some(Some(j)),
            Some(false) => place_of(w, fuel, x, ys, j + 1),
        }
    }
}

/// Whether each item from place `i` on equals one of `ys`.
pub open spec fn items_found(
    w: World,
    fuel: nat,
    xs: Seq<Val>,
    ys: Seq<Val>,
    i: nat,
) -> Option<bool>
    decreases fuel, 2nat, xs.len() - i,
{
    if i >= xs.len() {
        Some(true)
    } else {
        match place_of(w, fuel, xs[i as int], ys, 0) {
            None => None,
            Some(None) => Some(false),
            Some(Some(_)) => items_found(w, fuel, xs, ys, i + 1),
        }
    }
}

/// The place of the first pair at `j` or after it whose key `k` equals.
pub open spec fn key_place(
    w: World,
    fuel: nat,
    k: Val,
    ys: Seq<(Val, Val)>,
    j: nat,
) -> Option<Option<nat>>
    decreases fuel, 1nat, ys.len() - j,
{
    if j >= ys.len() {
        Some(None)
    } else {
        match equal(w, fuel, k, ys[j as int].0) {
            None => None,
            Some(true) => Some(Some(j)),
            Some(false) => key_place(w, fuel, k, ys, j + 1),
        }
    }
}

/// Whether for each pair from place `i` on the first pair of `ys` with an equal
/// key has an equal value.
pub open spec fn pairs_found(
    w: World,
    fuel: nat,
    xs: Seq<(Val, Val)>,
    ys: Seq<(Val, Val)>,
    i: nat,
) -> Option<bool>
    decreases fuel, 2nat, xs.len() - i,
{
    if i >= xs.len() {
        Some(true)
    } else {
        match key_place(w, fuel, xs[i as int].0, ys, 0) {
            None => None,
            Some(None) => Some(false),
            Some(Some(j)) => match equal(w, fuel, xs[i as int].1, ys[j as int].1) {
                Some(true) => pairs_found(w, fuel, xs, ys, i + 1),
                other => other,
            },
        }
    }
}

/// Structural value equality. `None`: the values nest deeper than `fuel`.
pub fn values_equal(state: &State, fuel: u64, a: &Value, b: &Value) -> (r: Option<bool>)
    ensures
        r == equal(state@, fuel as nat, a@, b@),
    decreases fuel, 0nat,
{
    if fuel == 0 {
        return None;
    }
    let f = fuel - 1;
    match (a, b) {
        (Value::Int(x), Value::Int(y)) => Some(order(x, y) == Order::Equal),
        (Value::Float(x), Value::Float(y)) => Some(equal_floats(*x, *y)),
        (Value::Bool(x), Value::Bool(y)) => Some(*x == *y),
        (Value::Str(x), Value::Str(y)) => Some(*x == *y),
        (Value::Unit, Value::Unit) => Some(true),
        (Value::Null, Value::Null) => Some(true),
        (Value::List(x), Value::List(y)) => {
            let none: Vec<Value> = Vec::new();
            assert(vals(none@) =~= Seq::<Val>::empty());
            let xs = match state.list(*x) {
                Some(items) => items,
                None => &none,
            };
            let ys = match state.list(*y) {
                Some(items) => items,
                None => &none,
            };
            equal_items(state, f, xs, ys)
        },
        (Value::Tuple(x), Value::Tuple(y)) => equal_items(state, f, x, y),
        (Value::MapRef(x), Value::MapRef(y)) => {
            let none: Vec<(Value, Value)> = Vec::new();
            assert(pair_vals(none@) =~= Seq::<(Val, Val)>::empty());
            let xs = match state.map(*x) {
                Some(pairs) => pairs,
                None => &none,
            };
            let ys = match state.map(*y) {
                Some(pairs) => pairs,
                None => &none,
            };
            assert(xs@.len() == pair_vals(xs@).len() && ys@.len() == pair_vals(ys@).len());
            if xs.len() != ys.len() {
                return Some(false);
            }
            find_pairs(state, f, xs, ys)
        },
        (Value::SetRef(x), Value::SetRef(y)) => {
            let none: Vec<Value> = Vec::new();
            assert(vals(none@) =~= Seq::<Val>::empty());
            let xs = match state.set(*x) {
                Some(items) => items,
                None => &none,
            };
            let ys = match state.set(*y) {
                Some(items) => items,
                None => &none,
            };
            assert(xs@.len() == vals(xs@).len() && ys@.len() == vals(ys@).len());
            if xs.len() != ys.len() {
                return Some(false);
            }
            find_items(state, f, xs, ys)
        },
        (Value::Struct(x), Value::Struct(y)) => {
            let blank = blank_instance();
            let xi = match state.instance(*x) {
                Some(inst) => inst,
                None => &blank,
            };
            let yi = match state.instance(*y) {
                Some(inst) => inst,
                None => &blank,
            };
            if !(xi.struct_name == yi.struct_name) || xi.fields.len() != yi.fields.len() {
                return Some(false);
            }
            equal_fields(state, f, xi, yi)
        },
        (Value::Enum(x), Value::Enum(y)) => {
            if !(x.enum_name == y.enum_name) || !(x.variant == y.variant) {
                return Some(false);
            }
            equal_items(state, f, &x.payload, &y.payload)
        },
        _ => Some(false),
    }
}

fn equal_items(state: &State, fuel: u64, xs: &Vec<Value>, ys: &Vec<Value>) -> (r: Option<bool>)
    ensures
        r == same_items(state@, fuel as nat, vals(xs@), vals(ys@)),
    decreases fuel, 2nat,
{
    if xs.len() != ys.len() {
        return Some(false);
    }
    let mut i: usize = 0;
    while i < xs.len()
        invariant
            i <= xs.len(),
            xs.len() == ys.len(),
            items_equal(state@, fuel as nat, vals(xs@), vals(ys@), i as nat) == items_equal(
                state@,
                fuel as nat,
                vals(xs@),
                vals(ys@),
                0,
            ),
        decreases xs.len() - i,
    {
        match values_equal(state, fuel, &xs[i], &ys[i]) {
            Some(true) => {},
            other => {
                return other;
            },
        }
        i = i + 1;
    }
    Some(true)
}

fn equal_fields(
    state: &State,
    fuel: u64,
    xi: &StructInstance,
    yi: &StructInstance,
) -> (r: Option<bool>)
    ensures
        r == fields_equal(state@, fuel as nat, xi@.fields, yi@.fields, 0),
    decreases fuel, 2nat,
{
    let mut i: usize = 0;
    while i < xi.fields.entries.len()
        invariant
            i <= xi.fields.entries.len(),
            fields_equal(state@, fuel as nat, xi@.fields, yi@.fields, i as nat) == fields_equal(
                state@,
                fuel as nat,
                xi@.fields,
                yi@.fields,
                0,
            ),
        decreases xi.fields.entries.len() - i,
    {
        let entry = &xi.fields.entries[i];
        assert(xi@.fields[i as int] == (entry.0@, entry.1@));
        match yi.fields.get(entry.0.as_str()) {
            None => {
                return Some(false);
            },
            Some(v) => match values_equal(state, fuel, &entry.1, v) {
                Some(true) => {},
                other => {
                    return other;
                },
            },
        }
        i = i + 1;
    }
    Some(true)
}

fn find_item(state: &State, fuel: u64, x: &Value, ys: &Vec<Value>) -> (r: Option<Option<usize>>)
    ensures
        match r {
            None => place_of(state@, fuel as nat, x@, vals(ys@), 0) is None,
            Some(None) => place_of(state@, fuel as nat, x@, vals(ys@), 0) == Some(None::<nat>),
            Some(Some(j)) => place_of(state@, fuel as nat, x@, vals(ys@), 0) == Some(
                Some(j as nat),
            ),
        },
    decreases fuel, 1nat,
{
    let mut j: usize = 0;
    while j < ys.len()
        invariant
            j <= ys.len(),
            place_of(state@, fuel as nat, x@, vals(ys@), j as nat) == place_of(
                state@,
                fuel as nat,
                x@,
                vals(ys@),
                0,
            ),
        decreases ys.len() - j,
    {
        match values_equal(state, fuel, x, &ys[j]) {
            None => {
                return None;
            },
            Some(true) => {
                return Some(Some(j));
            },
            Some(false) => {},
        }
        j = j + 1;
    }
    Some(None)
}

fn find_items(state: &State, fuel: u64, xs: &Vec<Value>, ys: &Vec<Value>) -> (r: Option<bool>)
    ensures
        r == items_found(state@, fuel as nat, vals(xs@), vals(ys@), 0),
    decreases fuel, 2nat,
{
    let mut i: usize = 0;
    while i < xs.len()
        invariant
            i <= xs.len(),
            items_found(state@, fuel as nat, vals(xs@), vals(ys@), i as nat) == items_found(
                state@,
                fuel as nat,
                vals(xs@),
                vals(ys@),
                0,
            ),
        decreases xs.len() - i,
    {
        match find_item(state, fuel, &xs[i], ys) {
            None => {
                return None;
            },
            Some(None) => {
                return Some(false);
            },
            Some(Some(_)) => {},
        }
        i = i + 1;
    }
    Some(true)
}

fn find_key(
    state: &State,
    fuel: u64,
    k: &Value,
    ys: &Vec<(Value, Value)>,
) -> (r: Option<Option<usize>>)
    ensures
        match r {
            None => key_place(state@, fuel as nat, k@, pair_vals(ys@), 0) is None,
            Some(None) => key_place(state@, fuel as nat, k@, pair_vals(ys@), 0) == Some(
                None::<nat>,
            ),
            Some(Some(j)) => key_place(state@, fuel as nat, k@, pair_vals(ys@), 0) == Some(
                Some(j as nat),
            ) && j < ys@.len(),
        },
    decreases fuel, 1nat,
{
    let mut j: usize = 0;
    while j < ys.len()
        invariant
            j <= ys.len(),
            key_place(state@, fuel as nat, k@, pair_vals(ys@), j as nat) == key_place(
                state@,
                fuel as nat,
                k@,
                pair_vals(ys@),
                0,
            ),
        decreases ys.len() - j,
    {
        match values_equal(state, fuel, k, &ys[j].0) {
            None => {
                return None;
            },
            Some(true) => {
                return Some(Some(j));
            },
            Some(false) => {},
        }
        j = j + 1;
    }
    Some(None)
}

fn find_pairs(
    state: &State,
    fuel: u64,
    xs: &Vec<(Value, Value)>,
    ys: &Vec<(Value, Value)>,
) -> (r: Option<bool>)
    ensures
        r == pairs_found(state@, fuel as nat, pair_vals(xs@), pair_vals(ys@), 0),
    decreases fuel, 2nat,
{
    let mut i: usize = 0;
    while i < xs.len()
        invariant
            i <= xs.len(),
            pairs_found(state@, fuel as nat, pair_vals(xs@), pair_vals(ys@), i as nat)
                == pairs_found(state@, fuel as nat, pair_vals(xs@), pair_vals(ys@), 0),
        decreases xs.len() - i,
    {
        match find_key(state, fuel, &xs[i].0, ys) {
            None => {
                return None;
            },
            Some(None) => {
                return Some(false);
            },
            Some(Some(j)) => match values_equal(state, fuel, &xs[i].1, &ys[j].1) {
                Some(true) => {},
                other => {
                    return other;
                },
            },
        }
        i = i + 1;
    }
    Some(true)
}

/// Whether a literal pattern matches a value.
pub open spec fn literal_fits(lit: LitPattern, v: Val) -> bool {
    match (lit, v) {
        (LitPattern::Int(a), Val::Int(b)) => a@ == b,
        (LitPattern::Float(a), Val::Float(b)) => floats_equal(a, b),
        (LitPattern::Bool(a), Val::Bool(b)) => a == b,
        (LitPattern::Str(a), Val::Str(b)) => a@ == b,
        _ => false,
    }
}

/// Whether a literal pattern matches a value, by value equality.
pub fn lit_matches(lit: &LitPattern, v: &Value) -> (r: bool)
    ensures
        r == literal_fits(*lit, v@),
{
    match (lit, v) {
        (LitPattern::Int(a), Value::Int(b)) => order(a, b) == Order::Equal,
        (LitPattern::Float(a), Value::Float(b)) => equal_floats(*a, *b),
        (LitPattern::Bool(a), Value::Bool(b)) => *a == *b,
        (LitPattern::Str(a), Value::Str(b)) => *a == *b,
        _ => false,
    }
}

// ---------------------------------------------------------------------------
// Ordering
// ---------------------------------------------------------------------------

pub open spec fn incomparable_halt(a: Val, b: Val, span: Span) -> Halt {
    failure("cannot order "@ + label_of(a) + " against "@ + label_of(b), span)
}

pub open spec fn no_ord_message(name: Seq<char>) -> Seq<char> {
    "type `"@ + name + "` is not orderable; add `derive Ord` to compare or sort it"@
}

/// The place of a variant among the first ones; the number of variants where
/// it is none of them.
pub open spec fn variant_place(variants: Seq<VariantShape>, name: Seq<char>, i: nat) -> nat
    decreases variants.len() - i,
{
    if i >= variants.len() {
        variants.len()
    } else if variants[i as int].name == name {
        i
    } else {
        variant_place(variants, name, i + 1)
    }
}

/// The place of a variant in its enum's declaration; unknown ones come last.
pub open spec fn variant_rank(reg: Decls, enum_name: Seq<char>, variant: Seq<char>) -> usize {
    match lookup(reg.enums, enum_name) {
        Some(e) => {
            let at = variant_place(e.variants, variant, 0);
            if at < e.variants.len() {
                at as usize
            } else {
                usize::MAX
            }
        },
        None => usize::MAX,
    }
}

/// The value of a field; `()` where there is no such field.
pub open spec fn field_or_unit(fields: Seq<(Seq<char>, Val)>, name: Seq<char>) -> Val {
    match lookup(fields, name) {
        Some(v) => v,
        None => Val::Unit,
    }
}

/// How two values order. Numbers, texts and Booleans order among their own kind;
/// structs and enums order if their type derives `Ord`: structs field by field
/// in the order of declaration, enums by variant in the order of declaration,
/// then value by value. All else is an error.
pub open spec fn compared(
    reg: Decls,
    w: World,
    fuel: nat,
    a: Val,
    b: Val,
    span: Span,
) -> Result<Order, Halt>
    decreases fuel, 0nat, 0nat,
{
    if fuel == 0 {
        Err(Halt::Budget)
    } else {
        let f = (fuel - 1) as nat;
        match (a, b) {
            (Val::Int(x), Val::Int(y)) => Ok(int_order(x, y)),
            (Val::Float(x), Val::Float(y)) => match float_order(x, y) {
                Some(o) => Ok(o),
                None => Err(failure("cannot order NaN Float values"@, span)),
            },
            (Val::Str(x), Val::Str(y)) => Ok(text_order(x, y)),
            (Val::Bool(x), Val::Bool(y)) => Ok(bool_order(x, y)),
            (Val::Struct(x), Val::Struct(y)) => {
                let xi = w.instance(x);
                let yi = w.instance(y);
                if xi.name != yi.name {
                    Err(incomparable_halt(a, b, span))
                } else if !reg.ordered(xi.name) {
                    Err(failure(no_ord_message(xi.name), span))
                } else {
                    fields_compared(reg, w, f, xi.order, xi.fields, yi.fields, 0, span)
                }
            },
            (Val::Enum(x), Val::Enum(y)) => if x.enum_name != y.enum_name {
                Err(incomparable_halt(a, b, span))
            } else if !reg.ordered(x.enum_name) {
                Err(failure(no_ord_message(x.enum_name), span))
            } else {
                let xr = variant_rank(reg, x.enum_name, x.variant);
                let yr = variant_rank(reg, y.enum_name, y.variant);
                if xr != yr {
                    Ok(int_order(xr as int, yr as int))
                } else {
                    items_compared(reg, w, f, x.payload, y.payload, 0, span)
                }
            },
            _ => Err(incomparable_halt(a, b, span)),
        }
    }
}

/// `false` comes before `true`.
pub open spec fn bool_order(a: bool, b: bool) -> Order {
    if a == b {
        Order::Equal
    } else if b {
        Order::Less
    } else {
        Order::Greater
    }
}

/// Order two Booleans.
pub fn order_bools(a: bool, b: bool) -> (r: Order)
    ensures
        r == bool_order(a, b),
{
    if a == b {
        Order::Equal
    } else if b {
        Order::Less
    } else {
        Order::Greater
    }
}

/// The first of the named fields that differs decides.
pub open spec fn fields_compared(
    reg: Decls,
    w: World,
    fuel: nat,
    names: Seq<Seq<char>>,
    xs: Seq<(Seq<char>, Val)>,
    ys: Seq<(Seq<char>, Val)>,
    i: nat,
    span: Span,
) -> Result<Order, Halt>
    decreases fuel, 1nat, names.len() - i,
{
    if i >= names.len() {
        Ok(Order::Equal)
    } else {
        match compared(
            reg,
            w,
            fuel,
            field_or_unit(xs, names[i as int]),
            field_or_unit(ys, names[i as int]),
            span,
        ) {
            Ok(Order::Equal) => fields_compared(reg, w, fuel, names, xs, ys, i + 1, span),
            other => other,
        }
    }
}

/// The first place where the two differ decides, up to the end of the shorter.
pub open spec fn items_compared(
    reg: Decls,
    w: World,
    fuel: nat,
    xs: Seq<Val>,
    ys: Seq<Val>,
    i: nat,
    span: Span,
) -> Result<Order, Halt>
    decreases fuel, 1nat, xs.len() - i,
{
    if i >= xs.len() || i >= ys.len() {
        Ok(Order::Equal)
    } else {
        match compared(reg, w, fuel, xs[i as int], ys[i as int], span) {
            Ok(Order::Equal) => items_compared(reg, w, fuel, xs, ys, i + 1, span),
            other => other,
        }
    }
}

fn incomparable(a: &Value, b: &Value, span: Span) -> (r: Stop)
    ensures
        r@ == incomparable_halt(a@, b@, span),
{
    let message = cat2(
        cat3("cannot order ", type_label(a), " against ").as_str(),
        type_label(b),
    );
    fail(message, span)
}

/// The error of ordering values of a type that does not derive `Ord`.
pub fn no_ord(name: &str, span: Span) -> (r: Diagnostic)
    ensures
        r@ == runtime_diag(no_ord_message(name@), span),
{
    Diagnostic::runtime(
        cat3("type `", name, "` is not orderable; add `derive Ord` to compare or sort it"),
        span,
    )
}

/// The place of a variant in its enum's declaration; unknown ones come last.
pub fn variant_index(reg: &Registry, enum_name: &str, variant: &str) -> (r: usize)
    ensures
        r == variant_rank(reg@, enum_name@, variant@),
{
    match reg.enums.get(enum_name) {
        Some(e) => {
            let mut i: usize = 0;
            while i < e.variants.len()
                invariant
                    i <= e.variants.len(),
                    lookup(reg@.enums, enum_name@) == Some(e@),
                    variant_place(e@.variants, variant@, i as nat) == variant_place(
                        e@.variants,
                        variant@,
                        0,
                    ),
                decreases e.variants.len() - i,
            {
                if crate::text::same_text(e.variants[i].name.as_str(), variant) {
                    return i;
                }
                i = i + 1;
            }
            usize::MAX
        },
        None => usize::MAX,
    }
}

fn field_value(inst: &StructInstance, name: &str) -> (r: Value)
    ensures
        r@ == field_or_unit(inst@.fields, name@),
{
    match inst.fields.get(name) {
        Some(v) => v.clone(),
        None => Value::Unit,
    }
}

/// Order two values.
pub fn compare_values(
    state: &State,
    reg: &Registry,
    fuel: u64,
    a: &Value,
    b: &Value,
    span: Span,
) -> (r: Result<Order, Stop>)
    ensures
        seen_order(r) == compared(reg@, state@, fuel as nat, a@, b@, span),
    decreases fuel, 0nat,
{
    if fuel == 0 {
        return Err(Stop::Budget);
    }
    let f = fuel - 1;
    match (a, b) {
        (Value::Int(x), Value::Int(y)) => Ok(order(x, y)),
        (Value::Float(x), Value::Float(y)) => match order_floats(*x, *y) {
            Some(o) => Ok(o),
            None => Err(fail("cannot order NaN Float values".to_owned(), span)),
        },
        (Value::Str(x), Value::Str(y)) => Ok(order_texts(x.as_str(), y.as_str())),
        (Value::Bool(x), Value::Bool(y)) => Ok(order_bools(*x, *y)),
        (Value::Struct(x), Value::Struct(y)) => {
            let blank = blank_instance();
            let xi = match state.instance(*x) {
                Some(inst) => inst,
                None => &blank,
            };
            let yi = match state.instance(*y) {
                Some(inst) => inst,
                None => &blank,
            };
            if !(xi.struct_name == yi.struct_name) {
                return Err(incomparable(a, b, span));
            }
            if !reg.ordered(xi.struct_name.as_str()) {
                return Err(Stop::Error(no_ord(xi.struct_name.as_str(), span)));
            }
            compare_fields(state, reg, f, xi, yi, span)
        },
        (Value::Enum(x), Value::Enum(y)) => {
            if !(x.enum_name == y.enum_name) {
                return Err(incomparable(a, b, span));
            }
            if !reg.ordered(x.enum_name.as_str()) {
                return Err(Stop::Error(no_ord(x.enum_name.as_str(), span)));
            }
            let xr = variant_index(reg, x.enum_name.as_str(), x.variant.as_str());
            let yr = variant_index(reg, y.enum_name.as_str(), y.variant.as_str());
            if xr < yr {
                Ok(Order::Less)
            } else if xr > yr {
                Ok(Order::Greater)
            } else {
                compare_items(state, reg, f, &x.payload, &y.payload, span)
            }
        },
        _ => Err(incomparable(a, b, span)),
    }
}

/// What a result of ordering says.
pub open spec fn seen_order(r: Result<Order, Stop>) -> Result<Order, Halt> {
    match r {
        Ok(o) => Ok(o),
        Err(s) => Err(s@),
    }
}

fn compare_fields(
    state: &State,
    reg: &Registry,
    fuel: u64,
    xi: &StructInstance,
    yi: &StructInstance,
    span: Span,
) -> (r: Result<Order, Stop>)
    ensures
        seen_order(r) == fields_compared(
            reg@,
            state@,
            fuel as nat,
            xi@.order,
            xi@.fields,
            yi@.fields,
            0,
            span,
        ),
    decreases fuel, 1nat,
{
    let mut i: usize = 0;
    while i < xi.field_order.len()
        invariant
            i <= xi.field_order.len(),
            fields_compared(
                reg@,
                state@,
                fuel as nat,
                xi@.order,
                xi@.fields,
                yi@.fields,
                i as nat,
                span,
            ) == fields_compared(
                reg@,
                state@,
                fuel as nat,
                xi@.order,
                xi@.fields,
                yi@.fields,
                0,
                span,
            ),
        decreases xi.field_order.len() - i,
    {
        let name = xi.field_order[i].as_str();
        assert(xi@.order[i as int] == name@);
        let x = field_value(xi, name);
        let y = field_value(yi, name);
        match compare_values(state, reg, fuel, &x, &y, span) {
            Ok(Order::Equal) => {},
            other => {
                return other;
            },
        }
        i = i + 1;
    }
    Ok(Order::Equal)
}

fn compare_items(
    state: &State,
    reg: &Registry,
    fuel: u64,
    xs: &Vec<Value>,
    ys: &Vec<Value>,
    span: Span,
) -> (r: Result<Order, Stop>)
    ensures
        seen_order(r) == items_compared(
            reg@,
            state@,
            fuel as nat,
            vals(xs@),
            vals(ys@),
            0,
            span,
        ),
    decreases fuel, 1nat,
{
    let mut i: usize = 0;
    while i < xs.len() && i < ys.len()
        invariant
            i <= xs.len(),
            items_compared(reg@, state@, fuel as nat, vals(xs@), vals(ys@), i as nat, span)
                == items_compared(reg@, state@, fuel as nat, vals(xs@), vals(ys@), 0, span),
        decreases xs.len() - i,
    {
        match compare_values(state, reg, fuel, &xs[i], &ys[i], span) {
            Ok(Order::Equal) => {},
            other => {
                return other;
            },
        }
        i = i + 1;
    }
    Ok(Order::Equal)
}

// ---------------------------------------------------------------------------
// Rendering
// ---------------------------------------------------------------------------

/// The text of a float. It always shows a decimal point or an exponent.
pub open spec fn float_text(ans: Answers, bits: u64) -> Result<Seq<char>, Halt> {
    if is_nan(bits) {
        Ok("NaN"@)
    } else if is_infinite(bits) {
        Ok(if bits < SIGN_BIT { "inf"@ } else { "-inf"@ })
    } else {
        match ans.text_answer(bits) {
            None => Err(Halt::Ask(QuestionView::Text(bits))),
            Some(s) => Ok(pointed(s)),
        }
    }
}

/// A decimal text with `.0` behind it, unless it has a point or an exponent.
pub open spec fn pointed(s: Seq<char>) -> Seq<char> {
    if s.contains('.') || s.contains('e') || s.contains('E') {
        s
    } else {
        s + ".0"@
    }
}

/// The rendering of a value, as `print` and interpolation show it.
pub open spec fn shown(ans: Answers, w: World, fuel: nat, v: Val) -> Result<Seq<char>, Halt>
    decreases fuel, 0nat, 0nat,
{
    if fuel == 0 {
        Err(Halt::Budget)
    } else {
        let f = (fuel - 1) as nat;
        match v {
            Val::Int(n) => Ok(signed_decimal(n)),
            Val::Float(bits) => float_text(ans, bits),
            Val::Bool(b) => Ok(if b { "true"@ } else { "false"@ }),
            Val::Str(s) => Ok(s),
            Val::Unit => Ok("()"@),
            Val::Null => Ok("null"@),
            Val::List(at) => framed("["@, shown_items(ans, w, f, w.list(at), 0, Seq::empty()), "]"@),
            Val::Tuple(items) => framed(
                "("@,
                shown_items(ans, w, f, items, 0, Seq::empty()),
                ")"@,
            ),
            Val::MapRef(at) => framed(
                "{"@,
                shown_pairs(ans, w, f, w.map(at), 0, Seq::empty()),
                "}"@,
            ),
            Val::SetRef(at) => if w.set(at).len() == 0 {
                Ok("Set()"@)
            } else {
                framed("{"@, shown_items(ans, w, f, w.set(at), 0, Seq::empty()), "}"@)
            },
            Val::Struct(at) => framed(
                w.instance(at).name + "("@,
                shown_fields(
                    ans,
                    w,
                    f,
                    w.instance(at).order,
                    w.instance(at).fields,
                    0,
                    Seq::empty(),
                ),
                ")"@,
            ),
            Val::Enum(e) => if e.payload.len() == 0 {
                Ok(e.variant)
            } else if e.names.len() == e.payload.len() {
                framed(
                    e.variant + "("@,
                    shown_named(ans, w, f, e.names, e.payload, 0, Seq::empty()),
                    ")"@,
                )
            } else {
                framed(
                    e.variant + "("@,
                    shown_items(ans, w, f, e.payload, 0, Seq::empty()),
                    ")"@,
                )
            },
            Val::Closure(_) => Ok("<function>"@),
            Val::Builtin(_) => Ok("<builtin>"@),
        }
    }
}

/// Parts with `, ` between them, inside a frame.
pub open spec fn framed(
    open: Seq<char>,
    parts: Result<Seq<Seq<char>>, Halt>,
    close: Seq<char>,
) -> Result<Seq<char>, Halt> {
    match parts {
        Ok(ps) => Ok(open + joined(ps, ", "@) + close),
        Err(h) => Err(h),
    }
}

/// `done`, and then the rendering of each item from place `i` on.
pub open spec fn shown_items(
    ans: Answers,
    w: World,
    fuel: nat,
    items: Seq<Val>,
    i: nat,
    done: Seq<Seq<char>>,
) -> Result<Seq<Seq<char>>, Halt>
    decreases fuel, 1nat, items.len() - i,
{
    if i >= items.len() {
        Ok(done)
    } else {
        match shown(ans, w, fuel, items[i as int]) {
            Ok(s) => shown_items(ans, w, fuel, items, i + 1, done.push(s)),
            Err(h) => Err(h),
        }
    }
}

/// `done`, and then `key: value` of each pair from place `i` on.
pub open spec fn shown_pairs(
    ans: Answers,
    w: World,
    fuel: nat,
    pairs: Seq<(Val, Val)>,
    i: nat,
    done: Seq<Seq<char>>,
) -> Result<Seq<Seq<char>>, Halt>
    decreases fuel, 1nat, pairs.len() - i,
{
    if i >= pairs.len() {
        Ok(done)
    } else {
        match shown(ans, w, fuel, pairs[i as int].0) {
            Ok(k) => match shown(ans, w, fuel, pairs[i as int].1) {
                Ok(v) => shown_pairs(ans, w, fuel, pairs, i + 1, done.push(k + ": "@ + v)),
                Err(h) => Err(h),
            },
            Err(h) => Err(h),
        }
    }
}

/// `done`, and then `name: value` of each name from place `i` on.
pub open spec fn shown_named(
    ans: Answers,
    w: World,
    fuel: nat,
    names: Seq<Seq<char>>,
    items: Seq<Val>,
    i: nat,
    done: Seq<Seq<char>>,
) -> Result<Seq<Seq<char>>, Halt>
    decreases fuel, 1nat, items.len() - i,
{
    if i >= items.len() || i >= names.len() {
        Ok(done)
    } else {
        match shown(ans, w, fuel, items[i as int]) {
            Ok(v) => shown_named(
                ans,
                w,
                fuel,
                names,
                items,
                i + 1,
                done.push(names[i as int] + ": "@ + v),
            ),
            Err(h) => Err(h),
        }
    }
}

/// `done`, and then `name: value` of each field named from place `i` on.
pub open spec fn shown_fields(
    ans: Answers,
    w: World,
    fuel: nat,
    names: Seq<Seq<char>>,
    fields: Seq<(Seq<char>, Val)>,
    i: nat,
    done: Seq<Seq<char>>,
) -> Result<Seq<Seq<char>>, Halt>
    decreases fuel, 1nat, names.len() - i,
{
    if i >= names.len() {
        Ok(done)
    } else {
        match shown(ans, w, fuel, field_or_unit(fields, names[i as int])) {
            Ok(v) => shown_fields(
                ans,
                w,
                fuel,
                names,
                fields,
                i + 1,
                done.push(names[i as int] + ": "@ + v),
            ),
            Err(h) => Err(h),
        }
    }
}

/// Whether a text holds a character.
fn has_char(cs: &Vec<char>, c: char) -> (r: bool)
    ensures
        r == cs@.contains(c),
{
    let mut i: usize = 0;
    while i < cs.len()
        invariant
            i <= cs.len(),
            forall|j: int| 0 <= j < i ==> cs@[j] != c,
        decreases cs.len() - i,
    {
        if cs[i] == c {
            return true;
        }
        i = i + 1;
    }
    false
}

/// Render a float so that it always shows a decimal point or an exponent.
pub fn format_float(table: &FloatTable, bits: u64) -> (r: Result<String, Stop>)
    ensures
        seen(r) == float_text(table@, bits),
{
    if nan(bits) {
        return Ok("NaN".to_owned());
    }
    if infinite(bits) {
        return Ok(
            if bits < SIGN_BIT {
                "inf".to_owned()
            } else {
                "-inf".to_owned()
            },
        );
    }
    match table.find_text(bits) {
        None => Err(Stop::Ask(Question::Text(bits))),
        Some(s) => {
            let cs = chars_of(s.as_str());
            if has_char(&cs, '.') || has_char(&cs, 'e') || has_char(&cs, 'E') {
                Ok(s)
            } else {
                Ok(cat2(s.as_str(), ".0"))
            }
        },
    }
}

fn frame(open: &str, parts: Result<Vec<String>, Stop>, close: &str) -> (r: Result<String, Stop>)
    ensures
        seen(r) == framed(open@, seen_texts(parts), close@),
{
    match parts {
        Ok(ps) => Ok(cat3(open, join(&ps, ", ").as_str(), close)),
        Err(s) => Err(s),
    }
}

/// What a result made of several texts says.
pub open spec fn seen_texts(r: Result<Vec<String>, Stop>) -> Result<Seq<Seq<char>>, Halt> {
    match r {
        Ok(ps) => Ok(texts(ps@)),
        Err(s) => Err(s@),
    }
}

/// An instance of no struct, without fields.
pub fn blank_instance() -> (r: StructInstance)
    ensures
        r@ == (StructVal { name: Seq::empty(), fields: Seq::empty(), order: Seq::empty() }),
{
    StructInstance {
        struct_name: String::new(),
        fields: crate::name_map::NameMap::new(),
        field_order: Vec::new(),
    }
}

/// Render a value.
pub fn show(state: &State, table: &FloatTable, fuel: u64, v: &Value) -> (r: Result<String, Stop>)
    ensures
        seen(r) == shown(table@, state@, fuel as nat, v@),
    decreases fuel, 0nat,
{
    if fuel == 0 {
        return Err(Stop::Budget);
    }
    let f = fuel - 1;
    match v {
        Value::Int(n) => Ok(n.to_text()),
        Value::Float(bits) => format_float(table, *bits),
        Value::Bool(b) => Ok(
            if *b {
                "true".to_owned()
            } else {
                "false".to_owned()
            },
        ),
        Value::Str(s) => Ok(s.clone()),
        Value::Unit => Ok("()".to_owned()),
        Value::Null => Ok("null".to_owned()),
        Value::List(at) => {
            let none: Vec<Value> = Vec::new();
            assert(vals(none@) =~= Seq::<Val>::empty());
            let items = match state.list(*at) {
                Some(items) => items,
                None => &none,
            };
            frame("[", show_items(state, table, f, items), "]")
        },
        Value::Tuple(items) => frame("(", show_items(state, table, f, items), ")"),
        Value::MapRef(at) => {
            let none: Vec<(Value, Value)> = Vec::new();
            assert(pair_vals(none@) =~= Seq::<(Val, Val)>::empty());
            let pairs = match state.map(*at) {
                Some(pairs) => pairs,
                None => &none,
            };
            frame("{", show_pairs(state, table, f, pairs), "}")
        },
        Value::SetRef(at) => {
            let none: Vec<Value> = Vec::new();
            assert(vals(none@) =~= Seq::<Val>::empty());
            let items = match state.set(*at) {
                Some(items) => items,
                None => &none,
            };
            assert(items@.len() == vals(items@).len());
            if items.len() == 0 {
                return Ok("Set()".to_owned());
            }
            frame("{", show_items(state, table, f, items), "}")
        },
        Value::Struct(at) => {
            let blank = blank_instance();
            let inst = match state.instance(*at) {
                Some(inst) => inst,
                None => &blank,
            };
            frame(
                cat2(inst.struct_name.as_str(), "(").as_str(),
                show_fields(state, table, f, inst),
                ")",
            )
        },
        Value::Enum(e) => {
            assert(vals(e.payload@).len() == e.payload@.len());
            assert(texts(e.payload_names@).len() == e.payload_names@.len());
            if e.payload.len() == 0 {
                return Ok(e.variant.clone());
            }
            let open = cat2(e.variant.as_str(), "(");
            if e.payload_names.len() == e.payload.len() {
                frame(open.as_str(), show_named(state, table, f, e), ")")
            } else {
                frame(open.as_str(), show_items(state, table, f, &e.payload), ")")
            }
        },
        Value::Closure(_) => Ok("<function>".to_owned()),
        Value::Builtin(_) => Ok("<builtin>".to_owned()),
    }
}

/// Render each value.
pub fn show_items(
    state: &State,
    table: &FloatTable,
    fuel: u64,
    items: &Vec<Value>,
) -> (r: Result<Vec<String>, Stop>)
    ensures
        seen_texts(r) == shown_items(table@, state@, fuel as nat, vals(items@), 0, Seq::empty()),
    decreases fuel, 1nat,
{
    let mut out: Vec<String> = Vec::new();
    let mut i: usize = 0;
    while i < items.len()
        invariant
            i <= items.len(),
            shown_items(table@, state@, fuel as nat, vals(items@), i as nat, texts(out@))
                == shown_items(table@, state@, fuel as nat, vals(items@), 0, Seq::empty()),
        decreases items.len() - i,
    {
        match show(state, table, fuel, &items[i]) {
            Ok(s) => {
                out.push(s);
            },
            Err(e) => {
                return Err(e);
            },
        }
        i = i + 1;
    }
    Ok(out)
}

fn show_pairs(
    state: &State,
    table: &FloatTable,
    fuel: u64,
    pairs: &Vec<(Value, Value)>,
) -> (r: Result<Vec<String>, Stop>)
    ensures
        seen_texts(r) == shown_pairs(
            table@,
            state@,
            fuel as nat,
            pair_vals(pairs@),
            0,
            Seq::empty(),
        ),
    decreases fuel, 1nat,
{
    let mut out: Vec<String> = Vec::new();
    let mut i: usize = 0;
    while i < pairs.len()
        invariant
            i <= pairs.len(),
            shown_pairs(table@, state@, fuel as nat, pair_vals(pairs@), i as nat, texts(out@))
                == shown_pairs(table@, state@, fuel as nat, pair_vals(pairs@), 0, Seq::empty()),
        decreases pairs.len() - i,
    {
        let k = match show(state, table, fuel, &pairs[i].0) {
            Ok(k) => k,
            Err(e) => {
                return Err(e);
            },
        };
        let v = match show(state, table, fuel, &pairs[i].1) {
            Ok(v) => v,
            Err(e) => {
                return Err(e);
            },
        };
        out.push(cat3(k.as_str(), ": ", v.as_str()));
        i = i + 1;
    }
    Ok(out)
}

fn show_named(
    state: &State,
    table: &FloatTable,
    fuel: u64,
    e: &EnumInstance,
) -> (r: Result<Vec<String>, Stop>)
    ensures
        seen_texts(r) == shown_named(
            table@,
            state@,
            fuel as nat,
            e@.names,
            e@.payload,
            0,
            Seq::empty(),
        ),
    decreases fuel, 1nat,
{
    let mut out: Vec<String> = Vec::new();
    let mut i: usize = 0;
    while i < e.payload.len() && i < e.payload_names.len()
        invariant
            i <= e.payload.len(),
            shown_named(
                table@,
                state@,
                fuel as nat,
                e@.names,
                e@.payload,
                i as nat,
                texts(out@),
            ) == shown_named(table@, state@, fuel as nat, e@.names, e@.payload, 0, Seq::empty()),
        decreases e.payload.len() - i,
    {
        let v = match show(state, table, fuel, &e.payload[i]) {
            Ok(v) => v,
            Err(s) => {
                return Err(s);
            },
        };
        out.push(cat3(e.payload_names[i].as_str(), ": ", v.as_str()));
        i = i + 1;
    }
    Ok(out)
}

fn show_fields(
    state: &State,
    table: &FloatTable,
    fuel: u64,
    inst: &StructInstance,
) -> (r: Result<Vec<String>, Stop>)
    ensures
        seen_texts(r) == shown_fields(
            table@,
            state@,
            fuel as nat,
            inst@.order,
            inst@.fields,
            0,
            Seq::empty(),
        ),
    decreases fuel, 1nat,
{
    let mut out: Vec<String> = Vec::new();
    let mut i: usize = 0;
    while i < inst.field_order.len()
        invariant
            i <= inst.field_order.len(),
            shown_fields(
                table@,
                state@,
                fuel as nat,
                inst@.order,
                inst@.fields,
                i as nat,
                texts(out@),
            ) == shown_fields(
                table@,
                state@,
                fuel as nat,
                inst@.order,
                inst@.fields,
                0,
                Seq::empty(),
            ),
        decreases inst.field_order.len() - i,
    {
        let name = inst.field_order[i].as_str();
        assert(inst@.order[i as int] == name@);
        let field = field_value(inst, name);
        let v = match show(state, table, fuel, &field) {
            Ok(v) => v,
            Err(s) => {
                return Err(s);
            },
        };
        out.push(cat3(name, ": ", v.as_str()));
        i = i + 1;
    }
    Ok(out)
}

} // verus!
