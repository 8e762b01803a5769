//! Laws of rendering: how values are shown.

use super::float::{is_infinite, is_nan, Answers, QuestionView};
use super::show::{shown, shown_fields, shown_items, shown_named, shown_pairs};
use super::value::{Halt, Val, World};
use crate::integer::{all_digits, digits_value};
use crate::name_map::lookup;
use crate::text::{decimal, digit_char, joined};
use vstd::prelude::*;
use vstd::string::*;

verus! {

// ---------------------------------------------------------------------------
// Numbers
// ---------------------------------------------------------------------------

/// The digits of a number read back as the number, and there is no zero in front.
pub proof fn law_decimal_reads_back(n: nat)
    ensures
        all_digits(decimal(n)),
        digits_value(decimal(n)) == n,
        decimal(n).len() >= 1,
        decimal(n).len() > 1 ==> decimal(n)[0] != '0',
    decreases n,
{
    let d = (n % 10) as nat;
    assert('0' <= digit_char(d) <= '9');
    if n < 10 {
        let one = seq![digit_char(n)];
        assert(one.drop_last() =~= Seq::<char>::empty());
        assert(digits_value(one.drop_last()) == 0);
        assert('0' <= digit_char(n) <= '9');
    } else {
        law_decimal_reads_back(n / 10);
        let front = decimal(n / 10);
        let all = decimal(n);
        assert(all.drop_last() =~= front);
        assert(all[0] == front[0]);
        if front.len() == 1 {
            assert(n / 10 > 0);
            if front[0] == '0' {
                assert(front.drop_last() =~= Seq::<char>::empty());
                assert(digits_value(front.drop_last()) == 0);
                assert(front.last() == '0');
                assert(digits_value(front) == 0);
            }
        }
    }
}

/// An integer is shown by its digits, with `-` in front if it is negative.
pub proof fn law_integers_are_shown(ans: Answers, w: World, fuel: nat, n: nat)
    requires
        fuel > 0,
    ensures
        shown(ans, w, fuel, Val::Int(n as int)) == Ok::<Seq<char>, Halt>(decimal(n)),
        n > 0 ==> shown(ans, w, fuel, Val::Int(-(n as int))) == Ok::<Seq<char>, Halt>(
            seq!['-'] + decimal(n),
        ),
{
}

/// How the values are shown that hold no other. A text is shown as it is.
pub proof fn law_plain_values_are_shown(ans: Answers, w: World, fuel: nat, v: Val)
    requires
        fuel > 0,
    ensures
        v == Val::Bool(true) ==> shown(ans, w, fuel, v) == Ok::<Seq<char>, Halt>("true"@),
        v == Val::Bool(false) ==> shown(ans, w, fuel, v) == Ok::<Seq<char>, Halt>("false"@),
        v is Null ==> shown(ans, w, fuel, v) == Ok::<Seq<char>, Halt>("null"@),
        v is Unit ==> shown(ans, w, fuel, v) == Ok::<Seq<char>, Halt>("()"@),
        v matches Val::Str(s) ==> shown(ans, w, fuel, v) == Ok::<Seq<char>, Halt>(s),
        v is Closure ==> shown(ans, w, fuel, v) == Ok::<Seq<char>, Halt>("<function>"@),
        v is Builtin ==> shown(ans, w, fuel, v) == Ok::<Seq<char>, Halt>("<builtin>"@),
{
}

// ---------------------------------------------------------------------------
// What stands between
// ---------------------------------------------------------------------------

/// Texts are joined with the separator between each two of them, and nowhere else.
pub proof fn law_joined(parts: Seq<Seq<char>>, last: Seq<char>, sep: Seq<char>)
    ensures
        joined(Seq::empty(), sep) == Seq::<char>::empty(),
        joined(seq![last], sep) == last,
        parts.len() > 0 ==> joined(parts.push(last), sep) == joined(parts, sep) + sep + last,
{
    assert(parts.push(last).drop_last() =~= parts);
}

// ---------------------------------------------------------------------------
// Values that hold others
// ---------------------------------------------------------------------------

/// Whether items are shown so.
pub open spec fn show_as(
    ans: Answers,
    w: World,
    fuel: nat,
    items: Seq<Val>,
    ts: Seq<Seq<char>>,
) -> bool {
    ts.len() == items.len() && forall|j: int|
        0 <= j < items.len() ==> shown(ans, w, fuel, #[trigger] items[j]) == Ok::<Seq<char>, Halt>(
            ts[j],
        )
}

proof fn to_item(ans: Answers, w: World, fuel: nat, items: Seq<Val>, ts: Seq<Seq<char>>, i: nat)
    requires
        show_as(ans, w, fuel, items, ts),
        i <= items.len(),
    ensures
        shown_items(ans, w, fuel, items, i, ts.take(i as int)) == Ok::<Seq<Seq<char>>, Halt>(ts),
    decreases items.len() - i,
{
    if i < items.len() {
        assert(shown(ans, w, fuel, items[i as int]) == Ok::<Seq<char>, Halt>(ts[i as int]));
        assert(ts.take((i + 1) as int) =~= ts.take(i as int).push(ts[i as int]));
        to_item(ans, w, fuel, items, ts, i + 1);
    } else {
        assert(ts.take(i as int) =~= ts);
    }
}

/// A list is shown in square brackets, a tuple in round ones, a set in braces, each
/// with `, ` between its items, in order; a variant by its name and then its values
/// in round brackets. An empty set is `Set()`, a variant without values its name.
pub proof fn law_items_are_shown(
    ans: Answers,
    w: World,
    fuel: nat,
    v: Val,
    items: Seq<Val>,
    ts: Seq<Seq<char>>,
)
    requires
        fuel > 0,
        show_as(ans, w, (fuel - 1) as nat, items, ts),
    ensures
        ({
            let got = shown(ans, w, fuel, v);
            let inner = joined(ts, ", "@);
            &&& v matches Val::List(at) ==> w.list(at) == items ==> got == Ok::<Seq<char>, Halt>(
                "["@ + inner + "]"@,
            )
            &&& v == Val::Tuple(items) ==> got == Ok::<Seq<char>, Halt>("("@ + inner + ")"@)
            &&& v matches Val::SetRef(at) ==> w.set(at) == items && items.len() > 0 ==> got == Ok::<
                Seq<char>,
                Halt,
            >("{"@ + inner + "}"@)
            &&& v matches Val::SetRef(at) ==> w.set(at).len() == 0 ==> got == Ok::<Seq<char>, Halt>(
                "Set()"@,
            )
            &&& v matches Val::Enum(e) ==> e.payload == items && items.len() > 0 && e.names.len()
                == 0 ==> got == Ok::<Seq<char>, Halt>(e.variant + "("@ + inner + ")"@)
            &&& v matches Val::Enum(e) ==> e.payload.len() == 0 ==> got == Ok::<Seq<char>, Halt>(
                e.variant,
            )
        }),
{
    let f = (fuel - 1) as nat;
    assert(ts.take(0) =~= Seq::<Seq<char>>::empty());
    to_item(ans, w, f, items, ts, 0);
    assert(shown_items(ans, w, f, items, 0, Seq::empty()) == Ok::<Seq<Seq<char>>, Halt>(ts));
}

proof fn to_named(
    ans: Answers,
    w: World,
    fuel: nat,
    names: Seq<Seq<char>>,
    items: Seq<Val>,
    ts: Seq<Seq<char>>,
    i: nat,
)
    requires
        show_as(ans, w, fuel, items, ts),
        names.len() == items.len(),
        i <= items.len(),
    ensures
        shown_named(ans, w, fuel, names, items, i, labelled(names, ts).take(i as int)) == Ok::<
            Seq<Seq<char>>,
            Halt,
        >(labelled(names, ts)),
    decreases items.len() - i,
{
    let all = labelled(names, ts);
    if i < items.len() {
        assert(shown(ans, w, fuel, items[i as int]) == Ok::<Seq<char>, Halt>(ts[i as int]));
        assert(all.take((i + 1) as int) =~= all.take(i as int).push(all[i as int]));
        to_named(ans, w, fuel, names, items, ts, i + 1);
    } else {
        assert(all.take(i as int) =~= all);
    }
}

/// Each text behind its name.
pub open spec fn labelled(names: Seq<Seq<char>>, ts: Seq<Seq<char>>) -> Seq<Seq<char>> {
    Seq::new(ts.len(), |i: int| names[i] + ": "@ + ts[i])
}

proof fn to_field(
    ans: Answers,
    w: World,
    fuel: nat,
    names: Seq<Seq<char>>,
    fields: Seq<(Seq<char>, Val)>,
    items: Seq<Val>,
    ts: Seq<Seq<char>>,
    i: nat,
)
    requires
        show_as(ans, w, fuel, items, ts),
        names.len() == items.len(),
        forall|j: int|
            0 <= j < names.len() ==> lookup(fields, #[trigger] names[j]) == Some(items[j]),
        i <= items.len(),
    ensures
        shown_fields(ans, w, fuel, names, fields, i, labelled(names, ts).take(i as int)) == Ok::<
            Seq<Seq<char>>,
            Halt,
        >(labelled(names, ts)),
    decreases items.len() - i,
{
    let all = labelled(names, ts);
    if i < items.len() {
        assert(lookup(fields, names[i as int]) == Some(items[i as int]));
        assert(shown(ans, w, fuel, items[i as int]) == Ok::<Seq<char>, Halt>(ts[i as int]));
        assert(all.take((i + 1) as int) =~= all.take(i as int).push(all[i as int]));
        to_field(ans, w, fuel, names, fields, items, ts, i + 1);
    } else {
        assert(all.take(i as int) =~= all);
    }
}

/// A struct is shown by the name of its type and then its fields in round brackets, each
/// behind its name, in the order of the declaration; a variant with names likewise.
pub proof fn law_named_values_are_shown(
    ans: Answers,
    w: World,
    fuel: nat,
    v: Val,
    items: Seq<Val>,
    ts: Seq<Seq<char>>,
)
    requires
        fuel > 0,
        show_as(ans, w, (fuel - 1) as nat, items, ts),
    ensures
        v matches Val::Struct(at) ==> w.instance(at).order.len() == items.len() && (forall|j: int|
            0 <= j < items.len() ==> lookup(
                w.instance(at).fields,
                #[trigger] w.instance(at).order[j],
            ) == Some(items[j])) ==> shown(ans, w, fuel, v) == Ok::<Seq<char>, Halt>(
            w.instance(at).name + "("@ + joined(labelled(w.instance(at).order, ts), ", "@) + ")"@,
        ),
        v matches Val::Enum(e) ==> e.payload == items && items.len() > 0 && e.names.len()
            == items.len() ==> shown(ans, w, fuel, v) == Ok::<Seq<char>, Halt>(
            e.variant + "("@ + joined(labelled(e.names, ts), ", "@) + ")"@,
        ),
{
    let f = (fuel - 1) as nat;
    if let Val::Struct(at) = v {
        let names = w.instance(at).order;
        if names.len() == items.len() && (forall|j: int|
            0 <= j < items.len() ==> lookup(
                w.instance(at).fields,
                #[trigger] w.instance(at).order[j],
            ) == Some(items[j])) {
            assert(labelled(names, ts).take(0) =~= Seq::<Seq<char>>::empty());
            to_field(ans, w, f, names, w.instance(at).fields, items, ts, 0);
        }
    }
    if let Val::Enum(e) = v {
        if e.payload == items && e.names.len() == items.len() {
            assert(labelled(e.names, ts).take(0) =~= Seq::<Seq<char>>::empty());
            to_named(ans, w, f, e.names, items, ts, 0);
        }
    }
}

proof fn to_pair(
    ans: Answers,
    w: World,
    fuel: nat,
    pairs: Seq<(Val, Val)>,
    ks: Seq<Seq<char>>,
    ts: Seq<Seq<char>>,
    i: nat,
)
    requires
        show_as(ans, w, fuel, pairs.map_values(|p: (Val, Val)| p.0), ks),
        show_as(ans, w, fuel, pairs.map_values(|p: (Val, Val)| p.1), ts),
        i <= pairs.len(),
    ensures
        shown_pairs(ans, w, fuel, pairs, i, labelled(ks, ts).take(i as int)) == Ok::<
            Seq<Seq<char>>,
            Halt,
        >(labelled(ks, ts)),
    decreases pairs.len() - i,
{
    let all = labelled(ks, ts);
    if i < pairs.len() {
        let keys = pairs.map_values(|p: (Val, Val)| p.0);
        let values = pairs.map_values(|p: (Val, Val)| p.1);
        assert(shown(ans, w, fuel, keys[i as int]) == Ok::<Seq<char>, Halt>(ks[i as int]));
        assert(shown(ans, w, fuel, values[i as int]) == Ok::<Seq<char>, Halt>(ts[i as int]));
        assert(all.take((i + 1) as int) =~= all.take(i as int).push(all[i as int]));
        to_pair(ans, w, fuel, pairs, ks, ts, i + 1);
    } else {
        assert(all.take(i as int) =~= all);
    }
}

/// A map is shown in braces, each value behind its key, in order.
pub proof fn law_maps_are_shown(
    ans: Answers,
    w: World,
    fuel: nat,
    at: usize,
    ks: Seq<Seq<char>>,
    ts: Seq<Seq<char>>,
)
    requires
        fuel > 0,
        show_as(ans, w, (fuel - 1) as nat, w.map(at).map_values(|p: (Val, Val)| p.0), ks),
        show_as(ans, w, (fuel - 1) as nat, w.map(at).map_values(|p: (Val, Val)| p.1), ts),
    ensures
        shown(ans, w, fuel, Val::MapRef(at)) == Ok::<Seq<char>, Halt>(
            "{"@ + joined(labelled(ks, ts), ", "@) + "}"@,
        ),
{
    let f = (fuel - 1) as nat;
    assert(labelled(ks, ts).take(0) =~= Seq::<Seq<char>>::empty());
    to_pair(ans, w, f, w.map(at), ks, ts, 0);
}

/// How a float is shown: `NaN`, `inf` and `-inf`; any other as the host writes it, with
/// `.0` behind it if that has neither a point nor an exponent.
pub proof fn law_floats_are_shown(ans: Answers, w: World, fuel: nat, bits: u64)
    requires
        fuel > 0,
    ensures
        ({
            let got = shown(ans, w, fuel, Val::Float(bits));
            &&& is_nan(bits) ==> got == Ok::<Seq<char>, Halt>("NaN"@)
            &&& is_infinite(bits) && !is_nan(bits) && bits < 0x8000_0000_0000_0000 ==> got == Ok::<
                Seq<char>,
                Halt,
            >("inf"@)
            &&& is_infinite(bits) && !is_nan(bits) && bits >= 0x8000_0000_0000_0000 ==> got == Ok::<
                Seq<char>,
                Halt,
            >("-inf"@)
            &&& !is_nan(bits) && !is_infinite(bits) ==> match ans.text_answer(bits) {
                None => got == Err::<Seq<char>, Halt>(Halt::Ask(QuestionView::Text(bits))),
                Some(s) => got == Ok::<Seq<char>, Halt>(
                    if s.contains('.') || s.contains('e') || s.contains('E') {
                        s
                    } else {
                        s + ".0"@
                    },
                ),
            }
        }),
{
}

} // verus!
