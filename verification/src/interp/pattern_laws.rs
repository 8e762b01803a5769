//! Laws of patterns: which values they fit, and which names they bind to what.

use super::float::{float_rank, is_nan};
use super::semantics::{all_matched, any_matched, matched};
use super::value::{Env, Val, World};
use crate::ast::{LitPattern, Pattern, PatternKind};
use vstd::prelude::*;

verus! {

/// Whether a literal is the value: of the same kind, and equal.
pub open spec fn is_literal(lit: LitPattern, v: Val) -> bool {
    match lit {
        LitPattern::Int(n) => v == Val::Int(n@),
        LitPattern::Bool(b) => v == Val::Bool(b),
        LitPattern::Str(s) => v == Val::Str(s@),
        LitPattern::Float(x) => v matches Val::Float(y) && !is_nan(x) && !is_nan(y) && float_rank(x)
            == float_rank(y),
    }
}

/// Whether a pattern fits a value: `_` and a name fit all; `null` and a literal fit what
/// they are; a variant fits a value of that variant, of that enum if it names one,
/// whose values its parts fit; a tuple likewise; alternatives fit if one does.
pub open spec fn accepts(pat: Pattern, v: Val) -> bool
    decreases pat, 0nat, 0nat,
{
    match pat.kind {
        PatternKind::Wildcard => true,
        PatternKind::Binding(_) => true,
        PatternKind::Null => v is Null,
        PatternKind::Literal(lit) => is_literal(lit, v),
        PatternKind::Variant { enum_name, name, subs } => v matches Val::Enum(e) && (
        enum_name matches Some(q) ==> q@ == e.enum_name) && e.variant == name@ && subs@.len()
            == e.payload.len() && accept_each(subs@, e.payload, 0),
        PatternKind::Tuple(elems) => v matches Val::Tuple(items) && elems@.len() == items.len()
            && accept_each(elems@, items, 0),
        PatternKind::Or(alts) => one_accepts(alts@, v, 0),
    }
}

/// Whether each pattern from place `i` on fits the value at its place.
pub open spec fn accept_each(pats: Seq<Pattern>, vs: Seq<Val>, i: nat) -> bool
    decreases pats, 1nat, pats.len() - i,
{
    i < pats.len() && i < vs.len() ==> accepts(pats[i as int], vs[i as int]) && accept_each(
        pats,
        vs,
        i + 1,
    )
}

/// Whether one of the patterns from place `i` on fits.
pub open spec fn one_accepts(pats: Seq<Pattern>, v: Val, i: nat) -> bool
    decreases pats, 1nat, pats.len() - i,
{
    i < pats.len() && (accepts(pats[i as int], v) || one_accepts(pats, v, i + 1))
}

/// A pattern fits just the values that it accepts, whatever is bound already.
pub proof fn law_pattern_fits(pat: Pattern, v: Val, scope: Env, w: World)
    ensures
        matched(pat, v, scope, w).0 == accepts(pat, v),
    decreases pat, 0nat, 0nat,
{
    match pat.kind {
        PatternKind::Variant { enum_name, name, subs } => {
            if let Val::Enum(e) = v {
                each_fits(subs@, e.payload, 0, scope, w);
            }
        },
        PatternKind::Tuple(elems) => {
            if let Val::Tuple(items) = v {
                each_fits(elems@, items, 0, scope, w);
            }
        },
        PatternKind::Or(alts) => {
            one_fits(alts@, v, 0, scope, w);
        },
        _ => {},
    }
}

proof fn each_fits(pats: Seq<Pattern>, vs: Seq<Val>, i: nat, scope: Env, w: World)
    ensures
        all_matched(pats, vs, i, scope, w).0 == accept_each(pats, vs, i),
    decreases pats, 1nat, pats.len() - i,
{
    if i < pats.len() && i < vs.len() {
        law_pattern_fits(pats[i as int], vs[i as int], scope, w);
        let w1 = matched(pats[i as int], vs[i as int], scope, w).1;
        each_fits(pats, vs, i + 1, scope, w1);
    }
}

proof fn one_fits(pats: Seq<Pattern>, v: Val, i: nat, scope: Env, w: World)
    ensures
        any_matched(pats, v, i, scope, w).0 == one_accepts(pats, v, i),
    decreases pats, 1nat, pats.len() - i,
{
    if i < pats.len() {
        law_pattern_fits(pats[i as int], v, scope, w);
        let w1 = matched(pats[i as int], v, scope, w).1;
        one_fits(pats, v, i + 1, scope, w1);
    }
}

// ---------------------------------------------------------------------------
// Names
// ---------------------------------------------------------------------------

/// Whether a pattern has no name in it.
pub open spec fn nameless(pat: Pattern) -> bool
    decreases pat, 0nat, 0nat,
{
    match pat.kind {
        PatternKind::Binding(_) => false,
        PatternKind::Variant { subs, .. } => all_nameless(subs@, 0),
        PatternKind::Tuple(elems) => all_nameless(elems@, 0),
        PatternKind::Or(alts) => all_nameless(alts@, 0),
        _ => true,
    }
}

pub open spec fn all_nameless(pats: Seq<Pattern>, i: nat) -> bool
    decreases pats, 1nat, pats.len() - i,
{
    i < pats.len() ==> nameless(pats[i as int]) && all_nameless(pats, i + 1)
}

/// Whether no alternative of a pattern has a name in it.
pub open spec fn plain(pat: Pattern) -> bool
    decreases pat, 0nat, 0nat,
{
    match pat.kind {
        PatternKind::Variant { subs, .. } => all_plain(subs@, 0),
        PatternKind::Tuple(elems) => all_plain(elems@, 0),
        PatternKind::Or(alts) => all_nameless(alts@, 0),
        _ => true,
    }
}

pub open spec fn all_plain(pats: Seq<Pattern>, i: nat) -> bool
    decreases pats, 1nat, pats.len() - i,
{
    i < pats.len() ==> plain(pats[i as int]) && all_plain(pats, i + 1)
}

/// The names of a pattern, from left to right, each with the part of the value that it
/// stands for.
pub open spec fn named_parts(pat: Pattern, v: Val) -> Seq<(Seq<char>, Val)>
    decreases pat, 0nat, 0nat,
{
    match (pat.kind, v) {
        (PatternKind::Binding(n), _) => seq![(n@, v)],
        (PatternKind::Variant { subs, .. }, Val::Enum(e)) => named_parts_of(subs@, e.payload, 0),
        (PatternKind::Tuple(elems), Val::Tuple(items)) => named_parts_of(elems@, items, 0),
        _ => Seq::empty(),
    }
}

pub open spec fn named_parts_of(pats: Seq<Pattern>, vs: Seq<Val>, i: nat) -> Seq<(Seq<char>, Val)>
    decreases pats, 1nat, pats.len() - i,
{
    if i < pats.len() && i < vs.len() {
        named_parts(pats[i as int], vs[i as int]) + named_parts_of(pats, vs, i + 1)
    } else {
        Seq::empty()
    }
}

/// A world in which each name is bound to its value, in turn.
pub open spec fn with_all(w: World, scope: Env, parts: Seq<(Seq<char>, Val)>) -> World
    decreases parts.len(),
{
    if parts.len() == 0 {
        w
    } else {
        with_all(w, scope, parts.drop_last()).with_var(
            scope,
            parts.last().0,
            parts.last().1,
            false,
        )
    }
}

proof fn with_both(w: World, scope: Env, a: Seq<(Seq<char>, Val)>, b: Seq<(Seq<char>, Val)>)
    ensures
        with_all(w, scope, a + b) == with_all(with_all(w, scope, a), scope, b),
    decreases b.len(),
{
    if b.len() > 0 {
        assert((a + b).drop_last() =~= a + b.drop_last());
        assert((a + b).last() == b.last());
        with_both(w, scope, a, b.drop_last());
    } else {
        assert(a + b =~= a);
    }
}

proof fn nameless_binds_none(pat: Pattern, v: Val, scope: Env, w: World)
    requires
        nameless(pat),
    ensures
        matched(pat, v, scope, w).1 == w,
    decreases pat, 0nat, 0nat,
{
    match pat.kind {
        PatternKind::Variant { enum_name, name, subs } => {
            if let Val::Enum(e) = v {
                all_bind_none(subs@, e.payload, 0, scope, w);
            }
        },
        PatternKind::Tuple(elems) => {
            if let Val::Tuple(items) = v {
                all_bind_none(elems@, items, 0, scope, w);
            }
        },
        PatternKind::Or(alts) => {
            one_binds_none(alts@, v, 0, scope, w);
        },
        _ => {},
    }
}

proof fn all_bind_none(pats: Seq<Pattern>, vs: Seq<Val>, i: nat, scope: Env, w: World)
    requires
        all_nameless(pats, i),
    ensures
        all_matched(pats, vs, i, scope, w).1 == w,
    decreases pats, 1nat, pats.len() - i,
{
    if i < pats.len() && i < vs.len() {
        nameless_binds_none(pats[i as int], vs[i as int], scope, w);
        all_bind_none(pats, vs, i + 1, scope, w);
    }
}

proof fn one_binds_none(pats: Seq<Pattern>, v: Val, i: nat, scope: Env, w: World)
    requires
        all_nameless(pats, i),
    ensures
        any_matched(pats, v, i, scope, w).1 == w,
    decreases pats, 1nat, pats.len() - i,
{
    if i < pats.len() {
        nameless_binds_none(pats[i as int], v, scope, w);
        one_binds_none(pats, v, i + 1, scope, w);
    }
}

/// A pattern that fits binds each of its names to the part of the value that it stands
/// for, and nothing else. This is of patterns without names inside alternatives.
pub proof fn law_pattern_binds(pat: Pattern, v: Val, scope: Env, w: World)
    requires
        plain(pat),
        accepts(pat, v),
    ensures
        matched(pat, v, scope, w) == (true, with_all(w, scope, named_parts(pat, v))),
    decreases pat, 0nat, 0nat,
{
    match pat.kind {
        PatternKind::Binding(n) => {
            let parts = seq![(n@, v)];
            assert(parts.drop_last() =~= Seq::<(Seq<char>, Val)>::empty());
            assert(with_all(w, scope, parts.drop_last()) == w);
        },
        PatternKind::Variant { enum_name, name, subs } => {
            if let Val::Enum(e) = v {
                each_binds(subs@, e.payload, 0, scope, w);
            }
        },
        PatternKind::Tuple(elems) => {
            if let Val::Tuple(items) = v {
                each_binds(elems@, items, 0, scope, w);
            }
        },
        PatternKind::Or(alts) => {
            one_fits(alts@, v, 0, scope, w);
            one_binds_none(alts@, v, 0, scope, w);
        },
        _ => {},
    }
}

proof fn each_binds(pats: Seq<Pattern>, vs: Seq<Val>, i: nat, scope: Env, w: World)
    requires
        all_plain(pats, i),
        accept_each(pats, vs, i),
    ensures
        all_matched(pats, vs, i, scope, w) == (
            true,
            with_all(w, scope, named_parts_of(pats, vs, i)),
        ),
    decreases pats, 1nat, pats.len() - i,
{
    if i < pats.len() && i < vs.len() {
        law_pattern_binds(pats[i as int], vs[i as int], scope, w);
        let first = named_parts(pats[i as int], vs[i as int]);
        let w1 = with_all(w, scope, first);
        each_binds(pats, vs, i + 1, scope, w1);
        with_both(w, scope, first, named_parts_of(pats, vs, i + 1));
    }
}

/// Of alternatives the first that fits counts: the names are those that it binds.
pub proof fn law_first_alternative_counts(
    pats: Seq<Pattern>,
    v: Val,
    k: nat,
    scope: Env,
    w: World,
)
    requires
        k < pats.len(),
        accepts(pats[k as int], v),
        forall|j: int| 0 <= j < k ==> !accepts(#[trigger] pats[j], v) && nameless(pats[j]),
    ensures
        any_matched(pats, v, 0, scope, w) == matched(pats[k as int], v, scope, w),
{
    to_alternative(pats, v, k, 0, scope, w);
}

proof fn to_alternative(pats: Seq<Pattern>, v: Val, k: nat, i: nat, scope: Env, w: World)
    requires
        i <= k < pats.len(),
        accepts(pats[k as int], v),
        forall|j: int| 0 <= j < k ==> !accepts(#[trigger] pats[j], v) && nameless(pats[j]),
    ensures
        any_matched(pats, v, i, scope, w) == matched(pats[k as int], v, scope, w),
    decreases k - i,
{
    law_pattern_fits(pats[i as int], v, scope, w);
    if i < k {
        assert(!accepts(pats[i as int], v));
        nameless_binds_none(pats[i as int], v, scope, w);
        to_alternative(pats, v, k, i + 1, scope, w);
    }
}

} // verus!
