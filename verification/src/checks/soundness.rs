//! What an exhaustive `match` is worth when it runs: some arm fits.

use super::exhaustiveness::{all_covered, arity_from, arms_covered, covered, match_over, Coverage};
use super::exhaustiveness_laws::{
    catches_all, missing_some, more_all_covered, more_arms_covered, more_covered,
};
use crate::ast::{MatchArm, Pattern, PatternKind};
use crate::error::DiagnosticView;
use crate::interp::semantics::{all_matched, any_matched, matched};
use crate::interp::value::{Env, EnumVal, Val, World};
use crate::token::Span;
use vstd::prelude::*;

verus! {

type Shapes = Seq<(Seq<char>, nat)>;

/// A pattern whose variants take their values as they come: the check looks at
/// variants, not at what is inside them.
pub open spec fn shallow(pat: Pattern) -> bool
    decreases pat,
{
    match pat.kind {
        PatternKind::Variant { subs, .. } => forall|i: int|
            0 <= i < subs@.len() ==> catches_all(#[trigger] subs@[i]),
        PatternKind::Or(alts) => forall|i: int|
            0 <= i < alts@.len() ==> shallow(#[trigger] alts@[i]),
        _ => true,
    }
}

/// A pattern that fits a value wherever it is tried.
pub open spec fn always_fits(pat: Pattern, v: Val) -> bool {
    forall|scope: Env, w: World| (#[trigger] matched(pat, v, scope, w)).0
}

proof fn subs_fit(subs: Seq<Pattern>, vs: Seq<Val>, i: nat, scope: Env, w: World)
    requires
        forall|k: int| 0 <= k < subs.len() ==> catches_all(#[trigger] subs[k]),
    ensures
        all_matched(subs, vs, i, scope, w).0,
    decreases subs.len() - i,
{
    if i < subs.len() && i < vs.len() {
        assert(catches_all(subs[i as int]));
        let w1 = matched(subs[i as int], vs[i as int], scope, w).1;
        subs_fit(subs, vs, i + 1, scope, w1);
    }
}

proof fn one_fits(pats: Seq<Pattern>, v: Val, i: nat, at: int, scope: Env, w: World)
    requires
        i <= at < pats.len(),
        always_fits(pats[at], v),
    ensures
        any_matched(pats, v, i, scope, w).0,
    decreases pats.len() - i,
{
    let tried = matched(pats[i as int], v, scope, w);
    if i == at {
        assert(tried.0);
    } else {
        one_fits(pats, v, i + 1, at, scope, tried.1);
    }
}

proof fn alternative_fits(pat: Pattern, alts: Seq<Pattern>, at: int, v: Val)
    requires
        pat.kind matches PatternKind::Or(a) && a@ == alts,
        0 <= at < alts.len(),
        always_fits(alts[at], v),
    ensures
        always_fits(pat, v),
{
    assert forall|scope: Env, w: World| (#[trigger] matched(pat, v, scope, w)).0 by {
        one_fits(alts, v, 0, at, scope, w);
    }
}

/// A pattern that makes everything covered fits every value.
proof fn catcher_fits(pat: Pattern, enum_name: Seq<char>, variants: Shapes, c: Coverage, v: Val)
    requires
        !c.everything,
        covered(pat, enum_name, variants, c).everything,
    ensures
        always_fits(pat, v),
    decreases pat, 0nat, 0nat,
{
    if let PatternKind::Or(alts) = pat.kind {
        let at = alternative_catches(alts@, 0, enum_name, variants, c, v);
        alternative_fits(pat, alts@, at, v);
    }
}

proof fn alternative_catches(
    pats: Seq<Pattern>,
    i: nat,
    enum_name: Seq<char>,
    variants: Shapes,
    c: Coverage,
    v: Val,
) -> (at: int)
    requires
        !c.everything,
        all_covered(pats, i, enum_name, variants, c).everything,
    ensures
        i <= at < pats.len(),
        always_fits(pats[at], v),
    decreases pats, 1nat, pats.len() - i,
{
    let next = covered(pats[i as int], enum_name, variants, c);
    if next.everything {
        catcher_fits(pats[i as int], enum_name, variants, c, v);
        i as int
    } else {
        alternative_catches(pats, i + 1, enum_name, variants, next, v)
    }
}

/// A pattern that covers a variant, with nothing wrong in it, fits the values of
/// that variant.
proof fn cover_fits(
    pat: Pattern,
    enum_name: Seq<char>,
    variants: Shapes,
    c: Coverage,
    e: EnumVal,
)
    requires
        shallow(pat),
        e.enum_name == enum_name,
        arity_from(variants, e.variant, 0) == Some(e.payload.len()),
        !c.names.contains(e.variant),
        covered(pat, enum_name, variants, c).names.contains(e.variant),
        covered(pat, enum_name, variants, c).diags.len() == c.diags.len(),
    ensures
        always_fits(pat, Val::Enum(e)),
    decreases pat, 0nat, 0nat,
{
    let v = Val::Enum(e);
    match pat.kind {
        PatternKind::Variant { enum_name: qual, name, subs } => {
            let after = covered(pat, enum_name, variants, c);
            assert(after.names == c.names.push(name@));
            assert(name@ == e.variant) by {
                let k = choose|k: int| 0 <= k < after.names.len() && after.names[k] == e.variant;
                if k < c.names.len() {
                    assert(c.names[k] == e.variant);
                }
            }
            assert forall|scope: Env, w: World| (#[trigger] matched(pat, v, scope, w)).0 by {
                subs_fit(subs@, e.payload, 0, scope, w);
            }
        },
        PatternKind::Or(alts) => {
            let at = alternative_covers(alts@, 0, enum_name, variants, c, e);
            alternative_fits(pat, alts@, at, v);
        },
        _ => {},
    }
}

proof fn alternative_covers(
    pats: Seq<Pattern>,
    i: nat,
    enum_name: Seq<char>,
    variants: Shapes,
    c: Coverage,
    e: EnumVal,
) -> (at: int)
    requires
        forall|k: int| 0 <= k < pats.len() ==> shallow(#[trigger] pats[k]),
        e.enum_name == enum_name,
        arity_from(variants, e.variant, 0) == Some(e.payload.len()),
        !c.names.contains(e.variant),
        all_covered(pats, i, enum_name, variants, c).names.contains(e.variant),
        all_covered(pats, i, enum_name, variants, c).diags.len() == c.diags.len(),
    ensures
        i <= at < pats.len(),
        always_fits(pats[at], Val::Enum(e)),
    decreases pats, 1nat, pats.len() - i,
{
    let next = covered(pats[i as int], enum_name, variants, c);
    more_covered(pats[i as int], enum_name, variants, c);
    more_all_covered(pats, i + 1, enum_name, variants, next);
    if next.names.contains(e.variant) {
        assert(shallow(pats[i as int]));
        cover_fits(pats[i as int], enum_name, variants, c, e);
        i as int
    } else {
        alternative_covers(pats, i + 1, enum_name, variants, next, e)
    }
}

spec fn after_arm(
    arm: MatchArm,
    enum_name: Seq<char>,
    variants: Shapes,
    c: Coverage,
) -> Coverage {
    if arm.guard is Some {
        c
    } else {
        covered(arm.pattern, enum_name, variants, c)
    }
}

proof fn arm_catches(
    arms: Seq<MatchArm>,
    i: nat,
    enum_name: Seq<char>,
    variants: Shapes,
    c: Coverage,
    v: Val,
) -> (at: int)
    requires
        !c.everything,
        arms_covered(arms, i, enum_name, variants, c).everything,
    ensures
        i <= at < arms.len(),
        arms[at].guard is None,
        always_fits(arms[at].pattern, v),
    decreases arms.len() - i,
{
    let next = after_arm(arms[i as int], enum_name, variants, c);
    if next.everything {
        catcher_fits(arms[i as int].pattern, enum_name, variants, c, v);
        i as int
    } else {
        arm_catches(arms, i + 1, enum_name, variants, next, v)
    }
}

proof fn arm_covers(
    arms: Seq<MatchArm>,
    i: nat,
    enum_name: Seq<char>,
    variants: Shapes,
    c: Coverage,
    e: EnumVal,
) -> (at: int)
    requires
        forall|k: int| 0 <= k < arms.len() ==> shallow((#[trigger] arms[k]).pattern),
        e.enum_name == enum_name,
        arity_from(variants, e.variant, 0) == Some(e.payload.len()),
        !c.names.contains(e.variant),
        arms_covered(arms, i, enum_name, variants, c).names.contains(e.variant),
        arms_covered(arms, i, enum_name, variants, c).diags.len() == c.diags.len(),
    ensures
        i <= at < arms.len(),
        arms[at].guard is None,
        always_fits(arms[at].pattern, Val::Enum(e)),
    decreases arms.len() - i,
{
    let arm = arms[i as int];
    let next = after_arm(arms[i as int], enum_name, variants, c);
    more_covered(arms[i as int].pattern, enum_name, variants, c);
    more_arms_covered(arms, i + 1, enum_name, variants, next);
    if next.names.contains(e.variant) {
        assert(shallow(arms[i as int].pattern));
        cover_fits(arms[i as int].pattern, enum_name, variants, c, e);
        i as int
    } else {
        arm_covers(arms, i + 1, enum_name, variants, next, e)
    }
}

proof fn known_variant(variants: Shapes, name: Seq<char>, i: nat) -> (at: int)
    requires
        arity_from(variants, name, i) is Some,
    ensures
        i <= at < variants.len(),
        variants[at].0 == name,
    decreases variants.len() - i,
{
    if variants[i as int].0 == name {
        i as int
    } else {
        known_variant(variants, name, i + 1)
    }
}

/// A `match` over an enum that is not reported has, for every value of the enum,
/// an arm without a guard that fits, if its patterns take the values inside
/// variants as they come.
pub proof fn law_exhaustive_match_has_an_arm(
    arms: Seq<MatchArm>,
    enum_name: Seq<char>,
    variants: Shapes,
    span: Span,
    diags: Seq<DiagnosticView>,
    e: EnumVal,
)
    requires
        match_over(arms, enum_name, variants, span, diags) == diags,
        forall|k: int| 0 <= k < arms.len() ==> shallow((#[trigger] arms[k]).pattern),
        e.enum_name == enum_name,
        arity_from(variants, e.variant, 0) == Some(e.payload.len()),
    ensures
        exists|at: int|
            0 <= at < arms.len() && (#[trigger] arms[at]).guard is None && always_fits(
                arms[at].pattern,
                Val::Enum(e),
            ),
{
    let none = Coverage { names: Seq::empty(), everything: false, diags };
    let c = arms_covered(arms, 0, enum_name, variants, none);
    more_arms_covered(arms, 0, enum_name, variants, none);
    assert(c.diags.len() == diags.len());
    if c.everything {
        let at = arm_catches(arms, 0, enum_name, variants, none, Val::Enum(e));
        assert(arms[at].guard is None);
    } else {
        let v = known_variant(variants, e.variant, 0);
        if !c.names.contains(e.variant) {
            missing_some(variants, c.names, 0, Seq::empty(), v);
        }
        let at = arm_covers(arms, 0, enum_name, variants, none, e);
        assert(arms[at].guard is None);
    }
}

} // verus!
