//! Laws of the exhaustiveness check.

use super::exhaustiveness::{
    all_covered, arity_from, arms_covered, children_checked, covered, enum_of_expr, expr_checked,
    exhaustiveness_of, fn_checked, fns_checked, if_arms_checked, match_arms_checked, match_checked,
    match_over, missing_from, params_known, segs_checked, stmt_checked, stmts_checked, unknown_from,
    Coverage, Scope,
};
use super::{
    children, enums_of, lemma_child_smaller, names_around, names_of, names_of_pattern, Enums,
};
use crate::ast::{
    Block, Expr, ExprKind, FnDecl, MatchArm, MatchExpr, Pattern, PatternKind, Stmt, StmtKind,
    TargetSeg,
};
use crate::error::{check_diag, DiagnosticView, Phase};
use crate::name_map::lookup;
use crate::text::joined;
use crate::token::Span;
use std::rc::Rc;
use vstd::prelude::*;
use vstd::string::*;

verus! {

/// Whether reports were only added, all of the check phase.
pub open spec fn adds(before: Seq<DiagnosticView>, after: Seq<DiagnosticView>) -> bool {
    &&& before.len() <= after.len()
    &&& forall|i: int| 0 <= i < before.len() ==> #[trigger] after[i] == before[i]
    &&& forall|i: int|
        before.len() <= i < after.len() ==> (#[trigger] after[i]).phase == Phase::Check
}

// ---------------------------------------------------------------------------
// Coverage
// ---------------------------------------------------------------------------

type Shapes = Seq<(Seq<char>, nat)>;

/// What is covered stays covered.
pub open spec fn covers_more(a: Coverage, b: Coverage) -> bool {
    &&& a.everything ==> b.everything
    &&& a.names.is_prefix_of(b.names)
    &&& adds(a.diags, b.diags)
}

pub(crate) proof fn more_covered(pat: Pattern, enum_name: Seq<char>, variants: Shapes, c: Coverage)
    ensures
        covers_more(c, covered(pat, enum_name, variants, c)),
    decreases pat, 0nat, 0nat,
{
    if let PatternKind::Or(alts) = pat.kind {
        more_all_covered(alts@, 0, enum_name, variants, c);
    }
}

pub(crate) proof fn more_all_covered(
    pats: Seq<Pattern>,
    i: nat,
    enum_name: Seq<char>,
    variants: Shapes,
    c: Coverage,
)
    ensures
        covers_more(c, all_covered(pats, i, enum_name, variants, c)),
    decreases pats, 1nat, pats.len() - i,
{
    if i < pats.len() {
        more_covered(pats[i as int], enum_name, variants, c);
        let next = covered(pats[i as int], enum_name, variants, c);
        more_all_covered(pats, i + 1, enum_name, variants, next);
    }
}

pub(crate) proof fn more_arms_covered(
    arms: Seq<MatchArm>,
    i: nat,
    enum_name: Seq<char>,
    variants: Shapes,
    c: Coverage,
)
    ensures
        covers_more(c, arms_covered(arms, i, enum_name, variants, c)),
    decreases arms.len() - i,
{
    if i < arms.len() {
        more_covered(arms[i as int].pattern, enum_name, variants, c);
        let next = if arms[i as int].guard is Some {
            c
        } else {
            covered(arms[i as int].pattern, enum_name, variants, c)
        };
        more_arms_covered(arms, i + 1, enum_name, variants, next);
    }
}

/// A pattern that fits every value.
pub open spec fn catches_all(pat: Pattern) -> bool {
    pat.kind is Wildcard || pat.kind is Binding
}

proof fn caught(
    arms: Seq<MatchArm>,
    i: nat,
    at: int,
    enum_name: Seq<char>,
    variants: Shapes,
    c: Coverage,
)
    requires
        i <= at < arms.len(),
        arms[at].guard is None,
        catches_all(arms[at].pattern),
    ensures
        arms_covered(arms, i, enum_name, variants, c).everything,
    decreases arms.len() - i,
{
    let next = if arms[i as int].guard is Some {
        c
    } else {
        covered(arms[i as int].pattern, enum_name, variants, c)
    };
    if i < at {
        caught(arms, i + 1, at, enum_name, variants, next);
    } else {
        more_arms_covered(arms, i + 1, enum_name, variants, next);
    }
}

/// With a `_` arm or an arm that binds the whole value, and no guard on it, a
/// `match` is exhaustive: nothing is reported but what is wrong with a pattern.
pub proof fn law_catch_all(
    arms: Seq<MatchArm>,
    at: int,
    enum_name: Seq<char>,
    variants: Shapes,
    span: Span,
    diags: Seq<DiagnosticView>,
)
    requires
        0 <= at < arms.len(),
        arms[at].guard is None,
        catches_all(arms[at].pattern),
    ensures
        match_over(arms, enum_name, variants, span, diags) == arms_covered(
            arms,
            0,
            enum_name,
            variants,
            Coverage { names: Seq::empty(), everything: false, diags },
        ).diags,
{
    let none = Coverage { names: Seq::empty(), everything: false, diags };
    caught(arms, 0, at, enum_name, variants, none);
}

/// An arm with a guard does not count: a `match` that has one more is reported
/// just as without it.
pub proof fn law_guarded_arm_does_not_count(
    arms: Seq<MatchArm>,
    arm: MatchArm,
    enum_name: Seq<char>,
    variants: Shapes,
    span: Span,
    diags: Seq<DiagnosticView>,
)
    requires
        arm.guard is Some,
    ensures
        match_over(arms.push(arm), enum_name, variants, span, diags) == match_over(
            arms,
            enum_name,
            variants,
            span,
            diags,
        ),
{
    let none = Coverage { names: Seq::empty(), everything: false, diags };
    guard_skipped(arms, arm, 0, enum_name, variants, none);
}

proof fn guard_skipped(
    arms: Seq<MatchArm>,
    arm: MatchArm,
    i: nat,
    enum_name: Seq<char>,
    variants: Shapes,
    c: Coverage,
)
    requires
        arm.guard is Some,
        i <= arms.len(),
    ensures
        arms_covered(arms.push(arm), i, enum_name, variants, c) == arms_covered(
            arms,
            i,
            enum_name,
            variants,
            c,
        ),
    decreases arms.len() - i,
{
    let longer = arms.push(arm);
    if i < arms.len() {
        assert(longer[i as int] == arms[i as int]);
        let next = if arms[i as int].guard is Some {
            c
        } else {
            covered(arms[i as int].pattern, enum_name, variants, c)
        };
        guard_skipped(arms, arm, i + 1, enum_name, variants, next);
    } else {
        assert(longer[i as int] == arm);
        assert(arms_covered(longer, i + 1, enum_name, variants, c) == c);
    }
}

pub(crate) proof fn missing_some(
    variants: Shapes,
    names: Seq<Seq<char>>,
    i: nat,
    done: Seq<Seq<char>>,
    at: int,
)
    requires
        i <= at < variants.len(),
        !names.contains(variants[at].0),
    ensures
        missing_from(variants, names, i, done).contains("`"@ + variants[at].0 + "`"@),
    decreases variants.len() - i,
{
    let quoted = "`"@ + variants[i as int].0 + "`"@;
    let next = if names.contains(variants[i as int].0) {
        done
    } else {
        done.push(quoted)
    };
    if i < at {
        missing_some(variants, names, i + 1, next, at);
    } else {
        assert(next[next.len() - 1] == quoted);
        missing_keeps(variants, names, i + 1, next, quoted);
    }
}

proof fn missing_keeps(
    variants: Shapes,
    names: Seq<Seq<char>>,
    i: nat,
    done: Seq<Seq<char>>,
    text: Seq<char>,
)
    requires
        done.contains(text),
    ensures
        missing_from(variants, names, i, done).contains(text),
    decreases variants.len() - i,
{
    if i < variants.len() {
        let quoted = "`"@ + variants[i as int].0 + "`"@;
        let next = if names.contains(variants[i as int].0) {
            done
        } else {
            done.push(quoted)
        };
        let k = choose|k: int| 0 <= k < done.len() && done[k] == text;
        assert(next[k] == text);
        missing_keeps(variants, names, i + 1, next, text);
    }
}

proof fn missing_none(variants: Shapes, names: Seq<Seq<char>>, i: nat, done: Seq<Seq<char>>)
    requires
        forall|k: int| i <= k < variants.len() ==> names.contains((#[trigger] variants[k]).0),
    ensures
        missing_from(variants, names, i, done) == done,
    decreases variants.len() - i,
{
    if i < variants.len() {
        assert(names.contains(variants[i as int].0));
        missing_none(variants, names, i + 1, done);
    }
}

/// A `match` without a catch-all that leaves a variant out is reported at the
/// `match`, and the report names the variant.
pub proof fn law_missing_variant_is_reported(
    arms: Seq<MatchArm>,
    enum_name: Seq<char>,
    variants: Shapes,
    span: Span,
    diags: Seq<DiagnosticView>,
    at: int,
)
    requires
        0 <= at < variants.len(),
        ({
            let c = arms_covered(
                arms,
                0,
                enum_name,
                variants,
                Coverage { names: Seq::empty(), everything: false, diags },
            );
            !c.everything && !c.names.contains(variants[at].0)
        }),
    ensures
        ({
            let c = arms_covered(
                arms,
                0,
                enum_name,
                variants,
                Coverage { names: Seq::empty(), everything: false, diags },
            );
            let missing = missing_from(variants, c.names, 0, Seq::empty());
            &&& missing.contains("`"@ + variants[at].0 + "`"@)
            &&& match_over(arms, enum_name, variants, span, diags) == c.diags.push(
                check_diag(
                    "non-exhaustive match over enum `"@ + enum_name + "`: missing variant(s) "@
                        + joined(missing, ", "@) + " (add the arm(s) or a `_` catch-all)"@,
                    span,
                ),
            )
        }),
{
    let c = arms_covered(
        arms,
        0,
        enum_name,
        variants,
        Coverage { names: Seq::empty(), everything: false, diags },
    );
    missing_some(variants, c.names, 0, Seq::empty(), at);
}

/// Whether an arm is `.Variant(..)` or `Enum.Variant(..)`, without a guard, for a
/// variant of the enum with as many values as it has.
pub open spec fn fair_arm(arm: MatchArm, enum_name: Seq<char>, variants: Shapes) -> bool {
    &&& arm.guard is None
    &&& match arm.pattern.kind {
        PatternKind::Variant { enum_name: qual, name, subs } => {
            &&& qual matches Some(q) ==> q@ == enum_name
            &&& arity_from(variants, name@, 0) == Some(subs@.len())
        },
        _ => false,
    }
}

pub open spec fn arm_variant(arm: MatchArm) -> Seq<char> {
    match arm.pattern.kind {
        PatternKind::Variant { name, .. } => name@,
        _ => Seq::empty(),
    }
}

proof fn fair_arms(
    arms: Seq<MatchArm>,
    i: nat,
    enum_name: Seq<char>,
    variants: Shapes,
    c: Coverage,
)
    requires
        forall|k: int| 0 <= k < arms.len() ==> fair_arm(#[trigger] arms[k], enum_name, variants),
    ensures
        arms_covered(arms, i, enum_name, variants, c).diags == c.diags,
        forall|k: int|
            i <= k < arms.len() ==> arms_covered(arms, i, enum_name, variants, c).names.contains(
                arm_variant(#[trigger] arms[k]),
            ),
    decreases arms.len() - i,
{
    if i < arms.len() {
        let arm = arms[i as int];
        assert(fair_arm(arms[i as int], enum_name, variants));
        let next = covered(arm.pattern, enum_name, variants, c);
        fair_arms(arms, i + 1, enum_name, variants, next);
        more_arms_covered(arms, i + 1, enum_name, variants, next);
        let all = arms_covered(arms, i, enum_name, variants, c);
        assert(next.names == c.names.push(arm_variant(arm)));
        assert(next.names[c.names.len() as int] == arm_variant(arm));
        assert(all.names[c.names.len() as int] == arm_variant(arm));
    }
}

/// A `match` with an arm for every variant is not reported.
pub proof fn law_full_match_passes(
    arms: Seq<MatchArm>,
    enum_name: Seq<char>,
    variants: Shapes,
    span: Span,
    diags: Seq<DiagnosticView>,
)
    requires
        forall|k: int| 0 <= k < arms.len() ==> fair_arm(#[trigger] arms[k], enum_name, variants),
        forall|v: int|
            0 <= v < variants.len() ==> exists|k: int|
                0 <= k < arms.len() && arm_variant(#[trigger] arms[k]) == (
                #[trigger] variants[v]).0,
    ensures
        match_over(arms, enum_name, variants, span, diags) == diags,
{
    let none = Coverage { names: Seq::empty(), everything: false, diags };
    fair_arms(arms, 0, enum_name, variants, none);
    let c = arms_covered(arms, 0, enum_name, variants, none);
    assert forall|v: int| 0 <= v < variants.len() implies c.names.contains(
        (#[trigger] variants[v]).0,
    ) by {
        let k = choose|k: int|
            0 <= k < arms.len() && arm_variant(#[trigger] arms[k]) == variants[v].0;
        assert(c.names.contains(arm_variant(arms[k])));
    }
    missing_none(variants, c.names, 0, Seq::empty());
}

/// A `match` over a value that is not known to be of an enum is not reported.
pub proof fn law_unknown_scrutinee_passes(
    info: Enums,
    m: MatchExpr,
    span: Span,
    scope: Scope,
    diags: Seq<DiagnosticView>,
)
    requires
        enum_of_expr(info, *m.scrutinee, scope) is None,
    ensures
        match_checked(info, m, span, scope, diags) == diags,
{
}

/// An or-pattern covers what covering each of its alternatives in turn covers, from
/// left to right: nothing for none, and one more alternative at the end is covered
/// last.
pub proof fn law_alternatives_are_covered_in_turn(
    pats: Seq<Pattern>,
    i: nat,
    enum_name: Seq<char>,
    variants: Seq<(Seq<char>, nat)>,
    c: Coverage,
)
    requires
        i <= pats.len(),
    ensures
        all_covered(pats, pats.len(), enum_name, variants, c) == c,
        i < pats.len() ==> all_covered(pats, i, enum_name, variants, c) == covered(
            pats.last(),
            enum_name,
            variants,
            all_covered(pats.drop_last(), i, enum_name, variants, c),
        ),
    decreases pats.len() - i,
{
    if i < pats.len() {
        let front = pats.drop_last();
        let next = covered(pats[i as int], enum_name, variants, c);
        law_alternatives_are_covered_in_turn(pats, i + 1, enum_name, variants, next);
        if i < front.len() {
            assert(front[i as int] == pats[i as int]);
        } else {
            assert(all_covered(front, i, enum_name, variants, c) == c);
            assert(all_covered(pats, i + 1, enum_name, variants, next) == next);
        }
    }
}

/// What one pattern covers: an or-pattern, what its alternatives do in turn; `_` and
/// a bare name, everything; `null`, a literal and a tuple, nothing, and they report
/// nothing.
pub proof fn law_pattern_covers(
    pat: Pattern,
    enum_name: Seq<char>,
    variants: Seq<(Seq<char>, nat)>,
    c: Coverage,
)
    ensures
        pat.kind matches PatternKind::Or(alts) ==> covered(pat, enum_name, variants, c)
            == all_covered(alts@, 0, enum_name, variants, c),
        pat.kind is Wildcard || pat.kind is Binding ==> covered(pat, enum_name, variants, c)
            == (Coverage { everything: true, ..c }),
        pat.kind is Null || pat.kind is Literal || pat.kind is Tuple ==> covered(
            pat,
            enum_name,
            variants,
            c,
        ) == c,
{
}

/// A call `Enum.Variant(..)` is of its enum, unless a name in scope hides it.
pub proof fn law_construction_has_its_enum(info: Enums, e: Expr, scope: Scope)
    requires
        e.kind is Call,
        e.kind->Call_callee.kind is Member,
        !e.kind->Call_callee.kind->Member_safe,
        e.kind->Call_callee.kind->Member_base.kind is Name,
    ensures
        ({
            let enum_name = e.kind->Call_callee.kind->Member_base.kind->Name_0@;
            let variant = e.kind->Call_callee.kind->Member_name@;
            enum_of_expr(info, e, scope) == (if lookup(scope, enum_name) is None && (lookup(
                info.enums,
                enum_name,
            ) matches Some(vs) && arity_from(vs, variant, 0) is Some) {
                Some(enum_name)
            } else {
                None
            })
        }),
{
}

// ---------------------------------------------------------------------------
// Reports
// ---------------------------------------------------------------------------

pub(crate) open spec fn fn_found(info: Enums, decl: Rc<FnDecl>, diags: Seq<DiagnosticView>) -> Seq<
    DiagnosticView,
> {
    fn_checked(info, *decl, diags)
}

pub(crate) proof fn adds_match_checked(
    info: Enums,
    m: MatchExpr,
    span: Span,
    scope: Scope,
    diags: Seq<DiagnosticView>,
)
    ensures
        adds(diags, match_checked(info, m, span, scope, diags)),
{
    if let Some(enum_name) = enum_of_expr(info, *m.scrutinee, scope) {
        if let Some(variants) = lookup(info.enums, enum_name) {
            let none = Coverage { names: Seq::empty(), everything: false, diags };
            more_arms_covered(m.arms@, 0, enum_name, variants, none);
        }
    }
}

pub(crate) proof fn adds_expr_checked(
    info: Enums, e: Expr, scope: Scope, diags: Seq<DiagnosticView>,
)
    ensures
        adds(diags, expr_checked(info, e, scope, diags)),
    decreases e, 2nat, 0nat,
{
    match e.kind {
        ExprKind::Match(m) => {
            adds_match_checked(info, m, e.span, scope, diags);
            let first = match_checked(info, m, e.span, scope, diags);
            adds_expr_checked(info, *m.scrutinee, scope, first);
            let next = expr_checked(info, *m.scrutinee, scope, first);
            adds_match_arms_checked(info, m.arms@, 0, scope, next);
        },
        _ => {
            adds_children_checked(info, e, 0, scope, diags);
        },
    }
}

pub(crate) proof fn adds_children_checked(
    info: Enums, e: Expr, i: nat, scope: Scope, diags: Seq<DiagnosticView>,
)
    ensures
        adds(diags, children_checked(info, e, i, scope, diags)),
    decreases e, 1nat, children(e).len() - i,
{
    if i < children(e).len() {
        lemma_child_smaller(e, i as int);
        let inner = unknown_from(scope, names_around(e, i), 0);
        adds_expr_checked(info, children(e)[i as int], inner, diags);
        let next = expr_checked(info, children(e)[i as int], inner, diags);
        adds_children_checked(info, e, i + 1, scope, next);
    }
}

pub(crate) proof fn adds_match_arms_checked(
    info: Enums, arms: Seq<MatchArm>, i: nat, scope: Scope, diags: Seq<DiagnosticView>,
)
    ensures
        adds(diags, match_arms_checked(info, arms, i, scope, diags)),
    decreases arms, 1nat, arms.len() - i,
{
    if i < arms.len() {
        let inner = unknown_from(scope, names_of_pattern(arms[i as int].pattern), 0);
        adds_stmts_checked(info, arms[i as int].body.stmts@, 0, inner, diags);
        let next = stmts_checked(info, arms[i as int].body.stmts@, 0, inner, diags).1;
        adds_match_arms_checked(info, arms, i + 1, scope, next);
    }
}

pub(crate) proof fn adds_fn_checked(info: Enums, decl: Rc<FnDecl>, diags: Seq<DiagnosticView>)
    ensures
        adds(diags, fn_checked(info, *decl, diags)),
    decreases *decl, 0nat, 0nat,
{
    adds_stmts_checked(
        info, decl.body.stmts@, 0, params_known(info, decl.params@, 0, Seq::empty()), diags,
    );
}

pub(crate) proof fn adds_fns_checked(
    info: Enums, decls: Seq<Rc<FnDecl>>, i: nat, diags: Seq<DiagnosticView>,
)
    ensures
        adds(diags, fns_checked(info, decls, i, diags)),
    decreases decls, 1nat, decls.len() - i,
{
    if i < decls.len() {
        let decl = decls[i as int];
        adds_fn_checked(info, decl, diags);
        adds_fns_checked(info, decls, i + 1, fn_found(info, decl, diags));
    }
}

pub(crate) proof fn adds_segs_checked(
    info: Enums, path: Seq<TargetSeg>, i: nat, scope: Scope, diags: Seq<DiagnosticView>,
)
    ensures
        adds(diags, segs_checked(info, path, i, scope, diags)),
    decreases path, 1nat, path.len() - i,
{
    if i < path.len() {
        match path[i as int] {
            TargetSeg::Index(e) => {
                adds_expr_checked(info, e, scope, diags);
                let next = expr_checked(info, e, scope, diags);
                adds_segs_checked(info, path, i + 1, scope, next);
            },
            TargetSeg::Field(_) => {
                adds_segs_checked(info, path, i + 1, scope, diags);
            },
        }
    }
}

pub(crate) proof fn adds_if_arms_checked(
    info: Enums, arms: Seq<(Expr, Block)>, i: nat, scope: Scope, diags: Seq<DiagnosticView>,
)
    ensures
        adds(diags, if_arms_checked(info, arms, i, scope, diags)),
    decreases arms, 1nat, arms.len() - i,
{
    if i < arms.len() {
        adds_expr_checked(info, arms[i as int].0, scope, diags);
        let first = expr_checked(info, arms[i as int].0, scope, diags);
        adds_stmts_checked(info, arms[i as int].1.stmts@, 0, scope, first);
        let next = stmts_checked(info, arms[i as int].1.stmts@, 0, scope, first).1;
        adds_if_arms_checked(info, arms, i + 1, scope, next);
    }
}

pub(crate) proof fn adds_stmt_checked(
    info: Enums, s: Stmt, scope: Scope, diags: Seq<DiagnosticView>,
)
    ensures
        adds(diags, stmt_checked(info, s, scope, diags).1),
    decreases s, 0nat, 0nat,
{
    match s.kind {
        StmtKind::Binding(b) => {
            adds_expr_checked(info, b.value, scope, diags);
        },
        StmtKind::Assign(a) => {
            adds_expr_checked(info, a.value, scope, diags);
            adds_segs_checked(
                info, a.target.path@, 0, scope, expr_checked(info, a.value, scope, diags),
            );
        },
        StmtKind::Return(Some(e)) => {
            adds_expr_checked(info, e, scope, diags);
        },
        StmtKind::Expr(e) => {
            adds_expr_checked(info, e, scope, diags);
        },
        StmtKind::If(c) => {
            adds_if_arms_checked(info, c.arms@, 0, scope, diags);
            let arms = if_arms_checked(info, c.arms@, 0, scope, diags);
            if let Some(b) = c.else_body {
                adds_stmts_checked(info, b.stmts@, 0, scope, arms);
            }
        },
        StmtKind::While(l) => {
            adds_expr_checked(info, l.cond, scope, diags);
            adds_stmts_checked(
                info, l.body.stmts@, 0, scope, expr_checked(info, l.cond, scope, diags),
            );
        },
        StmtKind::For(l) => {
            adds_expr_checked(info, l.iter, scope, diags);
            adds_stmts_checked(
                info, l.body.stmts@, 0, unknown_from(scope, names_of(l.binder), 0),
                expr_checked(info, l.iter, scope, diags),
            );
        },
        StmtKind::Fn(decl) => {
            adds_fn_checked(info, decl, diags);
        },
        StmtKind::Impl(d) => {
            adds_fns_checked(info, d.methods@, 0, diags);
        },
        StmtKind::Trait(t) => {
            adds_fns_checked(info, t.defaults@, 0, diags);
        },
        _ => {},
    }
}

pub(crate) proof fn adds_stmts_checked(
    info: Enums, stmts: Seq<Stmt>, i: nat, scope: Scope, diags: Seq<DiagnosticView>,
)
    ensures
        adds(diags, stmts_checked(info, stmts, i, scope, diags).1),
    decreases stmts, 1nat, stmts.len() - i,
{
    if i < stmts.len() {
        adds_stmt_checked(info, stmts[i as int], scope, diags);
        let next = stmt_checked(info, stmts[i as int], scope, diags);
        adds_stmts_checked(info, stmts, i + 1, next.0, next.1);
    }
}

/// The exhaustiveness check only adds reports, all of the check phase.
pub proof fn law_exhaustiveness_adds(stmts: Seq<Stmt>, diags: Seq<DiagnosticView>)
    ensures
        adds(diags, exhaustiveness_of(stmts, diags)),
{
    adds_stmts_checked(enums_of(stmts), stmts, 0, Seq::empty(), diags);
}

} // verus!
