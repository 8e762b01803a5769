//! Laws of the null-narrowing check, and of both checks together.

use super::exhaustiveness::exhaustiveness_of;
use super::exhaustiveness_laws::{adds, law_exhaustiveness_adds};
use super::null_narrowing::{
    arms_used, children_used, fn_used, fns_used, if_arms_used, is_null_handler, narrowed,
    narrowed_name, params_known, required, segs_used, state_of_binding, state_of_expr, stmt_used,
    stmts_used, takes_null, unknown_from, uses_checked, NullState, Scope,
};
use super::{
    children, lemma_child_smaller, names_around, names_of, names_of_pattern, reported,
};
use crate::ast::{Binding, Block, Expr, ExprKind, FnDecl, MatchArm, Stmt, StmtKind, TargetSeg, UnOp};
use crate::error::{DiagnosticView, Phase};
use crate::name_map::{bind, law_lookup_after_bind, lookup};
use std::rc::Rc;
use vstd::prelude::*;
use vstd::string::*;

verus! {

/// Where `x is not null` holds, `x` can be used as any value.
pub proof fn law_narrowing(
    scope: Scope,
    cond: Expr,
    e: Expr,
    what: Seq<char>,
    diags: Seq<DiagnosticView>,
)
    requires
        e.kind is Name,
        narrowed_name(cond) == Some(e.kind->Name_0@),
    ensures
        required(e, narrowed(scope, cond), what, diags) == diags,
{
    let name = e.kind->Name_0@;
    law_lookup_after_bind(scope, name, NullState::NonNull, name);
}

/// Narrowing a name changes nothing for the others.
pub proof fn law_narrowing_keeps_others(scope: Scope, cond: Expr, other: Seq<char>)
    requires
        narrowed_name(cond) != Some(other),
    ensures
        lookup(narrowed(scope, cond), other) == lookup(scope, other),
{
    if let Some(name) = narrowed_name(cond) {
        law_lookup_after_bind(scope, name, NullState::NonNull, other);
    }
}

/// A name that is bound inside, by a comprehension, a lambda, a pattern or a loop,
/// is never reported there.
pub proof fn law_bound_names_are_untracked(
    scope: Scope,
    names: Seq<Seq<char>>,
    e: Expr,
    what: Seq<char>,
    diags: Seq<DiagnosticView>,
)
    requires
        e.kind is Name,
        names.contains(e.kind->Name_0@),
    ensures
        required(e, unknown_from(scope, names, 0), what, diags) == diags,
{
    lemma_untracked(scope, names, 0, e.kind->Name_0@);
}

proof fn lemma_untracked(scope: Scope, names: Seq<Seq<char>>, i: nat, name: Seq<char>)
    requires
        (exists|j: int| i <= j < names.len() && names[j] == name) || lookup(scope, name) == Some(
            NullState::Unknown,
        ),
    ensures
        lookup(unknown_from(scope, names, i), name) == Some(NullState::Unknown),
    decreases names.len() - i,
{
    if i < names.len() {
        law_lookup_after_bind(scope, names[i as int], NullState::Unknown, name);
        lemma_untracked(bind(scope, names[i as int], NullState::Unknown), names, i + 1, name);
    }
}

/// A name that may be `null` is reported where it is used as a value.
pub proof fn law_nullable_use_is_reported(
    scope: Scope,
    e: Expr,
    what: Seq<char>,
    diags: Seq<DiagnosticView>,
)
    requires
        e.kind is Name,
    ensures
        lookup(scope, e.kind->Name_0@) == Some(NullState::Nullable) ==> required(
            e,
            scope,
            what,
            diags,
        ).len() == diags.len() + 1,
        lookup(scope, e.kind->Name_0@) != Some(NullState::Nullable) ==> required(
            e,
            scope,
            what,
            diags,
        ) == diags,
{
}

/// `x.or_else(..)` and `x.expect(..)` take a name that may be `null`: only the
/// arguments are checked, and the result is not `null`.
pub proof fn law_null_handlers(scope: Scope, e: Expr, diags: Seq<DiagnosticView>)
    requires
        e.kind is Call,
        e.kind->Call_callee.kind is Member,
        is_null_handler(e.kind->Call_callee.kind->Member_name@),
        e.kind->Call_callee.kind->Member_base.kind is Name,
    ensures
        uses_checked(e, scope, diags) == children_used(e, 1, scope, diags),
        state_of_expr(e, scope) == NullState::NonNull,
{
}

/// Comparing with `==`, `!=`, `is` and `is not` takes names that may be `null`.
pub proof fn law_null_comparison(scope: Scope, e: Expr, diags: Seq<DiagnosticView>)
    requires
        e.kind is Binary,
        takes_null(e.kind->Binary_op),
    ensures
        uses_checked(e, scope, diags) == uses_checked(
            *e.kind->Binary_rhs,
            scope,
            uses_checked(*e.kind->Binary_lhs, scope, diags),
        ),
{
}

/// An annotation decides: `x: T? = e` may be `null`, `x: T = e` is not.
pub proof fn law_annotation_decides(b: Binding, scope: Scope)
    requires
        b.ty is Some,
    ensures
        state_of_binding(b, scope) == (if b.ty->0.nullable {
            NullState::Nullable
        } else {
            NullState::NonNull
        }),
{
}

// ---------------------------------------------------------------------------
// Reports
// ---------------------------------------------------------------------------

pub(crate) open spec fn fn_found(
    decl: Rc<FnDecl>, diags: Seq<DiagnosticView>,
) -> Seq<DiagnosticView> {
    fn_used(*decl, diags)
}

pub(crate) proof fn adds_required(
    e: Expr, scope: Scope, what: Seq<char>, diags: Seq<DiagnosticView>,
)
    ensures
        adds(diags, required(e, scope, what, diags)),
{
}

pub(crate) proof fn adds_uses_checked(e: Expr, scope: Scope, diags: Seq<DiagnosticView>)
    ensures
        adds(diags, uses_checked(e, scope, diags)),
    decreases e, 2nat, 0nat,
{
    match e.kind {
        ExprKind::Member { base, name, safe } => {
            if safe || is_null_handler(name@) {
                if !(base.kind is Name) {
                    adds_uses_checked(*base, scope, diags);
                }
            } else {
                adds_required(*base, scope, "member access"@, diags);
                adds_uses_checked(*base, scope, required(*base, scope, "member access"@, diags));
            }
        },
        ExprKind::Call { callee, .. } => {
            match callee.kind {
                ExprKind::Member { base, name, safe } => {
                    let first = if safe || is_null_handler(name@) {
                        if base.kind is Name {
                            diags
                        } else {
                            adds_uses_checked(*base, scope, diags);
                            uses_checked(*base, scope, diags)
                        }
                    } else {
                        let needed = required(*base, scope, "method call"@, diags);
                        adds_required(*base, scope, "method call"@, diags);
                        adds_uses_checked(*base, scope, needed);
                        uses_checked(*base, scope, needed)
                    };
                    adds_children_used(e, 1, scope, first);
                },
                _ => {
                    adds_children_used(e, 0, scope, diags);
                },
            }
        },
        ExprKind::Index { base, index } => {
            adds_required(*base, scope, "indexing"@, diags);
            let first = required(*base, scope, "indexing"@, diags);
            adds_uses_checked(*base, scope, first);
            adds_uses_checked(*index, scope, uses_checked(*base, scope, first));
        },
        ExprKind::Binary { op, lhs, rhs } => {
            let first = if takes_null(op) {
                diags
            } else {
                let needed = required(*lhs, scope, "operator operand"@, diags);
                adds_required(*lhs, scope, "operator operand"@, diags);
                adds_required(*rhs, scope, "operator operand"@, needed);
                required(*rhs, scope, "operator operand"@, needed)
            };
            adds_uses_checked(*lhs, scope, first);
            adds_uses_checked(*rhs, scope, uses_checked(*lhs, scope, first));
        },
        ExprKind::Unary { op, operand } => {
            let first = if op == UnOp::Neg {
                adds_required(*operand, scope, "operator operand"@, diags);
                required(*operand, scope, "operator operand"@, diags)
            } else {
                diags
            };
            adds_uses_checked(*operand, scope, first);
        },
        ExprKind::Match(m) => {
            adds_uses_checked(*m.scrutinee, scope, diags);
            adds_arms_used(m.arms@, 0, scope, uses_checked(*m.scrutinee, scope, diags));
        },
        _ => {
            adds_children_used(e, 0, scope, diags);
        },
    }
}

pub(crate) proof fn adds_children_used(e: Expr, i: nat, scope: Scope, diags: Seq<DiagnosticView>)
    ensures
        adds(diags, children_used(e, i, scope, diags)),
    decreases e, 1nat, children(e).len() - i,
{
    if i < children(e).len() {
        lemma_child_smaller(e, i as int);
        let inner = unknown_from(scope, names_around(e, i), 0);
        adds_uses_checked(children(e)[i as int], inner, diags);
        let next = uses_checked(children(e)[i as int], inner, diags);
        adds_children_used(e, i + 1, scope, next);
    }
}

pub(crate) proof fn adds_arms_used(
    arms: Seq<MatchArm>, i: nat, scope: Scope, diags: Seq<DiagnosticView>,
)
    ensures
        adds(diags, arms_used(arms, i, scope, diags)),
    decreases arms, 1nat, arms.len() - i,
{
    if i < arms.len() {
        let inner = unknown_from(scope, names_of_pattern(arms[i as int].pattern), 0);
        adds_stmts_used(arms[i as int].body.stmts@, 0, inner, diags);
        let next = stmts_used(arms[i as int].body.stmts@, 0, inner, diags).1;
        adds_arms_used(arms, i + 1, scope, next);
    }
}

pub(crate) proof fn adds_fn_used(decl: Rc<FnDecl>, diags: Seq<DiagnosticView>)
    ensures
        adds(diags, fn_used(*decl, diags)),
    decreases *decl, 0nat, 0nat,
{
    adds_stmts_used(decl.body.stmts@, 0, params_known(decl.params@, 0, Seq::empty()), diags);
}

pub(crate) proof fn adds_fns_used(decls: Seq<Rc<FnDecl>>, i: nat, diags: Seq<DiagnosticView>)
    ensures
        adds(diags, fns_used(decls, i, diags)),
    decreases decls, 1nat, decls.len() - i,
{
    if i < decls.len() {
        let decl = decls[i as int];
        adds_fn_used(decl, diags);
        adds_fns_used(decls, i + 1, fn_found(decl, diags));
    }
}

pub(crate) proof fn adds_segs_used(
    path: Seq<TargetSeg>, i: nat, scope: Scope, diags: Seq<DiagnosticView>,
)
    ensures
        adds(diags, segs_used(path, i, scope, diags)),
    decreases path, 1nat, path.len() - i,
{
    if i < path.len() {
        match path[i as int] {
            TargetSeg::Index(e) => {
                adds_uses_checked(e, scope, diags);
                adds_segs_used(path, i + 1, scope, uses_checked(e, scope, diags));
            },
            TargetSeg::Field(_) => {
                adds_segs_used(path, i + 1, scope, diags);
            },
        }
    }
}

pub(crate) proof fn adds_if_arms_used(
    arms: Seq<(Expr, Block)>, i: nat, scope: Scope, diags: Seq<DiagnosticView>,
)
    ensures
        adds(diags, if_arms_used(arms, i, scope, diags)),
    decreases arms, 1nat, arms.len() - i,
{
    if i < arms.len() {
        adds_uses_checked(arms[i as int].0, scope, diags);
        let inner = narrowed(scope, arms[i as int].0);
        let first = uses_checked(arms[i as int].0, scope, diags);
        adds_stmts_used(arms[i as int].1.stmts@, 0, inner, first);
        let next = stmts_used(arms[i as int].1.stmts@, 0, inner, first).1;
        adds_if_arms_used(arms, i + 1, scope, next);
    }
}

pub(crate) proof fn adds_stmt_used(s: Stmt, scope: Scope, diags: Seq<DiagnosticView>)
    ensures
        adds(diags, stmt_used(s, scope, diags).1),
    decreases s, 0nat, 0nat,
{
    match s.kind {
        StmtKind::Binding(b) => {
            adds_uses_checked(b.value, scope, diags);
        },
        StmtKind::Assign(a) => {
            adds_uses_checked(a.value, scope, diags);
            adds_segs_used(a.target.path@, 0, scope, uses_checked(a.value, scope, diags));
        },
        StmtKind::Return(Some(e)) => {
            adds_uses_checked(e, scope, diags);
        },
        StmtKind::Expr(e) => {
            adds_uses_checked(e, scope, diags);
        },
        StmtKind::If(c) => {
            adds_if_arms_used(c.arms@, 0, scope, diags);
            let arms = if_arms_used(c.arms@, 0, scope, diags);
            if let Some(b) = c.else_body {
                adds_stmts_used(b.stmts@, 0, scope, arms);
            }
        },
        StmtKind::While(l) => {
            adds_uses_checked(l.cond, scope, diags);
            adds_stmts_used(
                l.body.stmts@, 0, narrowed(scope, l.cond), uses_checked(l.cond, scope, diags),
            );
        },
        StmtKind::For(l) => {
            adds_uses_checked(l.iter, scope, diags);
            adds_stmts_used(
                l.body.stmts@, 0, unknown_from(scope, names_of(l.binder), 0),
                uses_checked(l.iter, scope, diags),
            );
        },
        StmtKind::Fn(decl) => {
            adds_fn_used(decl, diags);
        },
        StmtKind::Impl(d) => {
            adds_fns_used(d.methods@, 0, diags);
        },
        StmtKind::Trait(t) => {
            adds_fns_used(t.defaults@, 0, diags);
        },
        _ => {},
    }
}

pub(crate) proof fn adds_stmts_used(
    stmts: Seq<Stmt>, i: nat, scope: Scope, diags: Seq<DiagnosticView>,
)
    ensures
        adds(diags, stmts_used(stmts, i, scope, diags).1),
    decreases stmts, 1nat, stmts.len() - i,
{
    if i < stmts.len() {
        adds_stmt_used(stmts[i as int], scope, diags);
        let next = stmt_used(stmts[i as int], scope, diags);
        adds_stmts_used(stmts, i + 1, next.0, next.1);
    }
}

/// All that the checks report is of the check phase.
pub proof fn law_reports_are_checks(stmts: Seq<Stmt>)
    ensures
        forall|i: int|
            0 <= i < reported(stmts).len() ==> (#[trigger] reported(stmts)[i]).phase
                == Phase::Check,
{
    let first = exhaustiveness_of(stmts, Seq::empty());
    law_exhaustiveness_adds(stmts, Seq::empty());
    adds_stmts_used(stmts, 0, Seq::empty(), first);
    assert forall|i: int| 0 <= i < reported(stmts).len() implies (#[trigger] reported(
        stmts,
    )[i]).phase == Phase::Check by {
        if i < first.len() {
            assert(reported(stmts)[i] == first[i]);
        }
    }
}

} // verus!
