//! Every use of a value that may be `null` is checked, wherever it stands.

use super::exhaustiveness::exhaustiveness_of;
use super::match_reach_laws::still_there;
use super::null_laws::{
    adds_arms_used, adds_children_used, adds_fns_used, adds_if_arms_used, adds_segs_used,
    adds_stmts_used, adds_uses_checked, fn_found,
};
use super::null_narrowing::{
    arms_used, children_used, fns_used, if_arms_used, is_null_handler, narrowed, nullness_of,
    params_known, takes_null,
    required, segs_used, state_of_binding, state_of_expr, stmt_used, stmts_used, unknown_from,
    uses_checked, NullState, Scope,
};
use super::occurrence::{
    fact, forgetting, in_arms, in_children, in_expr, in_fn, in_fns, in_if_arms, in_program,
    in_segs, in_stmt, in_stmts, lemma_says_bind, lemma_says_forgetting, of_params, says, Facts,
    Rules, Spot,
};
use super::{
    children, lemma_child_smaller, names_around, names_of, names_of_pattern, reported,
};
use crate::ast::{
    BinOp, Binder, Binding, Block, Expr, ExprKind, FnDecl, MatchArm, Param, Stmt, StmtKind,
    TargetSeg, Type, UnOp,
};
use crate::error::{check_diag, DiagnosticView};
use crate::name_map::{bind, law_lookup_after_bind, lookup};
use crate::text::texts;
use crate::token::Span;
use std::rc::Rc;
use vstd::prelude::*;
use vstd::string::*;

verus! {

// ---------------------------------------------------------------------------
// What is known
// ---------------------------------------------------------------------------

/// What is known of a value of a type.
pub open spec fn type_null(ty: Type) -> NullState {
    if ty.nullable {
        NullState::Nullable
    } else {
        NullState::NonNull
    }
}

/// Whether a method takes a value that may be `null`.
pub open spec fn takes_null_receiver(name: Seq<char>) -> bool {
    name == "or_else"@ || name == "expect"@
}

/// What is known of a value: `null` may be null, a literal is not, nor is what
/// `.or_else` or `.expect` gives; of a name, what is known of it.
pub open spec fn value_null(known: Facts<NullState>, e: Expr) -> NullState {
    match e.kind {
        ExprKind::Null => NullState::Nullable,
        ExprKind::Name(n) => if known.contains_key(n@) {
            known[n@]
        } else {
            NullState::Unknown
        },
        ExprKind::Call { callee, .. } => if callee.kind matches ExprKind::Member { name, .. }
            && takes_null_receiver(name@) {
            NullState::NonNull
        } else {
            NullState::Unknown
        },
        ExprKind::Int(_) => NullState::NonNull,
        ExprKind::Float(_) => NullState::NonNull,
        ExprKind::Bool(_) => NullState::NonNull,
        ExprKind::Str(_) => NullState::NonNull,
        ExprKind::List(_) => NullState::NonNull,
        _ => NullState::Unknown,
    }
}

/// What is known behind a statement: a binding or an assignment to a bare name makes
/// known of it what is known of the value; an annotation decides.
pub open spec fn nulls_after(known: Facts<NullState>, s: Stmt) -> Facts<NullState> {
    match s.kind {
        StmtKind::Binding(b) => match b.binder {
            Binder::Name(n) => known.insert(
                n@,
                match b.ty {
                    Some(ty) => type_null(ty),
                    None => value_null(known, b.value),
                },
            ),
            Binder::Tuple(names) => forgetting(known, texts(names@), NullState::Unknown),
        },
        StmtKind::Assign(a) => if a.target.path@.len() == 0 {
            known.insert(a.target.base@, value_null(known, a.value))
        } else {
            known
        },
        _ => known,
    }
}

/// Whether a condition is `name is not null`, either way round.
pub open spec fn says_not_null(cond: Expr, name: Seq<char>) -> bool {
    cond.kind matches ExprKind::Binary { op: BinOp::IsNot, lhs, rhs } && {
        ||| (lhs.kind matches ExprKind::Name(n) && n@ == name) && rhs.kind is Null
        ||| lhs.kind is Null && (rhs.kind matches ExprKind::Name(n) && n@ == name)
    }
}

/// What is known where a condition holds.
pub open spec fn nulls_where(known: Facts<NullState>, cond: Expr) -> Facts<NullState> {
    if exists|name: Seq<char>| says_not_null(cond, name) {
        known.insert(choose|name: Seq<char>| says_not_null(cond, name), NullState::NonNull)
    } else {
        known
    }
}

/// How it becomes known whether names may be `null`.
pub open spec fn null_rules() -> Rules<NullState> {
    Rules {
        unknown: NullState::Unknown,
        after: |known: Facts<NullState>, s: Stmt| nulls_after(known, s),
        holds: |known: Facts<NullState>, c: Expr| nulls_where(known, c),
        param: |ty: Type| type_null(ty),
    }
}

proof fn same_null(known: Facts<NullState>, e: Expr, scope: Scope)
    requires
        says(scope, known),
    ensures
        state_of_expr(e, scope) == value_null(known, e),
{
    if let ExprKind::Name(n) = e.kind {
        assert(lookup(scope, n@) == fact(known, n@));
    }
}

proof fn unknown_lookup(scope: Scope, names: Seq<Seq<char>>, i: nat, n: Seq<char>)
    ensures
        lookup(unknown_from(scope, names, i), n) == (if exists|j: int|
            i <= j < names.len() && names[j] == n {
            Some(NullState::Unknown)
        } else {
            lookup(scope, n)
        }),
    decreases names.len() - i,
{
    if i < names.len() {
        law_lookup_after_bind(scope, names[i as int], NullState::Unknown, n);
        unknown_lookup(bind(scope, names[i as int], NullState::Unknown), names, i + 1, n);
    }
}

proof fn says_unknown(scope: Scope, known: Facts<NullState>, names: Seq<Seq<char>>)
    requires
        says(scope, known),
    ensures
        says(unknown_from(scope, names, 0), forgetting(known, names, NullState::Unknown)),
{
    let after = unknown_from(scope, names, 0);
    assert forall|n: Seq<char>| #[trigger] lookup(after, n) == (if names.contains(n) {
        Some(NullState::Unknown)
    } else {
        lookup(scope, n)
    }) by {
        unknown_lookup(scope, names, 0, n);
        if names.contains(n) {
            let j = choose|j: int| 0 <= j < names.len() && names[j] == n;
            assert(0 <= j < names.len() && names[j] == n);
        }
    }
    lemma_says_forgetting(scope, known, names, NullState::Unknown, after);
}

proof fn says_params(params: Seq<Param>, i: nat, scope: Scope, known: Facts<NullState>)
    requires
        says(scope, known),
    ensures
        says(params_known(params, i, scope), of_params(null_rules(), params, i, known)),
    decreases params.len() - i,
{
    if i < params.len() {
        match params[i as int] {
            Param::SelfRecv => {
                says_params(params, i + 1, scope, known);
            },
            Param::Named { name, ty, .. } => {
                let v = type_null(ty);
                lemma_says_bind(scope, known, name@, v);
                says_params(params, i + 1, bind(scope, name@, v), known.insert(name@, v));
            },
        }
    }
}

proof fn says_after(
    s: Stmt,
    scope: Scope,
    diags: Seq<DiagnosticView>,
    known: Facts<NullState>,
)
    requires
        says(scope, known),
    ensures
        says(stmt_used(s, scope, diags).0, nulls_after(known, s)),
{
    match s.kind {
        StmtKind::Binding(b) => match b.binder {
            Binder::Name(n) => {
                same_null(known, b.value, scope);
                lemma_says_bind(scope, known, n@, state_of_binding(b, scope));
            },
            Binder::Tuple(names) => {
                says_unknown(scope, known, texts(names@));
            },
        },
        StmtKind::Assign(a) => {
            same_null(known, a.value, scope);
            lemma_says_bind(scope, known, a.target.base@, state_of_expr(a.value, scope));
        },
        _ => {},
    }
}

proof fn says_where(scope: Scope, known: Facts<NullState>, cond: Expr)
    requires
        says(scope, known),
    ensures
        says(narrowed(scope, cond), nulls_where(known, cond)),
{
    if let ExprKind::Binary { op, lhs, rhs } = cond.kind {
        if op == BinOp::IsNot {
            if let ExprKind::Name(n) = lhs.kind {
                if rhs.kind is Null {
                    assert(says_not_null(cond, n@));
                    lemma_says_bind(scope, known, n@, NullState::NonNull);
                }
            }
            if let ExprKind::Name(n) = rhs.kind {
                if lhs.kind is Null {
                    assert(says_not_null(cond, n@));
                    lemma_says_bind(scope, known, n@, NullState::NonNull);
                }
            }
        }
    }
}

// ---------------------------------------------------------------------------
// From the place to the report
// ---------------------------------------------------------------------------

/// Whether a spot is reported wherever it is met.
spec fn told(t: Spot<NullState>, d: DiagnosticView) -> bool {
    forall|scope: Scope, diags: Seq<DiagnosticView>|
        says(scope, t.known) ==> (#[trigger] uses_checked(t.expr, scope, diags)).contains(d)
}

proof fn forget_none(known: Facts<NullState>)
    ensures
        forgetting(known, Seq::empty(), NullState::Unknown) == known,
{
    assert(forgetting(known, Seq::empty(), NullState::Unknown) =~= known);
}

/// A bare name is no use of itself.
proof fn name_untold(t: Spot<NullState>, d: DiagnosticView, scope: Scope)
    requires
        told(t, d),
        says(scope, t.known),
    ensures
        !(t.expr.kind is Name),
{
    if t.expr.kind is Name {
        let none = Seq::<DiagnosticView>::empty();
        assert(children(t.expr).len() == 0);
        assert(uses_checked(t.expr, scope, none) == children_used(t.expr, 0, scope, none));
        assert(uses_checked(t.expr, scope, none).contains(d));
    }
}

proof fn found_base(
    t: Spot<NullState>,
    d: DiagnosticView,
    base: Box<Expr>,
    scope: Scope,
    known: Facts<NullState>,
    first: Seq<DiagnosticView>,
)
    requires
        told(t, d),
        says(scope, known),
        in_expr(null_rules(), t, *base, known),
    ensures
        !(base.kind is Name),
        uses_checked(*base, scope, first).contains(d),
    decreases *base, 3nat, 0nat,
{
    if base.kind is Name {
        assert(children(*base).len() == 0);
        assert(!in_children(null_rules(), t, *base, 0, known));
        name_untold(t, d, scope);
    }
    found_expr(t, d, *base, scope, known, first);
}

proof fn found_expr(
    t: Spot<NullState>,
    d: DiagnosticView,
    e: Expr,
    scope: Scope,
    known: Facts<NullState>,
    diags: Seq<DiagnosticView>,
)
    requires
        told(t, d),
        says(scope, known),
        in_expr(null_rules(), t, e, known),
    ensures
        uses_checked(e, scope, diags).contains(d),
    decreases e, 2nat, 0nat,
{
    let r = null_rules();
    let last = uses_checked(e, scope, diags);
    forget_none(known);
    if t != (Spot { expr: e, known }) {
        match e.kind {
            ExprKind::Member { base, name, safe } => {
                assert(children(e)[0] == *base);
                assert(in_expr(r, t, *base, known)) by {
                    assert(in_children(r, t, e, 0, known));
                    assert(!in_children(r, t, e, 1, known));
                }
                found_base(
                    t,
                    d,
                    base,
                    scope,
                    known,
                    if safe || is_null_handler(name@) {
                        diags
                    } else {
                        required(*base, scope, "member access"@, diags)
                    },
                );
            },
            ExprKind::Call { callee, .. } => {
                if let ExprKind::Member { base, name, safe } = callee.kind {
                    let before = if safe || is_null_handler(name@) {
                        diags
                    } else {
                        required(*base, scope, "method call"@, diags)
                    };
                    let first = if (safe || is_null_handler(name@)) && base.kind is Name {
                        diags
                    } else {
                        uses_checked(*base, scope, before)
                    };
                    assert(last == children_used(e, 1, scope, first));
                    if in_expr(r, t, *base, known) {
                        found_base(t, d, base, scope, known, before);
                        adds_children_used(e, 1, scope, first);
                        still_there(first, last, d);
                    } else {
                        found_children(t, d, e, 1, scope, known, first);
                    }
                } else {
                    found_children(t, d, e, 0, scope, known, diags);
                }
            },
            ExprKind::Index { base, index } => {
                let first = required(*base, scope, "indexing"@, diags);
                two_children(r, t, e, known);
                let next = uses_checked(*base, scope, first);
                if in_expr(r, t, *base, known) {
                    found_expr(t, d, *base, scope, known, first);
                    adds_uses_checked(*index, scope, next);
                    still_there(next, last, d);
                } else {
                    found_expr(t, d, *index, scope, known, next);
                }
            },
            ExprKind::Binary { op, lhs, rhs } => {
                let first = if takes_null(op) {
                    diags
                } else {
                    required(
                        *rhs,
                        scope,
                        "operator operand"@,
                        required(*lhs, scope, "operator operand"@, diags),
                    )
                };
                two_children(r, t, e, known);
                let next = uses_checked(*lhs, scope, first);
                if in_expr(r, t, *lhs, known) {
                    found_expr(t, d, *lhs, scope, known, first);
                    adds_uses_checked(*rhs, scope, next);
                    still_there(next, last, d);
                } else {
                    found_expr(t, d, *rhs, scope, known, next);
                }
            },
            ExprKind::Unary { op, operand } => {
                let first = if op == UnOp::Neg {
                    required(*operand, scope, "operator operand"@, diags)
                } else {
                    diags
                };
                assert(children(e)[0] == *operand);
                assert(in_expr(r, t, *operand, known)) by {
                    assert(in_children(r, t, e, 0, known));
                    assert(!in_children(r, t, e, 1, known));
                }
                found_expr(t, d, *operand, scope, known, first);
            },
            ExprKind::Match(m) => {
                let first = uses_checked(*m.scrutinee, scope, diags);
                if in_expr(r, t, *m.scrutinee, known) {
                    found_expr(t, d, *m.scrutinee, scope, known, diags);
                    adds_arms_used(m.arms@, 0, scope, first);
                    still_there(first, last, d);
                } else {
                    found_arms(t, d, m.arms@, 0, scope, known, first);
                }
            },
            _ => {
                found_children(t, d, e, 0, scope, known, diags);
            },
        }
    }
}

proof fn two_children(r: Rules<NullState>, t: Spot<NullState>, e: Expr, known: Facts<NullState>)
    requires
        r == null_rules(),
        children(e).len() == 2,
        e.kind is Binary || e.kind is Index,
        in_children(r, t, e, 0, known),
    ensures
        in_expr(r, t, children(e)[0], known) || in_expr(r, t, children(e)[1], known),
{
    forget_none(known);
    assert(in_children(r, t, e, 1, known) ==> in_expr(r, t, children(e)[1], known)) by {
        assert(!in_children(r, t, e, 2, known));
    }
}

proof fn found_children(
    t: Spot<NullState>,
    d: DiagnosticView,
    e: Expr,
    i: nat,
    scope: Scope,
    known: Facts<NullState>,
    diags: Seq<DiagnosticView>,
)
    requires
        told(t, d),
        says(scope, known),
        in_children(null_rules(), t, e, i, known),
    ensures
        children_used(e, i, scope, diags).contains(d),
    decreases e, 1nat, children(e).len() - i,
{
    let r = null_rules();
    lemma_child_smaller(e, i as int);
    let names = names_around(e, i);
    let inner = unknown_from(scope, names, 0);
    let next = uses_checked(children(e)[i as int], inner, diags);
    if in_expr(r, t, children(e)[i as int], forgetting(known, names, NullState::Unknown)) {
        says_unknown(scope, known, names);
        found_expr(
            t,
            d,
            children(e)[i as int],
            inner,
            forgetting(known, names, NullState::Unknown),
            diags,
        );
        adds_children_used(e, i + 1, scope, next);
        still_there(next, children_used(e, i, scope, diags), d);
    } else {
        found_children(t, d, e, i + 1, scope, known, next);
    }
}

proof fn found_arms(
    t: Spot<NullState>,
    d: DiagnosticView,
    arms: Seq<MatchArm>,
    i: nat,
    scope: Scope,
    known: Facts<NullState>,
    diags: Seq<DiagnosticView>,
)
    requires
        told(t, d),
        says(scope, known),
        in_arms(null_rules(), t, arms, i, known),
    ensures
        arms_used(arms, i, scope, diags).contains(d),
    decreases arms, 1nat, arms.len() - i,
{
    let r = null_rules();
    let names = names_of_pattern(arms[i as int].pattern);
    let inner = unknown_from(scope, names, 0);
    let body = arms[i as int].body.stmts@;
    let next = stmts_used(body, 0, inner, diags).1;
    if in_stmts(r, t, body, 0, forgetting(known, names, NullState::Unknown)) {
        says_unknown(scope, known, names);
        found_stmts(t, d, body, 0, inner, forgetting(known, names, NullState::Unknown), diags);
        adds_arms_used(arms, i + 1, scope, next);
        still_there(next, arms_used(arms, i, scope, diags), d);
    } else {
        found_arms(t, d, arms, i + 1, scope, known, next);
    }
}

spec fn in_decl(t: Spot<NullState>, decl: Rc<FnDecl>) -> bool {
    in_fn(null_rules(), t, *decl)
}

proof fn found_fn(
    t: Spot<NullState>,
    d: DiagnosticView,
    decl: Rc<FnDecl>,
    diags: Seq<DiagnosticView>,
)
    requires
        told(t, d),
        in_decl(t, decl),
    ensures
        fn_found(decl, diags).contains(d),
    decreases *decl, 0nat, 0nat,
{
    let none: Scope = Seq::empty();
    assert(says(none, Map::empty()));
    says_params(decl.params@, 0, none, Map::empty());
    found_stmts(
        t,
        d,
        decl.body.stmts@,
        0,
        params_known(decl.params@, 0, none),
        of_params(null_rules(), decl.params@, 0, Map::empty()),
        diags,
    );
}

proof fn found_fns(
    t: Spot<NullState>,
    d: DiagnosticView,
    decls: Seq<Rc<FnDecl>>,
    i: nat,
    diags: Seq<DiagnosticView>,
)
    requires
        told(t, d),
        in_fns(null_rules(), t, decls, i),
    ensures
        fns_used(decls, i, diags).contains(d),
    decreases decls, 1nat, decls.len() - i,
{
    let decl = decls[i as int];
    let next = fn_found(decl, diags);
    if in_decl(t, decl) {
        found_fn(t, d, decl, diags);
        adds_fns_used(decls, i + 1, next);
        still_there(next, fns_used(decls, i, diags), d);
    } else {
        found_fns(t, d, decls, i + 1, next);
    }
}

proof fn found_segs(
    t: Spot<NullState>,
    d: DiagnosticView,
    path: Seq<TargetSeg>,
    i: nat,
    scope: Scope,
    known: Facts<NullState>,
    diags: Seq<DiagnosticView>,
)
    requires
        told(t, d),
        says(scope, known),
        in_segs(null_rules(), t, path, i, known),
    ensures
        segs_used(path, i, scope, diags).contains(d),
    decreases path, 1nat, path.len() - i,
{
    let r = null_rules();
    match path[i as int] {
        TargetSeg::Index(e) => {
            let next = uses_checked(e, scope, diags);
            if in_expr(r, t, e, known) {
                found_expr(t, d, e, scope, known, diags);
                adds_segs_used(path, i + 1, scope, next);
                still_there(next, segs_used(path, i, scope, diags), d);
            } else {
                found_segs(t, d, path, i + 1, scope, known, next);
            }
        },
        TargetSeg::Field(_) => {
            found_segs(t, d, path, i + 1, scope, known, diags);
        },
    }
}

proof fn found_if_arms(
    t: Spot<NullState>,
    d: DiagnosticView,
    arms: Seq<(Expr, Block)>,
    i: nat,
    scope: Scope,
    known: Facts<NullState>,
    diags: Seq<DiagnosticView>,
)
    requires
        told(t, d),
        says(scope, known),
        in_if_arms(null_rules(), t, arms, i, known),
    ensures
        if_arms_used(arms, i, scope, diags).contains(d),
    decreases arms, 1nat, arms.len() - i,
{
    let r = null_rules();
    let inner = narrowed(scope, arms[i as int].0);
    let facts = nulls_where(known, arms[i as int].0);
    says_where(scope, known, arms[i as int].0);
    let first = uses_checked(arms[i as int].0, scope, diags);
    let next = stmts_used(arms[i as int].1.stmts@, 0, inner, first).1;
    let last = if_arms_used(arms, i, scope, diags);
    adds_stmts_used(arms[i as int].1.stmts@, 0, inner, first);
    adds_if_arms_used(arms, i + 1, scope, next);
    if in_expr(r, t, arms[i as int].0, known) {
        found_expr(t, d, arms[i as int].0, scope, known, diags);
        still_there(first, next, d);
        still_there(next, last, d);
    } else if in_stmts(r, t, arms[i as int].1.stmts@, 0, facts) {
        found_stmts(t, d, arms[i as int].1.stmts@, 0, inner, facts, first);
        still_there(next, last, d);
    } else {
        found_if_arms(t, d, arms, i + 1, scope, known, next);
    }
}

proof fn found_stmt(
    t: Spot<NullState>,
    d: DiagnosticView,
    s: Stmt,
    scope: Scope,
    known: Facts<NullState>,
    diags: Seq<DiagnosticView>,
)
    requires
        told(t, d),
        says(scope, known),
        in_stmt(null_rules(), t, s, known),
    ensures
        stmt_used(s, scope, diags).1.contains(d),
    decreases s, 0nat, 0nat,
{
    let r = null_rules();
    let last = stmt_used(s, scope, diags).1;
    match s.kind {
        StmtKind::Binding(b) => {
            found_expr(t, d, b.value, scope, known, diags);
        },
        StmtKind::Assign(a) => {
            let first = uses_checked(a.value, scope, diags);
            if in_expr(r, t, a.value, known) {
                found_expr(t, d, a.value, scope, known, diags);
                adds_segs_used(a.target.path@, 0, scope, first);
                still_there(first, last, d);
            } else {
                found_segs(t, d, a.target.path@, 0, scope, known, first);
            }
        },
        StmtKind::Return(Some(e)) => {
            found_expr(t, d, e, scope, known, diags);
        },
        StmtKind::Expr(e) => {
            found_expr(t, d, e, scope, known, diags);
        },
        StmtKind::If(c) => {
            let arms = if_arms_used(c.arms@, 0, scope, diags);
            if in_if_arms(r, t, c.arms@, 0, known) {
                found_if_arms(t, d, c.arms@, 0, scope, known, diags);
                if let Some(b) = c.else_body {
                    adds_stmts_used(b.stmts@, 0, scope, arms);
                    still_there(arms, last, d);
                }
            } else if let Some(b) = c.else_body {
                found_stmts(t, d, b.stmts@, 0, scope, known, arms);
            }
        },
        StmtKind::While(l) => {
            let first = uses_checked(l.cond, scope, diags);
            if in_expr(r, t, l.cond, known) {
                found_expr(t, d, l.cond, scope, known, diags);
                adds_stmts_used(l.body.stmts@, 0, narrowed(scope, l.cond), first);
                still_there(first, last, d);
            } else {
                says_where(scope, known, l.cond);
                let facts = nulls_where(known, l.cond);
                found_stmts(
                    t,
                    d,
                    l.body.stmts@,
                    0,
                    narrowed(scope, l.cond),
                    facts,
                    first,
                );
            }
        },
        StmtKind::For(l) => {
            let first = uses_checked(l.iter, scope, diags);
            let names = names_of(l.binder);
            let inner = unknown_from(scope, names, 0);
            if in_expr(r, t, l.iter, known) {
                found_expr(t, d, l.iter, scope, known, diags);
                adds_stmts_used(l.body.stmts@, 0, inner, first);
                still_there(first, last, d);
            } else {
                says_unknown(scope, known, names);
                let facts = forgetting(known, names, NullState::Unknown);
                found_stmts(t, d, l.body.stmts@, 0, inner, facts, first);
            }
        },
        StmtKind::Fn(decl) => {
            found_fn(t, d, decl, diags);
        },
        StmtKind::Impl(x) => {
            found_fns(t, d, x.methods@, 0, diags);
        },
        StmtKind::Trait(x) => {
            found_fns(t, d, x.defaults@, 0, diags);
        },
        _ => {},
    }
}

proof fn found_stmts(
    t: Spot<NullState>,
    d: DiagnosticView,
    stmts: Seq<Stmt>,
    i: nat,
    scope: Scope,
    known: Facts<NullState>,
    diags: Seq<DiagnosticView>,
)
    requires
        told(t, d),
        says(scope, known),
        in_stmts(null_rules(), t, stmts, i, known),
    ensures
        stmts_used(stmts, i, scope, diags).1.contains(d),
    decreases stmts, 1nat, stmts.len() - i,
{
    let r = null_rules();
    let s = stmts[i as int];
    let next = stmt_used(s, scope, diags);
    if in_stmt(r, t, s, known) {
        found_stmt(t, d, s, scope, known, diags);
        adds_stmts_used(stmts, i + 1, next.0, next.1);
        still_there(next.1, stmts_used(stmts, i, scope, diags).1, d);
    } else {
        says_after(s, scope, diags, known);
        found_stmts(t, d, stmts, i + 1, next.0, nulls_after(known, s), next.1);
    }
}

proof fn found_program(stmts: Seq<Stmt>, t: Spot<NullState>, d: DiagnosticView)
    requires
        in_program(null_rules(), t, stmts),
        told(t, d),
    ensures
        reported(stmts).contains(d),
{
    let none: Scope = Seq::empty();
    assert(says(none, Map::empty()));
    let first = exhaustiveness_of(stmts, Seq::empty());
    found_stmts(t, d, stmts, 0, none, Map::empty(), first);
}

// ---------------------------------------------------------------------------
// The laws
// ---------------------------------------------------------------------------

/// Whether an operator takes operands that may be `null`: equality, identity and the
/// logical ones.
pub open spec fn allows_null(op: BinOp) -> bool {
    op == BinOp::Eq || op == BinOp::NotEq || op == BinOp::Is || op == BinOp::IsNot || op
        == BinOp::And || op == BinOp::Or
}

/// Whether an expression needs a value that is not `null` at `x`, and what for: as an
/// operand, as the base of an index, a member or a method, unless the access is safe
/// or the method takes `null`.
pub open spec fn needs_value(e: Expr, x: Expr, what: Seq<char>) -> bool {
    match e.kind {
        ExprKind::Binary { op, lhs, rhs } => !allows_null(op) && (*lhs == x || *rhs == x) && what
            == "operator operand"@,
        ExprKind::Unary { op: UnOp::Neg, operand } => *operand == x && what == "operator operand"@,
        ExprKind::Index { base, .. } => *base == x && what == "indexing"@,
        ExprKind::Member { base, name, safe } => *base == x && !safe && !takes_null_receiver(name@)
            && what == "member access"@,
        ExprKind::Call { callee, .. } => callee.kind matches ExprKind::Member { base, name, safe }
            && *base == x && !safe && !takes_null_receiver(name@) && what == "method call"@,
        _ => false,
    }
}

/// The report of a name that may be `null` where a value is needed.
pub open spec fn null_report(name: Seq<char>, what: Seq<char>, span: Span) -> DiagnosticView {
    check_diag(
        "nullable value `"@ + name + "` used in "@ + what
            + " where a non-null value is required; narrow with `if "@ + name
            + " is not null:` or default with `"@ + name + ".or_else(...)`"@,
        span,
    )
}

/// Every expression of every statement of a program is checked, wherever it stands,
/// those of `return` among them: where a name that may be `null`, by what is known
/// there, is used where a value is needed, the reports of the program hold a report
/// of that use, at the name.
pub proof fn law_every_use_is_checked(
    stmts: Seq<Stmt>,
    t: Spot<NullState>,
    x: Expr,
    name: Seq<char>,
    what: Seq<char>,
)
    requires
        in_program(null_rules(), t, stmts),
        needs_value(t.expr, x, what),
        x.kind matches ExprKind::Name(n) && n@ == name,
        t.known.contains_key(name),
        t.known[name] == NullState::Nullable,
    ensures
        reported(stmts).contains(null_report(name, what, x.span)),
{
    let e = t.expr;
    let d = null_report(name, what, x.span);
    assert forall|scope: Scope, diags: Seq<DiagnosticView>| says(scope, t.known) implies (
    #[trigger] uses_checked(e, scope, diags)).contains(d) by {
        assert(lookup(scope, name) == fact(t.known, name));
        let last = uses_checked(e, scope, diags);
        match e.kind {
            ExprKind::Binary { op, lhs, rhs } => {
                let one = required(*lhs, scope, what, diags);
                let two = required(*rhs, scope, what, one);
                let three = uses_checked(*lhs, scope, two);
                super::null_laws::adds_required(*rhs, scope, what, one);
                adds_uses_checked(*lhs, scope, two);
                adds_uses_checked(*rhs, scope, three);
                if *lhs == x {
                    assert(one[one.len() - 1] == d);
                    still_there(one, two, d);
                } else {
                    assert(two[two.len() - 1] == d);
                }
                still_there(two, three, d);
                still_there(three, last, d);
            },
            ExprKind::Unary { op, operand } => {
                let one = required(*operand, scope, what, diags);
                adds_uses_checked(*operand, scope, one);
                assert(one[one.len() - 1] == d);
                still_there(one, last, d);
            },
            ExprKind::Index { base, index } => {
                let one = required(*base, scope, what, diags);
                let two = uses_checked(*base, scope, one);
                adds_uses_checked(*base, scope, one);
                adds_uses_checked(*index, scope, two);
                assert(one[one.len() - 1] == d);
                still_there(one, two, d);
                still_there(two, last, d);
            },
            ExprKind::Member { base, .. } => {
                let one = required(*base, scope, what, diags);
                adds_uses_checked(*base, scope, one);
                assert(one[one.len() - 1] == d);
                still_there(one, last, d);
            },
            ExprKind::Call { callee, .. } => {
                if let ExprKind::Member { base, .. } = callee.kind {
                    let one = required(*base, scope, what, diags);
                    let two = uses_checked(*base, scope, one);
                    adds_uses_checked(*base, scope, one);
                    adds_children_used(e, 1, scope, two);
                    assert(one[one.len() - 1] == d);
                    still_there(one, two, d);
                    still_there(two, last, d);
                }
            },
            _ => {},
        }
    }
    found_program(stmts, t, d);
}

// ---------------------------------------------------------------------------
// From the report to the place
// ---------------------------------------------------------------------------

/// Whether a report is of a use at this spot: a name that may be `null`, by what is
/// known there, where a value is needed.
pub open spec fn faulty(t: Spot<NullState>, d: DiagnosticView) -> bool {
    exists|x: Expr, what: Seq<char>|
        #![trigger needs_value(t.expr, x, what)]
        {
            &&& needs_value(t.expr, x, what)
            &&& x.kind is Name
            &&& t.known.contains_key(x.kind->Name_0@)
            &&& t.known[x.kind->Name_0@] == NullState::Nullable
            &&& d == null_report(x.kind->Name_0@, what, x.span)
        }
}

proof fn from_required(
    t: Spot<NullState>,
    x: Expr,
    scope: Scope,
    what: Seq<char>,
    diags: Seq<DiagnosticView>,
    d: DiagnosticView,
)
    requires
        says(scope, t.known),
        needs_value(t.expr, x, what),
        required(x, scope, what, diags).contains(d),
        !diags.contains(d),
    ensures
        faulty(t, d),
{
    let after = required(x, scope, what, diags);
    let k = choose|k: int| 0 <= k < after.len() && after[k] == d;
    if k < diags.len() {
        assert(diags[k] == d);
    }
    if let ExprKind::Name(n) = x.kind {
        assert(lookup(scope, n@) == fact(t.known, n@));
    }
    assert(needs_value(t.expr, x, what));
}

proof fn came_expr(
    e: Expr,
    scope: Scope,
    known: Facts<NullState>,
    diags: Seq<DiagnosticView>,
    d: DiagnosticView,
) -> (t: Spot<NullState>)
    requires
        says(scope, known),
        uses_checked(e, scope, diags).contains(d),
        !diags.contains(d),
    ensures
        in_expr(null_rules(), t, e, known),
        faulty(t, d),
    decreases e, 2nat, 0nat,
{
    let r = null_rules();
    let here = Spot { expr: e, known };
    forget_none(known);
    match e.kind {
        ExprKind::Member { base, name, safe } => {
            let first = if safe || is_null_handler(name@) {
                diags
            } else {
                required(*base, scope, "member access"@, diags)
            };
            if first.contains(d) {
                from_required(here, *base, scope, "member access"@, diags, d);
                here
            } else {
                let t = came_expr(*base, scope, known, first, d);
                assert(children(e)[0] == *base);
                assert(in_children(r, t, e, 0, known));
                t
            }
        },
        ExprKind::Call { callee, .. } => {
            if let ExprKind::Member { base, name, safe } = callee.kind {
                let before = if safe || is_null_handler(name@) {
                    diags
                } else {
                    required(*base, scope, "method call"@, diags)
                };
                let first = if (safe || is_null_handler(name@)) && base.kind is Name {
                    diags
                } else {
                    uses_checked(*base, scope, before)
                };
                if before.contains(d) {
                    from_required(here, *base, scope, "method call"@, diags, d);
                    here
                } else if first.contains(d) {
                    came_expr(*base, scope, known, before, d)
                } else {
                    came_children(e, 1, scope, known, first, d)
                }
            } else {
                came_children(e, 0, scope, known, diags, d)
            }
        },
        ExprKind::Index { base, index } => {
            let first = required(*base, scope, "indexing"@, diags);
            let next = uses_checked(*base, scope, first);
            assert(children(e)[0] == *base && children(e)[1] == *index);
            if first.contains(d) {
                from_required(here, *base, scope, "indexing"@, diags, d);
                here
            } else if next.contains(d) {
                let t = came_expr(*base, scope, known, first, d);
                assert(in_children(r, t, e, 0, known));
                t
            } else {
                let t = came_expr(*index, scope, known, next, d);
                assert(in_children(r, t, e, 1, known));
                assert(in_children(r, t, e, 0, known));
                t
            }
        },
        ExprKind::Binary { op, lhs, rhs } => {
            let one = if takes_null(op) {
                diags
            } else {
                required(*lhs, scope, "operator operand"@, diags)
            };
            let first = if takes_null(op) {
                diags
            } else {
                required(*rhs, scope, "operator operand"@, one)
            };
            let next = uses_checked(*lhs, scope, first);
            assert(children(e)[0] == *lhs && children(e)[1] == *rhs);
            if one.contains(d) {
                from_required(here, *lhs, scope, "operator operand"@, diags, d);
                here
            } else if first.contains(d) {
                from_required(here, *rhs, scope, "operator operand"@, one, d);
                here
            } else if next.contains(d) {
                let t = came_expr(*lhs, scope, known, first, d);
                assert(in_children(r, t, e, 0, known));
                t
            } else {
                let t = came_expr(*rhs, scope, known, next, d);
                assert(in_children(r, t, e, 1, known));
                assert(in_children(r, t, e, 0, known));
                t
            }
        },
        ExprKind::Unary { op, operand } => {
            let first = if op == UnOp::Neg {
                required(*operand, scope, "operator operand"@, diags)
            } else {
                diags
            };
            if first.contains(d) {
                from_required(here, *operand, scope, "operator operand"@, diags, d);
                here
            } else {
                let t = came_expr(*operand, scope, known, first, d);
                assert(children(e)[0] == *operand);
                assert(in_children(r, t, e, 0, known));
                t
            }
        },
        ExprKind::Match(m) => {
            let first = uses_checked(*m.scrutinee, scope, diags);
            if first.contains(d) {
                came_expr(*m.scrutinee, scope, known, diags, d)
            } else {
                came_arms(m.arms@, 0, scope, known, first, d)
            }
        },
        _ => came_children(e, 0, scope, known, diags, d),
    }
}

proof fn came_children(
    e: Expr,
    i: nat,
    scope: Scope,
    known: Facts<NullState>,
    diags: Seq<DiagnosticView>,
    d: DiagnosticView,
) -> (t: Spot<NullState>)
    requires
        says(scope, known),
        children_used(e, i, scope, diags).contains(d),
        !diags.contains(d),
    ensures
        in_children(null_rules(), t, e, i, known),
        faulty(t, d),
    decreases e, 1nat, children(e).len() - i,
{
    if i < children(e).len() {
        lemma_child_smaller(e, i as int);
        let names = names_around(e, i);
        let inner = unknown_from(scope, names, 0);
        let next = uses_checked(children(e)[i as int], inner, diags);
        if next.contains(d) {
            says_unknown(scope, known, names);
            let facts = forgetting(known, names, NullState::Unknown);
            came_expr(children(e)[i as int], inner, facts, diags, d)
        } else {
            came_children(e, i + 1, scope, known, next, d)
        }
    } else {
        arbitrary()
    }
}

proof fn came_arms(
    arms: Seq<MatchArm>,
    i: nat,
    scope: Scope,
    known: Facts<NullState>,
    diags: Seq<DiagnosticView>,
    d: DiagnosticView,
) -> (t: Spot<NullState>)
    requires
        says(scope, known),
        arms_used(arms, i, scope, diags).contains(d),
        !diags.contains(d),
    ensures
        in_arms(null_rules(), t, arms, i, known),
        faulty(t, d),
    decreases arms, 1nat, arms.len() - i,
{
    if i < arms.len() {
        let names = names_of_pattern(arms[i as int].pattern);
        let inner = unknown_from(scope, names, 0);
        let body = arms[i as int].body.stmts@;
        let next = stmts_used(body, 0, inner, diags).1;
        if next.contains(d) {
            says_unknown(scope, known, names);
            let facts = forgetting(known, names, NullState::Unknown);
            came_stmts(body, 0, inner, facts, diags, d)
        } else {
            came_arms(arms, i + 1, scope, known, next, d)
        }
    } else {
        arbitrary()
    }
}

proof fn came_fn(
    decl: Rc<FnDecl>,
    diags: Seq<DiagnosticView>,
    d: DiagnosticView,
) -> (t: Spot<NullState>)
    requires
        fn_found(decl, diags).contains(d),
        !diags.contains(d),
    ensures
        in_decl(t, decl),
        faulty(t, d),
    decreases *decl, 0nat, 0nat,
{
    let none: Scope = Seq::empty();
    assert(says(none, Map::empty()));
    says_params(decl.params@, 0, none, Map::empty());
    came_stmts(
        decl.body.stmts@,
        0,
        params_known(decl.params@, 0, none),
        of_params(null_rules(), decl.params@, 0, Map::empty()),
        diags,
        d,
    )
}

proof fn came_fns(
    decls: Seq<Rc<FnDecl>>,
    i: nat,
    diags: Seq<DiagnosticView>,
    d: DiagnosticView,
) -> (t: Spot<NullState>)
    requires
        fns_used(decls, i, diags).contains(d),
        !diags.contains(d),
    ensures
        in_fns(null_rules(), t, decls, i),
        faulty(t, d),
    decreases decls, 1nat, decls.len() - i,
{
    if i < decls.len() {
        let decl = decls[i as int];
        let next = fn_found(decl, diags);
        if next.contains(d) {
            came_fn(decl, diags, d)
        } else {
            came_fns(decls, i + 1, next, d)
        }
    } else {
        arbitrary()
    }
}

proof fn came_segs(
    path: Seq<TargetSeg>,
    i: nat,
    scope: Scope,
    known: Facts<NullState>,
    diags: Seq<DiagnosticView>,
    d: DiagnosticView,
) -> (t: Spot<NullState>)
    requires
        says(scope, known),
        segs_used(path, i, scope, diags).contains(d),
        !diags.contains(d),
    ensures
        in_segs(null_rules(), t, path, i, known),
        faulty(t, d),
    decreases path, 1nat, path.len() - i,
{
    if i < path.len() {
        match path[i as int] {
            TargetSeg::Index(e) => {
                let next = uses_checked(e, scope, diags);
                if next.contains(d) {
                    came_expr(e, scope, known, diags, d)
                } else {
                    came_segs(path, i + 1, scope, known, next, d)
                }
            },
            TargetSeg::Field(_) => came_segs(path, i + 1, scope, known, diags, d),
        }
    } else {
        arbitrary()
    }
}

proof fn came_if_arms(
    arms: Seq<(Expr, Block)>,
    i: nat,
    scope: Scope,
    known: Facts<NullState>,
    diags: Seq<DiagnosticView>,
    d: DiagnosticView,
) -> (t: Spot<NullState>)
    requires
        says(scope, known),
        if_arms_used(arms, i, scope, diags).contains(d),
        !diags.contains(d),
    ensures
        in_if_arms(null_rules(), t, arms, i, known),
        faulty(t, d),
    decreases arms, 1nat, arms.len() - i,
{
    if i < arms.len() {
        let inner = narrowed(scope, arms[i as int].0);
        let facts = nulls_where(known, arms[i as int].0);
        says_where(scope, known, arms[i as int].0);
        let body = arms[i as int].1.stmts@;
        let first = uses_checked(arms[i as int].0, scope, diags);
        let next = stmts_used(body, 0, inner, first).1;
        if first.contains(d) {
            came_expr(arms[i as int].0, scope, known, diags, d)
        } else if next.contains(d) {
            came_stmts(body, 0, inner, facts, first, d)
        } else {
            came_if_arms(arms, i + 1, scope, known, next, d)
        }
    } else {
        arbitrary()
    }
}

proof fn came_stmt(
    s: Stmt,
    scope: Scope,
    known: Facts<NullState>,
    diags: Seq<DiagnosticView>,
    d: DiagnosticView,
) -> (t: Spot<NullState>)
    requires
        says(scope, known),
        stmt_used(s, scope, diags).1.contains(d),
        !diags.contains(d),
    ensures
        in_stmt(null_rules(), t, s, known),
        faulty(t, d),
    decreases s, 0nat, 0nat,
{
    match s.kind {
        StmtKind::Binding(b) => came_expr(b.value, scope, known, diags, d),
        StmtKind::Assign(a) => {
            let first = uses_checked(a.value, scope, diags);
            if first.contains(d) {
                came_expr(a.value, scope, known, diags, d)
            } else {
                came_segs(a.target.path@, 0, scope, known, first, d)
            }
        },
        StmtKind::Return(Some(e)) => came_expr(e, scope, known, diags, d),
        StmtKind::Expr(e) => came_expr(e, scope, known, diags, d),
        StmtKind::If(c) => {
            let arms = if_arms_used(c.arms@, 0, scope, diags);
            if arms.contains(d) {
                came_if_arms(c.arms@, 0, scope, known, diags, d)
            } else {
                match c.else_body {
                    Some(b) => came_stmts(b.stmts@, 0, scope, known, arms, d),
                    None => arbitrary(),
                }
            }
        },
        StmtKind::While(l) => {
            let first = uses_checked(l.cond, scope, diags);
            if first.contains(d) {
                came_expr(l.cond, scope, known, diags, d)
            } else {
                says_where(scope, known, l.cond);
                let inner = narrowed(scope, l.cond);
                came_stmts(l.body.stmts@, 0, inner, nulls_where(known, l.cond), first, d)
            }
        },
        StmtKind::For(l) => {
            let first = uses_checked(l.iter, scope, diags);
            let names = names_of(l.binder);
            if first.contains(d) {
                came_expr(l.iter, scope, known, diags, d)
            } else {
                says_unknown(scope, known, names);
                let facts = forgetting(known, names, NullState::Unknown);
                let inner = unknown_from(scope, names, 0);
                came_stmts(l.body.stmts@, 0, inner, facts, first, d)
            }
        },
        StmtKind::Fn(decl) => came_fn(decl, diags, d),
        StmtKind::Impl(x) => came_fns(x.methods@, 0, diags, d),
        StmtKind::Trait(x) => came_fns(x.defaults@, 0, diags, d),
        _ => arbitrary(),
    }
}

proof fn came_stmts(
    stmts: Seq<Stmt>,
    i: nat,
    scope: Scope,
    known: Facts<NullState>,
    diags: Seq<DiagnosticView>,
    d: DiagnosticView,
) -> (t: Spot<NullState>)
    requires
        says(scope, known),
        stmts_used(stmts, i, scope, diags).1.contains(d),
        !diags.contains(d),
    ensures
        in_stmts(null_rules(), t, stmts, i, known),
        faulty(t, d),
    decreases stmts, 1nat, stmts.len() - i,
{
    if i < stmts.len() {
        let s = stmts[i as int];
        let next = stmt_used(s, scope, diags);
        if next.1.contains(d) {
            came_stmt(s, scope, known, diags, d)
        } else {
            says_after(s, scope, diags, known);
            came_stmts(stmts, i + 1, next.0, nulls_after(known, s), next.1, d)
        }
    } else {
        arbitrary()
    }
}

/// Nothing else is reported of `null`: each report that this check adds is of a use
/// somewhere in the program of a name that may be `null`, by what is known there,
/// where a value is needed. So a name that was narrowed, or of which nothing is
/// known, is never reported.
pub proof fn law_null_reports_are_of_uses(
    stmts: Seq<Stmt>,
    before: Seq<DiagnosticView>,
    d: DiagnosticView,
) -> (t: Spot<NullState>)
    requires
        nullness_of(stmts, before).contains(d),
        !before.contains(d),
    ensures
        in_program(null_rules(), t, stmts),
        faulty(t, d),
{
    let none: Scope = Seq::empty();
    assert(says(none, Map::empty()));
    came_stmts(stmts, 0, none, Map::empty(), before, d)
}

} // verus!
