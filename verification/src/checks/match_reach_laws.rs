//! Every `match` of a program is checked, wherever it stands, and a report comes from
//! one.

use super::exhaustiveness::{
    all_covered, arity_from, arms_covered, children_checked, covered, enum_of_binding, enum_of_expr,
    exhaustiveness_of, expr_checked, fns_checked, if_arms_checked, match_arms_checked,
    match_checked, match_over, missing_from, params_known, segs_checked, stmt_checked,
    stmts_checked, unknown_from, Coverage, Scope,
};
use super::exhaustiveness_laws::{
    adds, adds_children_checked, adds_expr_checked, adds_fns_checked, adds_if_arms_checked,
    adds_match_arms_checked, adds_segs_checked, adds_stmts_checked, fn_found, more_all_covered,
    more_arms_covered,
};
use super::null_laws::adds_stmts_used;
use super::occurrence::{
    fact, forgetting, in_arms, in_children, in_expr, in_fn, in_fns, in_if_arms, in_program,
    in_segs, in_stmt, in_stmts, lemma_says_bind, lemma_says_forgetting, of_params, says, Facts,
    Rules, Spot,
};
use super::{
    children, enums_of, lemma_child_smaller, names_around, names_of, names_of_pattern, reported,
    Enums,
};
use crate::ast::{
    BaseType, Binder, Binding, Block, Expr, ExprKind, FnDecl, MatchArm, Param, Pattern, PatternKind,
    Stmt, StmtKind, TargetSeg, Type,
};
use crate::error::{check_diag, DiagnosticView};
use crate::name_map::{bind, law_lookup_after_bind, lookup};
use crate::text::{decimal, joined, texts};
use crate::token::Span;
use std::rc::Rc;
use vstd::prelude::*;
use vstd::string::*;

verus! {

// ---------------------------------------------------------------------------
// What is known
// ---------------------------------------------------------------------------

/// The enum that a type is: a declared one, and not nullable.
pub open spec fn type_enum(info: Enums, ty: Type) -> Option<Seq<char>> {
    match ty.base {
        BaseType::Named { name, .. } => if !ty.nullable && lookup(info.enums, name@) is Some {
            Some(name@)
        } else {
            None
        },
        _ => None,
    }
}

/// Whether an enum has a variant of this name.
pub open spec fn has_variant(info: Enums, enum_name: Seq<char>, variant: Seq<char>) -> bool {
    lookup(info.enums, enum_name) matches Some(vs) && exists|i: int|
        0 <= i < vs.len() && (#[trigger] vs[i]).0 == variant
}

/// The enum that a value obviously is of: that of a name of which it is known, or of
/// the variant that a call constructs.
pub open spec fn value_enum(info: Enums, known: Facts<Option<Seq<char>>>, e: Expr) -> Option<
    Seq<char>,
> {
    match e.kind {
        ExprKind::Name(n) => if known.contains_key(n@) {
            known[n@]
        } else {
            None
        },
        ExprKind::Call { callee, .. } => match callee.kind {
            ExprKind::Name(v) => info.owner(v@),
            ExprKind::Member { base, name, safe: false } => match base.kind {
                ExprKind::Name(n) => if !known.contains_key(n@) && has_variant(
                    info,
                    n@,
                    name@,
                ) {
                    Some(n@)
                } else {
                    None
                },
                _ => None,
            },
            _ => None,
        },
        _ => None,
    }
}

/// What is known behind a statement: a binding gives its name the enum of its
/// annotation, or of its value if it has none.
pub open spec fn enums_after(info: Enums, known: Facts<Option<Seq<char>>>, s: Stmt) -> Facts<
    Option<Seq<char>>,
> {
    match s.kind {
        StmtKind::Binding(b) => match b.binder {
            Binder::Name(n) => known.insert(
                n@,
                match b.ty {
                    Some(ty) => type_enum(info, ty),
                    None => value_enum(info, known, b.value),
                },
            ),
            Binder::Tuple(names) => forgetting(known, texts(names@), None),
        },
        _ => known,
    }
}

/// How the enums of names become known.
pub open spec fn enum_rules(info: Enums) -> Rules<Option<Seq<char>>> {
    Rules {
        unknown: None,
        after: |known: Facts<Option<Seq<char>>>, s: Stmt| enums_after(info, known, s),
        holds: |known: Facts<Option<Seq<char>>>, c: Expr| known,
        param: |ty: Type| type_enum(info, ty),
    }
}

proof fn arity_is_some(vs: Seq<(Seq<char>, nat)>, name: Seq<char>, i: nat)
    ensures
        arity_from(vs, name, i) is Some <==> exists|j: int|
            i <= j < vs.len() && (#[trigger] vs[j]).0 == name,
        arity_from(vs, name, i) matches Some(n) ==> exists|j: int|
            i <= j < vs.len() && #[trigger] vs[j] == (name, n),
    decreases vs.len() - i,
{
    if i < vs.len() {
        arity_is_some(vs, name, i + 1);
        if vs[i as int].0 == name {
            assert(vs[i as int] == (name, vs[i as int].1));
        }
    }
}

proof fn same_enum(
    info: Enums,
    known: Facts<Option<Seq<char>>>,
    e: Expr,
    scope: Scope,
)
    requires
        says(scope, known),
    ensures
        enum_of_expr(info, e, scope) == value_enum(info, known, e),
{
    match e.kind {
        ExprKind::Name(n) => {
            assert(lookup(scope, n@) == fact(known, n@));
        },
        ExprKind::Call { callee, .. } => {
            if let ExprKind::Member { base, name, safe } = callee.kind {
                if let ExprKind::Name(n) = base.kind {
                    assert(lookup(scope, n@) == fact(known, n@));
                    if let Some(vs) = lookup(info.enums, n@) {
                        arity_is_some(vs, name@, 0);
                    }
                }
            }
        },
        _ => {},
    }
}

proof fn unknown_lookup(scope: Scope, names: Seq<Seq<char>>, i: nat, n: Seq<char>)
    ensures
        lookup(unknown_from(scope, names, i), n) == (if exists|j: int|
            i <= j < names.len() && names[j] == n {
            Some(None)
        } else {
            lookup(scope, n)
        }),
    decreases names.len() - i,
{
    if i < names.len() {
        law_lookup_after_bind(scope, names[i as int], None, n);
        unknown_lookup(bind(scope, names[i as int], None), names, i + 1, n);
    }
}

proof fn says_unknown(scope: Scope, known: Facts<Option<Seq<char>>>, names: Seq<Seq<char>>)
    requires
        says(scope, known),
    ensures
        says(unknown_from(scope, names, 0), forgetting(known, names, None)),
{
    let after = unknown_from(scope, names, 0);
    assert forall|n: Seq<char>| #[trigger] lookup(after, n) == (if names.contains(n) {
        Some(None)
    } else {
        lookup(scope, n)
    }) by {
        unknown_lookup(scope, names, 0, n);
        if names.contains(n) {
            let j = choose|j: int| 0 <= j < names.len() && names[j] == n;
            assert(0 <= j < names.len() && names[j] == n);
        }
    }
    lemma_says_forgetting(scope, known, names, None, after);
}

proof fn says_params(
    info: Enums,
    params: Seq<Param>,
    i: nat,
    scope: Scope,
    known: Facts<Option<Seq<char>>>,
)
    requires
        says(scope, known),
    ensures
        says(params_known(info, params, i, scope), of_params(enum_rules(info), params, i, known)),
    decreases params.len() - i,
{
    if i < params.len() {
        match params[i as int] {
            Param::SelfRecv => {
                says_params(info, params, i + 1, scope, known);
            },
            Param::Named { name, ty, .. } => {
                let v = type_enum(info, ty);
                lemma_says_bind(scope, known, name@, v);
                says_params(info, params, i + 1, bind(scope, name@, v), known.insert(name@, v));
            },
        }
    }
}

proof fn says_after(
    info: Enums,
    s: Stmt,
    scope: Scope,
    diags: Seq<DiagnosticView>,
    known: Facts<Option<Seq<char>>>,
)
    requires
        says(scope, known),
    ensures
        says(stmt_checked(info, s, scope, diags).0, enums_after(info, known, s)),
{
    if let StmtKind::Binding(b) = s.kind {
        match b.binder {
            Binder::Name(n) => {
                same_enum(info, known, b.value, scope);
                lemma_says_bind(scope, known, n@, enum_of_binding(info, b, scope));
            },
            Binder::Tuple(names) => {
                says_unknown(scope, known, texts(names@));
            },
        }
    }
}

// ---------------------------------------------------------------------------
// From the place to the report
// ---------------------------------------------------------------------------

/// Whether a spot is reported wherever it is met: whatever the scope, as long as it
/// says what is known there.
spec fn told(info: Enums, t: Spot<Option<Seq<char>>>, d: DiagnosticView) -> bool {
    t.expr.kind matches ExprKind::Match(m) && forall|scope: Scope, diags: Seq<DiagnosticView>|
        says(scope, t.known) ==> (#[trigger] match_checked(
            info,
            m,
            t.expr.span,
            scope,
            diags,
        )).contains(d)
}

pub(crate) proof fn still_there(a: Seq<DiagnosticView>, b: Seq<DiagnosticView>, d: DiagnosticView)
    requires
        adds(a, b),
        a.contains(d),
    ensures
        b.contains(d),
{
    let i = choose|i: int| 0 <= i < a.len() && a[i] == d;
    assert(b[i] == d);
}

/// Of a call of a member, the base and then the arguments are checked.
proof fn callee_is_base(info: Enums, e: Expr, scope: Scope, diags: Seq<DiagnosticView>)
    requires
        e.kind is Call,
        e.kind->Call_callee.kind is Member,
    ensures
        expr_checked(info, e, scope, diags) == children_checked(
            info,
            e,
            1,
            scope,
            expr_checked(info, *e.kind->Call_callee.kind->Member_base, scope, diags),
        ),
{
    let callee = *e.kind->Call_callee;
    let base = *callee.kind->Member_base;
    assert(children(e)[0] == callee);
    assert(children(callee) =~= seq![base]);
    assert(unknown_from(scope, names_around(e, 0), 0) == scope);
    assert(unknown_from(scope, names_around(callee, 0), 0) == scope);
    let got = expr_checked(info, base, scope, diags);
    assert(expr_checked(info, callee, scope, diags) == children_checked(
        info,
        callee,
        0,
        scope,
        diags,
    ));
    assert(children_checked(info, callee, 0, scope, diags) == children_checked(
        info,
        callee,
        1,
        scope,
        got,
    ));
    assert(children_checked(info, callee, 1, scope, got) == got);
    assert(children(e).len() > 0);
    assert(expr_checked(info, e, scope, diags) == children_checked(info, e, 0, scope, diags));
    assert(children_checked(info, e, 0, scope, diags) == children_checked(info, e, 1, scope, got));
}

proof fn found_expr(
    info: Enums,
    t: Spot<Option<Seq<char>>>,
    d: DiagnosticView,
    e: Expr,
    scope: Scope,
    known: Facts<Option<Seq<char>>>,
    diags: Seq<DiagnosticView>,
)
    requires
        told(info, t, d),
        says(scope, known),
        in_expr(enum_rules(info), t, e, known),
    ensures
        expr_checked(info, e, scope, diags).contains(d),
    decreases e, 2nat, 0nat,
{
    let r = enum_rules(info);
    match e.kind {
        ExprKind::Match(m) => {
            let first = match_checked(info, m, e.span, scope, diags);
            let next = expr_checked(info, *m.scrutinee, scope, first);
            let last = match_arms_checked(info, m.arms@, 0, scope, next);
            adds_expr_checked(info, *m.scrutinee, scope, first);
            adds_match_arms_checked(info, m.arms@, 0, scope, next);
            if t == (Spot { expr: e, known }) {
                still_there(first, next, d);
                still_there(next, last, d);
            } else if in_expr(r, t, *m.scrutinee, known) {
                found_expr(info, t, d, *m.scrutinee, scope, known, first);
                still_there(next, last, d);
            } else {
                found_arms(info, t, d, m.arms@, 0, scope, known, next);
            }
        },
        ExprKind::Call { callee, .. } => {
            assert(t.expr != e);
            if let ExprKind::Member { base, .. } = callee.kind {
                callee_is_base(info, e, scope, diags);
                let first = expr_checked(info, *base, scope, diags);
                if in_expr(r, t, *base, known) {
                    found_expr(info, t, d, *base, scope, known, diags);
                    adds_children_checked(info, e, 1, scope, first);
                    still_there(first, expr_checked(info, e, scope, diags), d);
                } else {
                    found_children(info, t, d, e, 1, scope, known, first);
                }
            } else {
                found_children(info, t, d, e, 0, scope, known, diags);
            }
        },
        _ => {
            assert(t.expr != e);
            found_children(info, t, d, e, 0, scope, known, diags);
        },
    }
}

proof fn found_children(
    info: Enums,
    t: Spot<Option<Seq<char>>>,
    d: DiagnosticView,
    e: Expr,
    i: nat,
    scope: Scope,
    known: Facts<Option<Seq<char>>>,
    diags: Seq<DiagnosticView>,
)
    requires
        told(info, t, d),
        says(scope, known),
        in_children(enum_rules(info), t, e, i, known),
    ensures
        children_checked(info, e, i, scope, diags).contains(d),
    decreases e, 1nat, children(e).len() - i,
{
    let r = enum_rules(info);
    lemma_child_smaller(e, i as int);
    let names = names_around(e, i);
    let inner = unknown_from(scope, names, 0);
    let next = expr_checked(info, children(e)[i as int], inner, diags);
    if in_expr(r, t, children(e)[i as int], forgetting(known, names, None)) {
        says_unknown(scope, known, names);
        found_expr(
            info,
            t,
            d,
            children(e)[i as int],
            inner,
            forgetting(known, names, None),
            diags,
        );
        adds_children_checked(info, e, i + 1, scope, next);
        still_there(next, children_checked(info, e, i, scope, diags), d);
    } else {
        found_children(info, t, d, e, i + 1, scope, known, next);
    }
}

proof fn found_arms(
    info: Enums,
    t: Spot<Option<Seq<char>>>,
    d: DiagnosticView,
    arms: Seq<MatchArm>,
    i: nat,
    scope: Scope,
    known: Facts<Option<Seq<char>>>,
    diags: Seq<DiagnosticView>,
)
    requires
        told(info, t, d),
        says(scope, known),
        in_arms(enum_rules(info), t, arms, i, known),
    ensures
        match_arms_checked(info, arms, i, scope, diags).contains(d),
    decreases arms, 1nat, arms.len() - i,
{
    let r = enum_rules(info);
    let names = names_of_pattern(arms[i as int].pattern);
    let inner = unknown_from(scope, names, 0);
    let body = arms[i as int].body.stmts@;
    let next = stmts_checked(info, body, 0, inner, diags).1;
    if in_stmts(r, t, body, 0, forgetting(known, names, None)) {
        says_unknown(scope, known, names);
        found_stmts(info, t, d, body, 0, inner, forgetting(known, names, None), diags);
        adds_match_arms_checked(info, arms, i + 1, scope, next);
        still_there(next, match_arms_checked(info, arms, i, scope, diags), d);
    } else {
        found_arms(info, t, d, arms, i + 1, scope, known, next);
    }
}

spec fn in_decl(info: Enums, t: Spot<Option<Seq<char>>>, decl: Rc<FnDecl>) -> bool {
    in_fn(enum_rules(info), t, *decl)
}

proof fn found_fn(
    info: Enums,
    t: Spot<Option<Seq<char>>>,
    d: DiagnosticView,
    decl: Rc<FnDecl>,
    diags: Seq<DiagnosticView>,
)
    requires
        told(info, t, d),
        in_decl(info, t, decl),
    ensures
        fn_found(info, decl, diags).contains(d),
    decreases *decl, 0nat, 0nat,
{
    let none: Scope = Seq::empty();
    assert(says(none, Map::empty()));
    says_params(info, decl.params@, 0, none, Map::empty());
    found_stmts(
        info,
        t,
        d,
        decl.body.stmts@,
        0,
        params_known(info, decl.params@, 0, none),
        of_params(enum_rules(info), decl.params@, 0, Map::empty()),
        diags,
    );
}

proof fn found_fns(
    info: Enums,
    t: Spot<Option<Seq<char>>>,
    d: DiagnosticView,
    decls: Seq<Rc<FnDecl>>,
    i: nat,
    diags: Seq<DiagnosticView>,
)
    requires
        told(info, t, d),
        in_fns(enum_rules(info), t, decls, i),
    ensures
        fns_checked(info, decls, i, diags).contains(d),
    decreases decls, 1nat, decls.len() - i,
{
    let decl = decls[i as int];
    let next = fn_found(info, decl, diags);
    if in_decl(info, t, decl) {
        found_fn(info, t, d, decl, diags);
        adds_fns_checked(info, decls, i + 1, next);
        still_there(next, fns_checked(info, decls, i, diags), d);
    } else {
        found_fns(info, t, d, decls, i + 1, next);
    }
}

proof fn found_segs(
    info: Enums,
    t: Spot<Option<Seq<char>>>,
    d: DiagnosticView,
    path: Seq<TargetSeg>,
    i: nat,
    scope: Scope,
    known: Facts<Option<Seq<char>>>,
    diags: Seq<DiagnosticView>,
)
    requires
        told(info, t, d),
        says(scope, known),
        in_segs(enum_rules(info), t, path, i, known),
    ensures
        segs_checked(info, path, i, scope, diags).contains(d),
    decreases path, 1nat, path.len() - i,
{
    let r = enum_rules(info);
    match path[i as int] {
        TargetSeg::Index(e) => {
            let next = expr_checked(info, e, scope, diags);
            if in_expr(r, t, e, known) {
                found_expr(info, t, d, e, scope, known, diags);
                adds_segs_checked(info, path, i + 1, scope, next);
                still_there(next, segs_checked(info, path, i, scope, diags), d);
            } else {
                found_segs(info, t, d, path, i + 1, scope, known, next);
            }
        },
        TargetSeg::Field(_) => {
            found_segs(info, t, d, path, i + 1, scope, known, diags);
        },
    }
}

proof fn found_if_arms(
    info: Enums,
    t: Spot<Option<Seq<char>>>,
    d: DiagnosticView,
    arms: Seq<(Expr, Block)>,
    i: nat,
    scope: Scope,
    known: Facts<Option<Seq<char>>>,
    diags: Seq<DiagnosticView>,
)
    requires
        told(info, t, d),
        says(scope, known),
        in_if_arms(enum_rules(info), t, arms, i, known),
    ensures
        if_arms_checked(info, arms, i, scope, diags).contains(d),
    decreases arms, 1nat, arms.len() - i,
{
    let r = enum_rules(info);
    let first = expr_checked(info, arms[i as int].0, scope, diags);
    let next = stmts_checked(info, arms[i as int].1.stmts@, 0, scope, first).1;
    let last = if_arms_checked(info, arms, i, scope, diags);
    adds_stmts_checked(info, arms[i as int].1.stmts@, 0, scope, first);
    adds_if_arms_checked(info, arms, i + 1, scope, next);
    if in_expr(r, t, arms[i as int].0, known) {
        found_expr(info, t, d, arms[i as int].0, scope, known, diags);
        still_there(first, next, d);
        still_there(next, last, d);
    } else if in_stmts(r, t, arms[i as int].1.stmts@, 0, known) {
        found_stmts(info, t, d, arms[i as int].1.stmts@, 0, scope, known, first);
        still_there(next, last, d);
    } else {
        found_if_arms(info, t, d, arms, i + 1, scope, known, next);
    }
}

proof fn found_stmt(
    info: Enums,
    t: Spot<Option<Seq<char>>>,
    d: DiagnosticView,
    s: Stmt,
    scope: Scope,
    known: Facts<Option<Seq<char>>>,
    diags: Seq<DiagnosticView>,
)
    requires
        told(info, t, d),
        says(scope, known),
        in_stmt(enum_rules(info), t, s, known),
    ensures
        stmt_checked(info, s, scope, diags).1.contains(d),
    decreases s, 0nat, 0nat,
{
    let r = enum_rules(info);
    let last = stmt_checked(info, s, scope, diags).1;
    match s.kind {
        StmtKind::Binding(b) => {
            found_expr(info, t, d, b.value, scope, known, diags);
        },
        StmtKind::Assign(a) => {
            let first = expr_checked(info, a.value, scope, diags);
            if in_expr(r, t, a.value, known) {
                found_expr(info, t, d, a.value, scope, known, diags);
                adds_segs_checked(info, a.target.path@, 0, scope, first);
                still_there(first, last, d);
            } else {
                found_segs(info, t, d, a.target.path@, 0, scope, known, first);
            }
        },
        StmtKind::Return(Some(e)) => {
            found_expr(info, t, d, e, scope, known, diags);
        },
        StmtKind::Expr(e) => {
            found_expr(info, t, d, e, scope, known, diags);
        },
        StmtKind::If(c) => {
            let arms = if_arms_checked(info, c.arms@, 0, scope, diags);
            if in_if_arms(r, t, c.arms@, 0, known) {
                found_if_arms(info, t, d, c.arms@, 0, scope, known, diags);
                if let Some(b) = c.else_body {
                    adds_stmts_checked(info, b.stmts@, 0, scope, arms);
                    still_there(arms, last, d);
                }
            } else if let Some(b) = c.else_body {
                found_stmts(info, t, d, b.stmts@, 0, scope, known, arms);
            }
        },
        StmtKind::While(l) => {
            let first = expr_checked(info, l.cond, scope, diags);
            if in_expr(r, t, l.cond, known) {
                found_expr(info, t, d, l.cond, scope, known, diags);
                adds_stmts_checked(info, l.body.stmts@, 0, scope, first);
                still_there(first, last, d);
            } else {
                found_stmts(info, t, d, l.body.stmts@, 0, scope, known, first);
            }
        },
        StmtKind::For(l) => {
            let first = expr_checked(info, l.iter, scope, diags);
            let names = names_of(l.binder);
            let inner = unknown_from(scope, names, 0);
            if in_expr(r, t, l.iter, known) {
                found_expr(info, t, d, l.iter, scope, known, diags);
                adds_stmts_checked(info, l.body.stmts@, 0, inner, first);
                still_there(first, last, d);
            } else {
                says_unknown(scope, known, names);
                let facts = forgetting(known, names, None);
                found_stmts(info, t, d, l.body.stmts@, 0, inner, facts, first);
            }
        },
        StmtKind::Fn(decl) => {
            found_fn(info, t, d, decl, diags);
        },
        StmtKind::Impl(x) => {
            found_fns(info, t, d, x.methods@, 0, diags);
        },
        StmtKind::Trait(x) => {
            found_fns(info, t, d, x.defaults@, 0, diags);
        },
        _ => {},
    }
}

proof fn found_stmts(
    info: Enums,
    t: Spot<Option<Seq<char>>>,
    d: DiagnosticView,
    stmts: Seq<Stmt>,
    i: nat,
    scope: Scope,
    known: Facts<Option<Seq<char>>>,
    diags: Seq<DiagnosticView>,
)
    requires
        told(info, t, d),
        says(scope, known),
        in_stmts(enum_rules(info), t, stmts, i, known),
    ensures
        stmts_checked(info, stmts, i, scope, diags).1.contains(d),
    decreases stmts, 1nat, stmts.len() - i,
{
    let r = enum_rules(info);
    let s = stmts[i as int];
    let next = stmt_checked(info, s, scope, diags);
    if in_stmt(r, t, s, known) {
        found_stmt(info, t, d, s, scope, known, diags);
        adds_stmts_checked(info, stmts, i + 1, next.0, next.1);
        still_there(next.1, stmts_checked(info, stmts, i, scope, diags).1, d);
    } else {
        says_after(info, s, scope, diags, known);
        found_stmts(info, t, d, stmts, i + 1, next.0, enums_after(info, known, s), next.1);
    }
}

proof fn found_program(stmts: Seq<Stmt>, t: Spot<Option<Seq<char>>>, d: DiagnosticView)
    requires
        in_program(enum_rules(enums_of(stmts)), t, stmts),
        told(enums_of(stmts), t, d),
    ensures
        reported(stmts).contains(d),
{
    let none: Scope = Seq::empty();
    assert(says(none, Map::empty()));
    found_stmts(enums_of(stmts), t, d, stmts, 0, none, Map::empty(), Seq::empty());
    let first = exhaustiveness_of(stmts, Seq::empty());
    adds_stmts_used(stmts, 0, Seq::empty(), first);
    still_there(first, reported(stmts), d);
}

// ---------------------------------------------------------------------------
// What a `match` leaves out
// ---------------------------------------------------------------------------

/// Whether a pattern is for this variant of the enum, or has an alternative that is.
pub open spec fn is_for(pat: Pattern, enum_name: Seq<char>, variant: Seq<char>) -> bool
    decreases pat, 0nat, 0nat,
{
    match pat.kind {
        PatternKind::Variant { enum_name: qual, name, .. } => name@ == variant && (
        qual matches Some(q) ==> q@ == enum_name),
        PatternKind::Or(alts) => one_is_for(alts@, 0, enum_name, variant),
        _ => false,
    }
}

pub open spec fn one_is_for(
    pats: Seq<Pattern>,
    i: nat,
    enum_name: Seq<char>,
    variant: Seq<char>,
) -> bool
    decreases pats, 1nat, pats.len() - i,
{
    i < pats.len() && (is_for(pats[i as int], enum_name, variant) || one_is_for(
        pats,
        i + 1,
        enum_name,
        variant,
    ))
}

/// Whether a pattern fits every value, or has an alternative that does.
pub open spec fn fits_all(pat: Pattern) -> bool
    decreases pat, 0nat, 0nat,
{
    match pat.kind {
        PatternKind::Wildcard => true,
        PatternKind::Binding(_) => true,
        PatternKind::Or(alts) => one_fits_all(alts@, 0),
        _ => false,
    }
}

pub open spec fn one_fits_all(pats: Seq<Pattern>, i: nat) -> bool
    decreases pats, 1nat, pats.len() - i,
{
    i < pats.len() && (fits_all(pats[i as int]) || one_fits_all(pats, i + 1))
}

/// Whether an arm without a guard is for this variant.
pub open spec fn has_arm(arms: Seq<MatchArm>, enum_name: Seq<char>, variant: Seq<char>) -> bool {
    exists|k: int|
        0 <= k < arms.len() && (#[trigger] arms[k]).guard is None && is_for(
            arms[k].pattern,
            enum_name,
            variant,
        )
}

/// Whether an arm without a guard fits every value.
pub open spec fn has_catch_all(arms: Seq<MatchArm>) -> bool {
    exists|k: int|
        0 <= k < arms.len() && (#[trigger] arms[k]).guard is None && fits_all(arms[k].pattern)
}

proof fn pattern_covered(
    pat: Pattern,
    enum_name: Seq<char>,
    variants: Seq<(Seq<char>, nat)>,
    c: Coverage,
    v: Seq<char>,
)
    requires
        arity_from(variants, v, 0) is Some,
    ensures
        ({
            let after = covered(pat, enum_name, variants, c);
            &&& after.names.contains(v) <==> c.names.contains(v) || is_for(pat, enum_name, v)
            &&& after.everything <==> c.everything || fits_all(pat)
        }),
    decreases pat, 0nat, 0nat,
{
    match pat.kind {
        PatternKind::Variant { enum_name: qual, name, subs } => {
            let more = c.names.push(name@);
            assert(more[c.names.len() as int] == name@);
            if c.names.contains(v) {
                let k = choose|k: int| 0 <= k < c.names.len() && c.names[k] == v;
                assert(more[k] == v);
            }
            if more.contains(v) && name@ != v {
                let k = choose|k: int| 0 <= k < more.len() && more[k] == v;
                assert(c.names[k] == v);
            }
        },
        PatternKind::Or(alts) => {
            patterns_covered(alts@, 0, enum_name, variants, c, v);
        },
        _ => {},
    }
}

proof fn patterns_covered(
    pats: Seq<Pattern>,
    i: nat,
    enum_name: Seq<char>,
    variants: Seq<(Seq<char>, nat)>,
    c: Coverage,
    v: Seq<char>,
)
    requires
        arity_from(variants, v, 0) is Some,
    ensures
        ({
            let after = all_covered(pats, i, enum_name, variants, c);
            &&& after.names.contains(v) <==> c.names.contains(v) || one_is_for(
                pats,
                i,
                enum_name,
                v,
            )
            &&& after.everything <==> c.everything || one_fits_all(pats, i)
        }),
    decreases pats, 1nat, pats.len() - i,
{
    if i < pats.len() {
        pattern_covered(pats[i as int], enum_name, variants, c, v);
        let next = covered(pats[i as int], enum_name, variants, c);
        patterns_covered(pats, i + 1, enum_name, variants, next, v);
    }
}

proof fn all_arms_covered(
    arms: Seq<MatchArm>,
    i: nat,
    enum_name: Seq<char>,
    variants: Seq<(Seq<char>, nat)>,
    c: Coverage,
    v: Seq<char>,
)
    requires
        arity_from(variants, v, 0) is Some,
    ensures
        ({
            let after = arms_covered(arms, i, enum_name, variants, c);
            &&& after.names.contains(v) <==> c.names.contains(v) || exists|k: int|
                i <= k < arms.len() && (#[trigger] arms[k]).guard is None && is_for(
                    arms[k].pattern,
                    enum_name,
                    v,
                )
            &&& after.everything <==> c.everything || exists|k: int|
                i <= k < arms.len() && (#[trigger] arms[k]).guard is None && fits_all(
                    arms[k].pattern,
                )
        }),
    decreases arms.len() - i,
{
    if i < arms.len() {
        let arm = arms[i as int];
        pattern_covered(arm.pattern, enum_name, variants, c, v);
        let next = if arm.guard is Some {
            c
        } else {
            covered(arm.pattern, enum_name, variants, c)
        };
        all_arms_covered(arms, i + 1, enum_name, variants, next, v);
    }
}

/// The names of the variants that no arm is for, in the order of the declaration, in
/// quotes.
pub open spec fn left_out(
    variants: Seq<(Seq<char>, nat)>,
    arms: Seq<MatchArm>,
    enum_name: Seq<char>,
) -> Seq<Seq<char>> {
    variants.filter(|v: (Seq<char>, nat)| !has_arm(arms, enum_name, v.0)).map_values(
        |v: (Seq<char>, nat)| "`"@ + v.0 + "`"@,
    )
}

/// The report of a `match` that leaves variants out.
pub open spec fn left_out_report(
    variants: Seq<(Seq<char>, nat)>,
    arms: Seq<MatchArm>,
    enum_name: Seq<char>,
    span: Span,
) -> DiagnosticView {
    check_diag(
        "non-exhaustive match over enum `"@ + enum_name + "`: missing variant(s) "@ + joined(
            left_out(variants, arms, enum_name),
            ", "@,
        ) + " (add the arm(s) or a `_` catch-all)"@,
        span,
    )
}

proof fn missing_is(
    variants: Seq<(Seq<char>, nat)>,
    names: Seq<Seq<char>>,
    i: nat,
    done: Seq<Seq<char>>,
    arms: Seq<MatchArm>,
    enum_name: Seq<char>,
)
    requires
        i <= variants.len(),
        forall|k: int|
            0 <= k < variants.len() ==> (names.contains((#[trigger] variants[k]).0) <==> has_arm(
                arms,
                enum_name,
                variants[k].0,
            )),
        done == left_out(variants.take(i as int), arms, enum_name),
    ensures
        missing_from(variants, names, i, done) == left_out(variants, arms, enum_name),
    decreases variants.len() - i,
{
    if i < variants.len() {
        reveal(Seq::filter);
        let v = variants[i as int];
        let f = |v: (Seq<char>, nat)| !has_arm(arms, enum_name, v.0);
        let g = |v: (Seq<char>, nat)| "`"@ + v.0 + "`"@;
        let now = variants.take(i as int);
        let more = variants.take((i + 1) as int);
        assert(more.drop_last() =~= now);
        assert(more.last() == v);
        let next = if names.contains(v.0) {
            done
        } else {
            done.push("`"@ + v.0 + "`"@)
        };
        if !names.contains(v.0) {
            assert(more.filter(f) == now.filter(f).push(v));
            assert(more.filter(f).map_values(g) =~= now.filter(f).map_values(g).push(g(v)));
        } else {
            assert(more.filter(f) == now.filter(f));
        }
        assert(next == left_out(more, arms, enum_name));
        missing_is(variants, names, i + 1, next, arms, enum_name);
    } else {
        assert(variants.take(i as int) =~= variants);
    }
}

/// What a `match` over an enum adds to the reports in the end: one that leaves
/// variants out without a catch-all is reported, with those variants; any other is
/// not.
pub proof fn law_match_leaves_out(
    arms: Seq<MatchArm>,
    enum_name: Seq<char>,
    variants: Seq<(Seq<char>, nat)>,
    span: Span,
    diags: Seq<DiagnosticView>,
)
    ensures
        ({
            let c = arms_covered(
                arms,
                0,
                enum_name,
                variants,
                Coverage { names: Seq::empty(), everything: false, diags },
            );
            match_over(arms, enum_name, variants, span, diags) == (if has_catch_all(arms) || forall|
                i: int,
            |
                0 <= i < variants.len() ==> has_arm(arms, enum_name, (#[trigger] variants[i]).0) {
                c.diags
            } else {
                c.diags.push(left_out_report(variants, arms, enum_name, span))
            })
        }),
{
    let none = Coverage { names: Seq::empty(), everything: false, diags };
    let c = arms_covered(arms, 0, enum_name, variants, none);
    assert forall|k: int| 0 <= k < variants.len() implies (c.names.contains(
        (#[trigger] variants[k]).0,
    ) <==> has_arm(arms, enum_name, variants[k].0)) by {
        arity_is_some(variants, variants[k].0, 0);
        all_arms_covered(arms, 0, enum_name, variants, none, variants[k].0);
    }
    reveal(Seq::filter);
    let all = left_out(variants, arms, enum_name);
    assert(variants.take(0).len() == 0);
    assert(left_out(variants.take(0), arms, enum_name) =~= Seq::<Seq<char>>::empty());
    missing_is(variants, c.names, 0, Seq::empty(), arms, enum_name);
    let f = |v: (Seq<char>, nat)| !has_arm(arms, enum_name, v.0);
    if forall|i: int|
        0 <= i < variants.len() ==> has_arm(arms, enum_name, (#[trigger] variants[i]).0) {
        variants.lemma_all_neg_filter_empty(f);
        assert(all.len() == 0);
    } else {
        let i = choose|i: int|
            0 <= i < variants.len() && !has_arm(arms, enum_name, (#[trigger] variants[i]).0);
        variants.lemma_filter_contains(f, i);
        assert(variants.filter(f).contains(variants[i]));
        assert(all.len() > 0);
    }
    if variants.len() > 0 {
        arity_is_some(variants, variants[0].0, 0);
        all_arms_covered(arms, 0, enum_name, variants, none, variants[0].0);
    }
}

// ---------------------------------------------------------------------------
// The laws
// ---------------------------------------------------------------------------

/// Every `match` of a program is checked, wherever it stands: in a binding, an
/// assignment, a `return`, a condition, a loop, an expression inside another one, a
/// nested function, a method or a trait's default. If the value that it matches is
/// known to be of an enum, no arm without a guard catches all, and a variant has no
/// arm without a guard, the reports of the program hold the report of that `match`,
/// which names every variant that is left out.
pub proof fn law_every_match_is_checked(
    stmts: Seq<Stmt>,
    t: Spot<Option<Seq<char>>>,
    enum_name: Seq<char>,
    variants: Seq<(Seq<char>, nat)>,
    v: int,
)
    requires
        in_program(enum_rules(enums_of(stmts)), t, stmts),
        t.expr.kind is Match,
        value_enum(enums_of(stmts), t.known, *t.expr.kind->Match_0.scrutinee) == Some(enum_name),
        lookup(enums_of(stmts).enums, enum_name) == Some(variants),
        !has_catch_all(t.expr.kind->Match_0.arms@),
        0 <= v < variants.len(),
        !has_arm(t.expr.kind->Match_0.arms@, enum_name, variants[v].0),
    ensures
        reported(stmts).contains(
            left_out_report(variants, t.expr.kind->Match_0.arms@, enum_name, t.expr.span),
        ),
{
    let info = enums_of(stmts);
    let m = t.expr.kind->Match_0;
    let d = left_out_report(variants, m.arms@, enum_name, t.expr.span);
    assert forall|scope: Scope, diags: Seq<DiagnosticView>| says(scope, t.known) implies (
    #[trigger] match_checked(info, m, t.expr.span, scope, diags)).contains(d) by {
        same_enum(info, t.known, *m.scrutinee, scope);
        law_match_leaves_out(m.arms@, enum_name, variants, t.expr.span, diags);
        let c = arms_covered(
            m.arms@,
            0,
            enum_name,
            variants,
            Coverage { names: Seq::empty(), everything: false, diags },
        );
        assert(c.diags.push(d)[c.diags.len() as int] == d);
    }
    assert(told(info, t, d));
    found_program(stmts, t, d);
}

/// Whether a pattern is, or has among its alternatives, this one.
pub open spec fn offers(pat: Pattern, p: Pattern) -> bool
    decreases pat, 0nat, 0nat,
{
    pat == p || (pat.kind matches PatternKind::Or(alts) && one_offers(alts@, 0, p))
}

pub open spec fn one_offers(pats: Seq<Pattern>, i: nat, p: Pattern) -> bool
    decreases pats, 1nat, pats.len() - i,
{
    i < pats.len() && (offers(pats[i as int], p) || one_offers(pats, i + 1, p))
}

/// Whether this is what is wrong with a variant pattern in a `match` over an enum:
/// it names another enum, or a variant that the enum does not have, or it has not as
/// many parts as the variant has values.
pub open spec fn is_wrong(
    p: Pattern,
    enum_name: Seq<char>,
    variants: Seq<(Seq<char>, nat)>,
    d: DiagnosticView,
) -> bool {
    p.kind matches PatternKind::Variant { enum_name: qual, name, subs } && {
        let other = qual matches Some(q) && q@ != enum_name;
        let none = forall|i: int| 0 <= i < variants.len() ==> (#[trigger] variants[i]).0 != name@;
        ||| other && d == check_diag(
            "pattern matches enum `"@ + qual->0@ + "`, but the value is `"@ + enum_name + "`"@,
            p.span,
        )
        ||| !other && none && d == check_diag(
            "unknown variant `"@ + name@ + "` for enum `"@ + enum_name + "`"@,
            p.span,
        )
        ||| !other && exists|i: int|
            0 <= i < variants.len() && (#[trigger] variants[i]).0 == name@ && (forall|j: int|
                0 <= j < i ==> (#[trigger] variants[j]).0 != name@) && variants[i].1
                != subs@.len() && d == check_diag(
                "variant `"@ + enum_name + "::"@ + name@ + "` expects "@ + decimal(variants[i].1)
                    + " field(s), but the pattern binds "@ + decimal(subs@.len()),
                p.span,
            )
    }
}

proof fn first_arity(vs: Seq<(Seq<char>, nat)>, name: Seq<char>, i: nat, at: int)
    requires
        i <= at < vs.len(),
        vs[at].0 == name,
        forall|j: int| i <= j < at ==> (#[trigger] vs[j]).0 != name,
    ensures
        arity_from(vs, name, i) == Some(vs[at].1),
    decreases at - i,
{
    if i < at {
        assert(vs[i as int].0 != name);
        first_arity(vs, name, i + 1, at);
    }
}

proof fn wrong_told(
    pat: Pattern,
    p: Pattern,
    enum_name: Seq<char>,
    variants: Seq<(Seq<char>, nat)>,
    c: Coverage,
    d: DiagnosticView,
)
    requires
        offers(pat, p),
        is_wrong(p, enum_name, variants, d),
    ensures
        covered(pat, enum_name, variants, c).diags.contains(d),
    decreases pat, 0nat, 0nat,
{
    if pat == p {
        if let PatternKind::Variant { enum_name: qual, name, subs } = p.kind {
            arity_is_some(variants, name@, 0);
            if exists|i: int|
                0 <= i < variants.len() && (#[trigger] variants[i]).0 == name@ && (forall|j: int|
                    0 <= j < i ==> (#[trigger] variants[j]).0 != name@) {
                let i = choose|i: int|
                    0 <= i < variants.len() && (#[trigger] variants[i]).0 == name@ && (forall|
                        j: int,
                    |
                        0 <= j < i ==> (#[trigger] variants[j]).0 != name@);
                first_arity(variants, name@, 0, i);
            }
            let after = covered(pat, enum_name, variants, c).diags;
            assert(after[after.len() - 1] == d);
        }
    } else if let PatternKind::Or(alts) = pat.kind {
        wrongs_told(alts@, 0, p, enum_name, variants, c, d);
    }
}

proof fn wrongs_told(
    pats: Seq<Pattern>,
    i: nat,
    p: Pattern,
    enum_name: Seq<char>,
    variants: Seq<(Seq<char>, nat)>,
    c: Coverage,
    d: DiagnosticView,
)
    requires
        one_offers(pats, i, p),
        is_wrong(p, enum_name, variants, d),
    ensures
        all_covered(pats, i, enum_name, variants, c).diags.contains(d),
    decreases pats, 1nat, pats.len() - i,
{
    let next = covered(pats[i as int], enum_name, variants, c);
    if offers(pats[i as int], p) {
        wrong_told(pats[i as int], p, enum_name, variants, c, d);
        more_all_covered(pats, i + 1, enum_name, variants, next);
        still_there(next.diags, all_covered(pats, i, enum_name, variants, c).diags, d);
    } else {
        wrongs_told(pats, i + 1, p, enum_name, variants, next, d);
    }
}

proof fn wrong_arm_told(
    arms: Seq<MatchArm>,
    i: nat,
    k: int,
    p: Pattern,
    enum_name: Seq<char>,
    variants: Seq<(Seq<char>, nat)>,
    c: Coverage,
    d: DiagnosticView,
)
    requires
        i <= k < arms.len(),
        arms[k].guard is None,
        offers(arms[k].pattern, p),
        is_wrong(p, enum_name, variants, d),
    ensures
        arms_covered(arms, i, enum_name, variants, c).diags.contains(d),
    decreases arms.len() - i,
{
    let next = if arms[i as int].guard is Some {
        c
    } else {
        covered(arms[i as int].pattern, enum_name, variants, c)
    };
    if i == k {
        wrong_told(arms[k].pattern, p, enum_name, variants, c, d);
        more_arms_covered(arms, i + 1, enum_name, variants, next);
        still_there(next.diags, arms_covered(arms, i, enum_name, variants, c).diags, d);
    } else {
        wrong_arm_told(arms, i + 1, k, p, enum_name, variants, next, d);
    }
}

/// In every `match` of a program, wherever it stands, over a value that is known to
/// be of an enum, each variant pattern of an arm without a guard that does not fit
/// the enum is reported.
pub proof fn law_every_wrong_pattern_is_reported(
    stmts: Seq<Stmt>,
    t: Spot<Option<Seq<char>>>,
    enum_name: Seq<char>,
    variants: Seq<(Seq<char>, nat)>,
    k: int,
    p: Pattern,
    d: DiagnosticView,
)
    requires
        in_program(enum_rules(enums_of(stmts)), t, stmts),
        t.expr.kind is Match,
        value_enum(enums_of(stmts), t.known, *t.expr.kind->Match_0.scrutinee) == Some(enum_name),
        lookup(enums_of(stmts).enums, enum_name) == Some(variants),
        0 <= k < t.expr.kind->Match_0.arms@.len(),
        t.expr.kind->Match_0.arms@[k].guard is None,
        offers(t.expr.kind->Match_0.arms@[k].pattern, p),
        is_wrong(p, enum_name, variants, d),
    ensures
        reported(stmts).contains(d),
{
    let info = enums_of(stmts);
    let m = t.expr.kind->Match_0;
    assert forall|scope: Scope, diags: Seq<DiagnosticView>| says(scope, t.known) implies (
    #[trigger] match_checked(info, m, t.expr.span, scope, diags)).contains(d) by {
        same_enum(info, t.known, *m.scrutinee, scope);
        let none = Coverage { names: Seq::empty(), everything: false, diags };
        let c = arms_covered(m.arms@, 0, enum_name, variants, none);
        wrong_arm_told(m.arms@, 0, k, p, enum_name, variants, none, d);
        let all = match_checked(info, m, t.expr.span, scope, diags);
        let i = choose|i: int| 0 <= i < c.diags.len() && c.diags[i] == d;
        assert(all[i] == d);
    }
    assert(told(info, t, d));
    found_program(stmts, t, d);
}

// ---------------------------------------------------------------------------
// From the report to the place
// ---------------------------------------------------------------------------

/// Whether a report is of the `match` at this spot: over a value that is known to be of
/// an enum, it leaves variants out without a catch-all, or a pattern of an arm
/// without a guard does not fit the enum.
pub open spec fn faulty(info: Enums, t: Spot<Option<Seq<char>>>, d: DiagnosticView) -> bool {
    t.expr.kind matches ExprKind::Match(m) && (value_enum(
        info,
        t.known,
        *m.scrutinee,
    ) matches Some(enum_name) && (lookup(info.enums, enum_name) matches Some(variants) && {
        ||| !has_catch_all(m.arms@) && (exists|v: int|
            0 <= v < variants.len() && !has_arm(m.arms@, enum_name, (#[trigger] variants[v]).0))
            && d == left_out_report(variants, m.arms@, enum_name, t.expr.span)
        ||| exists|k: int, p: Pattern|
            #![trigger offers(m.arms@[k].pattern, p)]
            0 <= k < m.arms@.len() && m.arms@[k].guard is None && offers(m.arms@[k].pattern, p)
                && is_wrong(p, enum_name, variants, d)
    }))
}

proof fn wrong_from(
    pat: Pattern,
    enum_name: Seq<char>,
    variants: Seq<(Seq<char>, nat)>,
    c: Coverage,
    d: DiagnosticView,
) -> (p: Pattern)
    requires
        covered(pat, enum_name, variants, c).diags.contains(d),
        !c.diags.contains(d),
    ensures
        offers(pat, p),
        is_wrong(p, enum_name, variants, d),
    decreases pat, 0nat, 0nat,
{
    match pat.kind {
        PatternKind::Variant { enum_name: qual, name, subs } => {
            let after = covered(pat, enum_name, variants, c).diags;
            let k = choose|k: int| 0 <= k < after.len() && after[k] == d;
            if k < c.diags.len() {
                assert(c.diags[k] == d);
            }
            arity_is_some(variants, name@, 0);
            if arity_from(variants, name@, 0) is Some {
                let i = first_place(variants, name@, 0);
                first_arity(variants, name@, 0, i);
                assert(variants[i].0 == name@);
            }
            pat
        },
        PatternKind::Or(alts) => wrong_from_all(alts@, 0, enum_name, variants, c, d),
        _ => pat,
    }
}

proof fn first_place(vs: Seq<(Seq<char>, nat)>, name: Seq<char>, i: nat) -> (at: int)
    requires
        arity_from(vs, name, i) is Some,
    ensures
        i <= at < vs.len(),
        vs[at].0 == name,
        forall|j: int| i <= j < at ==> (#[trigger] vs[j]).0 != name,
    decreases vs.len() - i,
{
    if vs[i as int].0 == name {
        i as int
    } else {
        first_place(vs, name, i + 1)
    }
}

proof fn wrong_from_all(
    pats: Seq<Pattern>,
    i: nat,
    enum_name: Seq<char>,
    variants: Seq<(Seq<char>, nat)>,
    c: Coverage,
    d: DiagnosticView,
) -> (p: Pattern)
    requires
        all_covered(pats, i, enum_name, variants, c).diags.contains(d),
        !c.diags.contains(d),
    ensures
        one_offers(pats, i, p),
        is_wrong(p, enum_name, variants, d),
    decreases pats, 1nat, pats.len() - i,
{
    if i < pats.len() {
        let next = covered(pats[i as int], enum_name, variants, c);
        if next.diags.contains(d) {
            wrong_from(pats[i as int], enum_name, variants, c, d)
        } else {
            wrong_from_all(pats, i + 1, enum_name, variants, next, d)
        }
    } else {
        arbitrary()
    }
}

proof fn wrong_from_arms(
    arms: Seq<MatchArm>,
    i: nat,
    enum_name: Seq<char>,
    variants: Seq<(Seq<char>, nat)>,
    c: Coverage,
    d: DiagnosticView,
) -> (r: (int, Pattern))
    requires
        arms_covered(arms, i, enum_name, variants, c).diags.contains(d),
        !c.diags.contains(d),
    ensures
        i <= r.0 < arms.len(),
        arms[r.0].guard is None,
        offers(arms[r.0].pattern, r.1),
        is_wrong(r.1, enum_name, variants, d),
    decreases arms.len() - i,
{
    if i < arms.len() {
        let next = if arms[i as int].guard is Some {
            c
        } else {
            covered(arms[i as int].pattern, enum_name, variants, c)
        };
        if next.diags.contains(d) {
            (i as int, wrong_from(arms[i as int].pattern, enum_name, variants, c, d))
        } else {
            wrong_from_arms(arms, i + 1, enum_name, variants, next, d)
        }
    } else {
        arbitrary()
    }
}

proof fn from_match(
    info: Enums,
    t: Spot<Option<Seq<char>>>,
    scope: Scope,
    diags: Seq<DiagnosticView>,
    d: DiagnosticView,
)
    requires
        says(scope, t.known),
        t.expr.kind is Match,
        match_checked(info, t.expr.kind->Match_0, t.expr.span, scope, diags).contains(d),
        !diags.contains(d),
    ensures
        faulty(info, t, d),
{
    let m = t.expr.kind->Match_0;
    same_enum(info, t.known, *m.scrutinee, scope);
    let enum_name = enum_of_expr(info, *m.scrutinee, scope)->0;
    let variants = lookup(info.enums, enum_name)->0;
    let none = Coverage { names: Seq::empty(), everything: false, diags };
    let c = arms_covered(m.arms@, 0, enum_name, variants, none);
    law_match_leaves_out(m.arms@, enum_name, variants, t.expr.span, diags);
    if c.diags.contains(d) {
        let (k, p) = wrong_from_arms(m.arms@, 0, enum_name, variants, none, d);
        assert(offers(m.arms@[k].pattern, p));
    } else {
        let all = match_checked(info, m, t.expr.span, scope, diags);
        let k = choose|k: int| 0 <= k < all.len() && all[k] == d;
        if k < c.diags.len() {
            assert(c.diags[k] == d);
        }
    }
}

proof fn came_expr(
    info: Enums,
    e: Expr,
    scope: Scope,
    known: Facts<Option<Seq<char>>>,
    diags: Seq<DiagnosticView>,
    d: DiagnosticView,
) -> (t: Spot<Option<Seq<char>>>)
    requires
        says(scope, known),
        expr_checked(info, e, scope, diags).contains(d),
        !diags.contains(d),
    ensures
        in_expr(enum_rules(info), t, e, known),
        faulty(info, t, d),
    decreases e, 2nat, 0nat,
{
    match e.kind {
        ExprKind::Match(m) => {
            let first = match_checked(info, m, e.span, scope, diags);
            let next = expr_checked(info, *m.scrutinee, scope, first);
            if first.contains(d) {
                let t = Spot { expr: e, known };
                from_match(info, t, scope, diags, d);
                t
            } else if next.contains(d) {
                came_expr(info, *m.scrutinee, scope, known, first, d)
            } else {
                came_arms(info, m.arms@, 0, scope, known, next, d)
            }
        },
        ExprKind::Call { callee, .. } => {
            if let ExprKind::Member { base, .. } = callee.kind {
                callee_is_base(info, e, scope, diags);
                let first = expr_checked(info, *base, scope, diags);
                if first.contains(d) {
                    came_expr(info, *base, scope, known, diags, d)
                } else {
                    came_children(info, e, 1, scope, known, first, d)
                }
            } else {
                came_children(info, e, 0, scope, known, diags, d)
            }
        },
        _ => came_children(info, e, 0, scope, known, diags, d),
    }
}

proof fn came_children(
    info: Enums,
    e: Expr,
    i: nat,
    scope: Scope,
    known: Facts<Option<Seq<char>>>,
    diags: Seq<DiagnosticView>,
    d: DiagnosticView,
) -> (t: Spot<Option<Seq<char>>>)
    requires
        says(scope, known),
        children_checked(info, e, i, scope, diags).contains(d),
        !diags.contains(d),
    ensures
        in_children(enum_rules(info), t, e, i, known),
        faulty(info, t, d),
    decreases e, 1nat, children(e).len() - i,
{
    if i < children(e).len() {
        lemma_child_smaller(e, i as int);
        let names = names_around(e, i);
        let inner = unknown_from(scope, names, 0);
        let next = expr_checked(info, children(e)[i as int], inner, diags);
        if next.contains(d) {
            says_unknown(scope, known, names);
            let facts = forgetting(known, names, None);
            came_expr(info, children(e)[i as int], inner, facts, diags, d)
        } else {
            came_children(info, e, i + 1, scope, known, next, d)
        }
    } else {
        arbitrary()
    }
}

proof fn came_arms(
    info: Enums,
    arms: Seq<MatchArm>,
    i: nat,
    scope: Scope,
    known: Facts<Option<Seq<char>>>,
    diags: Seq<DiagnosticView>,
    d: DiagnosticView,
) -> (t: Spot<Option<Seq<char>>>)
    requires
        says(scope, known),
        match_arms_checked(info, arms, i, scope, diags).contains(d),
        !diags.contains(d),
    ensures
        in_arms(enum_rules(info), t, arms, i, known),
        faulty(info, t, d),
    decreases arms, 1nat, arms.len() - i,
{
    if i < arms.len() {
        let names = names_of_pattern(arms[i as int].pattern);
        let inner = unknown_from(scope, names, 0);
        let body = arms[i as int].body.stmts@;
        let next = stmts_checked(info, body, 0, inner, diags).1;
        if next.contains(d) {
            says_unknown(scope, known, names);
            let facts = forgetting(known, names, None);
            came_stmts(info, body, 0, inner, facts, diags, d)
        } else {
            came_arms(info, arms, i + 1, scope, known, next, d)
        }
    } else {
        arbitrary()
    }
}

proof fn came_fn(
    info: Enums,
    decl: Rc<FnDecl>,
    diags: Seq<DiagnosticView>,
    d: DiagnosticView,
) -> (t: Spot<Option<Seq<char>>>)
    requires
        fn_found(info, decl, diags).contains(d),
        !diags.contains(d),
    ensures
        in_decl(info, t, decl),
        faulty(info, t, d),
    decreases *decl, 0nat, 0nat,
{
    let none: Scope = Seq::empty();
    assert(says(none, Map::empty()));
    says_params(info, decl.params@, 0, none, Map::empty());
    came_stmts(
        info,
        decl.body.stmts@,
        0,
        params_known(info, decl.params@, 0, none),
        of_params(enum_rules(info), decl.params@, 0, Map::empty()),
        diags,
        d,
    )
}

proof fn came_fns(
    info: Enums,
    decls: Seq<Rc<FnDecl>>,
    i: nat,
    diags: Seq<DiagnosticView>,
    d: DiagnosticView,
) -> (t: Spot<Option<Seq<char>>>)
    requires
        fns_checked(info, decls, i, diags).contains(d),
        !diags.contains(d),
    ensures
        in_fns(enum_rules(info), t, decls, i),
        faulty(info, t, d),
    decreases decls, 1nat, decls.len() - i,
{
    if i < decls.len() {
        let decl = decls[i as int];
        let next = fn_found(info, decl, diags);
        if next.contains(d) {
            came_fn(info, decl, diags, d)
        } else {
            came_fns(info, decls, i + 1, next, d)
        }
    } else {
        arbitrary()
    }
}

proof fn came_segs(
    info: Enums,
    path: Seq<TargetSeg>,
    i: nat,
    scope: Scope,
    known: Facts<Option<Seq<char>>>,
    diags: Seq<DiagnosticView>,
    d: DiagnosticView,
) -> (t: Spot<Option<Seq<char>>>)
    requires
        says(scope, known),
        segs_checked(info, path, i, scope, diags).contains(d),
        !diags.contains(d),
    ensures
        in_segs(enum_rules(info), t, path, i, known),
        faulty(info, t, d),
    decreases path, 1nat, path.len() - i,
{
    if i < path.len() {
        match path[i as int] {
            TargetSeg::Index(e) => {
                let next = expr_checked(info, e, scope, diags);
                if next.contains(d) {
                    came_expr(info, e, scope, known, diags, d)
                } else {
                    came_segs(info, path, i + 1, scope, known, next, d)
                }
            },
            TargetSeg::Field(_) => came_segs(info, path, i + 1, scope, known, diags, d),
        }
    } else {
        arbitrary()
    }
}

proof fn came_if_arms(
    info: Enums,
    arms: Seq<(Expr, Block)>,
    i: nat,
    scope: Scope,
    known: Facts<Option<Seq<char>>>,
    diags: Seq<DiagnosticView>,
    d: DiagnosticView,
) -> (t: Spot<Option<Seq<char>>>)
    requires
        says(scope, known),
        if_arms_checked(info, arms, i, scope, diags).contains(d),
        !diags.contains(d),
    ensures
        in_if_arms(enum_rules(info), t, arms, i, known),
        faulty(info, t, d),
    decreases arms, 1nat, arms.len() - i,
{
    if i < arms.len() {
        let body = arms[i as int].1.stmts@;
        let first = expr_checked(info, arms[i as int].0, scope, diags);
        let next = stmts_checked(info, body, 0, scope, first).1;
        if first.contains(d) {
            came_expr(info, arms[i as int].0, scope, known, diags, d)
        } else if next.contains(d) {
            came_stmts(info, body, 0, scope, known, first, d)
        } else {
            came_if_arms(info, arms, i + 1, scope, known, next, d)
        }
    } else {
        arbitrary()
    }
}

proof fn came_stmt(
    info: Enums,
    s: Stmt,
    scope: Scope,
    known: Facts<Option<Seq<char>>>,
    diags: Seq<DiagnosticView>,
    d: DiagnosticView,
) -> (t: Spot<Option<Seq<char>>>)
    requires
        says(scope, known),
        stmt_checked(info, s, scope, diags).1.contains(d),
        !diags.contains(d),
    ensures
        in_stmt(enum_rules(info), t, s, known),
        faulty(info, t, d),
    decreases s, 0nat, 0nat,
{
    match s.kind {
        StmtKind::Binding(b) => came_expr(info, b.value, scope, known, diags, d),
        StmtKind::Assign(a) => {
            let first = expr_checked(info, a.value, scope, diags);
            if first.contains(d) {
                came_expr(info, a.value, scope, known, diags, d)
            } else {
                came_segs(info, a.target.path@, 0, scope, known, first, d)
            }
        },
        StmtKind::Return(Some(e)) => came_expr(info, e, scope, known, diags, d),
        StmtKind::Expr(e) => came_expr(info, e, scope, known, diags, d),
        StmtKind::If(c) => {
            let arms = if_arms_checked(info, c.arms@, 0, scope, diags);
            if arms.contains(d) {
                came_if_arms(info, c.arms@, 0, scope, known, diags, d)
            } else {
                match c.else_body {
                    Some(b) => came_stmts(info, b.stmts@, 0, scope, known, arms, d),
                    None => arbitrary(),
                }
            }
        },
        StmtKind::While(l) => {
            let first = expr_checked(info, l.cond, scope, diags);
            if first.contains(d) {
                came_expr(info, l.cond, scope, known, diags, d)
            } else {
                came_stmts(info, l.body.stmts@, 0, scope, known, first, d)
            }
        },
        StmtKind::For(l) => {
            let first = expr_checked(info, l.iter, scope, diags);
            let names = names_of(l.binder);
            if first.contains(d) {
                came_expr(info, l.iter, scope, known, diags, d)
            } else {
                says_unknown(scope, known, names);
                let facts = forgetting(known, names, None);
                let inner = unknown_from(scope, names, 0);
                came_stmts(info, l.body.stmts@, 0, inner, facts, first, d)
            }
        },
        StmtKind::Fn(decl) => came_fn(info, decl, diags, d),
        StmtKind::Impl(x) => came_fns(info, x.methods@, 0, diags, d),
        StmtKind::Trait(x) => came_fns(info, x.defaults@, 0, diags, d),
        _ => arbitrary(),
    }
}

proof fn came_stmts(
    info: Enums,
    stmts: Seq<Stmt>,
    i: nat,
    scope: Scope,
    known: Facts<Option<Seq<char>>>,
    diags: Seq<DiagnosticView>,
    d: DiagnosticView,
) -> (t: Spot<Option<Seq<char>>>)
    requires
        says(scope, known),
        stmts_checked(info, stmts, i, scope, diags).1.contains(d),
        !diags.contains(d),
    ensures
        in_stmts(enum_rules(info), t, stmts, i, known),
        faulty(info, t, d),
    decreases stmts, 1nat, stmts.len() - i,
{
    if i < stmts.len() {
        let s = stmts[i as int];
        let next = stmt_checked(info, s, scope, diags);
        if next.1.contains(d) {
            came_stmt(info, s, scope, known, diags, d)
        } else {
            says_after(info, s, scope, diags, known);
            came_stmts(info, stmts, i + 1, next.0, enums_after(info, known, s), next.1, d)
        }
    } else {
        arbitrary()
    }
}

/// Nothing else is reported of matches: each report that this check adds is of a
/// `match` somewhere in the program over a value that is known to be of an enum,
/// which leaves variants out without a catch-all or has a pattern that does not fit.
pub proof fn law_match_reports_are_of_matches(
    stmts: Seq<Stmt>,
    before: Seq<DiagnosticView>,
    d: DiagnosticView,
) -> (t: Spot<Option<Seq<char>>>)
    requires
        exhaustiveness_of(stmts, before).contains(d),
        !before.contains(d),
    ensures
        in_program(enum_rules(enums_of(stmts)), t, stmts),
        faulty(enums_of(stmts), t, d),
{
    let none: Scope = Seq::empty();
    assert(says(none, Map::empty()));
    came_stmts(enums_of(stmts), stmts, 0, none, Map::empty(), before, d)
}

} // verus!
