//! Match exhaustiveness.

use super::{
    binder_names, child_names, children, names_around, names_of_pattern, pattern_names, enums_of, lemma_child_smaller, names_of, walk_child_exprs, EnumInfo,
    EnumName, Enums,
};
use crate::ast::{
    Binder, Binding, Block, Expr, ExprKind, FnDecl, MatchArm, MatchExpr, Param, Pattern,
    PatternKind, Program, Stmt, StmtKind, TargetSeg,
};
use crate::error::{
    check_diag, diagnostics_view, lemma_diagnostics_push, Diagnostic, DiagnosticView,
};
use crate::name_map::{bind, lookup, NameMap};
use crate::text::{
    cat2, cat3, cat5, cat7, count_text, decimal, join, joined, lemma_texts_empty, lemma_texts_push,
    same_text, texts,
};
use crate::token::Span;
use std::rc::Rc;
use vstd::prelude::*;
use vstd::string::*;

verus! {

broadcast use {lemma_diagnostics_push, lemma_texts_push, lemma_texts_empty};

/// What is known of names: the enum that a name's value is of, if that is known.
pub type Scope = Seq<(Seq<char>, Option<Seq<char>>)>;

/// What a pattern may cover of an enum's variants.
pub struct Coverage {
    pub names: Seq<Seq<char>>,
    /// A pattern that fits every value.
    pub everything: bool,
    pub diags: Seq<DiagnosticView>,
}

/// The size of the payload of a variant, from place `i` on.
pub open spec fn arity_from(variants: Seq<(Seq<char>, nat)>, name: Seq<char>, i: nat) -> Option<nat>
    decreases variants.len() - i,
{
    if i >= variants.len() {
        None
    } else if variants[i as int].0 == name {
        Some(variants[i as int].1)
    } else {
        arity_from(variants, name, i + 1)
    }
}

/// What a pattern covers. A variant pattern covers its variant whatever its
/// sub-patterns are; an or-pattern covers what its alternatives do.
pub open spec fn covered(
    pat: Pattern,
    enum_name: Seq<char>,
    variants: Seq<(Seq<char>, nat)>,
    c: Coverage,
) -> Coverage
    decreases pat, 0nat, 0nat,
{
    match pat.kind {
        PatternKind::Wildcard => Coverage { everything: true, ..c },
        PatternKind::Binding(_) => Coverage { everything: true, ..c },
        PatternKind::Variant { enum_name: qual, name, subs } => variant_covered(
            match qual {
                Some(q) => Some(q@),
                None => None,
            },
            name@,
            subs@.len(),
            pat.span,
            enum_name,
            variants,
            c,
        ),
        PatternKind::Or(alts) => all_covered(alts@, 0, enum_name, variants, c),
        _ => c,
    }
}

pub open spec fn all_covered(
    pats: Seq<Pattern>,
    i: nat,
    enum_name: Seq<char>,
    variants: Seq<(Seq<char>, nat)>,
    c: Coverage,
) -> Coverage
    decreases pats, 1nat, pats.len() - i,
{
    if i >= pats.len() {
        c
    } else {
        all_covered(
            pats,
            i + 1,
            enum_name,
            variants,
            covered(pats[i as int], enum_name, variants, c),
        )
    }
}

/// What a variant pattern covers, and what is wrong with it.
pub open spec fn variant_covered(
    qual: Option<Seq<char>>,
    name: Seq<char>,
    subs: nat,
    span: Span,
    enum_name: Seq<char>,
    variants: Seq<(Seq<char>, nat)>,
    c: Coverage,
) -> Coverage {
    if qual matches Some(q) && q != enum_name {
        Coverage {
            diags: c.diags.push(
                check_diag(
                    "pattern matches enum `"@ + qual->0 + "`, but the value is `"@ + enum_name
                        + "`"@,
                    span,
                ),
            ),
            ..c
        }
    } else {
        match arity_from(variants, name, 0) {
            Some(arity) => Coverage {
                names: c.names.push(name),
                diags: if arity != subs {
                    c.diags.push(
                        check_diag(
                            "variant `"@ + enum_name + "::"@ + name + "` expects "@ + decimal(
                                arity,
                            ) + " field(s), but the pattern binds "@ + decimal(subs),
                            span,
                        ),
                    )
                } else {
                    c.diags
                },
                ..c
            },
            None => Coverage {
                diags: c.diags.push(
                    check_diag(
                        "unknown variant `"@ + name + "` for enum `"@ + enum_name + "`"@,
                        span,
                    ),
                ),
                ..c
            },
        }
    }
}

/// What the arms from place `i` on cover. An arm with a guard covers nothing.
pub open spec fn arms_covered(
    arms: Seq<MatchArm>,
    i: nat,
    enum_name: Seq<char>,
    variants: Seq<(Seq<char>, nat)>,
    c: Coverage,
) -> Coverage
    decreases arms.len() - i,
{
    if i >= arms.len() {
        c
    } else {
        arms_covered(
            arms,
            i + 1,
            enum_name,
            variants,
            if arms[i as int].guard is Some {
                c
            } else {
                covered(arms[i as int].pattern, enum_name, variants, c)
            },
        )
    }
}

/// The variants from place `i` on that are not covered, in quotes, behind `done`.
pub open spec fn missing_from(
    variants: Seq<(Seq<char>, nat)>,
    names: Seq<Seq<char>>,
    i: nat,
    done: Seq<Seq<char>>,
) -> Seq<Seq<char>>
    decreases variants.len() - i,
{
    if i >= variants.len() {
        done
    } else {
        missing_from(
            variants,
            names,
            i + 1,
            if names.contains(variants[i as int].0) {
                done
            } else {
                done.push("`"@ + variants[i as int].0 + "`"@)
            },
        )
    }
}

/// What is wrong with a `match` over a value of this enum.
pub open spec fn match_over(
    arms: Seq<MatchArm>,
    enum_name: Seq<char>,
    variants: Seq<(Seq<char>, nat)>,
    span: Span,
    diags: Seq<DiagnosticView>,
) -> Seq<DiagnosticView> {
    let c = arms_covered(
        arms,
        0,
        enum_name,
        variants,
        Coverage { names: Seq::empty(), everything: false, diags },
    );
    let missing = missing_from(variants, c.names, 0, Seq::empty());
    if c.everything || missing.len() == 0 {
        c.diags
    } else {
        c.diags.push(
            check_diag(
                "non-exhaustive match over enum `"@ + enum_name + "`: missing variant(s) "@
                    + joined(missing, ", "@) + " (add the arm(s) or a `_` catch-all)"@,
                span,
            ),
        )
    }
}

/// Whether `Enum.Variant` names a variant: an enum that no name in scope hides, and
/// a variant of it.
pub open spec fn is_qualified(info: Enums, base: Expr, variant: Seq<char>, scope: Scope) -> bool {
    match base.kind {
        ExprKind::Name(n) => lookup(scope, n@) is None && (match lookup(info.enums, n@) {
            Some(variants) => arity_from(variants, variant, 0) is Some,
            None => false,
        }),
        _ => false,
    }
}

/// The enum that the value of an expression is of, where that is obvious: a name
/// in scope, a call `Enum.Variant(..)`, or a call of a variant that only one enum
/// has.
pub open spec fn enum_of_expr(info: Enums, e: Expr, scope: Scope) -> Option<Seq<char>> {
    match e.kind {
        ExprKind::Name(n) => match lookup(scope, n@) {
            Some(known) => known,
            None => None,
        },
        ExprKind::Call { callee, .. } => match callee.kind {
            ExprKind::Name(n) => info.owner(n@),
            ExprKind::Member { base, name, safe } => if !safe && is_qualified(
                info,
                *base,
                name@,
                scope,
            ) {
                Some(base.kind->Name_0@)
            } else {
                None
            },
            _ => None,
        },
        _ => None,
    }
}

/// The enum that a binding's value is of: an annotation decides where there is
/// one. A nullable enum is not an enum.
pub open spec fn enum_of_binding(info: Enums, b: Binding, scope: Scope) -> Option<Seq<char>> {
    match b.ty {
        Some(ty) => if ty.nullable {
            None
        } else {
            info.of_type(ty)
        },
        None => enum_of_expr(info, b.value, scope),
    }
}

pub open spec fn match_checked(
    info: Enums,
    m: MatchExpr,
    span: Span,
    scope: Scope,
    diags: Seq<DiagnosticView>,
) -> Seq<DiagnosticView> {
    match enum_of_expr(info, *m.scrutinee, scope) {
        Some(enum_name) => match lookup(info.enums, enum_name) {
            Some(variants) => match_over(m.arms@, enum_name, variants, span, diags),
            None => diags,
        },
        None => diags,
    }
}

/// What is wrong with the matches in an expression.
pub open spec fn expr_checked(
    info: Enums,
    e: Expr,
    scope: Scope,
    diags: Seq<DiagnosticView>,
) -> Seq<DiagnosticView>
    decreases e, 2nat, 0nat,
{
    match e.kind {
        ExprKind::Match(m) => match_arms_checked(
            info,
            m.arms@,
            0,
            scope,
            expr_checked(
                info,
                *m.scrutinee,
                scope,
                match_checked(info, m, e.span, scope, diags),
            ),
        ),
        _ => children_checked(info, e, 0, scope, diags),
    }
}

pub open spec fn children_checked(
    info: Enums,
    e: Expr,
    i: nat,
    scope: Scope,
    diags: Seq<DiagnosticView>,
) -> Seq<DiagnosticView>
    decreases e, 1nat, children(e).len() - i,
{
    if i >= children(e).len() {
        diags
    } else {
        proof {
            lemma_child_smaller(e, i as int);
        }
        children_checked(
            info,
            e,
            i + 1,
            scope,
            expr_checked(
                info,
                children(e)[i as int],
                unknown_from(scope, names_around(e, i), 0),
                diags,
            ),
        )
    }
}

pub open spec fn match_arms_checked(
    info: Enums,
    arms: Seq<MatchArm>,
    i: nat,
    scope: Scope,
    diags: Seq<DiagnosticView>,
) -> Seq<DiagnosticView>
    decreases arms, 1nat, arms.len() - i,
{
    if i >= arms.len() {
        diags
    } else {
        match_arms_checked(
            info,
            arms,
            i + 1,
            scope,
            stmts_checked(
                info,
                arms[i as int].body.stmts@,
                0,
                unknown_from(scope, names_of_pattern(arms[i as int].pattern), 0),
                diags,
            ).1,
        )
    }
}

/// Names of which nothing is known.
pub open spec fn unknown_from(scope: Scope, names: Seq<Seq<char>>, i: nat) -> Scope
    decreases names.len() - i,
{
    if i >= names.len() {
        scope
    } else {
        unknown_from(bind(scope, names[i as int], None), names, i + 1)
    }
}

/// The parameters of a function, from place `i` on.
pub open spec fn params_known(info: Enums, params: Seq<Param>, i: nat, scope: Scope) -> Scope
    decreases params.len() - i,
{
    if i >= params.len() {
        scope
    } else {
        params_known(
            info,
            params,
            i + 1,
            match params[i as int] {
                Param::SelfRecv => scope,
                Param::Named { name, ty, .. } => bind(
                    scope,
                    name@,
                    if ty.nullable {
                        None
                    } else {
                        info.of_type(ty)
                    },
                ),
            },
        )
    }
}

/// What is wrong with the matches in a function, which starts with its
/// parameters alone in scope.
pub open spec fn fn_checked(
    info: Enums,
    decl: FnDecl,
    diags: Seq<DiagnosticView>,
) -> Seq<DiagnosticView>
    decreases decl, 0nat, 0nat,
{
    stmts_checked(
        info,
        decl.body.stmts@,
        0,
        params_known(info, decl.params@, 0, Seq::empty()),
        diags,
    ).1
}

pub open spec fn fns_checked(
    info: Enums,
    decls: Seq<Rc<FnDecl>>,
    i: nat,
    diags: Seq<DiagnosticView>,
) -> Seq<DiagnosticView>
    decreases decls, 1nat, decls.len() - i,
{
    if i >= decls.len() {
        diags
    } else {
        fns_checked(info, decls, i + 1, fn_checked(info, *decls[i as int], diags))
    }
}

pub open spec fn segs_checked(
    info: Enums,
    path: Seq<TargetSeg>,
    i: nat,
    scope: Scope,
    diags: Seq<DiagnosticView>,
) -> Seq<DiagnosticView>
    decreases path, 1nat, path.len() - i,
{
    if i >= path.len() {
        diags
    } else {
        segs_checked(
            info,
            path,
            i + 1,
            scope,
            match path[i as int] {
                TargetSeg::Index(e) => expr_checked(info, e, scope, diags),
                TargetSeg::Field(_) => diags,
            },
        )
    }
}

pub open spec fn if_arms_checked(
    info: Enums,
    arms: Seq<(Expr, Block)>,
    i: nat,
    scope: Scope,
    diags: Seq<DiagnosticView>,
) -> Seq<DiagnosticView>
    decreases arms, 1nat, arms.len() - i,
{
    if i >= arms.len() {
        diags
    } else {
        if_arms_checked(
            info,
            arms,
            i + 1,
            scope,
            stmts_checked(
                info,
                arms[i as int].1.stmts@,
                0,
                scope,
                expr_checked(info, arms[i as int].0, scope, diags),
            ).1,
        )
    }
}

/// What a statement adds to the names in scope and to what is wrong.
pub open spec fn stmt_checked(
    info: Enums,
    s: Stmt,
    scope: Scope,
    diags: Seq<DiagnosticView>,
) -> (Scope, Seq<DiagnosticView>)
    decreases s, 0nat, 0nat,
{
    match s.kind {
        StmtKind::Binding(b) => (
            match b.binder {
                Binder::Name(n) => bind(scope, n@, enum_of_binding(info, b, scope)),
                Binder::Tuple(names) => unknown_from(scope, texts(names@), 0),
            },
            expr_checked(info, b.value, scope, diags),
        ),
        StmtKind::Assign(a) => (
            scope,
            segs_checked(
                info,
                a.target.path@,
                0,
                scope,
                expr_checked(info, a.value, scope, diags),
            ),
        ),
        StmtKind::Return(Some(e)) => (scope, expr_checked(info, e, scope, diags)),
        StmtKind::Expr(e) => (scope, expr_checked(info, e, scope, diags)),
        StmtKind::If(c) => {
            let arms = if_arms_checked(info, c.arms@, 0, scope, diags);
            (
                scope,
                match c.else_body {
                    Some(b) => stmts_checked(info, b.stmts@, 0, scope, arms).1,
                    None => arms,
                },
            )
        },
        StmtKind::While(l) => (
            scope,
            stmts_checked(
                info,
                l.body.stmts@,
                0,
                scope,
                expr_checked(info, l.cond, scope, diags),
            ).1,
        ),
        StmtKind::For(l) => (
            scope,
            stmts_checked(
                info,
                l.body.stmts@,
                0,
                unknown_from(scope, names_of(l.binder), 0),
                expr_checked(info, l.iter, scope, diags),
            ).1,
        ),
        StmtKind::Fn(decl) => (scope, fn_checked(info, *decl, diags)),
        StmtKind::Impl(d) => (scope, fns_checked(info, d.methods@, 0, diags)),
        StmtKind::Trait(t) => (scope, fns_checked(info, t.defaults@, 0, diags)),
        _ => (scope, diags),
    }
}

/// The statements from place `i` on.
pub open spec fn stmts_checked(
    info: Enums,
    stmts: Seq<Stmt>,
    i: nat,
    scope: Scope,
    diags: Seq<DiagnosticView>,
) -> (Scope, Seq<DiagnosticView>)
    decreases stmts, 1nat, stmts.len() - i,
{
    if i >= stmts.len() {
        (scope, diags)
    } else {
        let next = stmt_checked(info, stmts[i as int], scope, diags);
        stmts_checked(info, stmts, i + 1, next.0, next.1)
    }
}

/// What is wrong with the matches in a program.
pub open spec fn exhaustiveness_of(stmts: Seq<Stmt>, diags: Seq<DiagnosticView>) -> Seq<
    DiagnosticView,
> {
    stmts_checked(enums_of(stmts), stmts, 0, Seq::empty(), diags).1
}

/// The exhaustiveness check.
pub struct Exhaustiveness<'a> {
    pub enums: &'a EnumInfo,
    pub diags: Vec<Diagnostic>,
}

/// What a pattern may cover.
struct Cover {
    names: Vec<String>,
    everything: bool,
}

fn copy_scope(scope: &NameMap<EnumName>) -> (r: NameMap<EnumName>)
    ensures
        r@ == scope@,
{
    let mut entries: Vec<(String, EnumName)> = Vec::new();
    let mut i: usize = 0;
    while i < scope.entries.len()
        invariant
            i <= scope.entries.len(),
            entries@.len() == i,
            forall|j: int|
                0 <= j < i ==> (#[trigger] entries@[j]).0@ == scope.entries@[j].0@ && entries@[j].1@
                    == scope.entries@[j].1@,
        decreases scope.entries.len() - i,
    {
        let value = scope.entries[i].1.copy();
        entries.push((scope.entries[i].0.clone(), value));
        i = i + 1;
    }
    let r = NameMap { entries };
    assert(r@ =~= scope@);
    r
}

fn forget_names(scope: &mut NameMap<EnumName>, names: &Vec<String>)
    ensures
        final(scope)@ == unknown_from(old(scope)@, texts(names@), 0),
{
    let mut i: usize = 0;
    while i < names.len()
        invariant
            i <= names.len(),
            unknown_from(scope@, texts(names@), i as nat) == unknown_from(
                old(scope)@,
                texts(names@),
                0,
            ),
        decreases names.len() - i,
    {
        scope.insert(names[i].clone(), EnumName::unknown());
        i = i + 1;
    }
}

impl<'a> Exhaustiveness<'a> {
    pub open spec fn reports(self) -> Seq<DiagnosticView> {
        diagnostics_view(self.diags@)
    }

    pub fn new(enums: &'a EnumInfo) -> (r: Self)
        ensures
            *r.enums == *enums,
            r.reports() == Seq::<DiagnosticView>::empty(),
    {
        let r = Exhaustiveness { enums, diags: Vec::new() };
        assert(r.reports() =~= Seq::<DiagnosticView>::empty());
        r
    }

    /// Check a program.
    pub fn run(&mut self, program: &Program)
        ensures
            final(self).reports() == stmts_checked(
                old(self).enums@,
                program.stmts@,
                0,
                Seq::empty(),
                old(self).reports(),
            ).1,
    {
        let mut scope: NameMap<EnumName> = NameMap::new();
        self.check_stmts(&program.stmts, &mut scope);
    }

    fn check_stmts(&mut self, stmts: &Vec<Stmt>, scope: &mut NameMap<EnumName>)
        ensures
            final(self).enums == old(self).enums,
            (final(scope)@, final(self).reports()) == stmts_checked(
                old(self).enums@,
                stmts@,
                0,
                old(scope)@,
                old(self).reports(),
            ),
        decreases stmts@, 1nat,
    {
        let mut i: usize = 0;
        while i < stmts.len()
            invariant
                i <= stmts.len(),
                self.enums == old(self).enums,
                stmts_checked(self.enums@, stmts@, i as nat, scope@, self.reports())
                    == stmts_checked(
                    self.enums@,
                    stmts@,
                    0,
                    old(scope)@,
                    old(self).reports(),
                ),
            decreases stmts.len() - i,
        {
            self.check_stmt(&stmts[i], scope);
            i = i + 1;
        }
    }

    /// Check statements in a scope of their own.
    fn check_inner(&mut self, stmts: &Vec<Stmt>, scope: &NameMap<EnumName>)
        ensures
            final(self).enums == old(self).enums,
            final(self).reports() == stmts_checked(
                old(self).enums@,
                stmts@,
                0,
                scope@,
                old(self).reports(),
            ).1,
        decreases stmts@, 2nat,
    {
        let mut inner = copy_scope(scope);
        self.check_stmts(stmts, &mut inner);
    }

    fn check_stmt(&mut self, s: &Stmt, scope: &mut NameMap<EnumName>)
        ensures
            final(self).enums == old(self).enums,
            (final(scope)@, final(self).reports()) == stmt_checked(
                old(self).enums@,
                *s,
                old(scope)@,
                old(self).reports(),
            ),
        decreases *s, 0nat,
    {
        match &s.kind {
            StmtKind::Binding(b) => {
                self.check_expr(&b.value, scope);
                match &b.binder {
                    Binder::Name(n) => {
                        let ty = self.resolve_binding_ty(b, scope);
                        scope.insert(n.clone(), ty);
                    },
                    Binder::Tuple(names) => {
                        forget_names(scope, names);
                    },
                }
            },
            StmtKind::Assign(a) => {
                self.check_expr(&a.value, scope);
                self.check_segs(&a.target.path, scope);
            },
            StmtKind::Return(opt) => {
                if let Some(e) = opt {
                    self.check_expr(e, scope);
                }
            },
            StmtKind::Expr(e) => {
                self.check_expr(e, scope);
            },
            StmtKind::If(c) => {
                self.check_arms(&c.arms, scope);
                if let Some(b) = &c.else_body {
                    self.check_inner(&b.stmts, scope);
                }
            },
            StmtKind::While(l) => {
                self.check_expr(&l.cond, scope);
                self.check_inner(&l.body.stmts, scope);
            },
            StmtKind::For(l) => {
                self.check_expr(&l.iter, scope);
                let mut inner = copy_scope(scope);
                forget_names(&mut inner, &binder_names(&l.binder));
                self.check_stmts(&l.body.stmts, &mut inner);
            },
            StmtKind::Fn(decl) => {
                self.check_fn(decl);
            },
            StmtKind::Impl(d) => {
                self.check_fns(&d.methods);
            },
            StmtKind::Trait(t) => {
                self.check_fns(&t.defaults);
            },
            _ => {},
        }
    }

    fn check_segs(&mut self, path: &Vec<TargetSeg>, scope: &NameMap<EnumName>)
        ensures
            final(self).enums == old(self).enums,
            final(self).reports() == segs_checked(
                old(self).enums@,
                path@,
                0,
                scope@,
                old(self).reports(),
            ),
        decreases path@, 1nat,
    {
        let mut i: usize = 0;
        while i < path.len()
            invariant
                i <= path.len(),
                self.enums == old(self).enums,
                segs_checked(self.enums@, path@, i as nat, scope@, self.reports())
                    == segs_checked(self.enums@, path@, 0, scope@, old(self).reports()),
            decreases path.len() - i,
        {
            if let TargetSeg::Index(e) = &path[i] {
                self.check_expr(e, scope);
            }
            i = i + 1;
        }
    }

    fn check_arms(&mut self, arms: &Vec<(Expr, Block)>, scope: &NameMap<EnumName>)
        ensures
            final(self).enums == old(self).enums,
            final(self).reports() == if_arms_checked(
                old(self).enums@,
                arms@,
                0,
                scope@,
                old(self).reports(),
            ),
        decreases arms@, 1nat,
    {
        let mut i: usize = 0;
        while i < arms.len()
            invariant
                i <= arms.len(),
                self.enums == old(self).enums,
                if_arms_checked(self.enums@, arms@, i as nat, scope@, self.reports())
                    == if_arms_checked(self.enums@, arms@, 0, scope@, old(self).reports()),
            decreases arms.len() - i,
        {
            self.check_expr(&arms[i].0, scope);
            self.check_inner(&arms[i].1.stmts, scope);
            i = i + 1;
        }
    }

    fn check_fns(&mut self, decls: &Vec<Rc<FnDecl>>)
        ensures
            final(self).enums == old(self).enums,
            final(self).reports() == fns_checked(
                old(self).enums@,
                decls@,
                0,
                old(self).reports(),
            ),
        decreases decls@, 1nat,
    {
        let mut i: usize = 0;
        while i < decls.len()
            invariant
                i <= decls.len(),
                self.enums == old(self).enums,
                fns_checked(self.enums@, decls@, i as nat, self.reports()) == fns_checked(
                    self.enums@,
                    decls@,
                    0,
                    old(self).reports(),
                ),
            decreases decls.len() - i,
        {
            self.check_fn(&decls[i]);
            i = i + 1;
        }
    }

    fn check_fn(&mut self, decl: &Rc<FnDecl>)
        ensures
            final(self).enums == old(self).enums,
            final(self).reports() == fn_checked(
                old(self).enums@,
                **decl,
                old(self).reports(),
            ),
        decreases **decl, 0nat,
    {
        let mut scope = self.param_scope(&decl.params);
        self.check_stmts(&decl.body.stmts, &mut scope);
    }

    fn param_scope(&self, params: &Vec<Param>) -> (r: NameMap<EnumName>)
        ensures
            r@ == params_known(self.enums@, params@, 0, Seq::empty()),
    {
        let mut scope: NameMap<EnumName> = NameMap::new();
        let mut i: usize = 0;
        while i < params.len()
            invariant
                i <= params.len(),
                params_known(self.enums@, params@, i as nat, scope@) == params_known(
                    self.enums@,
                    params@,
                    0,
                    Seq::empty(),
                ),
            decreases params.len() - i,
        {
            if let Param::Named { name, ty, .. } = &params[i] {
                let known: EnumName = if ty.nullable {
                    EnumName::unknown()
                } else {
                    match self.enums.enum_name_of_type(ty) {
                        Some(e) => EnumName::known(e),
                        None => EnumName::unknown(),
                    }
                };
                scope.insert(name.clone(), known);
            }
            i = i + 1;
        }
        scope
    }

    /// The enum that a binding's value is of.
    fn resolve_binding_ty(&self, b: &Binding, scope: &NameMap<EnumName>) -> (r: EnumName)
        ensures
            r@ == enum_of_binding(self.enums@, *b, scope@),
    {
        match &b.ty {
            Some(ty) => if ty.nullable {
                EnumName::unknown()
            } else {
                match self.enums.enum_name_of_type(ty) {
                    Some(e) => EnumName::known(e),
                    None => EnumName::unknown(),
                }
            },
            None => self.resolve_expr_ty(&b.value, scope),
        }
    }

    /// The enum that the value of an expression is of.
    fn resolve_expr_ty(&self, e: &Expr, scope: &NameMap<EnumName>) -> (r: EnumName)
        ensures
            r@ == enum_of_expr(self.enums@, *e, scope@),
    {
        match &e.kind {
            ExprKind::Name(n) => match scope.get(n.as_str()) {
                Some(known) => known.copy(),
                None => EnumName::unknown(),
            },
            ExprKind::Call { callee, .. } => match &callee.kind {
                ExprKind::Name(n) => match self.enums.variant_to_enum.get(n.as_str()) {
                    Some(owner) => owner.copy(),
                    None => EnumName::unknown(),
                },
                ExprKind::Member { base, name, safe } => if !*safe {
                    self.resolve_qualified(base, name.as_str(), scope)
                } else {
                    EnumName::unknown()
                },
                _ => EnumName::unknown(),
            },
            _ => EnumName::unknown(),
        }
    }

    /// The enum of `Enum.Variant`.
    fn resolve_qualified(&self, base: &Expr, variant: &str, scope: &NameMap<EnumName>) -> (r:
        EnumName)
        ensures
            r@ == (if is_qualified(self.enums@, *base, variant@, scope@) {
                Some(base.kind->Name_0@)
            } else {
                None
            }),
    {
        if let ExprKind::Name(n) = &base.kind {
            if !scope.contains(n.as_str()) {
                if let Some(variants) = self.enums.enums.get(n.as_str()) {
                    if find_arity(&variants.entries, variant).is_some() {
                        return EnumName::known(n.as_str());
                    }
                }
            }
        }
        EnumName::unknown()
    }

    /// Check the matches in an expression.
    fn check_expr(&mut self, e: &Expr, scope: &NameMap<EnumName>)
        ensures
            final(self).enums == old(self).enums,
            final(self).reports() == expr_checked(
                old(self).enums@,
                *e,
                scope@,
                old(self).reports(),
            ),
        decreases *e, 2nat,
    {
        match &e.kind {
            ExprKind::Match(m) => {
                self.check_match(m, e.span, scope);
                self.check_expr(&m.scrutinee, scope);
                self.check_match_arms(&m.arms, scope);
            },
            _ => {
                self.check_children(e, scope);
            },
        }
    }

    fn check_children(&mut self, e: &Expr, scope: &NameMap<EnumName>)
        ensures
            final(self).enums == old(self).enums,
            final(self).reports() == children_checked(
                old(self).enums@,
                *e,
                0,
                scope@,
                old(self).reports(),
            ),
        decreases *e, 1nat,
    {
        let kids = walk_child_exprs(e);
        let mut i: usize = 0;
        while i < kids.len()
            invariant
                i <= kids.len(),
                kids@.len() == children(*e).len(),
                forall|j: int| 0 <= j < kids@.len() ==> *(#[trigger] kids@[j]) == children(*e)[j],
                self.enums == old(self).enums,
                children_checked(self.enums@, *e, i as nat, scope@, self.reports())
                    == children_checked(self.enums@, *e, 0, scope@, old(self).reports()),
            decreases kids.len() - i,
        {
            proof {
                lemma_child_smaller(*e, i as int);
            }
            let names = child_names(e, i);
            if names.len() == 0 {
                self.check_expr(kids[i], scope);
            } else {
                let mut inner = copy_scope(scope);
                forget_names(&mut inner, &names);
                self.check_expr(kids[i], &inner);
            }
            i = i + 1;
        }
    }

    fn check_match_arms(&mut self, arms: &Vec<MatchArm>, scope: &NameMap<EnumName>)
        ensures
            final(self).enums == old(self).enums,
            final(self).reports() == match_arms_checked(
                old(self).enums@,
                arms@,
                0,
                scope@,
                old(self).reports(),
            ),
        decreases arms@, 1nat,
    {
        let mut i: usize = 0;
        while i < arms.len()
            invariant
                i <= arms.len(),
                self.enums == old(self).enums,
                match_arms_checked(self.enums@, arms@, i as nat, scope@, self.reports())
                    == match_arms_checked(self.enums@, arms@, 0, scope@, old(self).reports()),
            decreases arms.len() - i,
        {
            let mut inner = copy_scope(scope);
            forget_names(&mut inner, &pattern_names(&arms[i].pattern));
            self.check_stmts(&arms[i].body.stmts, &mut inner);
            i = i + 1;
        }
    }

    /// Check one `match`.
    fn check_match(&mut self, m: &MatchExpr, span: Span, scope: &NameMap<EnumName>)
        ensures
            final(self).enums == old(self).enums,
            final(self).reports() == match_checked(
                old(self).enums@,
                *m,
                span,
                scope@,
                old(self).reports(),
            ),
    {
        let enum_name = match self.resolve_expr_ty(&m.scrutinee, scope).name {
            Some(e) => e,
            None => {
                return;
            },
        };
        let variants = match self.enums.enums.get(enum_name.as_str()) {
            Some(v) => v,
            None => {
                return;
            },
        };
        let ghost shapes = variants@;
        let mut cover = Cover { names: Vec::new(), everything: false };
        let mut i: usize = 0;
        while i < m.arms.len()
            invariant
                i <= m.arms.len(),
                self.enums == old(self).enums,
                shapes == variants@,
                arms_covered(
                    m.arms@,
                    i as nat,
                    enum_name@,
                    shapes,
                    Coverage {
                        names: texts(cover.names@),
                        everything: cover.everything,
                        diags: self.reports(),
                    },
                ) == arms_covered(
                    m.arms@,
                    0,
                    enum_name@,
                    shapes,
                    Coverage {
                        names: Seq::empty(),
                        everything: false,
                        diags: old(self).reports(),
                    },
                ),
            decreases m.arms.len() - i,
        {
            if m.arms[i].guard.is_none() {
                cover_pattern(
                    &m.arms[i].pattern,
                    enum_name.as_str(),
                    &variants.entries,
                    &mut cover,
                    &mut self.diags,
                );
            }
            i = i + 1;
        }
        if cover.everything {
            return;
        }
        let mut missing: Vec<String> = Vec::new();
        let mut k: usize = 0;
        while k < variants.entries.len()
            invariant
                k <= variants.entries.len(),
                missing_from(variants@, texts(cover.names@), k as nat, texts(missing@))
                    == missing_from(variants@, texts(cover.names@), 0, Seq::empty()),
            decreases variants.entries.len() - k,
        {
            assert(variants@[k as int].0 == variants.entries@[k as int].0@);
            if !crate::interp::registry::has_text(
                &cover.names,
                variants.entries[k].0.as_str(),
            ) {
                missing.push(cat3("`", variants.entries[k].0.as_str(), "`"));
            }
            k = k + 1;
        }
        if missing.len() > 0 {
            self.diags.push(
                Diagnostic::check(
                    cat5(
                        "non-exhaustive match over enum `",
                        enum_name.as_str(),
                        "`: missing variant(s) ",
                        join(&missing, ", ").as_str(),
                        " (add the arm(s) or a `_` catch-all)",
                    ),
                    span,
                ),
            );
        }
    }
}

/// The size of the payload of a variant.
fn find_arity(variants: &Vec<(String, usize)>, name: &str) -> (r: Option<usize>)
    ensures
        match r {
            Some(n) => arity_from(shapes_of(variants@), name@, 0) == Some(n as nat),
            None => arity_from(shapes_of(variants@), name@, 0) is None,
        },
{
    let mut i: usize = 0;
    while i < variants.len()
        invariant
            i <= variants.len(),
            arity_from(shapes_of(variants@), name@, i as nat) == arity_from(
                shapes_of(variants@),
                name@,
                0,
            ),
        decreases variants.len() - i,
    {
        if same_text(variants[i].0.as_str(), name) {
            return Some(variants[i].1);
        }
        i = i + 1;
    }
    None
}

pub open spec fn shapes_of(entries: Seq<(String, usize)>) -> Seq<(Seq<char>, nat)> {
    Seq::new(entries.len(), |i: int| (entries[i].0@, entries[i].1 as nat))
}

/// Note what a pattern covers, and report what is wrong with it.
fn cover_pattern(
    pat: &Pattern,
    enum_name: &str,
    variants: &Vec<(String, usize)>,
    cover: &mut Cover,
    diags: &mut Vec<Diagnostic>,
)
    ensures
        (Coverage {
            names: texts(final(cover).names@),
            everything: final(cover).everything,
            diags: diagnostics_view(final(diags)@),
        }) == covered(
            *pat,
            enum_name@,
            shapes_of(variants@),
            (Coverage {
                names: texts(old(cover).names@),
                everything: old(cover).everything,
                diags: diagnostics_view(old(diags)@),
            }),
        ),
    decreases *pat, 0nat,
{
    match &pat.kind {
        PatternKind::Wildcard => {
            cover.everything = true;
        },
        PatternKind::Binding(_) => {
            cover.everything = true;
        },
        PatternKind::Variant { enum_name: qual, name, subs } => {
            if let Some(q) = qual {
                if !same_text(q.as_str(), enum_name) {
                    diags.push(
                        Diagnostic::check(
                            cat5(
                                "pattern matches enum `",
                                q.as_str(),
                                "`, but the value is `",
                                enum_name,
                                "`",
                            ),
                            pat.span,
                        ),
                    );
                    return;
                }
            }
            match find_arity(variants, name.as_str()) {
                Some(arity) => {
                    if arity != subs.len() {
                        diags.push(
                            Diagnostic::check(
                                cat2(
                                    cat7(
                                        "variant `",
                                        enum_name,
                                        "::",
                                        name.as_str(),
                                        "` expects ",
                                        count_text(arity).as_str(),
                                        " field(s), but the pattern binds ",
                                    ).as_str(),
                                    count_text(subs.len()).as_str(),
                                ),
                                pat.span,
                            ),
                        );
                    }
                    cover.names.push(name.clone());
                },
                None => {
                    diags.push(
                        Diagnostic::check(
                            cat5(
                                "unknown variant `",
                                name.as_str(),
                                "` for enum `",
                                enum_name,
                                "`",
                            ),
                            pat.span,
                        ),
                    );
                },
            }
        },
        PatternKind::Or(alts) => {
            cover_patterns(alts, enum_name, variants, cover, diags);
        },
        _ => {},
    }
}

fn cover_patterns(
    pats: &Vec<Pattern>,
    enum_name: &str,
    variants: &Vec<(String, usize)>,
    cover: &mut Cover,
    diags: &mut Vec<Diagnostic>,
)
    ensures
        (Coverage {
            names: texts(final(cover).names@),
            everything: final(cover).everything,
            diags: diagnostics_view(final(diags)@),
        }) == all_covered(
            pats@,
            0,
            enum_name@,
            shapes_of(variants@),
            (Coverage {
                names: texts(old(cover).names@),
                everything: old(cover).everything,
                diags: diagnostics_view(old(diags)@),
            }),
        ),
    decreases pats@, 1nat,
{
    let mut i: usize = 0;
    while i < pats.len()
        invariant
            i <= pats.len(),
            all_covered(
                pats@,
                i as nat,
                enum_name@,
                shapes_of(variants@),
                Coverage {
                    names: texts(cover.names@),
                    everything: cover.everything,
                    diags: diagnostics_view(diags@),
                },
            ) == all_covered(
                pats@,
                0,
                enum_name@,
                shapes_of(variants@),
                Coverage {
                    names: texts(old(cover).names@),
                    everything: old(cover).everything,
                    diags: diagnostics_view(old(diags)@),
                },
            ),
        decreases pats.len() - i,
    {
        cover_pattern(&pats[i], enum_name, variants, cover, diags);
        i = i + 1;
    }
}

} // verus!
