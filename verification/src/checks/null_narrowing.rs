//! Null narrowing.

use super::{
    binder_names, child_names, children, lemma_child_smaller, names_around, names_of,
    names_of_pattern, pattern_names, walk_child_exprs,
};
use crate::ast::{
    BinOp, Binder, Binding, Block, Expr, ExprKind, FnDecl, IfStmt, MatchArm, Param, Program, Stmt,
    StmtKind, TargetSeg, UnOp,
};
use crate::error::{
    check_diag, diagnostics_view, lemma_diagnostics_push, Diagnostic, DiagnosticView,
};
use crate::name_map::{bind, lookup, NameMap};
use crate::text::{cat2, cat7, lemma_texts_empty, lemma_texts_push, same_text, texts};
use std::rc::Rc;
use vstd::prelude::*;
use vstd::string::*;

verus! {

broadcast use {lemma_diagnostics_push, lemma_texts_push, lemma_texts_empty};

/// What is known of whether a name's value is `null`.
#[derive(Debug, Clone, Copy, PartialEq, Eq, Structural)]
pub enum NullState {
    /// It may be: it is declared nullable and not narrowed.
    Nullable,
    /// It is not.
    NonNull,
    /// Nothing is known; such a name is never reported.
    Unknown,
}

impl View for NullState {
    type V = NullState;

    open spec fn view(&self) -> NullState {
        *self
    }
}

/// What is known of names.
pub type Scope = Seq<(Seq<char>, NullState)>;

/// The methods that take a value that may be `null` and give one that is not.
pub open spec fn is_null_handler(name: Seq<char>) -> bool {
    name == "or_else"@ || name == "expect"@
}

/// Whether a method takes a value that may be `null` and gives one that is not.
pub fn handles_null(name: &str) -> (r: bool)
    ensures
        r == is_null_handler(name@),
{
    same_text(name, "or_else") || same_text(name, "expect")
}

/// The name that a condition `x is not null` or `null is not x` narrows.
pub open spec fn narrowed_name(cond: Expr) -> Option<Seq<char>> {
    match cond.kind {
        ExprKind::Binary { op: BinOp::IsNot, lhs, rhs } => match (lhs.kind, rhs.kind) {
            (ExprKind::Name(n), ExprKind::Null) => Some(n@),
            (ExprKind::Null, ExprKind::Name(n)) => Some(n@),
            _ => None,
        },
        _ => None,
    }
}

/// What is known where a condition holds.
pub open spec fn narrowed(scope: Scope, cond: Expr) -> Scope {
    match narrowed_name(cond) {
        Some(n) => bind(scope, n, NullState::NonNull),
        None => scope,
    }
}

pub open spec fn is_handling_call(callee: Expr) -> bool {
    match callee.kind {
        ExprKind::Member { name, .. } => is_null_handler(name@),
        _ => false,
    }
}

pub open spec fn declared_state(nullable: bool) -> NullState {
    if nullable {
        NullState::Nullable
    } else {
        NullState::NonNull
    }
}

/// What is known of the value of an expression.
pub open spec fn state_of_expr(e: Expr, scope: Scope) -> NullState {
    match e.kind {
        ExprKind::Null => NullState::Nullable,
        ExprKind::Name(n) => match lookup(scope, n@) {
            Some(st) => st,
            None => NullState::Unknown,
        },
        ExprKind::Call { callee, .. } => if is_handling_call(*callee) {
            NullState::NonNull
        } else {
            NullState::Unknown
        },
        ExprKind::Int(_) => NullState::NonNull,
        ExprKind::Float(_) => NullState::NonNull,
        ExprKind::Bool(_) => NullState::NonNull,
        ExprKind::Str(_) => NullState::NonNull,
        ExprKind::List(_) => NullState::NonNull,
        _ => NullState::Unknown,
    }
}

/// What is known of a binding's value: an annotation decides where there is one.
pub open spec fn state_of_binding(b: Binding, scope: Scope) -> NullState {
    match b.ty {
        Some(ty) => declared_state(ty.nullable),
        None => state_of_expr(b.value, scope),
    }
}

/// A report where a name that may be `null` is used where a value is required.
pub open spec fn required(
    e: Expr,
    scope: Scope,
    what: Seq<char>,
    diags: Seq<DiagnosticView>,
) -> Seq<DiagnosticView> {
    match e.kind {
        ExprKind::Name(n) => if lookup(scope, n@) == Some(NullState::Nullable) {
            diags.push(
                check_diag(
                    "nullable value `"@ + n@ + "` used in "@ + what
                        + " where a non-null value is required; narrow with `if "@ + n@
                        + " is not null:` or default with `"@ + n@ + ".or_else(...)`"@,
                    e.span,
                ),
            )
        } else {
            diags
        },
        _ => diags,
    }
}

/// Whether an operator takes operands that may be `null`.
pub open spec fn takes_null(op: BinOp) -> bool {
    match op {
        BinOp::Eq => true,
        BinOp::NotEq => true,
        BinOp::Is => true,
        BinOp::IsNot => true,
        BinOp::And => true,
        BinOp::Or => true,
        _ => false,
    }
}

/// The uses in an expression that may meet a `null`.
pub open spec fn uses_checked(e: Expr, scope: Scope, diags: Seq<DiagnosticView>) -> Seq<
    DiagnosticView,
>
    decreases e, 2nat, 0nat,
{
    match e.kind {
        ExprKind::Member { base, name, safe } => if safe || is_null_handler(name@) {
            if base.kind is Name {
                diags
            } else {
                uses_checked(*base, scope, diags)
            }
        } else {
            uses_checked(*base, scope, required(*base, scope, "member access"@, diags))
        },
        ExprKind::Call { callee, .. } => match callee.kind {
            ExprKind::Member { base, name, safe } => children_used(
                e,
                1,
                scope,
                if safe || is_null_handler(name@) {
                    if base.kind is Name {
                        diags
                    } else {
                        uses_checked(*base, scope, diags)
                    }
                } else {
                    uses_checked(*base, scope, required(*base, scope, "method call"@, diags))
                },
            ),
            _ => children_used(e, 0, scope, diags),
        },
        ExprKind::Index { base, index } => uses_checked(
            *index,
            scope,
            uses_checked(*base, scope, required(*base, scope, "indexing"@, diags)),
        ),
        ExprKind::Binary { op, lhs, rhs } => {
            let first = if takes_null(op) {
                diags
            } else {
                required(
                    *rhs,
                    scope,
                    "operator operand"@,
                    required(*lhs, scope, "operator operand"@, diags),
                )
            };
            uses_checked(*rhs, scope, uses_checked(*lhs, scope, first))
        },
        ExprKind::Unary { op, operand } => uses_checked(
            *operand,
            scope,
            if op == UnOp::Neg {
                required(*operand, scope, "operator operand"@, diags)
            } else {
                diags
            },
        ),
        ExprKind::Match(m) => arms_used(
            m.arms@,
            0,
            scope,
            uses_checked(*m.scrutinee, scope, diags),
        ),
        _ => children_used(e, 0, scope, diags),
    }
}

pub open spec fn children_used(e: Expr, i: nat, scope: Scope, diags: Seq<DiagnosticView>) -> Seq<
    DiagnosticView,
>
    decreases e, 1nat, children(e).len() - i,
{
    if i >= children(e).len() {
        diags
    } else {
        proof {
            lemma_child_smaller(e, i as int);
        }
        children_used(
            e,
            i + 1,
            scope,
            uses_checked(
                children(e)[i as int],
                unknown_from(scope, names_around(e, i), 0),
                diags,
            ),
        )
    }
}

pub open spec fn arms_used(
    arms: Seq<MatchArm>,
    i: nat,
    scope: Scope,
    diags: Seq<DiagnosticView>,
) -> Seq<DiagnosticView>
    decreases arms, 1nat, arms.len() - i,
{
    if i >= arms.len() {
        diags
    } else {
        arms_used(
            arms,
            i + 1,
            scope,
            stmts_used(
                arms[i as int].body.stmts@,
                0,
                unknown_from(scope, names_of_pattern(arms[i as int].pattern), 0),
                diags,
            ).1,
        )
    }
}

/// Names of which nothing is known.
pub open spec fn unknown_from(scope: Scope, names: Seq<Seq<char>>, i: nat) -> Scope
    decreases names.len() - i,
{
    if i >= names.len() {
        scope
    } else {
        unknown_from(bind(scope, names[i as int], NullState::Unknown), names, i + 1)
    }
}

/// The parameters of a function, from place `i` on.
pub open spec fn params_known(params: Seq<Param>, i: nat, scope: Scope) -> Scope
    decreases params.len() - i,
{
    if i >= params.len() {
        scope
    } else {
        params_known(
            params,
            i + 1,
            match params[i as int] {
                Param::SelfRecv => scope,
                Param::Named { name, ty, .. } => bind(scope, name@, declared_state(ty.nullable)),
            },
        )
    }
}

pub open spec fn fn_used(decl: FnDecl, diags: Seq<DiagnosticView>) -> Seq<DiagnosticView>
    decreases decl, 0nat, 0nat,
{
    stmts_used(decl.body.stmts@, 0, params_known(decl.params@, 0, Seq::empty()), diags).1
}

pub open spec fn fns_used(decls: Seq<Rc<FnDecl>>, i: nat, diags: Seq<DiagnosticView>) -> Seq<
    DiagnosticView,
>
    decreases decls, 1nat, decls.len() - i,
{
    if i >= decls.len() {
        diags
    } else {
        fns_used(decls, i + 1, fn_used(*decls[i as int], diags))
    }
}

pub open spec fn segs_used(
    path: Seq<TargetSeg>,
    i: nat,
    scope: Scope,
    diags: Seq<DiagnosticView>,
) -> Seq<DiagnosticView>
    decreases path, 1nat, path.len() - i,
{
    if i >= path.len() {
        diags
    } else {
        segs_used(
            path,
            i + 1,
            scope,
            match path[i as int] {
                TargetSeg::Index(e) => uses_checked(e, scope, diags),
                TargetSeg::Field(_) => diags,
            },
        )
    }
}

/// The arms of an `if`: each body knows what its condition narrows.
pub open spec fn if_arms_used(
    arms: Seq<(Expr, Block)>,
    i: nat,
    scope: Scope,
    diags: Seq<DiagnosticView>,
) -> Seq<DiagnosticView>
    decreases arms, 1nat, arms.len() - i,
{
    if i >= arms.len() {
        diags
    } else {
        if_arms_used(
            arms,
            i + 1,
            scope,
            stmts_used(
                arms[i as int].1.stmts@,
                0,
                narrowed(scope, arms[i as int].0),
                uses_checked(arms[i as int].0, scope, diags),
            ).1,
        )
    }
}

/// What a statement adds to what is known of names, and to what is reported.
pub open spec fn stmt_used(s: Stmt, scope: Scope, diags: Seq<DiagnosticView>) -> (
    Scope,
    Seq<DiagnosticView>,
)
    decreases s, 0nat, 0nat,
{
    match s.kind {
        StmtKind::Binding(b) => (
            match b.binder {
                Binder::Name(n) => bind(scope, n@, state_of_binding(b, scope)),
                Binder::Tuple(names) => unknown_from(scope, texts(names@), 0),
            },
            uses_checked(b.value, scope, diags),
        ),
        StmtKind::Assign(a) => (
            if a.target.path@.len() == 0 {
                bind(scope, a.target.base@, state_of_expr(a.value, scope))
            } else {
                scope
            },
            segs_used(a.target.path@, 0, scope, uses_checked(a.value, scope, diags)),
        ),
        StmtKind::Return(Some(e)) => (scope, uses_checked(e, scope, diags)),
        StmtKind::Expr(e) => (scope, uses_checked(e, scope, diags)),
        StmtKind::If(c) => {
            let arms = if_arms_used(c.arms@, 0, scope, diags);
            (
                scope,
                match c.else_body {
                    Some(b) => stmts_used(b.stmts@, 0, scope, arms).1,
                    None => arms,
                },
            )
        },
        StmtKind::While(l) => (
            scope,
            stmts_used(
                l.body.stmts@,
                0,
                narrowed(scope, l.cond),
                uses_checked(l.cond, scope, diags),
            ).1,
        ),
        StmtKind::For(l) => (
            scope,
            stmts_used(
                l.body.stmts@,
                0,
                unknown_from(scope, names_of(l.binder), 0),
                uses_checked(l.iter, scope, diags),
            ).1,
        ),
        StmtKind::Fn(decl) => (scope, fn_used(*decl, diags)),
        StmtKind::Impl(d) => (scope, fns_used(d.methods@, 0, diags)),
        StmtKind::Trait(t) => (scope, fns_used(t.defaults@, 0, diags)),
        _ => (scope, diags),
    }
}

/// The statements from place `i` on.
pub open spec fn stmts_used(
    stmts: Seq<Stmt>,
    i: nat,
    scope: Scope,
    diags: Seq<DiagnosticView>,
) -> (Scope, Seq<DiagnosticView>)
    decreases stmts, 1nat, stmts.len() - i,
{
    if i >= stmts.len() {
        (scope, diags)
    } else {
        let next = stmt_used(stmts[i as int], scope, diags);
        stmts_used(stmts, i + 1, next.0, next.1)
    }
}

/// The uses in a program that may meet a `null`.
pub open spec fn nullness_of(stmts: Seq<Stmt>, diags: Seq<DiagnosticView>) -> Seq<DiagnosticView> {
    stmts_used(stmts, 0, Seq::empty(), diags).1
}

/// The null-narrowing check.
pub struct NullNarrowing {
    pub diags: Vec<Diagnostic>,
}

fn copy_scope(scope: &NameMap<NullState>) -> (r: NameMap<NullState>)
    ensures
        r@ == scope@,
{
    let mut entries: Vec<(String, NullState)> = Vec::new();
    let mut i: usize = 0;
    while i < scope.entries.len()
        invariant
            i <= scope.entries.len(),
            entries@.len() == i,
            forall|j: int|
                0 <= j < i ==> (#[trigger] entries@[j]).0@ == scope.entries@[j].0@ && entries@[j].1
                    == scope.entries@[j].1,
        decreases scope.entries.len() - i,
    {
        entries.push((scope.entries[i].0.clone(), scope.entries[i].1));
        i = i + 1;
    }
    let r = NameMap { entries };
    assert(r@ =~= scope@);
    r
}

fn forget_names(scope: &mut NameMap<NullState>, names: &Vec<String>)
    ensures
        final(scope)@ == unknown_from(old(scope)@, texts(names@), 0),
{
    let mut i: usize = 0;
    while i < names.len()
        invariant
            i <= names.len(),
            unknown_from(scope@, texts(names@), i as nat) == unknown_from(
                old(scope)@,
                texts(names@),
                0,
            ),
        decreases names.len() - i,
    {
        scope.insert(names[i].clone(), NullState::Unknown);
        i = i + 1;
    }
}

fn param_scope(params: &Vec<Param>) -> (r: NameMap<NullState>)
    ensures
        r@ == params_known(params@, 0, Seq::empty()),
{
    let mut scope: NameMap<NullState> = NameMap::new();
    let mut i: usize = 0;
    while i < params.len()
        invariant
            i <= params.len(),
            params_known(params@, i as nat, scope@) == params_known(params@, 0, Seq::empty()),
        decreases params.len() - i,
    {
        if let Param::Named { name, ty, .. } = &params[i] {
            scope.insert(name.clone(), state_declared(ty.nullable));
        }
        i = i + 1;
    }
    scope
}

fn state_declared(nullable: bool) -> (r: NullState)
    ensures
        r == declared_state(nullable),
{
    if nullable {
        NullState::Nullable
    } else {
        NullState::NonNull
    }
}

/// The name that a condition narrows.
fn is_not_null_guard(cond: &Expr) -> (r: Option<&String>)
    ensures
        match r {
            Some(n) => narrowed_name(*cond) == Some(n@),
            None => narrowed_name(*cond) is None,
        },
{
    if let ExprKind::Binary { op: BinOp::IsNot, lhs, rhs } = &cond.kind {
        match (&lhs.kind, &rhs.kind) {
            (ExprKind::Name(n), ExprKind::Null) => {
                return Some(n);
            },
            (ExprKind::Null, ExprKind::Name(n)) => {
                return Some(n);
            },
            _ => {},
        }
    }
    None
}

/// A copy of what is known, with what a condition narrows.
fn narrow(scope: &NameMap<NullState>, cond: &Expr) -> (r: NameMap<NullState>)
    ensures
        r@ == narrowed(scope@, *cond),
{
    let mut inner = copy_scope(scope);
    if let Some(n) = is_not_null_guard(cond) {
        inner.insert(n.clone(), NullState::NonNull);
    }
    inner
}

fn is_null_handling_call(callee: &Expr) -> (r: bool)
    ensures
        r == is_handling_call(*callee),
{
    match &callee.kind {
        ExprKind::Member { name, .. } => handles_null(name.as_str()),
        _ => false,
    }
}

/// What is known of the value of an expression.
fn expr_null_state(e: &Expr, scope: &NameMap<NullState>) -> (r: NullState)
    ensures
        r == state_of_expr(*e, scope@),
{
    match &e.kind {
        ExprKind::Null => NullState::Nullable,
        ExprKind::Name(n) => match scope.get(n.as_str()) {
            Some(st) => *st,
            None => NullState::Unknown,
        },
        ExprKind::Call { callee, .. } => if is_null_handling_call(callee) {
            NullState::NonNull
        } else {
            NullState::Unknown
        },
        ExprKind::Int(_) => NullState::NonNull,
        ExprKind::Float(_) => NullState::NonNull,
        ExprKind::Bool(_) => NullState::NonNull,
        ExprKind::Str(_) => NullState::NonNull,
        ExprKind::List(_) => NullState::NonNull,
        _ => NullState::Unknown,
    }
}

/// What is known of a binding's value.
fn binding_null_state(b: &Binding, scope: &NameMap<NullState>) -> (r: NullState)
    ensures
        r == state_of_binding(*b, scope@),
{
    match &b.ty {
        Some(ty) => state_declared(ty.nullable),
        None => expr_null_state(&b.value, scope),
    }
}

fn is_name(e: &Expr) -> (r: bool)
    ensures
        r == (e.kind is Name),
{
    match &e.kind {
        ExprKind::Name(_) => true,
        _ => false,
    }
}

fn null_operand(op: BinOp) -> (r: bool)
    ensures
        r == takes_null(op),
{
    match op {
        BinOp::Eq => true,
        BinOp::NotEq => true,
        BinOp::Is => true,
        BinOp::IsNot => true,
        BinOp::And => true,
        BinOp::Or => true,
        _ => false,
    }
}

impl NullNarrowing {
    pub open spec fn reports(self) -> Seq<DiagnosticView> {
        diagnostics_view(self.diags@)
    }

    /// A check that reports behind `diags`.
    pub fn new(diags: Vec<Diagnostic>) -> (r: Self)
        ensures
            r.reports() == diagnostics_view(diags@),
    {
        NullNarrowing { diags }
    }

    /// Check a program.
    pub fn run(&mut self, program: &Program)
        ensures
            final(self).reports() == nullness_of(program.stmts@, old(self).reports()),
    {
        let mut scope: NameMap<NullState> = NameMap::new();
        self.check_stmts(&program.stmts, &mut scope);
    }

    fn check_stmts(&mut self, stmts: &Vec<Stmt>, scope: &mut NameMap<NullState>)
        ensures
            (final(scope)@, final(self).reports()) == stmts_used(
                stmts@,
                0,
                old(scope)@,
                old(self).reports(),
            ),
        decreases stmts@, 1nat,
    {
        let mut i: usize = 0;
        while i < stmts.len()
            invariant
                i <= stmts.len(),
                stmts_used(stmts@, i as nat, scope@, self.reports()) == stmts_used(
                    stmts@,
                    0,
                    old(scope)@,
                    old(self).reports(),
                ),
            decreases stmts.len() - i,
        {
            self.check_stmt(&stmts[i], scope);
            i = i + 1;
        }
    }

    fn check_stmt(&mut self, s: &Stmt, scope: &mut NameMap<NullState>)
        ensures
            (final(scope)@, final(self).reports()) == stmt_used(
                *s,
                old(scope)@,
                old(self).reports(),
            ),
        decreases *s, 0nat,
    {
        match &s.kind {
            StmtKind::Binding(b) => {
                self.check_expr_uses(&b.value, scope);
                match &b.binder {
                    Binder::Name(n) => {
                        let st = binding_null_state(b, scope);
                        scope.insert(n.clone(), st);
                    },
                    Binder::Tuple(names) => {
                        forget_names(scope, names);
                    },
                }
            },
            StmtKind::Assign(a) => {
                self.check_expr_uses(&a.value, scope);
                self.check_segs(&a.target.path, scope);
                if a.target.path.len() == 0 {
                    let st = expr_null_state(&a.value, scope);
                    scope.insert(a.target.base.clone(), st);
                }
            },
            StmtKind::Return(opt) => {
                if let Some(e) = opt {
                    self.check_expr_uses(e, scope);
                }
            },
            StmtKind::Expr(e) => {
                self.check_expr_uses(e, scope);
            },
            StmtKind::If(c) => {
                self.check_if(c, scope);
            },
            StmtKind::While(l) => {
                self.check_expr_uses(&l.cond, scope);
                let mut inner = narrow(scope, &l.cond);
                self.check_stmts(&l.body.stmts, &mut inner);
            },
            StmtKind::For(l) => {
                self.check_expr_uses(&l.iter, scope);
                let mut inner = copy_scope(scope);
                forget_names(&mut inner, &binder_names(&l.binder));
                self.check_stmts(&l.body.stmts, &mut inner);
            },
            StmtKind::Fn(decl) => {
                self.check_fn(decl);
            },
            StmtKind::Impl(d) => {
                self.check_fns(&d.methods);
            },
            StmtKind::Trait(t) => {
                self.check_fns(&t.defaults);
            },
            _ => {},
        }
    }

    fn check_segs(&mut self, path: &Vec<TargetSeg>, scope: &NameMap<NullState>)
        ensures
            final(self).reports() == segs_used(path@, 0, scope@, old(self).reports()),
        decreases path@, 1nat,
    {
        let mut i: usize = 0;
        while i < path.len()
            invariant
                i <= path.len(),
                segs_used(path@, i as nat, scope@, self.reports()) == segs_used(
                    path@,
                    0,
                    scope@,
                    old(self).reports(),
                ),
            decreases path.len() - i,
        {
            if let TargetSeg::Index(e) = &path[i] {
                self.check_expr_uses(e, scope);
            }
            i = i + 1;
        }
    }

    fn check_fns(&mut self, decls: &Vec<Rc<FnDecl>>)
        ensures
            final(self).reports() == fns_used(decls@, 0, old(self).reports()),
        decreases decls@, 1nat,
    {
        let mut i: usize = 0;
        while i < decls.len()
            invariant
                i <= decls.len(),
                fns_used(decls@, i as nat, self.reports()) == fns_used(
                    decls@,
                    0,
                    old(self).reports(),
                ),
            decreases decls.len() - i,
        {
            self.check_fn(&decls[i]);
            i = i + 1;
        }
    }

    fn check_fn(&mut self, decl: &Rc<FnDecl>)
        ensures
            final(self).reports() == fn_used(**decl, old(self).reports()),
        decreases **decl, 0nat,
    {
        let mut scope = param_scope(&decl.params);
        self.check_stmts(&decl.body.stmts, &mut scope);
    }

    /// Check an `if`, whose arms know what their conditions narrow.
    fn check_if(&mut self, s: &IfStmt, scope: &NameMap<NullState>)
        ensures
            final(self).reports() == (match s.else_body {
                Some(b) => stmts_used(
                    b.stmts@,
                    0,
                    scope@,
                    if_arms_used(s.arms@, 0, scope@, old(self).reports()),
                ).1,
                None => if_arms_used(s.arms@, 0, scope@, old(self).reports()),
            }),
        decreases *s, 0nat,
    {
        self.check_arms(&s.arms, scope);
        if let Some(b) = &s.else_body {
            let mut inner = copy_scope(scope);
            self.check_stmts(&b.stmts, &mut inner);
        }
    }

    fn check_arms(&mut self, arms: &Vec<(Expr, Block)>, scope: &NameMap<NullState>)
        ensures
            final(self).reports() == if_arms_used(arms@, 0, scope@, old(self).reports()),
        decreases arms@, 1nat,
    {
        let mut i: usize = 0;
        while i < arms.len()
            invariant
                i <= arms.len(),
                if_arms_used(arms@, i as nat, scope@, self.reports()) == if_arms_used(
                    arms@,
                    0,
                    scope@,
                    old(self).reports(),
                ),
            decreases arms.len() - i,
        {
            self.check_expr_uses(&arms[i].0, scope);
            let mut inner = narrow(scope, &arms[i].0);
            self.check_stmts(&arms[i].1.stmts, &mut inner);
            i = i + 1;
        }
    }

    fn check_match_arms(&mut self, arms: &Vec<MatchArm>, scope: &NameMap<NullState>)
        ensures
            final(self).reports() == arms_used(arms@, 0, scope@, old(self).reports()),
        decreases arms@, 1nat,
    {
        let mut i: usize = 0;
        while i < arms.len()
            invariant
                i <= arms.len(),
                arms_used(arms@, i as nat, scope@, self.reports()) == arms_used(
                    arms@,
                    0,
                    scope@,
                    old(self).reports(),
                ),
            decreases arms.len() - i,
        {
            let mut inner = copy_scope(scope);
            forget_names(&mut inner, &pattern_names(&arms[i].pattern));
            self.check_stmts(&arms[i].body.stmts, &mut inner);
            i = i + 1;
        }
    }

    /// Check the uses in an expression.
    fn check_expr_uses(&mut self, e: &Expr, scope: &NameMap<NullState>)
        ensures
            final(self).reports() == uses_checked(*e, scope@, old(self).reports()),
        decreases *e, 2nat,
    {
        match &e.kind {
            ExprKind::Member { base, name, safe } => {
                if *safe || handles_null(name.as_str()) {
                    if !is_name(base) {
                        self.check_expr_uses(base, scope);
                    }
                } else {
                    self.require_non_null(base, scope, "member access");
                    self.check_expr_uses(base, scope);
                }
            },
            ExprKind::Call { callee, .. } => {
                if let ExprKind::Member { base, name, safe } = &callee.kind {
                    proof {
                        lemma_child_smaller(*e, 0);
                    }
                    if *safe || handles_null(name.as_str()) {
                        if !is_name(base) {
                            self.check_expr_uses(base, scope);
                        }
                    } else {
                        self.require_non_null(base, scope, "method call");
                        self.check_expr_uses(base, scope);
                    }
                    self.check_children(e, 1, scope);
                } else {
                    self.check_children(e, 0, scope);
                }
            },
            ExprKind::Index { base, index } => {
                self.require_non_null(base, scope, "indexing");
                self.check_expr_uses(base, scope);
                self.check_expr_uses(index, scope);
            },
            ExprKind::Binary { op, lhs, rhs } => {
                if !null_operand(*op) {
                    self.require_non_null(lhs, scope, "operator operand");
                    self.require_non_null(rhs, scope, "operator operand");
                }
                self.check_expr_uses(lhs, scope);
                self.check_expr_uses(rhs, scope);
            },
            ExprKind::Unary { op, operand } => {
                if *op == UnOp::Neg {
                    self.require_non_null(operand, scope, "operator operand");
                }
                self.check_expr_uses(operand, scope);
            },
            ExprKind::Match(m) => {
                self.check_expr_uses(&m.scrutinee, scope);
                self.check_match_arms(&m.arms, scope);
            },
            _ => {
                self.check_children(e, 0, scope);
            },
        }
    }

    fn check_children(&mut self, e: &Expr, from: usize, scope: &NameMap<NullState>)
        ensures
            final(self).reports() == children_used(
                *e,
                from as nat,
                scope@,
                old(self).reports(),
            ),
        decreases *e, 1nat,
    {
        let kids = walk_child_exprs(e);
        let mut i: usize = from;
        while i < kids.len()
            invariant
                kids@.len() == children(*e).len(),
                forall|j: int| 0 <= j < kids@.len() ==> *(#[trigger] kids@[j]) == children(*e)[j],
                children_used(*e, i as nat, scope@, self.reports()) == children_used(
                    *e,
                    from as nat,
                    scope@,
                    old(self).reports(),
                ),
            decreases kids.len() - i,
        {
            proof {
                lemma_child_smaller(*e, i as int);
            }
            let names = child_names(e, i);
            if names.len() == 0 {
                self.check_expr_uses(kids[i], scope);
            } else {
                let mut inner = copy_scope(scope);
                forget_names(&mut inner, &names);
                self.check_expr_uses(kids[i], &inner);
            }
            i = i + 1;
        }
    }

    /// Report a name that may be `null` where a value is required.
    fn require_non_null(&mut self, e: &Expr, scope: &NameMap<NullState>, what: &str)
        ensures
            final(self).reports() == required(*e, scope@, what@, old(self).reports()),
    {
        if let ExprKind::Name(n) = &e.kind {
            if let Some(NullState::Nullable) = scope.get(n.as_str()) {
                let message = cat2(
                    cat7(
                        "nullable value `",
                        n.as_str(),
                        "` used in ",
                        what,
                        " where a non-null value is required; narrow with `if ",
                        n.as_str(),
                        " is not null:` or default with `",
                    ).as_str(),
                    cat2(n.as_str(), ".or_else(...)`").as_str(),
                );
                assert(message@ =~= "nullable value `"@ + n@ + "` used in "@ + what@
                    + " where a non-null value is required; narrow with `if "@ + n@
                    + " is not null:` or default with `"@ + n@ + ".or_else(...)`"@);
                self.diags.push(Diagnostic::check(message, e.span));
            }
        }
    }
}

} // verus!
