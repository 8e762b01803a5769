//! Where expressions stand in a program, and what is known of names there.
//!
//! This says what the checks have to reach, apart from how they walk: an expression
//! stands in a program if a chain of statements, blocks, functions and expressions
//! leads to it, and what is known of a name there follows from the statements that
//! come before and from the constructs around.

use super::{
    children, expr_of_arg, exprs_of_parts, lemma_child_smaller, names_around, names_in,
    names_in_all, names_of, names_of_pattern,
};
use crate::ast::{
    Arg, Binder, Block, ComprehensionBinder, ComprehensionOutput, Expr, ExprKind, FnDecl, MatchArm,
    Param, Pattern, PatternKind, Stmt, StmtKind, StrSeg, TargetSeg, Type,
};
use crate::name_map::{bind, law_lookup_after_bind, lookup};
use crate::text::texts;
use std::rc::Rc;
use vstd::prelude::*;

verus! {

/// What is known of the names in scope.
pub type Facts<T> = Map<Seq<char>, T>;

/// What is known of one name, if it is in scope.
pub open spec fn fact<T>(known: Facts<T>, name: Seq<char>) -> Option<T> {
    if known.contains_key(name) {
        Some(known[name])
    } else {
        None
    }
}

/// Whether a scope says just what is known.
pub open spec fn says<T>(scope: Seq<(Seq<char>, T)>, known: Facts<T>) -> bool {
    forall|n: Seq<char>| #[trigger] lookup(scope, n) == fact(known, n)
}

/// What is known where these names are bound to something of which nothing is known.
pub open spec fn forgetting<T>(known: Facts<T>, names: Seq<Seq<char>>, unknown: T) -> Facts<T> {
    Map::new(
        |n: Seq<char>| known.contains_key(n) || names.contains(n),
        |n: Seq<char>|
            if names.contains(n) {
                unknown
            } else {
                known[n]
            },
    )
}

/// How what is known changes: behind a statement, where a condition holds, and for
/// a parameter of a type.
#[verifier::reject_recursive_types(T)]
pub ghost struct Rules<T> {
    pub unknown: T,
    pub after: spec_fn(Facts<T>, Stmt) -> Facts<T>,
    pub holds: spec_fn(Facts<T>, Expr) -> Facts<T>,
    pub param: spec_fn(Type) -> T,
}

/// What a function knows at its start: its parameters, from place `i` on.
pub open spec fn of_params<T>(r: Rules<T>, params: Seq<Param>, i: nat, known: Facts<T>) -> Facts<T>
    decreases params.len() - i,
{
    if i >= params.len() {
        known
    } else {
        of_params(
            r,
            params,
            i + 1,
            match params[i as int] {
                Param::SelfRecv => known,
                Param::Named { name, ty, .. } => known.insert(name@, (r.param)(ty)),
            },
        )
    }
}

/// An expression, and what is known where it stands.
pub ghost struct Spot<T> {
    pub expr: Expr,
    pub known: Facts<T>,
}

/// Whether the spot is in an expression. Of a call `base.name(..)` the parts are the
/// base and the arguments.
pub open spec fn in_expr<T>(r: Rules<T>, t: Spot<T>, e: Expr, known: Facts<T>) -> bool
    decreases e, 2nat, 0nat,
{
    ||| t == Spot { expr: e, known }
    ||| match e.kind {
        ExprKind::Match(m) => in_expr(r, t, *m.scrutinee, known) || in_arms(
            r,
            t,
            m.arms@,
            0,
            known,
        ),
        ExprKind::Call { callee, .. } => match callee.kind {
            ExprKind::Member { base, .. } => in_expr(r, t, *base, known) || in_children(
                r,
                t,
                e,
                1,
                known,
            ),
            _ => in_children(r, t, e, 0, known),
        },
        _ => in_children(r, t, e, 0, known),
    }
}

/// Whether it is in one of the parts of an expression, from place `i` on.
pub open spec fn in_children<T>(
    r: Rules<T>,
    t: Spot<T>,
    e: Expr,
    i: nat,
    known: Facts<T>,
) -> bool
    decreases e, 1nat, children(e).len() - i,
{
    if i >= children(e).len() {
        false
    } else {
        proof {
            lemma_child_smaller(e, i as int);
        }
        in_expr(
            r,
            t,
            children(e)[i as int],
            forgetting(known, names_around(e, i), r.unknown),
        ) || in_children(r, t, e, i + 1, known)
    }
}

/// Whether it is in the body of an arm of a `match`, from place `i` on.
pub open spec fn in_arms<T>(
    r: Rules<T>,
    t: Spot<T>,
    arms: Seq<MatchArm>,
    i: nat,
    known: Facts<T>,
) -> bool
    decreases arms, 1nat, arms.len() - i,
{
    if i >= arms.len() {
        false
    } else {
        in_stmts(
            r,
            t,
            arms[i as int].body.stmts@,
            0,
            forgetting(known, names_of_pattern(arms[i as int].pattern), r.unknown),
        ) || in_arms(r, t, arms, i + 1, known)
    }
}

/// Whether it is in a function.
pub open spec fn in_fn<T>(r: Rules<T>, t: Spot<T>, decl: FnDecl) -> bool
    decreases decl, 0nat, 0nat,
{
    in_stmts(r, t, decl.body.stmts@, 0, of_params(r, decl.params@, 0, Map::empty()))
}

pub open spec fn in_fns<T>(r: Rules<T>, t: Spot<T>, decls: Seq<Rc<FnDecl>>, i: nat) -> bool
    decreases decls, 1nat, decls.len() - i,
{
    if i >= decls.len() {
        false
    } else {
        in_fn(r, t, *decls[i as int]) || in_fns(r, t, decls, i + 1)
    }
}

/// Whether it is in an index of the target of an assignment, from place `i` on.
pub open spec fn in_segs<T>(
    r: Rules<T>,
    t: Spot<T>,
    path: Seq<TargetSeg>,
    i: nat,
    known: Facts<T>,
) -> bool
    decreases path, 1nat, path.len() - i,
{
    if i >= path.len() {
        false
    } else {
        (match path[i as int] {
            TargetSeg::Index(e) => in_expr(r, t, e, known),
            TargetSeg::Field(_) => false,
        }) || in_segs(r, t, path, i + 1, known)
    }
}

/// Whether it is in a condition of an `if` or in the block behind it, from place `i`
/// on.
pub open spec fn in_if_arms<T>(
    r: Rules<T>,
    t: Spot<T>,
    arms: Seq<(Expr, Block)>,
    i: nat,
    known: Facts<T>,
) -> bool
    decreases arms, 1nat, arms.len() - i,
{
    if i >= arms.len() {
        false
    } else {
        in_expr(r, t, arms[i as int].0, known) || in_stmts(
            r,
            t,
            arms[i as int].1.stmts@,
            0,
            (r.holds)(known, arms[i as int].0),
        ) || in_if_arms(r, t, arms, i + 1, known)
    }
}

/// Whether it is in a statement.
pub open spec fn in_stmt<T>(r: Rules<T>, t: Spot<T>, s: Stmt, known: Facts<T>) -> bool
    decreases s, 0nat, 0nat,
{
    match s.kind {
        StmtKind::Binding(b) => in_expr(r, t, b.value, known),
        StmtKind::Assign(a) => in_expr(r, t, a.value, known) || in_segs(
            r,
            t,
            a.target.path@,
            0,
            known,
        ),
        StmtKind::Return(Some(e)) => in_expr(r, t, e, known),
        StmtKind::Expr(e) => in_expr(r, t, e, known),
        StmtKind::If(c) => in_if_arms(r, t, c.arms@, 0, known) || (match c.else_body {
            Some(b) => in_stmts(r, t, b.stmts@, 0, known),
            None => false,
        }),
        StmtKind::While(l) => in_expr(r, t, l.cond, known) || in_stmts(
            r,
            t,
            l.body.stmts@,
            0,
            (r.holds)(known, l.cond),
        ),
        StmtKind::For(l) => in_expr(r, t, l.iter, known) || in_stmts(
            r,
            t,
            l.body.stmts@,
            0,
            forgetting(known, names_of(l.binder), r.unknown),
        ),
        StmtKind::Fn(decl) => in_fn(r, t, *decl),
        StmtKind::Impl(d) => in_fns(r, t, d.methods@, 0),
        StmtKind::Trait(d) => in_fns(r, t, d.defaults@, 0),
        _ => false,
    }
}

/// Whether it is in one of the statements from place `i` on.
pub open spec fn in_stmts<T>(
    r: Rules<T>,
    t: Spot<T>,
    stmts: Seq<Stmt>,
    i: nat,
    known: Facts<T>,
) -> bool
    decreases stmts, 1nat, stmts.len() - i,
{
    if i >= stmts.len() {
        false
    } else {
        in_stmt(r, t, stmts[i as int], known) || in_stmts(
            r,
            t,
            stmts,
            i + 1,
            (r.after)(known, stmts[i as int]),
        )
    }
}

/// Whether it is in a program.
pub open spec fn in_program<T>(r: Rules<T>, t: Spot<T>, stmts: Seq<Stmt>) -> bool {
    in_stmts(r, t, stmts, 0, Map::empty())
}

// ---------------------------------------------------------------------------
// Scopes
// ---------------------------------------------------------------------------

pub proof fn lemma_says_bind<T>(
    scope: Seq<(Seq<char>, T)>,
    known: Facts<T>,
    name: Seq<char>,
    value: T,
)
    requires
        says(scope, known),
    ensures
        says(bind(scope, name, value), known.insert(name, value)),
{
    assert forall|n: Seq<char>| #[trigger] lookup(bind(scope, name, value), n) == fact(
        known.insert(name, value),
        n,
    ) by {
        law_lookup_after_bind(scope, name, value, n);
        assert(lookup(scope, n) == fact(known, n));
    }
}

/// The same of the names from place `i` on, each bound to the same.
pub proof fn lemma_says_forgetting<T>(
    scope: Seq<(Seq<char>, T)>,
    known: Facts<T>,
    names: Seq<Seq<char>>,
    unknown: T,
    after: Seq<(Seq<char>, T)>,
)
    requires
        says(scope, known),
        forall|n: Seq<char>|
            #[trigger] lookup(after, n) == (if names.contains(n) {
                Some(unknown)
            } else {
                lookup(scope, n)
            }),
    ensures
        says(after, forgetting(known, names, unknown)),
{
    assert forall|n: Seq<char>| #[trigger] lookup(after, n) == fact(
        forgetting(known, names, unknown),
        n,
    ) by {
        assert(lookup(scope, n) == fact(known, n));
    }
}

// ---------------------------------------------------------------------------
// The parts of an expression
// ---------------------------------------------------------------------------

/// Whether an argument has this expression.
pub open spec fn gives_expr(a: Arg, c: Expr) -> bool {
    match a {
        Arg::Positional(e) => e == c,
        Arg::Named { value, .. } => value == c,
    }
}

/// Whether an expression stands directly inside another one that is no `match`.
pub open spec fn directly_in(e: Expr, c: Expr) -> bool {
    match e.kind {
        ExprKind::Str(lit) => exists|i: int|
            0 <= i < lit.parts@.len() && (#[trigger] lit.parts@[i] matches StrSeg::Expr(x) && *x
                == c),
        ExprKind::List(items) => items@.contains(c),
        ExprKind::SetLit(items) => items@.contains(c),
        ExprKind::Tuple(items) => items@.contains(c),
        ExprKind::MapLit(pairs) => exists|i: int|
            0 <= i < pairs@.len() && ((#[trigger] pairs@[i]).0 == c || pairs@[i].1 == c),
        ExprKind::Lambda(l) => *l.body == c,
        ExprKind::Ternary { then, cond, otherwise } => *then == c || *cond == c || *otherwise == c,
        ExprKind::Binary { lhs, rhs, .. } => *lhs == c || *rhs == c,
        ExprKind::Unary { operand, .. } => *operand == c,
        ExprKind::Call { callee, args } => *callee == c || exists|i: int|
            0 <= i < args@.len() && gives_expr(#[trigger] args@[i], c),
        ExprKind::Index { base, index } => *base == c || *index == c,
        ExprKind::Member { base, .. } => *base == c,
        ExprKind::Comprehension(x) => {
            ||| *x.iter == c
            ||| x.cond matches Some(cond) && *cond == c
            ||| match x.output {
                ComprehensionOutput::List(o) => *o == c,
                ComprehensionOutput::SetOut(o) => *o == c,
                ComprehensionOutput::MapOut { key, value } => *key == c || *value == c,
            }
        },
        ExprKind::Try(inner) => *inner == c,
        _ => false,
    }
}

proof fn parts_are_all(parts: Seq<StrSeg>, n: nat, c: Expr)
    requires
        n <= parts.len(),
    ensures
        exprs_of_parts(parts, n).contains(c) <==> exists|i: int|
            0 <= i < n && (#[trigger] parts[i] matches StrSeg::Expr(x) && *x == c),
    decreases n,
{
    if n > 0 {
        let before = exprs_of_parts(parts, (n - 1) as nat);
        let all = exprs_of_parts(parts, n);
        parts_are_all(parts, (n - 1) as nat, c);
        if before.contains(c) {
            let k = choose|k: int| 0 <= k < before.len() && before[k] == c;
            assert(all[k] == c);
        }
        if let StrSeg::Expr(x) = parts[n - 1] {
            assert(all == before.push(*x));
            assert(all[before.len() as int] == *x);
            if all.contains(c) && !before.contains(c) {
                let k = choose|k: int| 0 <= k < all.len() && all[k] == c;
                if k < before.len() {
                    assert(before[k] == c);
                }
                assert(parts[n - 1] matches StrSeg::Expr(y) && *y == c);
            }
        }
    }
}

/// The expressions that the checks see directly inside an expression that is no
/// `match` are just those that stand there.
pub proof fn law_children_are_all(e: Expr, c: Expr)
    ensures
        children(e).contains(c) <==> directly_in(e, c),
{
    let all = children(e);
    match e.kind {
        ExprKind::Str(lit) => {
            parts_are_all(lit.parts@, lit.parts@.len(), c);
        },
        ExprKind::MapLit(pairs) => {
            if all.contains(c) {
                let k = choose|k: int| 0 <= k < all.len() && all[k] == c;
                assert(0 <= k / 2 < pairs@.len());
                assert(pairs@[k / 2].0 == c || pairs@[k / 2].1 == c);
            }
            if directly_in(e, c) {
                let i = choose|i: int|
                    0 <= i < pairs@.len() && ((#[trigger] pairs@[i]).0 == c || pairs@[i].1 == c);
                assert(all[2 * i] == pairs@[i].0);
                assert(all[2 * i + 1] == pairs@[i].1);
            }
        },
        ExprKind::Call { callee, args } => {
            assert(all[0] == *callee);
            if all.contains(c) {
                let k = choose|k: int| 0 <= k < all.len() && all[k] == c;
                if k > 0 {
                    assert(gives_expr(args@[k - 1], c));
                }
            }
            if exists|i: int| 0 <= i < args@.len() && gives_expr(#[trigger] args@[i], c) {
                let i = choose|i: int| 0 <= i < args@.len() && gives_expr(#[trigger] args@[i], c);
                assert(all[i + 1] == expr_of_arg(args@[i]));
            }
        },
        ExprKind::Ternary { then, cond, otherwise } => {
            assert(all[0] == *then && all[1] == *cond && all[2] == *otherwise);
        },
        ExprKind::Binary { lhs, rhs, .. } => {
            assert(all[0] == *lhs && all[1] == *rhs);
        },
        ExprKind::Index { base, index } => {
            assert(all[0] == *base && all[1] == *index);
        },
        ExprKind::Unary { operand, .. } => {
            assert(all[0] == *operand);
        },
        ExprKind::Member { base, .. } => {
            assert(all[0] == *base);
        },
        ExprKind::Lambda(l) => {
            assert(all[0] == *l.body);
        },
        ExprKind::Try(inner) => {
            assert(all[0] == *inner);
        },
        ExprKind::Comprehension(x) => {
            match x.output {
                ComprehensionOutput::List(o) => {
                    assert(all[0] == *o && all[1] == *x.iter);
                    if let Some(cond) = x.cond {
                        assert(all[2] == *cond);
                    }
                },
                ComprehensionOutput::SetOut(o) => {
                    assert(all[0] == *o && all[1] == *x.iter);
                    if let Some(cond) = x.cond {
                        assert(all[2] == *cond);
                    }
                },
                ComprehensionOutput::MapOut { key, value } => {
                    assert(all[0] == *key && all[1] == *value && all[2] == *x.iter);
                    if let Some(cond) = x.cond {
                        assert(all[3] == *cond);
                    }
                },
            }
        },
        _ => {},
    }
}

/// The names that the binder of a comprehension binds.
pub open spec fn names_of_binder(b: ComprehensionBinder) -> Seq<Seq<char>> {
    match b {
        ComprehensionBinder::Name(n) => seq![n@],
        ComprehensionBinder::Tuple(names) => texts(names@),
    }
}

/// The names that are bound around the parts of an expression: the parameters of a
/// lambda around its body; those of a comprehension around what it gives and around
/// its filter, not around what it runs over; none around any other part.
pub proof fn law_names_around(e: Expr)
    ensures
        e.kind matches ExprKind::Lambda(l) ==> names_around(e, 0) == texts(l.params@),
        e.kind matches ExprKind::Comprehension(c) ==> {
            let n: int = if c.output is MapOut {
                2
            } else {
                1
            };
            &&& children(e)[n] == *c.iter
            &&& names_around(e, n as nat) == Seq::<Seq<char>>::empty()
            &&& forall|i: nat|
                i < children(e).len() && i != n ==> #[trigger] names_around(e, i)
                    == names_of_binder(c.binder)
        },
        !(e.kind is Lambda) && !(e.kind is Comprehension) ==> forall|i: nat|
            #[trigger] names_around(e, i) == Seq::<Seq<char>>::empty(),
{
}

// ---------------------------------------------------------------------------
// The names of patterns
// ---------------------------------------------------------------------------

/// Whether a pattern binds this name somewhere.
pub open spec fn binds_name(pat: Pattern, name: Seq<char>) -> bool
    decreases pat, 0nat, 0nat,
{
    match pat.kind {
        PatternKind::Binding(n) => n@ == name,
        PatternKind::Variant { subs, .. } => one_binds_name(subs@, 0, name),
        PatternKind::Or(alts) => one_binds_name(alts@, 0, name),
        PatternKind::Tuple(elems) => one_binds_name(elems@, 0, name),
        _ => false,
    }
}

pub open spec fn one_binds_name(pats: Seq<Pattern>, i: nat, name: Seq<char>) -> bool
    decreases pats, 1nat, pats.len() - i,
{
    i < pats.len() && (binds_name(pats[i as int], name) || one_binds_name(pats, i + 1, name))
}

proof fn pushed_contains(names: Seq<Seq<char>>, new: Seq<char>, name: Seq<char>)
    ensures
        names.push(new).contains(name) <==> names.contains(name) || new == name,
{
    let more = names.push(new);
    assert(more[names.len() as int] == new);
    if names.contains(name) {
        let i = choose|i: int| 0 <= i < names.len() && names[i] == name;
        assert(more[i] == name);
    }
    if more.contains(name) && new != name {
        let i = choose|i: int| 0 <= i < more.len() && more[i] == name;
        assert(names[i] == name);
    }
}

proof fn names_collected(pat: Pattern, names: Seq<Seq<char>>, name: Seq<char>)
    ensures
        names_in(pat, names).contains(name) <==> names.contains(name) || binds_name(pat, name),
    decreases pat, 0nat, 0nat,
{
    match pat.kind {
        PatternKind::Binding(n) => {
            pushed_contains(names, n@, name);
        },
        PatternKind::Variant { subs, .. } => {
            all_names_collected(subs@, 0, names, name);
        },
        PatternKind::Or(alts) => {
            all_names_collected(alts@, 0, names, name);
        },
        PatternKind::Tuple(elems) => {
            all_names_collected(elems@, 0, names, name);
        },
        _ => {},
    }
}

proof fn all_names_collected(
    pats: Seq<Pattern>,
    i: nat,
    names: Seq<Seq<char>>,
    name: Seq<char>,
)
    ensures
        names_in_all(pats, i, names).contains(name) <==> names.contains(name) || one_binds_name(
            pats,
            i,
            name,
        ),
    decreases pats, 1nat, pats.len() - i,
{
    if i < pats.len() {
        names_collected(pats[i as int], names, name);
        all_names_collected(pats, i + 1, names_in(pats[i as int], names), name);
    }
}

/// The names that count as bound in an arm of a `match` are just those that its pattern
/// binds somewhere; those of a binder, the name or the names that it has.
pub proof fn law_names_of_patterns(pat: Pattern, b: Binder, name: Seq<char>)
    ensures
        names_of_pattern(pat).contains(name) <==> binds_name(pat, name),
        names_of(b).contains(name) <==> match b {
            Binder::Name(n) => n@ == name,
            Binder::Tuple(ns) => exists|i: int| 0 <= i < ns@.len() && (#[trigger] ns@[i])@ == name,
        },
{
    names_collected(pat, Seq::empty(), name);
    match b {
        Binder::Name(n) => {
            assert(seq![n@][0] == n@);
        },
        Binder::Tuple(ns) => {
            let all = texts(ns@);
            if all.contains(name) {
                let i = choose|i: int| 0 <= i < all.len() && all[i] == name;
                assert(ns@[i]@ == name);
            }
            if exists|i: int| 0 <= i < ns@.len() && (#[trigger] ns@[i])@ == name {
                let i = choose|i: int| 0 <= i < ns@.len() && (#[trigger] ns@[i])@ == name;
                assert(all[i] == name);
            }
        },
    }
}

} // verus!
