//! Laws of the enums that the checks know.

use super::{
    arities, arity_of, enums_in, enums_in_arms, enums_in_methods, enums_in_stmt, enums_of,
    owners_with, Enums,
};
use crate::ast::{result_shape, Block, EnumShape, Expr, FnDecl, Stmt, StmtKind, VariantShape};
use crate::name_map::{bind, law_lookup_after_bind, lookup};
use std::rc::Rc;
use vstd::prelude::*;

verus! {

// ---------------------------------------------------------------------------
// Where enums are declared
// ---------------------------------------------------------------------------

/// Whether one of the statements from place `i` on declares the enum: at its own
/// level, or in the body of a function, a method, an `if`, an `else` or a loop.
pub open spec fn declares(stmts: Seq<Stmt>, i: nat, e: EnumShape) -> bool
    decreases stmts, 1nat, stmts.len() - i,
{
    i < stmts.len() && (stmt_declares(stmts[i as int], e) || declares(stmts, i + 1, e))
}

pub open spec fn stmt_declares(s: Stmt, e: EnumShape) -> bool
    decreases s, 0nat, 0nat,
{
    match s.kind {
        StmtKind::Enum(d) => d@ == e,
        StmtKind::Fn(decl) => declares(decl.body.stmts@, 0, e),
        StmtKind::Impl(d) => methods_declare(d.methods@, 0, e),
        StmtKind::If(c) => arms_declare(c.arms@, 0, e) || (c.else_body matches Some(b) && declares(
            b.stmts@,
            0,
            e,
        )),
        StmtKind::While(l) => declares(l.body.stmts@, 0, e),
        StmtKind::For(l) => declares(l.body.stmts@, 0, e),
        _ => false,
    }
}

pub open spec fn methods_declare(ms: Seq<Rc<FnDecl>>, i: nat, e: EnumShape) -> bool
    decreases ms, 1nat, ms.len() - i,
{
    i < ms.len() && (declares(ms[i as int].body.stmts@, 0, e) || methods_declare(ms, i + 1, e))
}

pub open spec fn arms_declare(arms: Seq<(Expr, Block)>, i: nat, e: EnumShape) -> bool
    decreases arms, 1nat, arms.len() - i,
{
    i < arms.len() && (declares(arms[i as int].1.stmts@, 0, e) || arms_declare(arms, i + 1, e))
}

/// Whether a program has the enum: it declares it, or it is the prelude's `Result`.
pub open spec fn program_has(stmts: Seq<Stmt>, e: EnumShape) -> bool {
    e == result_shape() || declares(stmts, 0, e)
}

/// Whether an enum has a variant of this name.
pub open spec fn shape_has(e: EnumShape, variant: Seq<char>) -> bool {
    variants_have(e.variants, 0, variant)
}

pub open spec fn variants_have(vs: Seq<VariantShape>, i: nat, variant: Seq<char>) -> bool {
    exists|j: int| i <= j < vs.len() && (#[trigger] vs[j]).name == variant
}

// ---------------------------------------------------------------------------
// What is known of them
// ---------------------------------------------------------------------------

/// Whether what is known is right for the enums that `has` holds of: what is known of
/// a name comes from one of them, of each of them something is known, and a variant
/// has an owner just if all that have it are of one name.
spec fn right(info: Enums, has: spec_fn(EnumShape) -> bool) -> bool {
    &&& forall|n: Seq<char>|
        (#[trigger] lookup(info.enums, n)) matches Some(vs) ==> exists|e: EnumShape|
            #[trigger] has(e) && e.name == n && arities(e.variants) == vs
    &&& forall|e: EnumShape| #[trigger] has(e) ==> lookup(info.enums, e.name) is Some
    &&& forall|v: Seq<char>|
        (#[trigger] lookup(info.owners, v)) is None ==> forall|e: EnumShape|
            #[trigger] has(e) ==> !shape_has(e, v)
    &&& forall|v: Seq<char>|
        (#[trigger] lookup(info.owners, v)) matches Some(Some(o)) ==> (exists|e: EnumShape|
            #[trigger] has(e) && shape_has(e, v)) && forall|e: EnumShape|
            #[trigger] has(e) && shape_has(e, v) ==> e.name == o
    &&& forall|v: Seq<char>|
        (#[trigger] lookup(info.owners, v)) matches Some(None) ==> exists|e: EnumShape, f: EnumShape|
            #[trigger] has(e) && #[trigger] has(f) && shape_has(e, v) && shape_has(f, v) && e.name
                != f.name
}

proof fn owners_after(
    owners: Seq<(Seq<char>, Option<Seq<char>>)>,
    vs: Seq<VariantShape>,
    name: Seq<char>,
    i: nat,
    v: Seq<char>,
)
    ensures
        lookup(owners_with(owners, vs, name, i), v) == (if !variants_have(vs, i, v) {
            lookup(owners, v)
        } else {
            match lookup(owners, v) {
                None => Some(Some(name)),
                Some(was) => if was == Some(name) {
                    Some(was)
                } else {
                    Some(None)
                },
            }
        }),
    decreases vs.len() - i,
{
    if i < vs.len() {
        let n = vs[i as int].name;
        let next = match lookup(owners, n) {
            None => bind(owners, n, Some(name)),
            Some(was) => if was == Some(name) {
                owners
            } else {
                bind(owners, n, None)
            },
        };
        law_lookup_after_bind(owners, n, Some(name), v);
        law_lookup_after_bind(owners, n, None, v);
        owners_after(next, vs, name, i + 1, v);
        assert(variants_have(vs, i, v) <==> n == v || variants_have(vs, i + 1, v)) by {
            if variants_have(vs, i, v) {
                let j = choose|j: int| i <= j < vs.len() && (#[trigger] vs[j]).name == v;
                if j != i {
                    assert(vs[j].name == v);
                }
            }
            if n == v {
                assert(vs[i as int].name == v);
            }
        }
    }
}

proof fn right_with(
    info: Enums,
    has: spec_fn(EnumShape) -> bool,
    e: EnumShape,
    more: spec_fn(EnumShape) -> bool,
)
    requires
        right(info, has),
        forall|x: EnumShape| #[trigger] more(x) <==> has(x) || x == e,
    ensures
        right(info.with_enum(e), more),
{
    let after = info.with_enum(e);
    assert(more(e));
    assert forall|n: Seq<char>| (#[trigger] lookup(after.enums, n)) matches Some(vs) implies exists|
        x: EnumShape,
    | #[trigger] more(x) && x.name == n && arities(x.variants) == lookup(after.enums, n)->0 by {
        law_lookup_after_bind(info.enums, e.name, arities(e.variants), n);
        if n != e.name {
            let x = choose|x: EnumShape|
                #[trigger] has(x) && x.name == n && arities(x.variants) == lookup(
                    info.enums,
                    n,
                )->0;
            assert(more(x));
        }
    }
    assert forall|x: EnumShape| #[trigger] more(x) implies lookup(after.enums, x.name) is Some by {
        law_lookup_after_bind(info.enums, e.name, arities(e.variants), x.name);
        if x != e {
            assert(has(x));
        }
    }
    assert forall|v: Seq<char>| (#[trigger] lookup(after.owners, v)) is None implies forall|
        x: EnumShape,
    | #[trigger] more(x) ==> !shape_has(x, v) by {
        owners_after(info.owners, e.variants, e.name, 0, v);
        assert forall|x: EnumShape| #[trigger] more(x) implies !shape_has(x, v) by {
            if x != e {
                assert(has(x));
            }
        }
    }
    assert forall|v: Seq<char>| (#[trigger] lookup(after.owners, v)) matches Some(Some(o)) implies (
    exists|x: EnumShape| #[trigger] more(x) && shape_has(x, v)) && forall|x: EnumShape|
        #[trigger] more(x) && shape_has(x, v) ==> x.name == lookup(after.owners, v)->0->0 by {
        owners_after(info.owners, e.variants, e.name, 0, v);
        if !shape_has(e, v) || lookup(info.owners, v) is Some {
            let x = choose|x: EnumShape| #[trigger] has(x) && shape_has(x, v);
            assert(more(x));
        }
        assert forall|x: EnumShape| #[trigger] more(x) && shape_has(x, v) implies x.name == lookup(
            after.owners,
            v,
        )->0->0 by {
            if x != e {
                assert(has(x));
            }
        }
    }
    assert forall|v: Seq<char>| (#[trigger] lookup(after.owners, v)) == Some(
        None::<Seq<char>>,
    ) implies exists|x: EnumShape, y: EnumShape|
        #[trigger] more(x) && #[trigger] more(y) && shape_has(x, v) && shape_has(y, v) && x.name
            != y.name by {
        owners_after(info.owners, e.variants, e.name, 0, v);
        if lookup(info.owners, v) == Some(None::<Seq<char>>) {
            let (x, y) = choose|x: EnumShape, y: EnumShape|
                #[trigger] has(x) && #[trigger] has(y) && shape_has(x, v) && shape_has(y, v)
                    && x.name != y.name;
            assert(more(x) && more(y));
        } else {
            let x = choose|x: EnumShape| #[trigger] has(x) && shape_has(x, v);
            assert(more(x));
        }
    }
}

proof fn right_same(
    info: Enums,
    has: spec_fn(EnumShape) -> bool,
    more: spec_fn(EnumShape) -> bool,
)
    requires
        right(info, has),
        forall|x: EnumShape| #[trigger] more(x) <==> has(x),
    ensures
        right(info, more),
{
    assert(more =~= has);
}

proof fn right_stmts(
    stmts: Seq<Stmt>,
    i: nat,
    info: Enums,
    has: spec_fn(EnumShape) -> bool,
)
    requires
        right(info, has),
    ensures
        right(enums_in(stmts, i, info), |e: EnumShape| has(e) || declares(stmts, i, e)),
    decreases stmts, 1nat, stmts.len() - i,
{
    let all = |e: EnumShape| has(e) || declares(stmts, i, e);
    if i < stmts.len() {
        let s = stmts[i as int];
        right_stmt(s, info, has);
        let one = |e: EnumShape| has(e) || stmt_declares(s, e);
        right_stmts(stmts, i + 1, enums_in_stmt(s, info), one);
        right_same(
            enums_in(stmts, i, info),
            |e: EnumShape| one(e) || declares(stmts, i + 1, e),
            all,
        );
    } else {
        right_same(info, has, all);
    }
}

proof fn right_stmt(s: Stmt, info: Enums, has: spec_fn(EnumShape) -> bool)
    requires
        right(info, has),
    ensures
        right(enums_in_stmt(s, info), |e: EnumShape| has(e) || stmt_declares(s, e)),
    decreases s, 0nat, 0nat,
{
    let all = |e: EnumShape| has(e) || stmt_declares(s, e);
    let after = enums_in_stmt(s, info);
    match s.kind {
        StmtKind::Enum(d) => {
            right_with(info, has, d@, all);
        },
        StmtKind::Fn(decl) => {
            right_stmts(decl.body.stmts@, 0, info, has);
            right_same(after, |e: EnumShape| has(e) || declares(decl.body.stmts@, 0, e), all);
        },
        StmtKind::Impl(d) => {
            right_methods(d.methods@, 0, info, has);
            right_same(after, |e: EnumShape| has(e) || methods_declare(d.methods@, 0, e), all);
        },
        StmtKind::If(c) => {
            right_arms(c.arms@, 0, info, has);
            let arms = |e: EnumShape| has(e) || arms_declare(c.arms@, 0, e);
            match c.else_body {
                Some(b) => {
                    right_stmts(b.stmts@, 0, enums_in_arms(c.arms@, 0, info), arms);
                    right_same(after, |e: EnumShape| arms(e) || declares(b.stmts@, 0, e), all);
                },
                None => {
                    right_same(after, arms, all);
                },
            }
        },
        StmtKind::While(l) => {
            right_stmts(l.body.stmts@, 0, info, has);
            right_same(after, |e: EnumShape| has(e) || declares(l.body.stmts@, 0, e), all);
        },
        StmtKind::For(l) => {
            right_stmts(l.body.stmts@, 0, info, has);
            right_same(after, |e: EnumShape| has(e) || declares(l.body.stmts@, 0, e), all);
        },
        _ => {
            right_same(info, has, all);
        },
    }
}

proof fn right_methods(
    ms: Seq<Rc<FnDecl>>,
    i: nat,
    info: Enums,
    has: spec_fn(EnumShape) -> bool,
)
    requires
        right(info, has),
    ensures
        right(enums_in_methods(ms, i, info), |e: EnumShape| has(e) || methods_declare(ms, i, e)),
    decreases ms, 1nat, ms.len() - i,
{
    let all = |e: EnumShape| has(e) || methods_declare(ms, i, e);
    if i < ms.len() {
        let body = ms[i as int].body.stmts@;
        right_stmts(body, 0, info, has);
        let one = |e: EnumShape| has(e) || declares(body, 0, e);
        right_methods(ms, i + 1, enums_in(body, 0, info), one);
        right_same(
            enums_in_methods(ms, i, info),
            |e: EnumShape| one(e) || methods_declare(ms, i + 1, e),
            all,
        );
    } else {
        right_same(info, has, all);
    }
}

proof fn right_arms(
    arms: Seq<(Expr, Block)>,
    i: nat,
    info: Enums,
    has: spec_fn(EnumShape) -> bool,
)
    requires
        right(info, has),
    ensures
        right(enums_in_arms(arms, i, info), |e: EnumShape| has(e) || arms_declare(arms, i, e)),
    decreases arms, 1nat, arms.len() - i,
{
    let all = |e: EnumShape| has(e) || arms_declare(arms, i, e);
    if i < arms.len() {
        let body = arms[i as int].1.stmts@;
        right_stmts(body, 0, info, has);
        let one = |e: EnumShape| has(e) || declares(body, 0, e);
        right_arms(arms, i + 1, enums_in(body, 0, info), one);
        right_same(
            enums_in_arms(arms, i, info),
            |e: EnumShape| one(e) || arms_declare(arms, i + 1, e),
            all,
        );
    } else {
        right_same(info, has, all);
    }
}

proof fn right_program(stmts: Seq<Stmt>)
    ensures
        right(enums_of(stmts), |e: EnumShape| program_has(stmts, e)),
{
    let none = |e: EnumShape| false;
    let first = |e: EnumShape| e == result_shape();
    assert(right(Enums::none(), none)) by {
        assert(forall|n: Seq<char>| #[trigger] lookup(Enums::none().enums, n) is None);
        assert(forall|n: Seq<char>| #[trigger] lookup(Enums::none().owners, n) is None);
    }
    right_with(Enums::none(), none, result_shape(), first);
    right_stmts(stmts, 0, Enums::none().with_enum(result_shape()), first);
    right_same(
        enums_of(stmts),
        |e: EnumShape| first(e) || declares(stmts, 0, e),
        |e: EnumShape| program_has(stmts, e),
    );
}

/// Every enum that a program has is known to the checks, wherever it is declared, with
/// its variants and the sizes of their payloads; and nothing else is. Of several
/// with one name, one is known.
pub proof fn law_every_enum_is_known(stmts: Seq<Stmt>, name: Seq<char>)
    ensures
        lookup(enums_of(stmts).enums, name) is Some <==> exists|e: EnumShape|
            #[trigger] program_has(stmts, e) && e.name == name,
        lookup(enums_of(stmts).enums, name) matches Some(vs) ==> exists|e: EnumShape|
            #[trigger] program_has(stmts, e) && e.name == name && vs.len() == e.variants.len()
                && forall|i: int|
                0 <= i < vs.len() ==> #[trigger] vs[i] == (
                    e.variants[i].name,
                    arity_of(e.variants[i].payload),
                ),
{
    right_program(stmts);
    let has = |e: EnumShape| program_has(stmts, e);
    let info = enums_of(stmts);
    if let Some(vs) = lookup(info.enums, name) {
        let e = choose|e: EnumShape| #[trigger] has(e) && e.name == name && arities(e.variants) == vs;
        assert(program_has(stmts, e));
    }
    if exists|e: EnumShape| #[trigger] program_has(stmts, e) && e.name == name {
        let e = choose|e: EnumShape| #[trigger] program_has(stmts, e) && e.name == name;
        assert(has(e));
    }
}

/// A variant's name alone stands for an enum just if all enums of the program that
/// have such a variant are of one name.
pub proof fn law_variant_owner(stmts: Seq<Stmt>, variant: Seq<char>, name: Seq<char>)
    ensures
        enums_of(stmts).owner(variant) == Some(name) <==> (exists|e: EnumShape|
            #[trigger] program_has(stmts, e) && shape_has(e, variant)) && forall|e: EnumShape|
            #[trigger] program_has(stmts, e) && shape_has(e, variant) ==> e.name == name,
{
    right_program(stmts);
    let has = |e: EnumShape| program_has(stmts, e);
    let info = enums_of(stmts);
    match lookup(info.owners, variant) {
        None => {
            assert forall|e: EnumShape| #[trigger] program_has(stmts, e) implies !shape_has(
                e,
                variant,
            ) by {
                assert(has(e));
            }
        },
        Some(Some(o)) => {
            let e = choose|e: EnumShape| #[trigger] has(e) && shape_has(e, variant);
            assert(program_has(stmts, e));
            assert forall|e: EnumShape|
                #[trigger] program_has(stmts, e) && shape_has(e, variant) implies e.name == o by {
                assert(has(e));
            }
        },
        Some(None) => {
            let (e, f) = choose|e: EnumShape, f: EnumShape|
                #[trigger] has(e) && #[trigger] has(f) && shape_has(e, variant) && shape_has(
                    f,
                    variant,
                ) && e.name != f.name;
            assert(program_has(stmts, e) && program_has(stmts, f));
        },
    }
}

} // verus!
