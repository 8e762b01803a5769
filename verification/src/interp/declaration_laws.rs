//! The order of declarations does not matter.

use super::registry::{gives, Decls};
use super::registry_laws::{
    after_impl, after_type, defaults_keep_types, impls_keep_types, last_named, law_trait_defaults,
    methods_keep_types, nth, same_types,
};
use crate::ast::{
    result_shape, EnumShape, FnDecl, ImplDecl, Stmt, StmtKind, StructShape, TraitDecl, VariantShape,
};
use crate::name_map::{bind, law_lookup_after_bind, lookup};
use std::rc::Rc;
use vstd::prelude::*;

verus! {

// ---------------------------------------------------------------------------
// What a statement declares
// ---------------------------------------------------------------------------

/// The struct of this name, if the statement declares it.
pub open spec fn struct_at(s: Stmt, name: Seq<char>) -> Option<StructShape> {
    match s.kind {
        StmtKind::Struct(d) => if d@.name == name {
            Some(d@)
        } else {
            None
        },
        _ => None,
    }
}

/// The enum of this name, if the statement declares it.
pub open spec fn enum_at(s: Stmt, name: Seq<char>) -> Option<EnumShape> {
    match s.kind {
        StmtKind::Enum(d) => if d@.name == name {
            Some(d@)
        } else {
            None
        },
        _ => None,
    }
}

/// The trait of this name, if the statement declares it.
pub open spec fn trait_at(s: Stmt, name: Seq<char>) -> Option<TraitDecl> {
    match s.kind {
        StmtKind::Trait(t) => if t.name@ == name {
            Some(*t)
        } else {
            None
        },
        _ => None,
    }
}

/// Whether one of the variants has this name.
pub open spec fn has_variant(vs: Seq<VariantShape>, name: Seq<char>, i: nat) -> bool {
    exists|j: int| i <= j < vs.len() && (#[trigger] vs[j]).name == name
}

/// The enum that the statement declares, if it has a variant of this name.
pub open spec fn owner_at(s: Stmt, variant: Seq<char>) -> Option<Seq<char>> {
    match s.kind {
        StmtKind::Enum(d) => if has_variant(d@.variants, variant, 0) {
            Some(d@.name)
        } else {
            None
        },
        _ => None,
    }
}

/// The defaults of the trait that an impl is of; none if the trait is unknown.
pub open spec fn defaults_known(
    traits: Seq<(Seq<char>, TraitDecl)>,
    trait_name: Option<String>,
) -> Seq<Rc<FnDecl>> {
    match trait_name {
        Some(t) => match lookup(traits, t@) {
            Some(tr) => tr.defaults@,
            None => Seq::empty(),
        },
        None => Seq::empty(),
    }
}

/// The method of this name that an impl gives its type: its own, else the default
/// of its trait.
pub open spec fn method_of_impl(
    traits: Seq<(Seq<char>, TraitDecl)>,
    d: ImplDecl,
    name: Seq<char>,
) -> Option<FnDecl> {
    if gives(d.methods@, name) {
        last_named(d.methods@, name, 0, None)
    } else {
        last_named(defaults_known(traits, d.trait_name), name, 0, None)
    }
}

/// The method that the statement gives a type, if it is an impl for it.
pub open spec fn method_at(
    traits: Seq<(Seq<char>, TraitDecl)>,
    s: Stmt,
    owner: Seq<char>,
    name: Seq<char>,
) -> Option<FnDecl> {
    match s.kind {
        StmtKind::Impl(d) => if d.for_type@ == owner {
            method_of_impl(traits, d, name)
        } else {
            None
        },
        _ => None,
    }
}

// ---------------------------------------------------------------------------
// What a program declares
// ---------------------------------------------------------------------------

/// Whether what is found is what one of the statements from place `i` on declares,
/// or what was there before, if none of them declares it.
spec fn from_one<T>(
    stmts: Seq<Stmt>,
    i: nat,
    f: spec_fn(Stmt) -> Option<T>,
    before: Option<T>,
    found: Option<T>,
) -> bool {
    ||| found == before && forall|j: int| i <= j < stmts.len() ==> f(#[trigger] stmts[j]) is None
    ||| found is Some && exists|j: int| i <= j < stmts.len() && f(#[trigger] stmts[j]) == found
}

/// One more statement in front.
proof fn from_next<T>(
    stmts: Seq<Stmt>,
    i: nat,
    f: spec_fn(Stmt) -> Option<T>,
    before: Option<T>,
    next: Option<T>,
    found: Option<T>,
)
    requires
        i < stmts.len(),
        next == (match f(stmts[i as int]) {
            Some(t) => Some(t),
            None => before,
        }),
        from_one(stmts, i + 1, f, next, found),
    ensures
        from_one(stmts, i, f, before, found),
{
    if found == next && forall|j: int|
        i + 1 <= j < stmts.len() ==> f(#[trigger] stmts[j]) is None {
        if f(stmts[i as int]) is None {
            assert forall|j: int| i <= j < stmts.len() implies f(#[trigger] stmts[j]) is None by {}
        } else {
            assert(f(stmts[i as int]) == found);
        }
    }
}

/// Whether the statements declare a thing in one way.
spec fn one_way<T>(stmts: Seq<Stmt>, f: spec_fn(Stmt) -> Option<T>) -> bool {
    forall|i: int, j: int|
        0 <= i < stmts.len() && 0 <= j < stmts.len() && f(#[trigger] stmts[i]) is Some && f(
            #[trigger] stmts[j],
        ) is Some ==> f(stmts[i]) == f(stmts[j])
}

/// Whether two programs have the same statements, in whatever order.
pub open spec fn same_statements(a: Seq<Stmt>, b: Seq<Stmt>) -> bool {
    forall|s: Stmt| #[trigger] a.contains(s) <==> b.contains(s)
}

proof fn same_found<T>(
    a: Seq<Stmt>,
    b: Seq<Stmt>,
    f: spec_fn(Stmt) -> Option<T>,
    g: spec_fn(Stmt) -> Option<T>,
    before: Option<T>,
    x: Option<T>,
    y: Option<T>,
)
    requires
        same_statements(a, b),
        forall|s: Stmt| #[trigger] f(s) == g(s),
        one_way(a, f),
        from_one(a, 0, f, before, x),
        from_one(b, 0, g, before, y),
    ensures
        x == y,
{
    if exists|j: int| 0 <= j < b.len() && g(#[trigger] b[j]) is Some {
        let j = choose|j: int|
            0 <= j < b.len() && g(#[trigger] b[j]) is Some && (y is Some ==> g(b[j]) == y);
        if !(0 <= j < b.len() && g(b[j]) is Some && (y is Some ==> g(b[j]) == y)) {
            let k = choose|k: int| 0 <= k < b.len() && g(#[trigger] b[k]) is Some;
            assert(g(b[k]) is Some);
        }
        assert(b.contains(b[j]));
        assert(a.contains(b[j]));
        let i = choose|i: int| 0 <= i < a.len() && a[i] == b[j];
        assert(f(a[i]) == g(b[j]));
        assert(f(a[i]) is Some);
        assert(!(forall|m: int| 0 <= m < b.len() ==> g(#[trigger] b[m]) is None));
        assert(!(forall|m: int| 0 <= m < a.len() ==> f(#[trigger] a[m]) is None));
        let m = choose|m: int| 0 <= m < a.len() && f(#[trigger] a[m]) == x;
        assert(f(a[m]) == f(a[i]));
    } else {
        assert forall|m: int| 0 <= m < a.len() implies f(#[trigger] a[m]) is None by {
            assert(a.contains(a[m]));
            assert(b.contains(a[m]));
            let j = choose|j: int| 0 <= j < b.len() && b[j] == a[m];
            assert(g(b[j]) is None);
        }
        if y is Some && y != before {
            let j = choose|j: int| 0 <= j < b.len() && g(#[trigger] b[j]) == y;
            assert(g(b[j]) is None);
        }
    }
}

proof fn variants_bind(
    reg: Decls,
    vs: Seq<VariantShape>,
    enum_name: Seq<char>,
    i: nat,
    name: Seq<char>,
)
    ensures
        ({
            let after = reg.with_variants(vs, enum_name, i);
            &&& after.structs == reg.structs
            &&& after.enums == reg.enums
            &&& after.traits == reg.traits
            &&& after.methods == reg.methods
            &&& after.ord_types == reg.ord_types
            &&& lookup(after.variant_to_enum, name) == (if has_variant(vs, name, i) {
                Some(enum_name)
            } else {
                lookup(reg.variant_to_enum, name)
            })
        }),
    decreases vs.len() - i,
{
    if i < vs.len() {
        let v = vs[i as int].name;
        let next = Decls { variant_to_enum: bind(reg.variant_to_enum, v, enum_name), ..reg };
        law_lookup_after_bind(reg.variant_to_enum, v, enum_name, name);
        variants_bind(next, vs, enum_name, i + 1, name);
        if has_variant(vs, name, i) && !has_variant(vs, name, i + 1) {
            let j = choose|j: int| i <= j < vs.len() && (#[trigger] vs[j]).name == name;
            assert(j == i);
        } else if has_variant(vs, name, i + 1) {
            let j = choose|j: int| i + 1 <= j < vs.len() && (#[trigger] vs[j]).name == name;
            assert(vs[j].name == name);
        } else if v == name {
            assert(vs[i as int].name == name);
            assert(has_variant(vs, name, i));
        }
    }
}

/// What one statement does to each table.
proof fn type_step(reg: Decls, s: Stmt, name: Seq<char>)
    ensures
        ({
            let next = after_type(reg, s);
            &&& lookup(next.structs, name) == (match struct_at(s, name) {
                Some(d) => Some(d),
                None => lookup(reg.structs, name),
            })
            &&& lookup(next.enums, name) == (match enum_at(s, name) {
                Some(d) => Some(d),
                None => lookup(reg.enums, name),
            })
            &&& lookup(next.traits, name) == (match trait_at(s, name) {
                Some(d) => Some(d),
                None => lookup(reg.traits, name),
            })
            &&& lookup(next.variant_to_enum, name) == (match owner_at(s, name) {
                Some(d) => Some(d),
                None => lookup(reg.variant_to_enum, name),
            })
            &&& next.ordered(name) == (orders(s, name) || reg.ordered(name))
            &&& next.methods == reg.methods
        }),
{
    match s.kind {
        StmtKind::Struct(d) => {
            law_lookup_after_bind(reg.structs, d@.name, d@, name);
            order_step(reg.ord_types, d@.name, name);
        },
        StmtKind::Enum(d) => {
            variants_bind(reg, d@.variants, d@.name, 0, name);
            let named = reg.with_variants(d@.variants, d@.name, 0);
            law_lookup_after_bind(named.enums, d@.name, d@, name);
            order_step(reg.ord_types, d@.name, name);
        },
        StmtKind::Trait(t) => {
            law_lookup_after_bind(reg.traits, t.name@, trait_at(s, t.name@)->0, name);
        },
        _ => {},
    }
}

/// Whether the statement declares a type of this name that derives `Ord`.
pub open spec fn orders(s: Stmt, name: Seq<char>) -> bool {
    ||| struct_at(s, name) matches Some(d) && d.derives.contains("Ord"@)
    ||| enum_at(s, name) matches Some(d) && d.derives.contains("Ord"@)
}

proof fn order_step(ord_types: Seq<Seq<char>>, new: Seq<char>, name: Seq<char>)
    ensures
        ord_types.push(new).contains(name) == (new == name || ord_types.contains(name)),
{
    let more = ord_types.push(new);
    if ord_types.contains(name) {
        let i = choose|i: int| 0 <= i < ord_types.len() && ord_types[i] == name;
        assert(more[i] == name);
    }
    if new == name {
        assert(more[ord_types.len() as int] == name);
    }
    if more.contains(name) {
        let i = choose|i: int| 0 <= i < more.len() && more[i] == name;
        assert(i < ord_types.len() ==> ord_types[i] == name);
    }
}

proof fn types_found(reg: Decls, stmts: Seq<Stmt>, i: nat, name: Seq<char>)
    ensures
        ({
            let after = reg.with_types(stmts, i);
            &&& from_one(
                stmts,
                i,
                |s: Stmt| struct_at(s, name),
                lookup(reg.structs, name),
                lookup(after.structs, name),
            )
            &&& from_one(
                stmts,
                i,
                |s: Stmt| enum_at(s, name),
                lookup(reg.enums, name),
                lookup(after.enums, name),
            )
            &&& from_one(
                stmts,
                i,
                |s: Stmt| trait_at(s, name),
                lookup(reg.traits, name),
                lookup(after.traits, name),
            )
            &&& from_one(
                stmts,
                i,
                |s: Stmt| owner_at(s, name),
                lookup(reg.variant_to_enum, name),
                lookup(after.variant_to_enum, name),
            )
            &&& after.ordered(name) == (reg.ordered(name) || exists|j: int|
                i <= j < stmts.len() && orders(#[trigger] stmts[j], name))
            &&& after.methods == reg.methods
        }),
    decreases stmts.len() - i,
{
    if i < stmts.len() {
        let s = stmts[i as int];
        let next = after_type(reg, s);
        let after = reg.with_types(stmts, i);
        type_step(reg, s, name);
        types_found(next, stmts, i + 1, name);
        assert(after == next.with_types(stmts, i + 1));
        from_next(
            stmts,
            i,
            |s: Stmt| struct_at(s, name),
            lookup(reg.structs, name),
            lookup(next.structs, name),
            lookup(after.structs, name),
        );
        from_next(
            stmts,
            i,
            |s: Stmt| enum_at(s, name),
            lookup(reg.enums, name),
            lookup(next.enums, name),
            lookup(after.enums, name),
        );
        from_next(
            stmts,
            i,
            |s: Stmt| trait_at(s, name),
            lookup(reg.traits, name),
            lookup(next.traits, name),
            lookup(after.traits, name),
        );
        from_next(
            stmts,
            i,
            |s: Stmt| owner_at(s, name),
            lookup(reg.variant_to_enum, name),
            lookup(next.variant_to_enum, name),
            lookup(after.variant_to_enum, name),
        );
        if orders(s, name) {
            assert(orders(stmts[i as int], name));
        }
    }
}

proof fn last_or(ms: Seq<Rc<FnDecl>>, name: Seq<char>, i: nat, found: Option<FnDecl>)
    ensures
        last_named(ms, name, i, found) == (match last_named(ms, name, i, None) {
            Some(f) => Some(f),
            None => found,
        }),
    decreases ms.len() - i,
{
    if i < ms.len() {
        let next = if ms[i as int].name@ == name {
            Some(nth(ms, i))
        } else {
            None
        };
        last_or(ms, name, i + 1, found);
        last_or(ms, name, i + 1, next);
    }
}

/// What one impl does to the methods.
proof fn impl_step(reg: Decls, s: Stmt, owner: Seq<char>, name: Seq<char>)
    ensures
        after_impl(reg, s).method(owner, name) == (match method_at(reg.traits, s, owner, name) {
            Some(f) => Some(f),
            None => reg.method(owner, name),
        }),
        same_types(after_impl(reg, s), reg),
{
    if let StmtKind::Impl(d) = s.kind {
        let (to, ms) = (d.for_type@, d.methods@);
        let own = reg.with_methods(to, ms, 0);
        methods_keep_types(reg, to, ms, 0);
        let defaults = defaults_known(reg.traits, d.trait_name);
        defaults_keep_types(own, to, ms, defaults, 0);
        law_trait_defaults(reg, to, ms, defaults, owner, name);
        let none = Seq::<Rc<FnDecl>>::empty();
        assert(own.with_defaults(to, ms, none, 0) == own);
        assert(after_impl(reg, s) == own.with_defaults(to, ms, defaults, 0));
        last_or(defaults, name, 0, reg.method(owner, name));
        if owner == to && gives(ms, name) {
            let j = choose|j: int| 0 <= j < ms.len() && (#[trigger] ms[j]).name@ == name;
            gives_last(ms, name, 0, None, j as nat);
        }
    }
}

proof fn gives_last(
    ms: Seq<Rc<FnDecl>>,
    name: Seq<char>,
    i: nat,
    found: Option<FnDecl>,
    j: nat,
)
    requires
        found is Some || (i <= j < ms.len() && ms[j as int].name@ == name),
    ensures
        last_named(ms, name, i, found) is Some,
    decreases ms.len() - i,
{
    if i < ms.len() {
        let next = if ms[i as int].name@ == name {
            Some(nth(ms, i))
        } else {
            found
        };
        gives_last(ms, name, i + 1, next, j);
    }
}

proof fn methods_found(reg: Decls, stmts: Seq<Stmt>, i: nat, owner: Seq<char>, name: Seq<char>)
    ensures
        from_one(
            stmts,
            i,
            |s: Stmt| method_at(reg.traits, s, owner, name),
            reg.method(owner, name),
            reg.with_impls(stmts, i).method(owner, name),
        ),
    decreases stmts.len() - i,
{
    if i < stmts.len() {
        let s = stmts[i as int];
        let next = after_impl(reg, s);
        impl_step(reg, s, owner, name);
        methods_found(next, stmts, i + 1, owner, name);
        assert(reg.with_impls(stmts, i) == next.with_impls(stmts, i + 1));
        from_next(
            stmts,
            i,
            |s: Stmt| method_at(reg.traits, s, owner, name),
            reg.method(owner, name),
            next.method(owner, name),
            reg.with_impls(stmts, i).method(owner, name),
        );
    }
}

/// The traits that a program declares.
pub open spec fn traits_of(stmts: Seq<Stmt>) -> Seq<(Seq<char>, TraitDecl)> {
    Decls::none().with_types(stmts, 0).traits
}

proof fn collected_found(stmts: Seq<Stmt>, owner: Seq<char>, name: Seq<char>)
    ensures
        from_one(
            stmts,
            0,
            |s: Stmt| method_at(traits_of(stmts), s, owner, name),
            None,
            Decls::none().collected(stmts).method(owner, name),
        ),
{
    let typed = Decls::none().with_types(stmts, 0);
    let known = typed.with_enum(result_shape());
    types_found(Decls::none(), stmts, 0, name);
    variants_bind(typed, result_shape().variants, "Result"@, 0, name);
    methods_found(known, stmts, 0, owner, name);
    assert(known.method(owner, name) is None);
}

// ---------------------------------------------------------------------------
// The laws
// ---------------------------------------------------------------------------

/// A type has the method that the one impl for it that gives such a method gives
/// it, its own or the default of its trait, whatever other impls there are and
/// wherever they stand.
pub proof fn law_method_of_an_impl(
    stmts: Seq<Stmt>,
    s: Stmt,
    d: ImplDecl,
    name: Seq<char>,
)
    requires
        stmts.contains(s),
        s.kind == StmtKind::Impl(d),
        method_of_impl(traits_of(stmts), d, name) is Some,
        forall|i: int|
            0 <= i < stmts.len() && method_at(
                traits_of(stmts),
                #[trigger] stmts[i],
                d.for_type@,
                name,
            ) is Some ==> stmts[i] == s,
    ensures
        Decls::none().collected(stmts).method(d.for_type@, name) == method_of_impl(
            traits_of(stmts),
            d,
            name,
        ),
{
    collected_found(stmts, d.for_type@, name);
    let f = |s: Stmt| method_at(traits_of(stmts), s, d.for_type@, name);
    let k = choose|k: int| 0 <= k < stmts.len() && stmts[k] == s;
    assert(f(stmts[k]) is Some);
    let found = Decls::none().collected(stmts).method(d.for_type@, name);
    assert(exists|j: int| 0 <= j < stmts.len() && f(#[trigger] stmts[j]) == found);
    let j = choose|j: int| 0 <= j < stmts.len() && f(#[trigger] stmts[j]) == found;
    assert(method_at(traits_of(stmts), stmts[j], d.for_type@, name) is Some);
}

/// A type for which one impl stands in the program has just the methods that this
/// impl gives and the defaults of its trait that it does not give.
pub proof fn law_methods_of_one_impl(
    stmts: Seq<Stmt>,
    s: Stmt,
    d: ImplDecl,
    name: Seq<char>,
)
    requires
        stmts.contains(s),
        s.kind == StmtKind::Impl(d),
        forall|i: int|
            0 <= i < stmts.len() ==> ((#[trigger] stmts[i]).kind matches StmtKind::Impl(e)
                ==> e.for_type@ == d.for_type@ ==> stmts[i] == s),
    ensures
        Decls::none().collected(stmts).method(d.for_type@, name) == (if gives(d.methods@, name) {
            last_named(d.methods@, name, 0, None)
        } else {
            last_named(defaults_known(traits_of(stmts), d.trait_name), name, 0, None)
        }),
{
    if method_of_impl(traits_of(stmts), d, name) is Some {
        law_method_of_an_impl(stmts, s, d, name);
    } else {
        collected_found(stmts, d.for_type@, name);
        let f = |s: Stmt| method_at(traits_of(stmts), s, d.for_type@, name);
        let found = Decls::none().collected(stmts).method(d.for_type@, name);
        if found is Some {
            let j = choose|j: int| 0 <= j < stmts.len() && f(#[trigger] stmts[j]) == found;
            assert(f(stmts[j]) is None);
        }
    }
}

/// Whether each thing that a program declares, it declares in one way: a name has
/// one struct, one enum and one trait, a variant one enum, and a type gets a method
/// from one impl.
pub open spec fn declares_once(stmts: Seq<Stmt>) -> bool {
    &&& forall|i: int, j: int, n: Seq<char>|
        #![trigger struct_at(stmts[i], n), struct_at(stmts[j], n)]
        0 <= i < stmts.len() && 0 <= j < stmts.len() && struct_at(stmts[i], n) is Some && struct_at(
            stmts[j],
            n,
        ) is Some ==> struct_at(stmts[i], n) == struct_at(stmts[j], n)
    &&& forall|i: int, j: int, n: Seq<char>|
        #![trigger enum_at(stmts[i], n), enum_at(stmts[j], n)]
        0 <= i < stmts.len() && 0 <= j < stmts.len() && enum_at(stmts[i], n) is Some && enum_at(
            stmts[j],
            n,
        ) is Some ==> enum_at(stmts[i], n) == enum_at(stmts[j], n)
    &&& forall|i: int, j: int, n: Seq<char>|
        #![trigger trait_at(stmts[i], n), trait_at(stmts[j], n)]
        0 <= i < stmts.len() && 0 <= j < stmts.len() && trait_at(stmts[i], n) is Some && trait_at(
            stmts[j],
            n,
        ) is Some ==> trait_at(stmts[i], n) == trait_at(stmts[j], n)
    &&& forall|i: int, j: int, n: Seq<char>|
        #![trigger owner_at(stmts[i], n), owner_at(stmts[j], n)]
        0 <= i < stmts.len() && 0 <= j < stmts.len() && owner_at(stmts[i], n) is Some && owner_at(
            stmts[j],
            n,
        ) is Some ==> owner_at(stmts[i], n) == owner_at(stmts[j], n)
    &&& forall|i: int, j: int, t: Seq<char>, n: Seq<char>|
        #![trigger method_at(traits_of(stmts), stmts[i], t, n),
            method_at(traits_of(stmts), stmts[j], t, n)]
        0 <= i < stmts.len() && 0 <= j < stmts.len() && method_at(
            traits_of(stmts),
            stmts[i],
            t,
            n,
        ) is Some && method_at(traits_of(stmts), stmts[j], t, n) is Some ==> method_at(
            traits_of(stmts),
            stmts[i],
            t,
            n,
        ) == method_at(traits_of(stmts), stmts[j], t, n)
}

/// Whether two tables give the same answers about types, traits, variants, methods
/// and ordering.
pub open spec fn same_answers(x: Decls, y: Decls) -> bool {
    &&& forall|n: Seq<char>| #[trigger] lookup(x.structs, n) == lookup(y.structs, n)
    &&& forall|n: Seq<char>| #[trigger] lookup(x.enums, n) == lookup(y.enums, n)
    &&& forall|n: Seq<char>| #[trigger] lookup(x.traits, n) == lookup(y.traits, n)
    &&& forall|n: Seq<char>|
        #[trigger] lookup(x.variant_to_enum, n) == lookup(y.variant_to_enum, n)
    &&& forall|n: Seq<char>| #[trigger] x.ordered(n) == y.ordered(n)
    &&& forall|t: Seq<char>, n: Seq<char>| #[trigger] x.method(t, n) == y.method(t, n)
}

proof fn types_agree(a: Seq<Stmt>, b: Seq<Stmt>, name: Seq<char>)
    requires
        same_statements(a, b),
        declares_once(a),
    ensures
        ({
            let (x, y) = (Decls::none().with_types(a, 0), Decls::none().with_types(b, 0));
            &&& lookup(x.structs, name) == lookup(y.structs, name)
            &&& lookup(x.enums, name) == lookup(y.enums, name)
            &&& lookup(x.traits, name) == lookup(y.traits, name)
            &&& lookup(x.variant_to_enum, name) == lookup(y.variant_to_enum, name)
            &&& x.ordered(name) == y.ordered(name)
        }),
{
    let none = Decls::none();
    let (x, y) = (none.with_types(a, 0), none.with_types(b, 0));
    types_found(none, a, 0, name);
    types_found(none, b, 0, name);
    let f = |s: Stmt| struct_at(s, name);
    assert(one_way(a, f));
    same_found(a, b, f, f, None, lookup(x.structs, name), lookup(y.structs, name));
    let f = |s: Stmt| enum_at(s, name);
    assert(one_way(a, f));
    same_found(a, b, f, f, None, lookup(x.enums, name), lookup(y.enums, name));
    let f = |s: Stmt| trait_at(s, name);
    assert(one_way(a, f));
    same_found(a, b, f, f, None, lookup(x.traits, name), lookup(y.traits, name));
    let f = |s: Stmt| owner_at(s, name);
    assert(one_way(a, f));
    same_found(a, b, f, f, None, lookup(x.variant_to_enum, name), lookup(y.variant_to_enum, name));
    if exists|i: int| 0 <= i < a.len() && orders(#[trigger] a[i], name) {
        let i = choose|i: int| 0 <= i < a.len() && orders(#[trigger] a[i], name);
        assert(a.contains(a[i]));
        assert(b.contains(a[i]));
        let j = choose|j: int| 0 <= j < b.len() && b[j] == a[i];
        assert(orders(b[j], name));
    }
    if exists|j: int| 0 <= j < b.len() && orders(#[trigger] b[j], name) {
        let j = choose|j: int| 0 <= j < b.len() && orders(#[trigger] b[j], name);
        assert(b.contains(b[j]));
        assert(a.contains(b[j]));
        let i = choose|i: int| 0 <= i < a.len() && a[i] == b[j];
        assert(orders(a[i], name));
    }
}

proof fn known_agree(a: Seq<Stmt>, b: Seq<Stmt>, name: Seq<char>)
    requires
        same_statements(a, b),
        declares_once(a),
    ensures
        ({
            let x = Decls::none().with_types(a, 0).with_enum(result_shape());
            let y = Decls::none().with_types(b, 0).with_enum(result_shape());
            &&& lookup(x.structs, name) == lookup(y.structs, name)
            &&& lookup(x.enums, name) == lookup(y.enums, name)
            &&& lookup(x.traits, name) == lookup(y.traits, name)
            &&& lookup(x.variant_to_enum, name) == lookup(y.variant_to_enum, name)
            &&& x.ordered(name) == y.ordered(name)
        }),
{
    let (x, y) = (Decls::none().with_types(a, 0), Decls::none().with_types(b, 0));
    let e = result_shape();
    types_agree(a, b, name);
    variants_bind(x, e.variants, e.name, 0, name);
    variants_bind(y, e.variants, e.name, 0, name);
    law_lookup_after_bind(x.enums, e.name, e, name);
    law_lookup_after_bind(y.enums, e.name, e, name);
    order_step(x.ord_types, e.name, name);
    order_step(y.ord_types, e.name, name);
}

/// The order of declarations does not matter: two programs with the same
/// statements in different orders declare the same types, traits, variants and
/// methods. This is of programs that declare each thing in one way; where they do
/// not, the last declaration counts.
pub proof fn law_any_order_of_declarations(a: Seq<Stmt>, b: Seq<Stmt>)
    requires
        same_statements(a, b),
        declares_once(a),
    ensures
        same_answers(Decls::none().collected(a), Decls::none().collected(b)),
{
    let none = Decls::none();
    let (x, y) = (none.with_types(a, 0), none.with_types(b, 0));
    let (kx, ky) = (x.with_enum(result_shape()), y.with_enum(result_shape()));
    impls_keep_types(kx, a, 0);
    impls_keep_types(ky, b, 0);
    let (u, v) = (none.collected(a), none.collected(b));
    assert forall|n: Seq<char>| #[trigger] lookup(u.structs, n) == lookup(v.structs, n) by {
        known_agree(a, b, n);
    }
    assert forall|n: Seq<char>| #[trigger] lookup(u.enums, n) == lookup(v.enums, n) by {
        known_agree(a, b, n);
    }
    assert forall|n: Seq<char>| #[trigger] lookup(u.traits, n) == lookup(v.traits, n) by {
        known_agree(a, b, n);
    }
    assert forall|n: Seq<char>| #[trigger]
        lookup(u.variant_to_enum, n) == lookup(v.variant_to_enum, n) by {
        known_agree(a, b, n);
    }
    assert forall|n: Seq<char>| #[trigger] u.ordered(n) == v.ordered(n) by {
        known_agree(a, b, n);
    }
    assert forall|t: Seq<char>, n: Seq<char>| #[trigger]
        none.collected(a).method(t, n) == none.collected(b).method(t, n) by {
        collected_found(a, t, n);
        collected_found(b, t, n);
        let f = |s: Stmt| method_at(traits_of(a), s, t, n);
        let g = |s: Stmt| method_at(traits_of(b), s, t, n);
        assert forall|s: Stmt| #[trigger] f(s) == g(s) by {
            if let StmtKind::Impl(d) = s.kind {
                if let Some(tr) = d.trait_name {
                    types_agree(a, b, tr@);
                }
            }
        }
        assert(one_way(a, f));
        same_found(
            a,
            b,
            f,
            g,
            None,
            none.collected(a).method(t, n),
            none.collected(b).method(t, n),
        );
    }
}

// ---------------------------------------------------------------------------
// What is declared is found
// ---------------------------------------------------------------------------

proof fn known_found(stmts: Seq<Stmt>, name: Seq<char>)
    ensures
        ({
            let all = Decls::none().collected(stmts);
            let typed = Decls::none().with_types(stmts, 0);
            &&& all.structs == typed.structs
            &&& all.traits == typed.traits
            &&& lookup(all.enums, name) == (if name == "Result"@ {
                Some(result_shape())
            } else {
                lookup(typed.enums, name)
            })
            &&& all.ordered(name) == typed.ordered(name)
        }),
{
    let typed = Decls::none().with_types(stmts, 0);
    let e = result_shape();
    impls_keep_types(typed.with_enum(e), stmts, 0);
    variants_bind(typed, e.variants, e.name, 0, name);
    law_lookup_after_bind(typed.enums, e.name, e, name);
    reveal_strlit("Ord");
}

/// What a program declares at its top level is found under its name: a struct, an enum
/// or a trait that is declared in one way is that one, and what is not declared is
/// not found. `Result` is always the prelude's.
pub proof fn law_declared_types_are_found(stmts: Seq<Stmt>, name: Seq<char>, j: int)
    requires
        0 <= j < stmts.len(),
    ensures
        ({
            let all = Decls::none().collected(stmts);
            &&& declares_once(stmts) && struct_at(stmts[j], name) is Some ==> lookup(
                all.structs,
                name,
            ) == struct_at(stmts[j], name)
            &&& declares_once(stmts) && enum_at(stmts[j], name) is Some && name != "Result"@
                ==> lookup(all.enums, name) == enum_at(stmts[j], name)
            &&& declares_once(stmts) && trait_at(stmts[j], name) is Some ==> lookup(
                all.traits,
                name,
            ) == trait_at(stmts[j], name)
            &&& (forall|i: int| 0 <= i < stmts.len() ==> struct_at(#[trigger] stmts[i], name) is None)
                ==> lookup(all.structs, name) is None
            &&& (forall|i: int| 0 <= i < stmts.len() ==> enum_at(#[trigger] stmts[i], name) is None)
                && name != "Result"@ ==> lookup(all.enums, name) is None
        }),
{
    known_found(stmts, name);
    let typed = Decls::none().with_types(stmts, 0);
    types_found(Decls::none(), stmts, 0, name);
    if struct_at(stmts[j], name) is Some {
        let f = |s: Stmt| struct_at(s, name);
        assert(f(stmts[j]) is Some);
        let k = choose|k: int| 0 <= k < stmts.len() && f(#[trigger] stmts[k]) == lookup(
            typed.structs,
            name,
        );
        assert(struct_at(stmts[k], name) == f(stmts[k]));
    }
    if enum_at(stmts[j], name) is Some {
        let f = |s: Stmt| enum_at(s, name);
        assert(f(stmts[j]) is Some);
        let k = choose|k: int| 0 <= k < stmts.len() && f(#[trigger] stmts[k]) == lookup(
            typed.enums,
            name,
        );
        assert(enum_at(stmts[k], name) == f(stmts[k]));
    }
    if trait_at(stmts[j], name) is Some {
        let f = |s: Stmt| trait_at(s, name);
        assert(f(stmts[j]) is Some);
        let k = choose|k: int| 0 <= k < stmts.len() && f(#[trigger] stmts[k]) == lookup(
            typed.traits,
            name,
        );
        assert(trait_at(stmts[k], name) == f(stmts[k]));
    }
}

/// Values of a type can be ordered just if the program declares it with `derive Ord`.
pub proof fn law_derive_ord(stmts: Seq<Stmt>, name: Seq<char>)
    ensures
        Decls::none().collected(stmts).ordered(name) <==> exists|i: int|
            0 <= i < stmts.len() && orders(#[trigger] stmts[i], name),
{
    known_found(stmts, name);
    types_found(Decls::none(), stmts, 0, name);
    assert(!Decls::none().ordered(name));
}

} // verus!
