//! Laws of declarations.

use super::registry::{gives, method_before, Decls};
use crate::ast::{result_shape, FnDecl, Stmt, StmtKind};
use crate::name_map::{law_lookup_after_bind, lookup};
use std::rc::Rc;
use vstd::prelude::*;

verus! {

// ---------------------------------------------------------------------------
// Order of declarations
// ---------------------------------------------------------------------------

pub open spec fn declares_type(s: Stmt) -> bool {
    s.kind is Struct || s.kind is Enum || s.kind is Trait
}

/// The declarations of types and traits from place `i` on.
pub open spec fn types_in(stmts: Seq<Stmt>, i: nat) -> Seq<Stmt>
    decreases stmts.len() - i,
{
    if i >= stmts.len() {
        Seq::empty()
    } else if declares_type(stmts[i as int]) {
        seq![stmts[i as int]] + types_in(stmts, i + 1)
    } else {
        types_in(stmts, i + 1)
    }
}

/// The impls from place `i` on.
pub open spec fn impls_in(stmts: Seq<Stmt>, i: nat) -> Seq<Stmt>
    decreases stmts.len() - i,
{
    if i >= stmts.len() {
        Seq::empty()
    } else if stmts[i as int].kind is Impl {
        seq![stmts[i as int]] + impls_in(stmts, i + 1)
    } else {
        impls_in(stmts, i + 1)
    }
}

/// The declarations behind one that may be of a type or a trait.
pub open spec fn after_type(reg: Decls, s: Stmt) -> Decls {
    match s.kind {
        StmtKind::Struct(d) => reg.with_struct(d@),
        StmtKind::Enum(e) => reg.with_enum(e@),
        StmtKind::Trait(t) => reg.with_trait(*t),
        _ => reg,
    }
}

proof fn shift_types(reg: Decls, first: Stmt, rest: Seq<Stmt>, i: nat)
    ensures
        reg.with_types(seq![first] + rest, i + 1) == reg.with_types(rest, i),
    decreases rest.len() - i,
{
    let all = seq![first] + rest;
    if i < rest.len() {
        assert(all[(i + 1) as int] == rest[i as int]);
        shift_types(after_type(reg, rest[i as int]), first, rest, i + 1);
    }
}

proof fn only_types_matter(reg: Decls, stmts: Seq<Stmt>, i: nat)
    ensures
        reg.with_types(stmts, i) == reg.with_types(types_in(stmts, i), 0),
    decreases stmts.len() - i,
{
    if i < stmts.len() {
        let s = stmts[i as int];
        let next = after_type(reg, s);
        only_types_matter(next, stmts, i + 1);
        if declares_type(s) {
            let rest = types_in(stmts, i + 1);
            shift_types(next, s, rest, 0);
            assert((seq![s] + rest)[0] == s);
        }
    }
}

/// The declarations behind one that may be an impl.
pub open spec fn after_impl(reg: Decls, s: Stmt) -> Decls {
    match s.kind {
        StmtKind::Impl(d) => {
            let own = reg.with_methods(d.for_type@, d.methods@, 0);
            match d.trait_name {
                Some(t) => match lookup(own.traits, t@) {
                    Some(tr) => own.with_defaults(d.for_type@, d.methods@, tr.defaults@, 0),
                    None => own,
                },
                None => own,
            }
        },
        _ => reg,
    }
}

proof fn shift_impls(reg: Decls, first: Stmt, rest: Seq<Stmt>, i: nat)
    ensures
        reg.with_impls(seq![first] + rest, i + 1) == reg.with_impls(rest, i),
    decreases rest.len() - i,
{
    let all = seq![first] + rest;
    if i < rest.len() {
        assert(all[(i + 1) as int] == rest[i as int]);
        shift_impls(after_impl(reg, rest[i as int]), first, rest, i + 1);
    }
}

proof fn only_impls_matter(reg: Decls, stmts: Seq<Stmt>, i: nat)
    ensures
        reg.with_impls(stmts, i) == reg.with_impls(impls_in(stmts, i), 0),
    decreases stmts.len() - i,
{
    if i < stmts.len() {
        let s = stmts[i as int];
        only_impls_matter(after_impl(reg, s), stmts, i + 1);
        if s.kind is Impl {
            let rest = impls_in(stmts, i + 1);
            shift_impls(after_impl(reg, s), s, rest, 0);
            assert((seq![s] + rest)[0] == s);
        }
    }
}

/// Where impls stand among the declarations of types and traits, and among the
/// other statements, does not matter.
pub proof fn law_declaration_order(reg: Decls, a: Seq<Stmt>, b: Seq<Stmt>)
    requires
        types_in(a, 0) == types_in(b, 0),
        impls_in(a, 0) == impls_in(b, 0),
    ensures
        reg.collected(a) == reg.collected(b),
{
    only_types_matter(reg, a, 0);
    only_types_matter(reg, b, 0);
    let known = reg.with_types(a, 0).with_enum(result_shape());
    only_impls_matter(known, a, 0);
    only_impls_matter(known, b, 0);
}

// ---------------------------------------------------------------------------
// Methods
// ---------------------------------------------------------------------------

/// The last function of this name from place `i` on; else `found`.
pub open spec fn last_named(
    ms: Seq<Rc<FnDecl>>,
    name: Seq<char>,
    i: nat,
    found: Option<FnDecl>,
) -> Option<FnDecl>
    decreases ms.len() - i,
{
    if i >= ms.len() {
        found
    } else {
        last_named(
            ms,
            name,
            i + 1,
            if ms[i as int].name@ == name {
                Some(*ms[i as int])
            } else {
                found
            },
        )
    }
}

/// The function at place `i`.
pub open spec fn nth(ms: Seq<Rc<FnDecl>>, i: nat) -> FnDecl {
    *ms[i as int]
}

proof fn method_before_push(
    ms: Seq<(Seq<char>, Seq<char>, FnDecl)>,
    m: (Seq<char>, Seq<char>, FnDecl),
    owner: Seq<char>,
    name: Seq<char>,
    n: nat,
)
    requires
        n <= ms.len(),
    ensures
        method_before(ms.push(m), owner, name, n) == method_before(ms, owner, name, n),
    decreases n,
{
    if n > 0 {
        assert(ms.push(m)[n - 1] == ms[n - 1]);
        method_before_push(ms, m, owner, name, (n - 1) as nat);
    }
}

proof fn one_method(reg: Decls, to: Seq<char>, f: FnDecl, owner: Seq<char>, name: Seq<char>)
    ensures
        reg.with_method(to, f).method(owner, name) == (if to == owner && f.name@ == name {
            Some(f)
        } else {
            reg.method(owner, name)
        }),
{
    let m = (to, f.name@, f);
    method_before_push(reg.methods, m, owner, name, reg.methods.len());
}

proof fn own_methods(
    reg: Decls,
    to: Seq<char>,
    ms: Seq<Rc<FnDecl>>,
    i: nat,
    owner: Seq<char>,
    name: Seq<char>,
)
    ensures
        reg.with_methods(to, ms, i).method(owner, name) == (if to == owner {
            last_named(ms, name, i, reg.method(owner, name))
        } else {
            reg.method(owner, name)
        }),
    decreases ms.len() - i,
{
    if i < ms.len() {
        one_method(reg, to, nth(ms, i), owner, name);
        own_methods(reg.with_method(to, nth(ms, i)), to, ms, i + 1, owner, name);
    }
}

proof fn default_methods(
    reg: Decls,
    to: Seq<char>,
    given: Seq<Rc<FnDecl>>,
    defaults: Seq<Rc<FnDecl>>,
    i: nat,
    owner: Seq<char>,
    name: Seq<char>,
)
    ensures
        reg.with_defaults(to, given, defaults, i).method(owner, name) == (if to == owner && !gives(
            given,
            name,
        ) {
            last_named(defaults, name, i, reg.method(owner, name))
        } else {
            reg.method(owner, name)
        }),
    decreases defaults.len() - i,
{
    if i < defaults.len() {
        let d = nth(defaults, i);
        one_method(reg, to, d, owner, name);
        let next = if gives(given, d.name@) {
            reg
        } else {
            reg.with_method(to, d)
        };
        default_methods(next, to, given, defaults, i + 1, owner, name);
    }
}

/// After `impl Trait for Type`, a method of the type is the one that the impl
/// gives, else the trait's default, else what it was. Methods of other types stay
/// what they were.
pub proof fn law_trait_defaults(
    reg: Decls,
    for_type: Seq<char>,
    given: Seq<Rc<FnDecl>>,
    defaults: Seq<Rc<FnDecl>>,
    owner: Seq<char>,
    name: Seq<char>,
)
    ensures
        reg.with_methods(for_type, given, 0).with_defaults(for_type, given, defaults, 0).method(
            owner,
            name,
        ) == (if owner != for_type {
            reg.method(owner, name)
        } else if gives(given, name) {
            last_named(given, name, 0, None)
        } else {
            last_named(defaults, name, 0, reg.method(owner, name))
        }),
{
    own_methods(reg, for_type, given, 0, owner, name);
    default_methods(
        reg.with_methods(for_type, given, 0),
        for_type,
        given,
        defaults,
        0,
        owner,
        name,
    );
    if owner == for_type {
        if gives(given, name) {
            let j = choose|j: int| 0 <= j < given.len() && (#[trigger] given[j]).name@ == name;
            one_is_named(given, name, 0, reg.method(owner, name), None, j as nat);
        } else {
            none_is_named(given, name, 0, reg.method(owner, name));
        }
    }
}

proof fn one_is_named(
    ms: Seq<Rc<FnDecl>>,
    name: Seq<char>,
    i: nat,
    a: Option<FnDecl>,
    b: Option<FnDecl>,
    j: nat,
)
    requires
        i <= j < ms.len(),
        ms[j as int].name@ == name,
    ensures
        last_named(ms, name, i, a) == last_named(ms, name, i, b),
    decreases ms.len() - i,
{
    if ms[i as int].name@ != name {
        one_is_named(ms, name, i + 1, a, b, j);
    }
}

proof fn none_is_named(ms: Seq<Rc<FnDecl>>, name: Seq<char>, i: nat, found: Option<FnDecl>)
    requires
        !gives(ms, name),
    ensures
        last_named(ms, name, i, found) == found,
    decreases ms.len() - i,
{
    if i < ms.len() {
        assert(ms[i as int].name@ != name);
        none_is_named(ms, name, i + 1, found);
    }
}

// ---------------------------------------------------------------------------
// The prelude's `Result`
// ---------------------------------------------------------------------------

/// Whether two tables have the same types, traits and variants.
pub open spec fn same_types(a: Decls, b: Decls) -> bool {
    &&& a.structs == b.structs
    &&& a.enums == b.enums
    &&& a.traits == b.traits
    &&& a.variant_to_enum == b.variant_to_enum
    &&& a.ord_types == b.ord_types
}

pub(crate) proof fn methods_keep_types(reg: Decls, to: Seq<char>, ms: Seq<Rc<FnDecl>>, i: nat)
    ensures
        same_types(reg.with_methods(to, ms, i), reg),
    decreases ms.len() - i,
{
    if i < ms.len() {
        methods_keep_types(reg.with_method(to, nth(ms, i)), to, ms, i + 1);
    }
}

pub(crate) proof fn defaults_keep_types(
    reg: Decls,
    to: Seq<char>,
    given: Seq<Rc<FnDecl>>,
    defaults: Seq<Rc<FnDecl>>,
    i: nat,
)
    ensures
        same_types(reg.with_defaults(to, given, defaults, i), reg),
    decreases defaults.len() - i,
{
    if i < defaults.len() {
        let d = nth(defaults, i);
        let next = if gives(given, d.name@) {
            reg
        } else {
            reg.with_method(to, d)
        };
        defaults_keep_types(next, to, given, defaults, i + 1);
    }
}

pub(crate) proof fn impls_keep_types(reg: Decls, stmts: Seq<Stmt>, i: nat)
    ensures
        same_types(reg.with_impls(stmts, i), reg),
    decreases stmts.len() - i,
{
    if i < stmts.len() {
        let s = stmts[i as int];
        if let StmtKind::Impl(d) = s.kind {
            methods_keep_types(reg, d.for_type@, d.methods@, 0);
            let own = reg.with_methods(d.for_type@, d.methods@, 0);
            if let Some(t) = d.trait_name {
                if let Some(tr) = lookup(own.traits, t@) {
                    defaults_keep_types(own, d.for_type@, d.methods@, tr.defaults@, 0);
                }
            }
        }
        impls_keep_types(after_impl(reg, s), stmts, i + 1);
    }
}

/// Every program has the prelude's `Result`.
pub proof fn law_result_is_declared(reg: Decls, stmts: Seq<Stmt>)
    ensures
        lookup(reg.collected(stmts).enums, "Result"@) == Some(result_shape()),
{
    let typed = reg.with_types(stmts, 0);
    let known = typed.with_enum(result_shape());
    let named = typed.with_variants(result_shape().variants, "Result"@, 0);
    law_lookup_after_bind(named.enums, "Result"@, result_shape(), "Result"@);
    impls_keep_types(known, stmts, 0);
}

} // verus!
