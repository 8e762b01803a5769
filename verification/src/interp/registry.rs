//! The declarations of a program, collected before it runs.

use super::value::share;
use crate::ast::{
    result_enum_decl, result_shape, EnumDecl, EnumShape, FnDecl, Program, Stmt, StmtKind,
    StructDecl, StructShape, TraitDecl, VariantShape,
};
use crate::name_map::{bind, lookup, NameMap};
use crate::text::{same_text, texts};
use std::rc::Rc;
use vstd::prelude::*;

verus! {

/// A method of a type.
#[derive(Debug)]
pub struct Method {
    pub owner: String,
    pub name: String,
    pub decl: Rc<FnDecl>,
}

/// Collected declarations, for construction, ordering and method calls.
#[derive(Debug)]
pub struct Registry {
    pub structs: NameMap<Rc<StructDecl>>,
    pub enums: NameMap<Rc<EnumDecl>>,
    /// Methods of types, inherited trait methods among them. Of two methods of
    /// one type and name the later one counts.
    pub methods: Vec<Method>,
    pub traits: NameMap<Rc<TraitDecl>>,
    /// The enum that a variant name belongs to.
    pub variant_to_enum: NameMap<String>,
    /// The types that `derive Ord`.
    pub ord_types: Vec<String>,
}

/// What a `Registry` says.
pub struct Decls {
    pub structs: Seq<(Seq<char>, StructShape)>,
    pub enums: Seq<(Seq<char>, EnumShape)>,
    pub methods: Seq<(Seq<char>, Seq<char>, FnDecl)>,
    pub traits: Seq<(Seq<char>, TraitDecl)>,
    pub variant_to_enum: Seq<(Seq<char>, Seq<char>)>,
    pub ord_types: Seq<Seq<char>>,
}

pub open spec fn methods_view(ms: Seq<Method>) -> Seq<(Seq<char>, Seq<char>, FnDecl)> {
    Seq::new(ms.len(), |i: int| (ms[i].owner@, ms[i].name@, *ms[i].decl))
}

impl View for Registry {
    type V = Decls;

    open spec fn view(&self) -> Decls {
        Decls {
            structs: self.structs@,
            enums: self.enums@,
            methods: methods_view(self.methods@),
            traits: self.traits@,
            variant_to_enum: self.variant_to_enum@,
            ord_types: texts(self.ord_types@),
        }
    }
}

/// The last of the first `n` methods that has this owner and name.
pub open spec fn method_before(
    ms: Seq<(Seq<char>, Seq<char>, FnDecl)>,
    owner: Seq<char>,
    name: Seq<char>,
    n: nat,
) -> Option<FnDecl>
    decreases n,
{
    if n == 0 || n > ms.len() {
        None
    } else if ms[n - 1].0 == owner && ms[n - 1].1 == name {
        Some(ms[n - 1].2)
    } else {
        method_before(ms, owner, name, (n - 1) as nat)
    }
}

impl Decls {
    pub open spec fn none() -> Decls {
        Decls {
            structs: Seq::empty(),
            enums: Seq::empty(),
            methods: Seq::empty(),
            traits: Seq::empty(),
            variant_to_enum: Seq::empty(),
            ord_types: Seq::empty(),
        }
    }

    /// The method of a type.
    pub open spec fn method(self, owner: Seq<char>, name: Seq<char>) -> Option<FnDecl> {
        method_before(self.methods, owner, name, self.methods.len())
    }

    /// Whether values of this type may be ordered.
    pub open spec fn ordered(self, name: Seq<char>) -> bool {
        self.ord_types.contains(name)
    }

    pub open spec fn with_ord(self, name: Seq<char>, derives: Seq<Seq<char>>) -> Decls {
        if derives.contains("Ord"@) {
            Decls { ord_types: self.ord_types.push(name), ..self }
        } else {
            self
        }
    }

    pub open spec fn with_struct(self, s: StructShape) -> Decls {
        (Decls { structs: bind(self.structs, s.name, s), ..self }).with_ord(s.name, s.derives)
    }

    pub open spec fn with_variants(
        self,
        variants: Seq<VariantShape>,
        enum_name: Seq<char>,
        i: nat,
    ) -> Decls
        decreases variants.len() - i,
    {
        if i >= variants.len() {
            self
        } else {
            (Decls {
                variant_to_enum: bind(self.variant_to_enum, variants[i as int].name, enum_name),
                ..self
            }).with_variants(variants, enum_name, i + 1)
        }
    }

    pub open spec fn with_enum(self, e: EnumShape) -> Decls {
        let named = self.with_variants(e.variants, e.name, 0);
        (Decls { enums: bind(named.enums, e.name, e), ..named }).with_ord(e.name, e.derives)
    }

    pub open spec fn with_trait(self, t: TraitDecl) -> Decls {
        Decls { traits: bind(self.traits, t.name@, t), ..self }
    }

    pub open spec fn with_method(self, owner: Seq<char>, f: FnDecl) -> Decls {
        Decls { methods: self.methods.push((owner, f.name@, f)), ..self }
    }

    /// The types and traits that the statements from place `i` on declare.
    pub open spec fn with_types(self, stmts: Seq<Stmt>, i: nat) -> Decls
        decreases stmts.len() - i,
    {
        if i >= stmts.len() {
            self
        } else {
            let next = match stmts[i as int].kind {
                StmtKind::Struct(s) => self.with_struct(s@),
                StmtKind::Enum(e) => self.with_enum(e@),
                StmtKind::Trait(t) => self.with_trait(*t),
                _ => self,
            };
            next.with_types(stmts, i + 1)
        }
    }

    /// The given methods, from place `i` on, as methods of `owner`.
    pub open spec fn with_methods(self, owner: Seq<char>, ms: Seq<Rc<FnDecl>>, i: nat) -> Decls
        decreases ms.len() - i,
    {
        if i >= ms.len() {
            self
        } else {
            self.with_method(owner, *ms[i as int]).with_methods(owner, ms, i + 1)
        }
    }

    /// The default methods, from place `i` on, that `given` does not give.
    pub open spec fn with_defaults(
        self,
        owner: Seq<char>,
        given: Seq<Rc<FnDecl>>,
        defaults: Seq<Rc<FnDecl>>,
        i: nat,
    ) -> Decls
        decreases defaults.len() - i,
    {
        if i >= defaults.len() {
            self
        } else {
            let next = if gives(given, defaults[i as int].name@) {
                self
            } else {
                self.with_method(owner, *defaults[i as int])
            };
            next.with_defaults(owner, given, defaults, i + 1)
        }
    }

    /// The methods that the impls among the statements from place `i` on give or
    /// inherit. An unknown trait has nothing to inherit.
    pub open spec fn with_impls(self, stmts: Seq<Stmt>, i: nat) -> Decls
        decreases stmts.len() - i,
    {
        if i >= stmts.len() {
            self
        } else {
            let next = match stmts[i as int].kind {
                StmtKind::Impl(d) => {
                    let own = self.with_methods(d.for_type@, d.methods@, 0);
                    match d.trait_name {
                        Some(t) => match lookup(own.traits, t@) {
                            Some(tr) => own.with_defaults(
                                d.for_type@,
                                d.methods@,
                                tr.defaults@,
                                0,
                            ),
                            None => own,
                        },
                        None => own,
                    }
                },
                _ => self,
            };
            next.with_impls(stmts, i + 1)
        }
    }

    /// All that a program declares: first its types and traits, then the
    /// prelude's `Result`, then its impls, so that their order in the source does
    /// not matter.
    pub open spec fn collected(self, stmts: Seq<Stmt>) -> Decls {
        self.with_types(stmts, 0).with_enum(result_shape()).with_impls(stmts, 0)
    }
}

/// Whether one of the methods has this name.
pub open spec fn gives(ms: Seq<Rc<FnDecl>>, name: Seq<char>) -> bool {
    exists|i: int| 0 <= i < ms.len() && (#[trigger] ms[i]).name@ == name
}

/// Whether one of the texts is `name`.
pub fn has_text(names: &Vec<String>, name: &str) -> (r: bool)
    ensures
        r == texts(names@).contains(name@),
{
    let mut i: usize = 0;
    while i < names.len()
        invariant
            i <= names.len(),
            forall|j: int| 0 <= j < i ==> (#[trigger] names@[j])@ != name@,
        decreases names.len() - i,
    {
        if same_text(names[i].as_str(), name) {
            assert(texts(names@)[i as int] == name@);
            return true;
        }
        i = i + 1;
    }
    assert forall|j: int| 0 <= j < texts(names@).len() implies texts(names@)[j] != name@ by {
        assert(names@[j]@ != name@);
    }
    false
}

fn gives_method(ms: &Vec<Rc<FnDecl>>, name: &str) -> (r: bool)
    ensures
        r == gives(ms@, name@),
{
    let mut i: usize = 0;
    while i < ms.len()
        invariant
            i <= ms.len(),
            forall|j: int| 0 <= j < i ==> (#[trigger] ms@[j]).name@ != name@,
        decreases ms.len() - i,
    {
        if same_text(ms[i].name.as_str(), name) {
            return true;
        }
        i = i + 1;
    }
    false
}

impl Registry {
    /// A registry without declarations.
    pub fn new() -> (r: Self)
        ensures
            r@ == Decls::none(),
    {
        let r = Registry {
            structs: NameMap::new(),
            enums: NameMap::new(),
            methods: Vec::new(),
            traits: NameMap::new(),
            variant_to_enum: NameMap::new(),
            ord_types: Vec::new(),
        };
        assert(r@.methods =~= Decls::none().methods);
        assert(r@.ord_types =~= Decls::none().ord_types);
        r
    }

    /// The method of a type.
    pub fn method(&self, owner: &str, name: &str) -> (r: Option<Rc<FnDecl>>)
        ensures
            match r {
                Some(f) => self@.method(owner@, name@) == Some(*f),
                None => self@.method(owner@, name@) is None,
            },
    {
        let mut n: usize = self.methods.len();
        while n > 0
            invariant
                n <= self.methods.len(),
                method_before(self@.methods, owner@, name@, n as nat) == self@.method(
                    owner@,
                    name@,
                ),
            decreases n,
        {
            let m = &self.methods[n - 1];
            assert(self@.methods[n - 1] == (m.owner@, m.name@, *m.decl));
            if same_text(m.owner.as_str(), owner) && same_text(m.name.as_str(), name) {
                return Some(share(&m.decl));
            }
            n = n - 1;
        }
        None
    }

    /// Whether values of this type may be ordered.
    pub fn ordered(&self, name: &str) -> (r: bool)
        ensures
            r == self@.ordered(name@),
    {
        has_text(&self.ord_types, name)
    }

    fn add_ord(&mut self, name: &String, derives: &Vec<String>)
        ensures
            final(self)@ == old(self)@.with_ord(name@, texts(derives@)),
    {
        let ghost was = self@;
        if has_text(derives, "Ord") {
            self.ord_types.push(name.clone());
            assert(self@.ord_types =~= was.ord_types.push(name@));
        }
    }

    fn add_struct(&mut self, s: &Rc<StructDecl>)
        ensures
            final(self)@ == old(self)@.with_struct(s@),
    {
        let ghost was = self@;
        self.structs.insert(s.name.clone(), share(s));
        self.add_ord(&s.name, &s.derives);
        assert(texts(s.derives@) =~= s@.derives);
    }

    fn add_enum(&mut self, e: &Rc<EnumDecl>)
        ensures
            final(self)@ == old(self)@.with_enum(e@),
    {
        let mut i: usize = 0;
        while i < e.variants.len()
            invariant
                i <= e.variants.len(),
                self@.with_variants(e@.variants, e@.name, i as nat) == old(self)@.with_variants(
                    e@.variants,
                    e@.name,
                    0,
                ),
            decreases e.variants.len() - i,
        {
            self.variant_to_enum.insert(e.variants[i].name.clone(), e.name.clone());
            i = i + 1;
        }
        self.enums.insert(e.name.clone(), share(e));
        self.add_ord(&e.name, &e.derives);
        assert(texts(e.derives@) =~= e@.derives);
    }

    fn add_method(&mut self, owner: &String, f: &Rc<FnDecl>)
        ensures
            final(self)@ == old(self)@.with_method(owner@, **f),
    {
        let ghost was = self@;
        self.methods.push(
            Method { owner: owner.clone(), name: f.name.clone(), decl: share(f) },
        );
        assert(self@.methods =~= was.methods.push((owner@, f.name@, **f)));
    }

    /// Collect what a program declares.
    pub fn collect_decls(&mut self, program: &Program)
        ensures
            final(self)@ == old(self)@.collected(program.stmts@),
    {
        let mut i: usize = 0;
        while i < program.stmts.len()
            invariant
                i <= program.stmts.len(),
                self@.with_types(program.stmts@, i as nat) == old(self)@.with_types(
                    program.stmts@,
                    0,
                ),
            decreases program.stmts.len() - i,
        {
            match &program.stmts[i].kind {
                StmtKind::Struct(s) => {
                    self.add_struct(s);
                },
                StmtKind::Enum(e) => {
                    self.add_enum(e);
                },
                StmtKind::Trait(t) => {
                    self.traits.insert(t.name.clone(), share(t));
                },
                _ => {},
            }
            i = i + 1;
        }
        self.add_enum(&Rc::new(result_enum_decl()));
        let ghost typed = self@;
        let mut k: usize = 0;
        while k < program.stmts.len()
            invariant
                k <= program.stmts.len(),
                self@.with_impls(program.stmts@, k as nat) == typed.with_impls(program.stmts@, 0),
            decreases program.stmts.len() - k,
        {
            if let StmtKind::Impl(d) = &program.stmts[k].kind {
                let ghost before = self@;
                let mut j: usize = 0;
                while j < d.methods.len()
                    invariant
                        j <= d.methods.len(),
                        self@.with_methods(d.for_type@, d.methods@, j as nat)
                            == before.with_methods(d.for_type@, d.methods@, 0),
                    decreases d.methods.len() - j,
                {
                    self.add_method(&d.for_type, &d.methods[j]);
                    j = j + 1;
                }
                let inherited: Option<Rc<TraitDecl>> = match &d.trait_name {
                    Some(t) => match self.traits.get(t.as_str()) {
                        Some(tr) => Some(share(tr)),
                        None => None,
                    },
                    None => None,
                };
                if let Some(tr) = inherited {
                    let ghost own = self@;
                    let mut n: usize = 0;
                    while n < tr.defaults.len()
                        invariant
                            n <= tr.defaults.len(),
                            self@.with_defaults(d.for_type@, d.methods@, tr.defaults@, n as nat)
                                == own.with_defaults(d.for_type@, d.methods@, tr.defaults@, 0),
                        decreases tr.defaults.len() - n,
                    {
                        if !gives_method(&d.methods, tr.defaults[n].name.as_str()) {
                            self.add_method(&d.for_type, &tr.defaults[n]);
                        }
                        n = n + 1;
                    }
                }
            }
            k = k + 1;
        }
    }
}

} // verus!
