//! The static checks, which run over a program before it is executed:
//!
//! 1. **Match exhaustiveness**: a `match` over an enum covers every variant.
//! 2. **Null narrowing**: a value that may be `null` is not used where a value is
//!    required, unless it was narrowed or defaulted.
//!
//! Both report only what they can prove from annotations and obvious
//! constructions.

pub mod exhaustiveness;
pub mod null_narrowing;
pub mod exhaustiveness_laws;
pub mod occurrence;
pub mod enum_laws;
pub mod match_reach_laws;
pub mod null_reach_laws;
pub mod null_laws;
pub mod soundness;

use crate::ast::{
    Arg, BaseType, Binder, Block, Comprehension, ComprehensionBinder, ComprehensionOutput, result_enum_decl,
    result_shape, EnumDecl, EnumShape, Expr, ExprKind, FnDecl, Pattern, PatternKind, PayloadShape, Payload, Program, Stmt,
    StmtKind, StrSeg, Type, VariantShape,
};
use crate::error::{diagnostics_view, Diagnostic, DiagnosticView};
use crate::name_map::{bind, lookup, NameMap};
use crate::text::{lemma_texts_empty, lemma_texts_push, same_text, texts};
use exhaustiveness::{exhaustiveness_of, Exhaustiveness};
use null_narrowing::{nullness_of, NullNarrowing};
use crate::token::opt_text;
use std::rc::Rc;
use vstd::prelude::*;
use vstd::string::*;

verus! {

broadcast use {lemma_texts_push, lemma_texts_empty};

// ---------------------------------------------------------------------------
// Enums
// ---------------------------------------------------------------------------

/// The variants of an enum, each with the size of its payload.
#[derive(Debug)]
pub struct Variants {
    pub entries: Vec<(String, usize)>,
}

impl View for Variants {
    type V = Seq<(Seq<char>, nat)>;

    open spec fn view(&self) -> Seq<(Seq<char>, nat)> {
        Seq::new(self.entries@.len(), |i: int| (self.entries@[i].0@, self.entries@[i].1 as nat))
    }
}

/// The name of an enum, where it is known.
#[derive(Debug)]
pub struct EnumName {
    pub name: Option<String>,
}

impl View for EnumName {
    type V = Option<Seq<char>>;

    open spec fn view(&self) -> Option<Seq<char>> {
        opt_text(self.name)
    }
}

impl EnumName {
    pub fn known(name: &str) -> (r: Self)
        ensures
            r@ == Some(name@),
    {
        EnumName { name: Some(name.to_owned()) }
    }

    pub fn unknown() -> (r: Self)
        ensures
            r@ is None,
    {
        EnumName { name: None }
    }

    pub fn copy(&self) -> (r: Self)
        ensures
            r@ == self@,
    {
        match &self.name {
            Some(n) => EnumName::known(n.as_str()),
            None => EnumName::unknown(),
        }
    }
}

/// What the checks know of the enums of a program.
#[derive(Debug)]
pub struct EnumInfo {
    pub enums: NameMap<Variants>,
    /// The enum that a variant name belongs to; `None` where several enums have
    /// a variant of that name.
    pub variant_to_enum: NameMap<EnumName>,
}

/// What an `EnumInfo` says.
pub struct Enums {
    pub enums: Seq<(Seq<char>, Seq<(Seq<char>, nat)>)>,
    pub owners: Seq<(Seq<char>, Option<Seq<char>>)>,
}

impl View for EnumInfo {
    type V = Enums;

    open spec fn view(&self) -> Enums {
        Enums { enums: self.enums@, owners: self.variant_to_enum@ }
    }
}

/// The size of a payload.
pub open spec fn arity_of(p: PayloadShape) -> nat {
    match p {
        PayloadShape::Nothing => 0,
        PayloadShape::Positional(n) => n,
        PayloadShape::Named(names) => names.len(),
    }
}

pub open spec fn arities(variants: Seq<VariantShape>) -> Seq<(Seq<char>, nat)> {
    Seq::new(variants.len(), |i: int| (variants[i].name, arity_of(variants[i].payload)))
}

/// The owners of variant names with those of one more enum, from place `i` on. A
/// name that another enum has too belongs to none.
pub open spec fn owners_with(
    owners: Seq<(Seq<char>, Option<Seq<char>>)>,
    variants: Seq<VariantShape>,
    enum_name: Seq<char>,
    i: nat,
) -> Seq<(Seq<char>, Option<Seq<char>>)>
    decreases variants.len() - i,
{
    if i >= variants.len() {
        owners
    } else {
        let name = variants[i as int].name;
        let next = match lookup(owners, name) {
            None => bind(owners, name, Some(enum_name)),
            Some(was) => if was == Some(enum_name) {
                owners
            } else {
                bind(owners, name, None)
            },
        };
        owners_with(next, variants, enum_name, i + 1)
    }
}

impl Enums {
    pub open spec fn none() -> Enums {
        Enums { enums: Seq::empty(), owners: Seq::empty() }
    }

    pub open spec fn with_enum(self, e: EnumShape) -> Enums {
        Enums {
            owners: owners_with(self.owners, e.variants, e.name, 0),
            enums: bind(self.enums, e.name, arities(e.variants)),
        }
    }

    /// The one enum that has a variant of this name.
    pub open spec fn owner(self, variant: Seq<char>) -> Option<Seq<char>> {
        match lookup(self.owners, variant) {
            Some(Some(e)) => Some(e),
            _ => None,
        }
    }

    /// The enum that a type names.
    pub open spec fn of_type(self, ty: Type) -> Option<Seq<char>> {
        match ty.base {
            BaseType::Named { name, .. } => if lookup(self.enums, name@) is Some {
                Some(name@)
            } else {
                None
            },
            _ => None,
        }
    }
}

/// The enums that statements declare, those inside functions, methods and
/// control flow among them, from place `i` on.
pub open spec fn enums_in(stmts: Seq<Stmt>, i: nat, info: Enums) -> Enums
    decreases stmts, 1nat, stmts.len() - i,
{
    if i >= stmts.len() {
        info
    } else {
        enums_in(stmts, i + 1, enums_in_stmt(stmts[i as int], info))
    }
}

pub open spec fn enums_in_stmt(s: Stmt, info: Enums) -> Enums
    decreases s, 0nat, 0nat,
{
    match s.kind {
        StmtKind::Enum(d) => info.with_enum(d@),
        StmtKind::Fn(decl) => enums_in(decl.body.stmts@, 0, info),
        StmtKind::Impl(d) => enums_in_methods(d.methods@, 0, info),
        StmtKind::If(c) => {
            let arms = enums_in_arms(c.arms@, 0, info);
            match c.else_body {
                Some(b) => enums_in(b.stmts@, 0, arms),
                None => arms,
            }
        },
        StmtKind::While(l) => enums_in(l.body.stmts@, 0, info),
        StmtKind::For(l) => enums_in(l.body.stmts@, 0, info),
        _ => info,
    }
}

pub open spec fn enums_in_methods(ms: Seq<Rc<FnDecl>>, i: nat, info: Enums) -> Enums
    decreases ms, 1nat, ms.len() - i,
{
    if i >= ms.len() {
        info
    } else {
        enums_in_methods(ms, i + 1, enums_in(ms[i as int].body.stmts@, 0, info))
    }
}

pub open spec fn enums_in_arms(arms: Seq<(Expr, Block)>, i: nat, info: Enums) -> Enums
    decreases arms, 1nat, arms.len() - i,
{
    if i >= arms.len() {
        info
    } else {
        enums_in_arms(arms, i + 1, enums_in(arms[i as int].1.stmts@, 0, info))
    }
}

/// The enums of a program: the prelude's `Result`, and those that it declares.
pub open spec fn enums_of(stmts: Seq<Stmt>) -> Enums {
    enums_in(stmts, 0, Enums::none().with_enum(result_shape()))
}

impl EnumInfo {
    fn new() -> (r: Self)
        ensures
            r@ == Enums::none(),
    {
        EnumInfo { enums: NameMap::new(), variant_to_enum: NameMap::new() }
    }

    /// The enums of a program, the prelude's `Result` first.
    pub fn gather(program: &Program) -> (r: Self)
        ensures
            r@ == enums_of(program.stmts@),
    {
        let mut info = EnumInfo::new();
        info.record(&result_enum_decl());
        info.walk_enum_decls(&program.stmts);
        info
    }

    /// Record an enum.
    fn record(&mut self, decl: &EnumDecl)
        ensures
            final(self)@ == old(self)@.with_enum(decl@),
    {
        let ghost was = self@;
        let mut entries: Vec<(String, usize)> = Vec::new();
        let mut i: usize = 0;
        while i < decl.variants.len()
            invariant
                i <= decl.variants.len(),
                was == old(self)@,
                self@.enums == was.enums,
                entries@.len() == i,
                forall|j: int|
                    0 <= j < i ==> (#[trigger] entries@[j]).0@ == decl.variants@[j]@.name
                        && entries@[j].1 == arity_of(decl.variants@[j]@.payload),
                owners_with(self@.owners, decl@.variants, decl@.name, i as nat) == owners_with(
                    was.owners,
                    decl@.variants,
                    decl@.name,
                    0,
                ),
            decreases decl.variants.len() - i,
        {
            let v = &decl.variants[i];
            assert(decl@.variants[i as int] == v@);
            let arity: usize = match &v.payload {
                None => 0,
                Some(Payload::Positional(types)) => types.len(),
                Some(Payload::Named(fields)) => fields.len(),
            };
            entries.push((v.name.clone(), arity));
            let owned: Option<Option<bool>> = match self.variant_to_enum.get(v.name.as_str()) {
                None => None,
                Some(owner) => match &owner.name {
                    None => Some(None),
                    Some(e) => Some(Some(same_text(e.as_str(), decl.name.as_str()))),
                },
            };
            match owned {
                None => {
                    self.variant_to_enum.insert(v.name.clone(), EnumName::known(decl.name.as_str()));
                },
                Some(Some(true)) => {},
                _ => {
                    self.variant_to_enum.insert(v.name.clone(), EnumName::unknown());
                },
            }
            i = i + 1;
        }
        let variants = Variants { entries };
        assert(variants@ =~= arities(decl@.variants));
        self.enums.insert(decl.name.clone(), variants);
    }

    /// Record every enum among statements.
    fn walk_enum_decls(&mut self, stmts: &Vec<Stmt>)
        ensures
            final(self)@ == enums_in(stmts@, 0, old(self)@),
        decreases stmts@, 1nat,
    {
        let mut i: usize = 0;
        while i < stmts.len()
            invariant
                i <= stmts.len(),
                enums_in(stmts@, i as nat, self@) == enums_in(stmts@, 0, old(self)@),
            decreases stmts.len() - i,
        {
            self.walk_stmt(&stmts[i]);
            i = i + 1;
        }
    }

    fn walk_stmt(&mut self, s: &Stmt)
        ensures
            final(self)@ == enums_in_stmt(*s, old(self)@),
        decreases *s, 0nat,
    {
        match &s.kind {
            StmtKind::Enum(d) => self.record(d),
            StmtKind::Fn(decl) => self.walk_enum_decls(&decl.body.stmts),
            StmtKind::Impl(d) => self.walk_methods(&d.methods),
            StmtKind::If(c) => {
                self.walk_arms(&c.arms);
                if let Some(b) = &c.else_body {
                    self.walk_enum_decls(&b.stmts);
                }
            },
            StmtKind::While(l) => self.walk_enum_decls(&l.body.stmts),
            StmtKind::For(l) => self.walk_enum_decls(&l.body.stmts),
            _ => {},
        }
    }

    fn walk_methods(&mut self, ms: &Vec<Rc<FnDecl>>)
        ensures
            final(self)@ == enums_in_methods(ms@, 0, old(self)@),
        decreases ms@, 1nat,
    {
        let mut i: usize = 0;
        while i < ms.len()
            invariant
                i <= ms.len(),
                enums_in_methods(ms@, i as nat, self@) == enums_in_methods(ms@, 0, old(self)@),
            decreases ms.len() - i,
        {
            self.walk_enum_decls(&ms[i].body.stmts);
            i = i + 1;
        }
    }

    fn walk_arms(&mut self, arms: &Vec<(Expr, Block)>)
        ensures
            final(self)@ == enums_in_arms(arms@, 0, old(self)@),
        decreases arms@, 1nat,
    {
        let mut i: usize = 0;
        while i < arms.len()
            invariant
                i <= arms.len(),
                enums_in_arms(arms@, i as nat, self@) == enums_in_arms(arms@, 0, old(self)@),
            decreases arms.len() - i,
        {
            self.walk_enum_decls(&arms[i].1.stmts);
            i = i + 1;
        }
    }

    /// The enum that a type names.
    pub fn enum_name_of_type<'a>(&self, ty: &'a Type) -> (r: Option<&'a str>)
        ensures
            match r {
                Some(n) => self@.of_type(*ty) == Some(n@),
                None => self@.of_type(*ty) is None,
            },
    {
        match &ty.base {
            BaseType::Named { name, .. } => if self.enums.contains(name.as_str()) {
                Some(name.as_str())
            } else {
                None
            },
            _ => None,
        }
    }
}

// ---------------------------------------------------------------------------
// Names and expressions
// ---------------------------------------------------------------------------

/// The names that a binder binds.
pub open spec fn names_of(b: Binder) -> Seq<Seq<char>> {
    match b {
        Binder::Name(n) => seq![n@],
        Binder::Tuple(names) => texts(names@),
    }
}

/// The names that a binder binds.
pub fn binder_names(binder: &Binder) -> (r: Vec<String>)
    ensures
        texts(r@) == names_of(*binder),
{
    let mut out: Vec<String> = Vec::new();
    match binder {
        Binder::Name(n) => {
            out.push(n.clone());
            assert(texts(out@) =~= seq![n@]);
        },
        Binder::Tuple(names) => {
            return copy_names(names);
        },
    }
    out
}

/// `names`, and then the names that a pattern binds.
pub open spec fn names_in(pat: Pattern, names: Seq<Seq<char>>) -> Seq<Seq<char>>
    decreases pat, 0nat, 0nat,
{
    match pat.kind {
        PatternKind::Binding(n) => names.push(n@),
        PatternKind::Variant { subs, .. } => names_in_all(subs@, 0, names),
        PatternKind::Or(alts) => names_in_all(alts@, 0, names),
        PatternKind::Tuple(elems) => names_in_all(elems@, 0, names),
        _ => names,
    }
}

pub open spec fn names_in_all(pats: Seq<Pattern>, i: nat, names: Seq<Seq<char>>) -> Seq<Seq<char>>
    decreases pats, 1nat, pats.len() - i,
{
    if i >= pats.len() {
        names
    } else {
        names_in_all(pats, i + 1, names_in(pats[i as int], names))
    }
}

/// The names that a pattern binds.
pub open spec fn names_of_pattern(pat: Pattern) -> Seq<Seq<char>> {
    names_in(pat, Seq::empty())
}

fn add_names(pat: &Pattern, names: &mut Vec<String>)
    ensures
        texts(final(names)@) == names_in(*pat, texts(old(names)@)),
    decreases *pat, 0nat,
{
    match &pat.kind {
        PatternKind::Binding(n) => {
            names.push(n.clone());
        },
        PatternKind::Variant { subs, .. } => add_all_names(subs, names),
        PatternKind::Or(alts) => add_all_names(alts, names),
        PatternKind::Tuple(elems) => add_all_names(elems, names),
        _ => {},
    }
}

fn add_all_names(pats: &Vec<Pattern>, names: &mut Vec<String>)
    ensures
        texts(final(names)@) == names_in_all(pats@, 0, texts(old(names)@)),
    decreases pats@, 1nat,
{
    let mut i: usize = 0;
    while i < pats.len()
        invariant
            i <= pats.len(),
            names_in_all(pats@, i as nat, texts(names@)) == names_in_all(
                pats@,
                0,
                texts(old(names)@),
            ),
        decreases pats.len() - i,
    {
        add_names(&pats[i], names);
        i = i + 1;
    }
}

/// The names that a pattern binds.
pub fn pattern_names(pat: &Pattern) -> (r: Vec<String>)
    ensures
        texts(r@) == names_of_pattern(*pat),
{
    let mut names: Vec<String> = Vec::new();
    add_names(pat, &mut names);
    names
}

/// The expression of an argument.
pub open spec fn expr_of_arg(a: Arg) -> Expr {
    match a {
        Arg::Positional(e) => e,
        Arg::Named { value, .. } => value,
    }
}

/// The expression of an argument.
pub fn arg_expr(arg: &Arg) -> (r: &Expr)
    ensures
        *r == expr_of_arg(*arg),
{
    match arg {
        Arg::Positional(e) => e,
        Arg::Named { value, .. } => value,
    }
}

pub open spec fn exprs_of_args(args: Seq<Arg>) -> Seq<Expr> {
    Seq::new(args.len(), |i: int| expr_of_arg(args[i]))
}

/// The expressions among the first `n` parts of a string.
pub open spec fn exprs_of_parts(parts: Seq<StrSeg>, n: nat) -> Seq<Expr>
    decreases n,
{
    if n == 0 || n > parts.len() {
        Seq::empty()
    } else {
        let before = exprs_of_parts(parts, (n - 1) as nat);
        match parts[n - 1] {
            StrSeg::Text(_) => before,
            StrSeg::Expr(e) => before.push(*e),
        }
    }
}

/// The keys and values of a map literal.
pub open spec fn exprs_of_pairs(pairs: Seq<(Expr, Expr)>) -> Seq<Expr> {
    Seq::new(
        2 * pairs.len(),
        |i: int|
            if i % 2 == 0 {
                pairs[i / 2].0
            } else {
                pairs[i / 2].1
            },
    )
}

pub open spec fn exprs_of_comprehension(c: Comprehension) -> Seq<Expr> {
    (match c.output {
        ComprehensionOutput::List(e) => seq![*e],
        ComprehensionOutput::SetOut(e) => seq![*e],
        ComprehensionOutput::MapOut { key, value } => seq![*key, *value],
    }).push(*c.iter) + (match c.cond {
        Some(e) => seq![*e],
        None => Seq::empty(),
    })
}

/// The expressions directly inside an expression, in source order. Those inside
/// a `match` are not among them: the checks handle it themselves.
pub open spec fn children(e: Expr) -> Seq<Expr> {
    match e.kind {
        ExprKind::Binary { lhs, rhs, .. } => seq![*lhs, *rhs],
        ExprKind::Unary { operand, .. } => seq![*operand],
        ExprKind::Ternary { then, cond, otherwise } => seq![*then, *cond, *otherwise],
        ExprKind::Call { callee, args } => seq![*callee] + exprs_of_args(args@),
        ExprKind::Index { base, index } => seq![*base, *index],
        ExprKind::Member { base, .. } => seq![*base],
        ExprKind::List(items) => items@,
        ExprKind::Lambda(l) => seq![*l.body],
        ExprKind::Str(lit) => exprs_of_parts(lit.parts@, lit.parts@.len()),
        ExprKind::MapLit(pairs) => exprs_of_pairs(pairs@),
        ExprKind::SetLit(items) => items@,
        ExprKind::Tuple(items) => items@,
        ExprKind::Comprehension(c) => exprs_of_comprehension(c),
        ExprKind::Try(inner) => seq![*inner],
        _ => Seq::empty(),
    }
}

/// How many expressions a comprehension puts out for an item.
pub open spec fn outputs_of(c: Comprehension) -> nat {
    match c.output {
        ComprehensionOutput::MapOut { .. } => 2,
        _ => 1,
    }
}

/// The names that an expression binds around its child at place `i`: those of a
/// lambda around its body, and those of a comprehension around all but what it
/// runs over.
pub open spec fn names_around(e: Expr, i: nat) -> Seq<Seq<char>> {
    match e.kind {
        ExprKind::Lambda(l) => texts(l.params@),
        ExprKind::Comprehension(c) => if i == outputs_of(c) {
            Seq::empty()
        } else {
            match c.binder {
                ComprehensionBinder::Name(n) => seq![n@],
                ComprehensionBinder::Tuple(names) => texts(names@),
            }
        },
        _ => Seq::empty(),
    }
}

fn copy_names(names: &Vec<String>) -> (r: Vec<String>)
    ensures
        texts(r@) == texts(names@),
{
    let mut out: Vec<String> = Vec::new();
    let mut i: usize = 0;
    while i < names.len()
        invariant
            i <= names.len(),
            texts(out@) == texts(names@).take(i as int),
        decreases names.len() - i,
    {
        out.push(names[i].clone());
        i = i + 1;
        assert(texts(names@).take(i as int) =~= texts(names@).take(i - 1).push(
            texts(names@)[i - 1],
        ));
    }
    assert(texts(names@).take(i as int) =~= texts(names@));
    out
}

/// The names that an expression binds around one of its children.
pub fn child_names(e: &Expr, i: usize) -> (r: Vec<String>)
    ensures
        texts(r@) == names_around(*e, i as nat),
{
    match &e.kind {
        ExprKind::Lambda(l) => copy_names(&l.params),
        ExprKind::Comprehension(c) => {
            let outputs: usize = match &c.output {
                ComprehensionOutput::MapOut { .. } => 2,
                _ => 1,
            };
            if i == outputs {
                Vec::new()
            } else {
                match &c.binder {
                    ComprehensionBinder::Name(n) => {
                        let mut one: Vec<String> = Vec::new();
                        one.push(n.clone());
                        assert(texts(one@) =~= seq![n@]);
                        one
                    },
                    ComprehensionBinder::Tuple(names) => copy_names(names),
                }
            }
        },
        _ => Vec::new(),
    }
}

proof fn lemma_part_smaller(parts: Seq<StrSeg>, n: nat, i: int)
    requires
        0 <= i < exprs_of_parts(parts, n).len(),
    ensures
        decreases_to!(parts => exprs_of_parts(parts, n)[i]),
    decreases n,
{
    let before = exprs_of_parts(parts, (n - 1) as nat);
    if i < before.len() {
        lemma_part_smaller(parts, (n - 1) as nat, i);
    } else {
        assert(decreases_to!(parts => parts[n - 1]));
    }
}

/// A child is smaller than the expression it is in.
pub proof fn lemma_child_smaller(e: Expr, i: int)
    requires
        0 <= i < children(e).len(),
    ensures
        decreases_to!(e => children(e)[i]),
{
    match e.kind {
        ExprKind::Call { callee, args } => {
            if i > 0 {
                assert(children(e)[i] == expr_of_arg(args@[i - 1]));
                assert(decreases_to!(e => args@[i - 1]));
            }
        },
        ExprKind::List(items) => {
            assert(decreases_to!(e => items@[i]));
        },
        ExprKind::SetLit(items) => {
            assert(decreases_to!(e => items@[i]));
        },
        ExprKind::Tuple(items) => {
            assert(decreases_to!(e => items@[i]));
        },
        ExprKind::Str(lit) => {
            lemma_part_smaller(lit.parts@, lit.parts@.len(), i);
            assert(decreases_to!(e => lit.parts@));
        },
        ExprKind::MapLit(pairs) => {
            assert(decreases_to!(e => pairs@[i / 2]));
        },
        _ => {},
    }
}

/// The expressions directly inside an expression.
pub fn walk_child_exprs<'a>(e: &'a Expr) -> (r: Vec<&'a Expr>)
    ensures
        r@.len() == children(*e).len(),
        forall|i: int| 0 <= i < r@.len() ==> *(#[trigger] r@[i]) == children(*e)[i],
{
    let mut out: Vec<&'a Expr> = Vec::new();
    match &e.kind {
        ExprKind::Binary { lhs, rhs, .. } => {
            out.push(lhs);
            out.push(rhs);
        },
        ExprKind::Unary { operand, .. } => {
            out.push(operand);
        },
        ExprKind::Ternary { then, cond, otherwise } => {
            out.push(then);
            out.push(cond);
            out.push(otherwise);
        },
        ExprKind::Call { callee, args } => {
            out.push(callee);
            let mut i: usize = 0;
            while i < args.len()
                invariant
                    i <= args.len(),
                    out@.len() == i + 1,
                    *out@[0] == **callee,
                    forall|j: int| 0 < j <= i ==> *(#[trigger] out@[j]) == expr_of_arg(args@[j - 1]),
                decreases args.len() - i,
            {
                out.push(arg_expr(&args[i]));
                i = i + 1;
            }
        },
        ExprKind::Index { base, index } => {
            out.push(base);
            out.push(index);
        },
        ExprKind::Member { base, .. } => {
            out.push(base);
        },
        ExprKind::List(items) => {
            push_all(&mut out, items);
        },
        ExprKind::Lambda(l) => {
            out.push(&l.body);
        },
        ExprKind::Str(lit) => {
            let mut i: usize = 0;
            while i < lit.parts.len()
                invariant
                    i <= lit.parts.len(),
                    out@.len() == exprs_of_parts(lit.parts@, i as nat).len(),
                    forall|j: int|
                        0 <= j < out@.len() ==> *(#[trigger] out@[j]) == exprs_of_parts(
                            lit.parts@,
                            i as nat,
                        )[j],
                decreases lit.parts.len() - i,
            {
                match &lit.parts[i] {
                    StrSeg::Text(_) => {},
                    StrSeg::Expr(inner) => {
                        out.push(inner);
                    },
                }
                i = i + 1;
            }
        },
        ExprKind::MapLit(pairs) => {
            let mut i: usize = 0;
            while i < pairs.len()
                invariant
                    i <= pairs.len(),
                    out@.len() == 2 * i,
                    forall|j: int|
                        0 <= j < 2 * i ==> *(#[trigger] out@[j]) == exprs_of_pairs(pairs@)[j],
                decreases pairs.len() - i,
            {
                out.push(&pairs[i].0);
                out.push(&pairs[i].1);
                i = i + 1;
            }
        },
        ExprKind::SetLit(items) => {
            push_all(&mut out, items);
        },
        ExprKind::Tuple(items) => {
            push_all(&mut out, items);
        },
        ExprKind::Comprehension(c) => {
            match &c.output {
                ComprehensionOutput::List(o) => {
                    out.push(o);
                },
                ComprehensionOutput::SetOut(o) => {
                    out.push(o);
                },
                ComprehensionOutput::MapOut { key, value } => {
                    out.push(key);
                    out.push(value);
                },
            }
            out.push(&c.iter);
            if let Some(cond) = &c.cond {
                out.push(cond);
            }
        },
        ExprKind::Try(inner) => {
            out.push(inner);
        },
        _ => {},
    }
    out
}

fn push_all<'a>(out: &mut Vec<&'a Expr>, items: &'a Vec<Expr>)
    requires
        old(out)@.len() == 0,
    ensures
        final(out)@.len() == items@.len(),
        forall|i: int| 0 <= i < items@.len() ==> *(#[trigger] final(out)@[i]) == items@[i],
{
    let mut i: usize = 0;
    while i < items.len()
        invariant
            i <= items.len(),
            out@.len() == i,
            forall|j: int| 0 <= j < i ==> *(#[trigger] out@[j]) == items@[j],
        decreases items.len() - i,
    {
        out.push(&items[i]);
        i = i + 1;
    }
}

// ---------------------------------------------------------------------------
// The checks
// ---------------------------------------------------------------------------

/// What the checks report: first what is not exhaustive, then what may be null.
pub open spec fn reported(stmts: Seq<Stmt>) -> Seq<DiagnosticView> {
    nullness_of(stmts, exhaustiveness_of(stmts, Seq::empty()))
}

/// Run the checks. The error holds all that they report.
pub fn check(program: &Program) -> (r: Result<(), Vec<Diagnostic>>)
    ensures
        match r {
            Ok(_) => reported(program.stmts@).len() == 0,
            Err(ds) => ds@.len() > 0 && diagnostics_view(ds@) == reported(program.stmts@),
        },
{
    let enums = EnumInfo::gather(program);
    let mut ex = Exhaustiveness::new(&enums);
    ex.run(program);
    let mut nn = NullNarrowing::new(ex.diags);
    nn.run(program);
    assert(diagnostics_view(nn.diags@).len() == nn.diags@.len());
    if nn.diags.len() == 0 {
        Ok(())
    } else {
        Err(nn.diags)
    }
}

} // verus!
