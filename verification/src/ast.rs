//! The syntax tree: what a parser hands to the checks and to the interpreter.
//!
//! Declarations and lambdas are shared by reference count, so that a closure or
//! the registry can hold on to one without copying it.

use crate::integer::Integer;
use crate::token::Span;
use std::rc::Rc;
use vstd::prelude::*;

verus! {

/// A whole program: its top-level statements.
#[derive(Debug, PartialEq)]
pub struct Program {
    pub stmts: Vec<Stmt>,
}

#[derive(Debug, PartialEq)]
pub struct Stmt {
    pub kind: StmtKind,
    pub span: Span,
}

#[derive(Debug, PartialEq)]
pub enum StmtKind {
    /// `val x = e`, `x: T = e`, `x = e`, `val (a, b) = e`.
    Binding(Binding),
    /// `target = e` for a target with a path.
    Assign(Assign),
    Return(Option<Expr>),
    Break,
    Continue,
    Expr(Expr),
    If(IfStmt),
    While(WhileStmt),
    For(ForStmt),
    Fn(Rc<FnDecl>),
    Struct(Rc<StructDecl>),
    Enum(Rc<EnumDecl>),
    Impl(ImplDecl),
    Trait(Rc<TraitDecl>),
}

#[derive(Debug, PartialEq)]
pub struct Binding {
    /// The bound name, or the first of a tuple binder's names.
    pub name: String,
    pub binder: Binder,
    /// Bound with `val`: it cannot be reassigned.
    pub is_val: bool,
    pub ty: Option<Type>,
    pub value: Expr,
}

/// What a binding or a `for` binds.
#[derive(Debug, PartialEq)]
pub enum Binder {
    Name(String),
    /// `(a, b, ..)`: destructures a tuple.
    Tuple(Vec<String>),
}

#[derive(Debug, PartialEq)]
pub struct Assign {
    pub target: Target,
    pub value: Expr,
}

/// An assignable place: a name and the fields and indices to walk from it.
#[derive(Debug, PartialEq)]
pub struct Target {
    pub base: String,
    pub path: Vec<TargetSeg>,
    pub span: Span,
}

#[derive(Debug, PartialEq)]
pub enum TargetSeg {
    Field(String),
    Index(Expr),
}

#[derive(Debug, PartialEq)]
pub struct IfStmt {
    /// The `if` and each `elif`, in order.
    pub arms: Vec<(Expr, Block)>,
    pub else_body: Option<Block>,
}

#[derive(Debug, PartialEq)]
pub struct WhileStmt {
    pub cond: Expr,
    pub body: Block,
}

#[derive(Debug, PartialEq)]
pub struct ForStmt {
    pub var: String,
    pub binder: Binder,
    pub iter: Expr,
    pub body: Block,
}

#[derive(Debug, PartialEq)]
pub struct Block {
    pub stmts: Vec<Stmt>,
    pub span: Span,
}

#[derive(Debug, PartialEq)]
pub struct FnDecl {
    pub name: String,
    pub type_params: Vec<TypeParam>,
    pub params: Vec<Param>,
    pub returns: Option<Type>,
    pub body: Block,
    pub doc: Option<String>,
    pub span: Span,
}

#[derive(Debug, PartialEq)]
pub enum Param {
    /// The `self` receiver of a method.
    SelfRecv,
    Named { name: String, ty: Type, default: Option<Expr> },
}

#[derive(Debug, PartialEq)]
pub struct StructDecl {
    pub name: String,
    pub type_params: Vec<TypeParam>,
    pub derives: Vec<String>,
    pub fields: Vec<FieldDecl>,
    pub doc: Option<String>,
    pub span: Span,
}

#[derive(Debug, PartialEq)]
pub struct FieldDecl {
    pub name: String,
    pub ty: Type,
    pub doc: Option<String>,
    pub span: Span,
}

#[derive(Debug, PartialEq)]
pub struct EnumDecl {
    pub name: String,
    pub type_params: Vec<TypeParam>,
    pub derives: Vec<String>,
    pub variants: Vec<VariantDecl>,
    pub doc: Option<String>,
    pub span: Span,
}

#[derive(Debug, PartialEq)]
pub struct VariantDecl {
    pub name: String,
    /// `None` for a variant without payload.
    pub payload: Option<Payload>,
    pub doc: Option<String>,
    pub span: Span,
}

#[derive(Debug, PartialEq)]
pub enum Payload {
    Positional(Vec<Type>),
    Named(Vec<(String, Type)>),
}

/// `impl Type:` or `impl Trait for Type:`.
#[derive(Debug, PartialEq)]
pub struct ImplDecl {
    pub for_type: String,
    pub trait_name: Option<String>,
    pub type_params: Vec<TypeParam>,
    pub methods: Vec<Rc<FnDecl>>,
    pub span: Span,
}

#[derive(Debug, PartialEq)]
pub struct TraitDecl {
    pub name: String,
    pub type_params: Vec<TypeParam>,
    /// Methods that an impl must give.
    pub required: Vec<TraitSig>,
    /// Methods that an impl inherits unless it gives its own.
    pub defaults: Vec<Rc<FnDecl>>,
    pub doc: Option<String>,
    pub span: Span,
}

#[derive(Debug, PartialEq)]
pub struct TraitSig {
    pub name: String,
    pub params: Vec<Param>,
    pub returns: Option<Type>,
    pub doc: Option<String>,
    pub span: Span,
}

#[derive(Debug, PartialEq)]
pub struct TypeParam {
    pub name: String,
    pub bounds: Vec<String>,
    pub span: Span,
}

#[derive(Debug, PartialEq)]
pub struct Expr {
    pub kind: ExprKind,
    pub span: Span,
}

#[derive(Debug, PartialEq)]
pub enum ExprKind {
    Int(Integer),
    /// The IEEE 754 bits of a float.
    Float(u64),
    Bool(bool),
    Null,
    Str(StringLit),
    Name(String),
    SelfExpr,
    List(Vec<Expr>),
    Lambda(Rc<Lambda>),
    /// `then if cond else otherwise`.
    Ternary { then: Box<Expr>, cond: Box<Expr>, otherwise: Box<Expr> },
    Binary { op: BinOp, lhs: Box<Expr>, rhs: Box<Expr> },
    Unary { op: UnOp, operand: Box<Expr> },
    Call { callee: Box<Expr>, args: Vec<Arg> },
    Index { base: Box<Expr>, index: Box<Expr> },
    /// `base.name`, or `base?.name` where `safe`.
    Member { base: Box<Expr>, name: String, safe: bool },
    Match(MatchExpr),
    MapLit(Vec<(Expr, Expr)>),
    SetLit(Vec<Expr>),
    Tuple(Vec<Expr>),
    Comprehension(Comprehension),
    /// `try e`.
    Try(Box<Expr>),
}

#[derive(Debug, PartialEq)]
pub struct StringLit {
    pub parts: Vec<StrSeg>,
}

#[derive(Debug, PartialEq)]
pub enum StrSeg {
    Text(String),
    Expr(Box<Expr>),
}

#[derive(Debug, PartialEq)]
pub struct Lambda {
    pub params: Vec<String>,
    pub body: Box<Expr>,
}

#[derive(Debug, PartialEq)]
pub enum Arg {
    Positional(Expr),
    Named { name: String, value: Expr },
}

#[derive(Debug, PartialEq)]
pub struct Comprehension {
    pub output: ComprehensionOutput,
    pub binder: ComprehensionBinder,
    pub iter: Box<Expr>,
    pub cond: Option<Box<Expr>>,
}

#[derive(Debug, PartialEq)]
pub enum ComprehensionOutput {
    List(Box<Expr>),
    SetOut(Box<Expr>),
    MapOut { key: Box<Expr>, value: Box<Expr> },
}

#[derive(Debug, PartialEq)]
pub enum ComprehensionBinder {
    Name(String),
    Tuple(Vec<String>),
}

#[derive(Debug, Clone, Copy, PartialEq, Eq, Structural)]
pub enum BinOp {
    Or,
    And,
    Eq,
    NotEq,
    Lt,
    LtEq,
    Gt,
    GtEq,
    Is,
    IsNot,
    Range,
    RangeIncl,
    Add,
    Sub,
    Mul,
    Div,
    Rem,
    Pow,
}

#[derive(Debug, Clone, Copy, PartialEq, Eq, Structural)]
pub enum UnOp {
    Not,
    Neg,
}

#[derive(Debug, PartialEq)]
pub struct MatchExpr {
    pub scrutinee: Box<Expr>,
    pub arms: Vec<MatchArm>,
}

#[derive(Debug, PartialEq)]
pub struct MatchArm {
    pub pattern: Pattern,
    pub guard: Option<Expr>,
    pub body: Block,
    pub span: Span,
}

#[derive(Debug, PartialEq)]
pub struct Pattern {
    pub kind: PatternKind,
    pub span: Span,
}

#[derive(Debug, PartialEq)]
pub enum PatternKind {
    Wildcard,
    Null,
    Literal(LitPattern),
    Binding(String),
    /// `Enum.Variant(subs)`, or `.Variant(subs)` where the enum is left open.
    Variant { enum_name: Option<String>, name: String, subs: Vec<Pattern> },
    Or(Vec<Pattern>),
    Tuple(Vec<Pattern>),
}

#[derive(Debug, PartialEq)]
pub enum LitPattern {
    Int(Integer),
    /// The IEEE 754 bits of a float.
    Float(u64),
    Bool(bool),
    Str(String),
}

#[derive(Debug, PartialEq)]
pub struct Type {
    pub base: BaseType,
    /// `T?`.
    pub nullable: bool,
    pub span: Span,
}

#[derive(Debug, PartialEq)]
pub enum BaseType {
    Named { name: String, args: Vec<Type> },
    Unit,
    Fn { params: Vec<Type>, ret: Box<Type> },
    Tuple(Vec<Type>),
}

/// What construction and ordering read of a struct declaration.
pub struct StructShape {
    pub name: Seq<char>,
    pub fields: Seq<Seq<char>>,
    pub derives: Seq<Seq<char>>,
}

/// What construction, ordering and matching read of an enum declaration.
pub struct EnumShape {
    pub name: Seq<char>,
    pub variants: Seq<VariantShape>,
    pub derives: Seq<Seq<char>>,
}

pub struct VariantShape {
    pub name: Seq<char>,
    pub payload: PayloadShape,
}

pub enum PayloadShape {
    /// No payload.
    Nothing,
    /// So many unnamed values.
    Positional(nat),
    /// Values with these names.
    Named(Seq<Seq<char>>),
}

pub open spec fn payload_shape(p: Option<Payload>) -> PayloadShape {
    match p {
        None => PayloadShape::Nothing,
        Some(Payload::Positional(types)) => PayloadShape::Positional(types@.len()),
        Some(Payload::Named(named)) => PayloadShape::Named(
            Seq::new(named@.len(), |i: int| named@[i].0@),
        ),
    }
}

impl View for VariantDecl {
    type V = VariantShape;

    open spec fn view(&self) -> VariantShape {
        VariantShape { name: self.name@, payload: payload_shape(self.payload) }
    }
}

impl View for EnumDecl {
    type V = EnumShape;

    open spec fn view(&self) -> EnumShape {
        EnumShape {
            name: self.name@,
            variants: Seq::new(self.variants@.len(), |i: int| self.variants@[i]@),
            derives: Seq::new(self.derives@.len(), |i: int| self.derives@[i]@),
        }
    }
}

impl View for StructDecl {
    type V = StructShape;

    open spec fn view(&self) -> StructShape {
        StructShape {
            name: self.name@,
            fields: Seq::new(self.fields@.len(), |i: int| self.fields@[i].name@),
            derives: Seq::new(self.derives@.len(), |i: int| self.derives@[i]@),
        }
    }
}

impl View for FnDecl {
    type V = FnDecl;

    open spec fn view(&self) -> FnDecl {
        *self
    }
}

impl View for TraitDecl {
    type V = TraitDecl;

    open spec fn view(&self) -> TraitDecl {
        *self
    }
}

/// A reference to the named type, with no arguments and not nullable.
pub open spec fn is_plain_type(t: Type, name: Seq<char>) -> bool {
    &&& t.base matches BaseType::Named { name: n, args } && n@ == name && args@.len() == 0
    &&& !t.nullable
    &&& t.span == Span::dummy()
}

fn plain_type(name: &str) -> (r: Type)
    ensures
        is_plain_type(r, name@),
{
    Type {
        base: BaseType::Named { name: name.to_owned(), args: Vec::new() },
        nullable: false,
        span: Span::dummy(),
    }
}

/// A type parameter without bounds.
pub open spec fn is_free_param(p: TypeParam, name: Seq<char>) -> bool {
    p.name@ == name && p.bounds@.len() == 0 && p.span == Span::dummy()
}

fn free_param(name: &str) -> (r: TypeParam)
    ensures
        is_free_param(r, name@),
{
    TypeParam { name: name.to_owned(), bounds: Vec::new(), span: Span::dummy() }
}

/// A variant with one unnamed value of the named type.
pub open spec fn is_unary_variant(v: VariantDecl, name: Seq<char>, ty: Seq<char>) -> bool {
    &&& v.name@ == name
    &&& v.payload matches Some(Payload::Positional(types)) && types@.len() == 1 && is_plain_type(
        types@[0],
        ty,
    )
    &&& v.doc is None
    &&& v.span == Span::dummy()
}

fn unary_variant(name: &str, ty: &str) -> (r: VariantDecl)
    ensures
        is_unary_variant(r, name@, ty@),
{
    let mut types: Vec<Type> = Vec::new();
    types.push(plain_type(ty));
    VariantDecl {
        name: name.to_owned(),
        payload: Some(Payload::Positional(types)),
        doc: None,
        span: Span::dummy(),
    }
}

/// The shape of the prelude's `Result`.
pub open spec fn result_shape() -> EnumShape {
    EnumShape {
        name: "Result"@,
        variants: seq![
            VariantShape { name: "Ok"@, payload: PayloadShape::Positional(1) },
            VariantShape { name: "Err"@, payload: PayloadShape::Positional(1) },
        ],
        derives: Seq::empty(),
    }
}

/// The prelude's `enum Result[T, E]` with `Ok(T)` and `Err(E)`.
pub fn result_enum_decl() -> (r: EnumDecl)
    ensures
        r@ == result_shape(),
        r.type_params@.len() == 2,
        is_free_param(r.type_params@[0], "T"@),
        is_free_param(r.type_params@[1], "E"@),
        r.variants@.len() == 2,
        is_unary_variant(r.variants@[0], "Ok"@, "T"@),
        is_unary_variant(r.variants@[1], "Err"@, "E"@),
        r.doc is None,
        r.span == Span::dummy(),
{
    let mut type_params: Vec<TypeParam> = Vec::new();
    type_params.push(free_param("T"));
    type_params.push(free_param("E"));
    let mut variants: Vec<VariantDecl> = Vec::new();
    variants.push(unary_variant("Ok", "T"));
    variants.push(unary_variant("Err", "E"));
    let r = EnumDecl {
        name: "Result".to_owned(),
        type_params,
        derives: Vec::new(),
        variants,
        doc: None,
        span: Span::dummy(),
    };
    assert(r@.variants =~= result_shape().variants);
    assert(r@.derives =~= result_shape().derives);
    r
}

} // verus!
