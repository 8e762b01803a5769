//! The runtime data model: values, what evaluation reads and changes, and how an
//! evaluation can end.

use super::float::{Question, QuestionView};
use crate::ast::{FnDecl, Lambda};
use crate::error::{runtime_diag, Diagnostic, DiagnosticView};
use crate::integer::Integer;
use crate::name_map::NameMap;
use crate::text::texts;
use crate::token::Span;
use std::rc::Rc;
use vstd::prelude::*;

verus! {

/// A runtime value.
///
/// Lists, maps, sets and structs are mutable and shared by reference: the value
/// holds the place where the contents are kept. Tuples and enum instances never
/// change, so they are shared by reference count.
///
/// The language's `==` is `values_equal`, which follows the contents.
#[derive(Debug)]
pub enum Value {
    /// An integer of any size.
    Int(Integer),
    /// The IEEE 754 bits of a float.
    Float(u64),
    Bool(bool),
    Str(String),
    /// The place of a list.
    List(usize),
    /// The place of a map.
    MapRef(usize),
    /// The place of a set.
    SetRef(usize),
    Tuple(Rc<Vec<Value>>),
    /// `()`.
    Unit,
    Null,
    /// The place of a struct instance.
    Struct(usize),
    Enum(Rc<EnumInstance>),
    Closure(Rc<Closure>),
    Builtin(Builtin),
}

/// A struct instance.
#[derive(Debug)]
pub struct StructInstance {
    /// The name of its type.
    pub struct_name: String,
    pub fields: NameMap<Value>,
    /// The fields in the order of the declaration.
    pub field_order: Vec<String>,
}

/// An enum instance.
#[derive(Debug)]
pub struct EnumInstance {
    pub enum_name: String,
    pub variant: String,
    pub payload: Vec<Value>,
    /// The names of a named payload's values; empty otherwise.
    pub payload_names: Vec<String>,
}

/// A function or lambda with the environment it was made in, which it sees by
/// reference.
#[derive(Debug)]
pub struct Closure {
    pub kind: ClosureKind,
    pub env: Env,
}

#[derive(Debug)]
pub enum ClosureKind {
    Function(Rc<FnDecl>),
    Lambda(Rc<Lambda>),
}

/// A function of the prelude.
#[derive(Debug, Clone, Copy, PartialEq, Eq, Structural)]
pub enum Builtin {
    /// `print(args, ..)`: a line with each argument's rendering.
    Print,
    /// `panic(message)`: ends the run with an error.
    Panic,
    /// `Set()`: an empty set.
    EmptySet,
    /// `Ok(value)`.
    MakeOk,
    /// `Err(value)`.
    MakeErr,
}

/// The place of a scope.
pub type Env = usize;

/// One scope: its bindings, and the scope around it.
#[derive(Debug)]
pub struct Scope {
    pub vars: NameMap<Binding>,
    pub parent: Option<Env>,
}

/// One bound name.
#[derive(Debug)]
pub struct Binding {
    pub value: Value,
    /// Bound with `val`: it cannot be reassigned.
    pub is_val: bool,
}

/// What a `Value` says.
pub enum Val {
    Int(int),
    Float(u64),
    Bool(bool),
    Str(Seq<char>),
    List(usize),
    MapRef(usize),
    SetRef(usize),
    Tuple(Seq<Val>),
    Unit,
    Null,
    Struct(usize),
    Enum(EnumVal),
    Closure(ClosureVal),
    Builtin(Builtin),
}

/// What an `EnumInstance` says.
pub struct EnumVal {
    pub enum_name: Seq<char>,
    pub variant: Seq<char>,
    pub payload: Seq<Val>,
    pub names: Seq<Seq<char>>,
}

/// What a `Closure` says.
pub enum ClosureVal {
    Function(FnDecl, Env),
    Lambda(Lambda, Env),
}

/// What a `StructInstance` says.
pub struct StructVal {
    pub name: Seq<char>,
    pub fields: Seq<(Seq<char>, Val)>,
    pub order: Seq<Seq<char>>,
}

/// What a `Binding` says.
pub struct BindingVal {
    pub value: Val,
    pub is_val: bool,
}

/// What a `Scope` says.
pub struct ScopeVal {
    pub vars: Seq<(Seq<char>, BindingVal)>,
    pub parent: Option<Env>,
}

pub open spec fn val(v: Value) -> Val
    decreases v,
{
    match v {
        Value::Int(n) => Val::Int(n@),
        Value::Float(bits) => Val::Float(bits),
        Value::Bool(b) => Val::Bool(b),
        Value::Str(s) => Val::Str(s@),
        Value::List(at) => Val::List(at),
        Value::MapRef(at) => Val::MapRef(at),
        Value::SetRef(at) => Val::SetRef(at),
        Value::Tuple(items) => Val::Tuple(vals(items@)),
        Value::Unit => Val::Unit,
        Value::Null => Val::Null,
        Value::Struct(at) => Val::Struct(at),
        Value::Enum(e) => Val::Enum(
            EnumVal {
                enum_name: e.enum_name@,
                variant: e.variant@,
                payload: vals(e.payload@),
                names: texts(e.payload_names@),
            },
        ),
        Value::Closure(c) => Val::Closure(closure_val(*c)),
        Value::Builtin(b) => Val::Builtin(b),
    }
}

/// What each value of a sequence says.
pub open spec fn vals(vs: Seq<Value>) -> Seq<Val>
    decreases vs,
{
    Seq::new(
        vs.len(),
        |i: int|
            if 0 <= i < vs.len() {
                val(vs[i])
            } else {
                arbitrary()
            },
    )
}

pub open spec fn closure_val(c: Closure) -> ClosureVal {
    match c.kind {
        ClosureKind::Function(f) => ClosureVal::Function(*f, c.env),
        ClosureKind::Lambda(l) => ClosureVal::Lambda(*l, c.env),
    }
}

impl View for Value {
    type V = Val;

    open spec fn view(&self) -> Val {
        val(*self)
    }
}

impl View for StructInstance {
    type V = StructVal;

    open spec fn view(&self) -> StructVal {
        StructVal {
            name: self.struct_name@,
            fields: self.fields@,
            order: texts(self.field_order@),
        }
    }
}

impl View for EnumInstance {
    type V = EnumVal;

    open spec fn view(&self) -> EnumVal {
        EnumVal {
            enum_name: self.enum_name@,
            variant: self.variant@,
            payload: vals(self.payload@),
            names: texts(self.payload_names@),
        }
    }
}

impl View for Closure {
    type V = ClosureVal;

    open spec fn view(&self) -> ClosureVal {
        closure_val(*self)
    }
}

impl View for Binding {
    type V = BindingVal;

    open spec fn view(&self) -> BindingVal {
        BindingVal { value: self.value@, is_val: self.is_val }
    }
}

impl View for Scope {
    type V = ScopeVal;

    open spec fn view(&self) -> ScopeVal {
        ScopeVal { vars: self.vars@, parent: self.parent }
    }
}

/// `Rc::clone`: another reference to the same value.
#[verifier::external_body]
pub(crate) fn share<T>(r: &Rc<T>) -> (s: Rc<T>)
    ensures
        s == *r,
{
    Rc::clone(r)
}

impl Clone for Value {
    fn clone(&self) -> (r: Self)
        ensures
            r@ == self@,
    {
        match self {
            Value::Int(n) => Value::Int(n.clone()),
            Value::Float(bits) => Value::Float(*bits),
            Value::Bool(b) => Value::Bool(*b),
            Value::Str(s) => Value::Str(s.clone()),
            Value::List(at) => Value::List(*at),
            Value::MapRef(at) => Value::MapRef(*at),
            Value::SetRef(at) => Value::SetRef(*at),
            Value::Tuple(items) => Value::Tuple(share(items)),
            Value::Unit => Value::Unit,
            Value::Null => Value::Null,
            Value::Struct(at) => Value::Struct(*at),
            Value::Enum(e) => Value::Enum(share(e)),
            Value::Closure(c) => Value::Closure(share(c)),
            Value::Builtin(b) => Value::Builtin(*b),
        }
    }
}

/// Pushing a value pushes what it says.
pub broadcast proof fn lemma_vals_push(vs: Seq<Value>, v: Value)
    ensures
        #[trigger] vals(vs.push(v)) == vals(vs).push(val(v)),
{
    assert(vals(vs.push(v)) =~= vals(vs).push(val(v)));
}

pub broadcast proof fn lemma_vals_empty()
    ensures
        #[trigger] vals(Seq::<Value>::empty()) == Seq::<Val>::empty(),
{
    assert(vals(Seq::<Value>::empty()) =~= Seq::<Val>::empty());
}

/// Copy a vector of values.
pub fn clone_values(vs: &Vec<Value>) -> (r: Vec<Value>)
    ensures
        vals(r@) == vals(vs@),
        r@.len() == vs@.len(),
{
    let mut out: Vec<Value> = Vec::new();
    let mut i: usize = 0;
    while i < vs.len()
        invariant
            i <= vs.len(),
            out@.len() == i,
            forall|j: int| 0 <= j < i ==> val(#[trigger] out@[j]) == val(vs@[j]),
        decreases vs.len() - i,
    {
        out.push(vs[i].clone());
        i = i + 1;
    }
    assert(vals(out@) =~= vals(vs@));
    out
}

/// How an evaluation can end without a value.
#[derive(Debug, PartialEq)]
pub enum Stop {
    /// A runtime error.
    Error(Diagnostic),
    /// The host has to answer this about floats first.
    Ask(Question),
    /// The budget of nested steps is used up.
    Budget,
}

/// What a `Stop` says.
pub enum Halt {
    Error(DiagnosticView),
    Ask(QuestionView),
    Budget,
}

impl View for Stop {
    type V = Halt;

    open spec fn view(&self) -> Halt {
        match self {
            Stop::Error(d) => Halt::Error(d@),
            Stop::Ask(q) => Halt::Ask(q@),
            Stop::Budget => Halt::Budget,
        }
    }
}

/// A runtime error.
pub open spec fn failure(message: Seq<char>, span: Span) -> Halt {
    Halt::Error(runtime_diag(message, span))
}

/// Stop with a runtime error.
pub fn fail(message: String, span: Span) -> (r: Stop)
    ensures
        r@ == failure(message@, span),
{
    Stop::Error(Diagnostic::runtime(message, span))
}

/// What a result of evaluation says.
pub open spec fn seen<T: View>(r: Result<T, Stop>) -> Result<T::V, Halt> {
    match r {
        Ok(v) => Ok(v@),
        Err(s) => Err(s@),
    }
}

/// What a result made of several values says.
pub open spec fn seen_vals(r: Result<Vec<Value>, Stop>) -> Result<Seq<Val>, Halt> {
    match r {
        Ok(v) => Ok(vals(v@)),
        Err(s) => Err(s@),
    }
}

/// What an optional value says.
pub open spec fn opt_val(v: Option<Value>) -> Option<Val> {
    match v {
        Some(x) => Some(x@),
        None => None,
    }
}

/// All that evaluation changes: the contents of lists, maps, sets, structs and
/// scopes, the printed lines, and an `Err` on its way to the nearest call.
pub struct World {
    pub lists: Seq<Seq<Val>>,
    pub maps: Seq<Seq<(Val, Val)>>,
    pub sets: Seq<Seq<Val>>,
    pub structs: Seq<StructVal>,
    pub scopes: Seq<ScopeVal>,
    pub out: Seq<(Seq<char>, Span)>,
    pub propagating: Option<Val>,
}

impl World {
    /// A world with nothing in it.
    pub open spec fn fresh() -> World {
        World {
            lists: Seq::empty(),
            maps: Seq::empty(),
            sets: Seq::empty(),
            structs: Seq::empty(),
            scopes: Seq::empty(),
            out: Seq::empty(),
            propagating: None,
        }
    }

    /// The contents of the list at a place.
    pub open spec fn list(self, at: usize) -> Seq<Val> {
        if at < self.lists.len() {
            self.lists[at as int]
        } else {
            Seq::empty()
        }
    }

    pub open spec fn map(self, at: usize) -> Seq<(Val, Val)> {
        if at < self.maps.len() {
            self.maps[at as int]
        } else {
            Seq::empty()
        }
    }

    pub open spec fn set(self, at: usize) -> Seq<Val> {
        if at < self.sets.len() {
            self.sets[at as int]
        } else {
            Seq::empty()
        }
    }

    pub open spec fn instance(self, at: usize) -> StructVal {
        if at < self.structs.len() {
            self.structs[at as int]
        } else {
            StructVal { name: Seq::empty(), fields: Seq::empty(), order: Seq::empty() }
        }
    }

    pub open spec fn scope(self, env: Env) -> ScopeVal {
        if env < self.scopes.len() {
            self.scopes[env as int]
        } else {
            ScopeVal { vars: Seq::empty(), parent: None }
        }
    }

    /// The scope around a scope. It is always an older one.
    pub open spec fn enclosing(self, env: Env) -> Option<Env> {
        match self.scope(env).parent {
            Some(p) if p < env => Some(p),
            _ => None,
        }
    }

    pub open spec fn next_list(self) -> usize {
        self.lists.len() as usize
    }

    pub open spec fn next_map(self) -> usize {
        self.maps.len() as usize
    }

    pub open spec fn next_set(self) -> usize {
        self.sets.len() as usize
    }

    pub open spec fn next_struct(self) -> usize {
        self.structs.len() as usize
    }

    pub open spec fn next_scope(self) -> Env {
        self.scopes.len() as usize
    }

    pub open spec fn add_list(self, items: Seq<Val>) -> World {
        World { lists: self.lists.push(items), ..self }
    }

    pub open spec fn add_map(self, pairs: Seq<(Val, Val)>) -> World {
        World { maps: self.maps.push(pairs), ..self }
    }

    pub open spec fn add_set(self, items: Seq<Val>) -> World {
        World { sets: self.sets.push(items), ..self }
    }

    pub open spec fn add_struct(self, inst: StructVal) -> World {
        World { structs: self.structs.push(inst), ..self }
    }

    /// A new empty scope inside `parent`.
    pub open spec fn add_scope(self, parent: Option<Env>) -> World {
        World { scopes: self.scopes.push(ScopeVal { vars: Seq::empty(), parent }), ..self }
    }

    pub open spec fn with_list(self, at: usize, items: Seq<Val>) -> World {
        if at < self.lists.len() {
            World { lists: self.lists.update(at as int, items), ..self }
        } else {
            self
        }
    }

    pub open spec fn with_map(self, at: usize, pairs: Seq<(Val, Val)>) -> World {
        if at < self.maps.len() {
            World { maps: self.maps.update(at as int, pairs), ..self }
        } else {
            self
        }
    }

    pub open spec fn with_set(self, at: usize, items: Seq<Val>) -> World {
        if at < self.sets.len() {
            World { sets: self.sets.update(at as int, items), ..self }
        } else {
            self
        }
    }

    pub open spec fn with_field(self, at: usize, name: Seq<char>, value: Val) -> World {
        if at < self.structs.len() {
            let inst = self.structs[at as int];
            let changed = StructVal {
                fields: crate::name_map::bind(inst.fields, name, value),
                ..inst
            };
            World { structs: self.structs.update(at as int, changed), ..self }
        } else {
            self
        }
    }

    /// `name` bound in this very scope.
    pub open spec fn with_var(self, env: Env, name: Seq<char>, value: Val, is_val: bool) -> World {
        if env < self.scopes.len() {
            let scope = self.scopes[env as int];
            let changed = ScopeVal {
                vars: crate::name_map::bind(scope.vars, name, BindingVal { value, is_val }),
                ..scope
            };
            World { scopes: self.scopes.update(env as int, changed), ..self }
        } else {
            self
        }
    }

    /// One more printed line.
    pub open spec fn with_line(self, text: Seq<char>, span: Span) -> World {
        World { out: self.out.push((text, span)), ..self }
    }

    pub open spec fn with_propagating(self, v: Option<Val>) -> World {
        World { propagating: v, ..self }
    }
}

} // verus!
