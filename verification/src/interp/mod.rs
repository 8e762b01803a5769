//! Evaluation: a tree-walking interpreter and everything that is enforced at
//! run time.
//!
//! The world of an evaluation (`State`) holds what it changes; declarations and
//! the host's answers about floats stay fixed while it runs. Every step takes a
//! budget, `fuel`, which bounds how deep evaluation nests and how often a loop
//! turns; with a large enough budget it plays no part.

pub mod value;
pub mod float;
pub mod heap;
pub mod env;
pub mod registry;
pub mod show;
pub mod ops;
pub mod collections;
pub mod semantics;
pub mod eval;
pub mod exec;
pub mod call;
pub mod builtins;
pub mod matching;
pub mod places;
pub mod progress;
pub mod laws;
pub mod flow_laws;
pub mod order_laws;
pub mod call_laws;
pub mod expr_laws;
pub mod pattern_laws;
pub mod assign_laws;
pub mod method_laws;
pub mod show_laws;
pub mod program_laws;
pub mod construction_laws;
pub mod collection_laws;
pub mod equality_laws;
pub mod map_laws;
pub mod registry_laws;
pub mod declaration_laws;
pub mod printing;
pub mod replay;

use crate::error::{runtime_diag, Diagnostic};
use crate::ast::{Program, Stmt, StmtKind};
use crate::text::{same_text, cat2, cat3, cat5, count_text, decimal, texts};
use crate::token::Span;
use env::{env_define, env_get, resolved};
use float::{Answers, FloatTable};
use heap::{lines_view, Line, State};
use semantics::{closure_called, executed};
use registry::{Decls, Registry};
use show::{label_of, type_label};
use value::{
    fail, failure, seen, vals, Builtin, ClosureKind, ClosureVal, Env, Halt, Scope, Stop, Val,
    Value, World,
};
use vstd::prelude::*;
use vstd::string::*;

verus! {

/// What stays fixed during a run: the declarations and the host's answers.
pub struct Cx {
    pub reg: Decls,
    pub ans: Answers,
}

/// The result of a step, and the world it leaves.
pub type Out<T> = (Result<T, Halt>, World);

/// How a statement or a block ended.
#[derive(Debug)]
pub enum Flow {
    /// It ran to its end; the value of its last expression.
    Normal(Value),
    /// `return`: unwinds to the enclosing call.
    Return(Value),
    /// `break`: unwinds to the enclosing loop.
    Break,
    /// `continue`: unwinds to the enclosing loop's turn.
    Continue,
}

/// What a `Flow` says.
pub enum FlowVal {
    Normal(Val),
    Return(Val),
    Break,
    Continue,
}

impl View for Flow {
    type V = FlowVal;

    open spec fn view(&self) -> FlowVal {
        match self {
            Flow::Normal(v) => FlowVal::Normal(v@),
            Flow::Return(v) => FlowVal::Return(v@),
            Flow::Break => FlowVal::Break,
            Flow::Continue => FlowVal::Continue,
        }
    }
}

/// A run of a program.
#[derive(Debug)]
pub struct Interp {
    pub registry: Registry,
    pub floats: FloatTable,
    pub state: State,
}

impl Interp {
    pub open spec fn cx(self) -> Cx {
        Cx { reg: self.registry@, ans: self.floats@ }
    }
}

/// The value of a call whose body ended so. A `break` or `continue` that gets
/// this far has left its loop, which is an error.
pub open spec fn flow_ended(flow: FlowVal, message: Seq<char>, span: Span) -> Result<Val, Halt> {
    match flow {
        FlowVal::Normal(v) => Ok(v),
        FlowVal::Return(v) => Ok(v),
        FlowVal::Break => Err(failure(message, span)),
        FlowVal::Continue => Err(failure(message, span)),
    }
}

/// Collapse how a body ended into the value of the call.
pub fn finish_call(flow: Flow, message: &str, span: Span) -> (r: Result<Value, Stop>)
    ensures
        seen(r) == flow_ended(flow@, message@, span),
{
    match flow {
        Flow::Normal(v) => Ok(v),
        Flow::Return(v) => Ok(v),
        Flow::Break => Err(fail(message.to_owned(), span)),
        Flow::Continue => Err(fail(message.to_owned(), span)),
    }
}

/// The error that `try` unwinds with. A call takes it back; it is seen only
/// where no call is around the `try`.
pub open spec fn unwind_message() -> Seq<char> {
    "`try` used outside a function returning a `Result`"@
}

/// The error that `try` unwinds with.
pub fn try_unwind_sentinel(span: Span) -> (r: Diagnostic)
    ensures
        r@ == runtime_diag(unwind_message(), span),
{
    Diagnostic::runtime("`try` used outside a function returning a `Result`".to_owned(), span)
}

/// At the boundary of a call, an error that carries an `Err` from a `try`
/// becomes the call's value; any other ends the call as it is.
pub open spec fn intercepted(h: Halt, w: World) -> Out<Val> {
    match (h, w.propagating) {
        (Halt::Error(_), Some(v)) => (Ok(v), w.with_propagating(None)),
        _ => (Err(h), w),
    }
}

/// What a call gives whose body gave `body`.
pub open spec fn body_ended(body: Out<FlowVal>, message: Seq<char>, span: Span) -> Out<Val> {
    match body.0 {
        Ok(flow) => (flow_ended(flow, message, span), body.1),
        Err(h) => intercepted(h, body.1),
    }
}

impl Interp {
    /// Turn an unwinding `try` back into a value, at the boundary of a call.
    pub fn intercept_propagation(&mut self, s: Stop) -> (r: Result<Value, Stop>)
        ensures
            final(self).cx() == old(self).cx(),
            (seen(r), final(self).state@) == intercepted(s@, old(self).state@),
    {
        match s {
            Stop::Error(d) => {
                let ghost was = self.state@;
                match self.state.take_propagating() {
                    Some(v) => Ok(v),
                    None => {
                        assert(self.state@ == was);
                        Err(Stop::Error(d))
                    },
                }
            },
            other => Err(other),
        }
    }

    /// Collapse the outcome of a body into the value of the call.
    pub fn finish_body(
        &mut self,
        body: Result<Flow, Stop>,
        message: &str,
        span: Span,
    ) -> (r: Result<Value, Stop>)
        ensures
            final(self).cx() == old(self).cx(),
            (seen(r), final(self).state@) == body_ended(
                (seen(body), old(self).state@),
                message@,
                span,
            ),
    {
        match body {
            Ok(flow) => finish_call(flow, message, span),
            Err(s) => self.intercept_propagation(s),
        }
    }
}

pub open spec fn arity_message(
    fn_name: Seq<char>,
    min: usize,
    max: usize,
    got: usize,
) -> Seq<char> {
    "`"@ + fn_name + "` expects "@ + (if min == max {
        decimal(max as nat)
    } else {
        decimal(min as nat) + " to "@ + decimal(max as nat)
    }) + " argument(s), got "@ + decimal(got as nat)
}

/// The error of a call with too few or too many arguments; `min` and `max` differ
/// where some parameters have defaults.
pub fn arity_error(fn_name: &str, min: usize, max: usize, got: usize, span: Span) -> (r: Diagnostic)
    ensures
        r@ == runtime_diag(arity_message(fn_name@, min, max, got), span),
{
    let expects = if min == max {
        count_text(max)
    } else {
        cat3(count_text(min).as_str(), " to ", count_text(max).as_str())
    };
    let message = cat2(
        cat5("`", fn_name, "` expects ", expects.as_str(), " argument(s), got ").as_str(),
        count_text(got).as_str(),
    );
    Diagnostic::runtime(message, span)
}

pub open spec fn no_method_message(label: Seq<char>, method: Seq<char>) -> Seq<char> {
    "`"@ + label + "` has no method `"@ + method + "`"@
}

/// The error of calling a method that a type does not have. Declared and built-in
/// types report it in the same way.
pub fn no_method(label: &str, method: &str, span: Span) -> (r: Diagnostic)
    ensures
        r@ == runtime_diag(no_method_message(label@, method@), span),
{
    Diagnostic::runtime(cat5("`", label, "` has no method `", method, "`"), span)
}

/// Bind each name to the item at its place, from place `i` on.
pub open spec fn bound_all(
    w: World,
    scope: Env,
    names: Seq<Seq<char>>,
    items: Seq<Val>,
    is_val: bool,
    i: nat,
) -> World
    decreases names.len() - i,
{
    if i >= names.len() || i >= items.len() {
        w
    } else {
        bound_all(
            w.with_var(scope, names[i as int], items[i as int], is_val),
            scope,
            names,
            items,
            is_val,
            i + 1,
        )
    }
}

/// Take a tuple apart into names of a scope: it must be a tuple of that size. Each
/// name is bound as `is_val` says.
pub open spec fn destructured(
    names: Seq<Seq<char>>,
    v: Val,
    scope: Env,
    is_val: bool,
    span: Span,
    w: World,
) -> Out<()> {
    match v {
        Val::Tuple(items) => if items.len() != names.len() {
            (
                Err(
                    failure(
                        "cannot destructure a "@ + decimal(items.len()) + "-tuple into "@
                            + decimal(names.len()) + " name(s)"@,
                        span,
                    ),
                ),
                w,
            )
        } else {
            (Ok(()), bound_all(w, scope, names, items, is_val, 0))
        },
        other => (
            Err(failure("cannot destructure "@ + label_of(other) + " as a tuple"@, span)),
            w,
        ),
    }
}

/// Bind each name to the item at its place.
pub fn bind_all(
    state: &mut State,
    scope: Env,
    names: &Vec<String>,
    items: &Vec<Value>,
    is_val: bool,
)
    ensures
        final(state)@ == bound_all(old(state)@, scope, texts(names@), vals(items@), is_val, 0),
{
    let mut i: usize = 0;
    while i < names.len() && i < items.len()
        invariant
            i <= names.len(),
            bound_all(state@, scope, texts(names@), vals(items@), is_val, i as nat) == bound_all(
                old(state)@,
                scope,
                texts(names@),
                vals(items@),
                is_val,
                0,
            ),
        decreases names.len() - i,
    {
        env_define(state, scope, names[i].as_str(), items[i].clone(), is_val);
        i = i + 1;
    }
}

/// Take a tuple apart into names of a scope.
pub fn destructure_tuple(
    state: &mut State,
    names: &Vec<String>,
    value: &Value,
    scope: Env,
    is_val: bool,
    span: Span,
) -> (r: Result<(), Stop>)
    ensures
        (seen(r), final(state)@) == destructured(
            texts(names@),
            value@,
            scope,
            is_val,
            span,
            old(state)@,
        ),
{
    match value {
        Value::Tuple(items) => {
            assert(vals(items@).len() == items@.len());
            if items.len() != names.len() {
                return Err(
                    fail(
                        cat5(
                            "cannot destructure a ",
                            count_text(items.len()).as_str(),
                            "-tuple into ",
                            count_text(names.len()).as_str(),
                            " name(s)",
                        ),
                        span,
                    ),
                );
            }
            bind_all(state, scope, names, items, is_val);
            Ok(())
        },
        other => Err(
            fail(cat3("cannot destructure ", type_label(other), " as a tuple"), span),
        ),
    }
}

/// The Boolean that a value is; an error for `and` or `or` otherwise.
pub open spec fn bool_of(v: Val, span: Span, op: Seq<char>) -> Result<bool, Halt> {
    match v {
        Val::Bool(b) => Ok(b),
        other => Err(
            failure("`"@ + op + "` requires Bool operands, found "@ + label_of(other), span),
        ),
    }
}

/// Read a value as a Boolean operand.
pub fn as_bool(v: &Value, span: Span, op: &str) -> (r: Result<bool, Stop>)
    ensures
        seen(r) == bool_of(v@, span, op@),
{
    match v {
        Value::Bool(b) => Ok(*b),
        other => Err(
            fail(
                cat2(
                    cat3("`", op, "` requires Bool operands, found ").as_str(),
                    type_label(other),
                ),
                span,
            ),
        ),
    }
}

/// The root scope with the prelude in it: `print`, `panic`, `Set`, `Ok` and `Err`
/// are ordinary bindings.
pub open spec fn prelude_seeded(w: World, root: Env) -> World {
    w.with_var(root, "print"@, Val::Builtin(Builtin::Print), false).with_var(
        root,
        "panic"@,
        Val::Builtin(Builtin::Panic),
        false,
    ).with_var(root, "Set"@, Val::Builtin(Builtin::EmptySet), false).with_var(
        root,
        "Ok"@,
        Val::Builtin(Builtin::MakeOk),
        false,
    ).with_var(root, "Err"@, Val::Builtin(Builtin::MakeErr), false)
}

/// Bind the prelude in the root scope.
pub fn seed_prelude(state: &mut State, root: Env)
    ensures
        final(state)@ == prelude_seeded(old(state)@, root),
{
    env_define(state, root, "print", Value::Builtin(Builtin::Print), false);
    env_define(state, root, "panic", Value::Builtin(Builtin::Panic), false);
    env_define(state, root, "Set", Value::Builtin(Builtin::EmptySet), false);
    env_define(state, root, "Ok", Value::Builtin(Builtin::MakeOk), false);
    env_define(state, root, "Err", Value::Builtin(Builtin::MakeErr), false);
}

/// Where `main` is declared first, from place `i` on.
pub open spec fn main_span_from(stmts: Seq<Stmt>, i: nat) -> Span
    decreases stmts.len() - i,
{
    if i >= stmts.len() {
        Span { start: 0, end: 0, line: 0, col: 0 }
    } else {
        match stmts[i as int].kind {
            StmtKind::Fn(f) => if f.name@ == "main"@ {
                f.span
            } else {
                main_span_from(stmts, i + 1)
            },
            _ => main_span_from(stmts, i + 1),
        }
    }
}

/// The place to report for the call of `main`.
pub fn program_main_span(program: &Program) -> (r: Span)
    ensures
        r == main_span_from(program.stmts@, 0),
{
    let mut i: usize = 0;
    while i < program.stmts.len()
        invariant
            i <= program.stmts.len(),
            main_span_from(program.stmts@, i as nat) == main_span_from(program.stmts@, 0),
        decreases program.stmts.len() - i,
    {
        if let StmtKind::Fn(f) = &program.stmts[i].kind {
            if same_text(f.name.as_str(), "main") {
                return f.span;
            }
        }
        i = i + 1;
    }
    Span::dummy()
}

/// The top-level statements from place `i` on. One that leaves with `return`,
/// `break` or `continue` is followed by the next all the same.
pub open spec fn top_executed(
    cx: Cx,
    fuel: nat,
    stmts: Seq<Stmt>,
    i: nat,
    root: Env,
    w: World,
) -> Out<()>
    decreases stmts.len() - i,
{
    if i >= stmts.len() {
        (Ok(()), w)
    } else {
        match executed(cx, fuel, stmts[i as int], root, w) {
            (Ok(_), w1) => top_executed(cx, fuel, stmts, i + 1, root, w1),
            (Err(h), w1) => (Err(h), w1),
        }
    }
}

/// The call of `main`, where that name is bound to a function without parameters.
pub open spec fn main_called(cx: Cx, fuel: nat, stmts: Seq<Stmt>, root: Env, w: World) -> Out<()> {
    match resolved(w, root, "main"@) {
        Some(Val::Closure(ClosureVal::Function(f, home))) => if f.params@.len() == 0 {
            match closure_called(
                cx,
                fuel,
                ClosureVal::Function(f, home),
                Seq::empty(),
                main_span_from(stmts, 0),
                w,
            ) {
                (Ok(_), w1) => (Ok(()), w1),
                (Err(h), w1) => (Err(h), w1),
            }
        } else {
            (Ok(()), w)
        },
        _ => (Ok(()), w),
    }
}

/// The declarations of a program and the host's answers.
pub open spec fn program_cx(stmts: Seq<Stmt>, ans: Answers) -> Cx {
    Cx { reg: Decls::none().collected(stmts), ans }
}

/// The world before the first statement: a root scope with the prelude.
pub open spec fn first_world() -> World {
    prelude_seeded(World::fresh().add_scope(None), World::fresh().next_scope())
}

/// A run of a program: its top-level statements in order, then `main`.
pub open spec fn program_run(stmts: Seq<Stmt>, ans: Answers, fuel: nat) -> Out<()> {
    let cx = program_cx(stmts, ans);
    let root = World::fresh().next_scope();
    match top_executed(cx, fuel, stmts, 0, root, first_world()) {
        (Ok(_), w) => main_called(cx, fuel, stmts, root, w),
        (Err(h), w) => (Err(h), w),
    }
}

/// How a run ended, and all that it printed until then.
#[derive(Debug)]
pub struct Run {
    pub ended: Result<(), Stop>,
    pub lines: Vec<Line>,
    /// The answers that the run was given.
    pub floats: FloatTable,
}

impl Interp {
    /// Run the top-level statements in order.
    fn run_top_level(&mut self, fuel: u64, stmts: &Vec<Stmt>, root: Env) -> (r: Result<(), Stop>)
        ensures
            final(self).floats@ == old(self).floats@,
            final(self).cx() == old(self).cx(),
            (seen(r), final(self).state@) == top_executed(
                old(self).cx(),
                fuel as nat,
                stmts@,
                0,
                root,
                old(self).state@,
            ),
    {
        let ghost cx = self.cx();
        let ghost start = self.state@;
        let mut i: usize = 0;
        while i < stmts.len()
            invariant
                i <= stmts.len(),
                cx == old(self).cx(),
                start == old(self).state@,
                self.cx() == cx,
                top_executed(cx, fuel as nat, stmts@, i as nat, root, self.state@) == top_executed(
                    cx,
                    fuel as nat,
                    stmts@,
                    0,
                    root,
                    start,
                ),
            decreases stmts.len() - i,
        {
            self.exec_stmt(fuel, &stmts[i], root)?;
            i = i + 1;
        }
        Ok(())
    }

    /// Call `main`, where it is a function without parameters.
    fn run_main(&mut self, fuel: u64, program: &Program, root: Env) -> (r: Result<(), Stop>)
        ensures
            final(self).cx() == old(self).cx(),
            (seen(r), final(self).state@) == main_called(
                old(self).cx(),
                fuel as nat,
                program.stmts@,
                root,
                old(self).state@,
            ),
    {
        if let Some(Value::Closure(c)) = env_get(&self.state, root, "main") {
            if let ClosureKind::Function(f) = &c.kind {
                if f.params.len() == 0 {
                    let args: Vec<Value> = Vec::new();
                    assert(vals(args@) =~= Seq::empty());
                    self.call_closure(fuel, &c, args, program_main_span(program))?;
                }
            }
        }
        Ok(())
    }
}

/// Run a program: bind the prelude, collect the declarations, run the top-level
/// statements in order, then call `main` where it is a function without
/// parameters. `floats` holds the host's answers; `fuel` bounds the run.
pub fn run(program: &Program, floats: FloatTable, fuel: u64) -> (r: Run)
    ensures
        r.floats@ == floats@,
        seen(r.ended) == program_run(program.stmts@, floats@, fuel as nat).0,
        lines_view(r.lines@) == program_run(program.stmts@, floats@, fuel as nat).1.out,
{
    let mut interp = Interp { registry: Registry::new(), floats, state: State::new() };
    let root = Scope::new_root(&mut interp.state);
    seed_prelude(&mut interp.state, root);
    interp.registry.collect_decls(program);
    assert(interp.cx() == program_cx(program.stmts@, floats@));
    let ended = match interp.run_top_level(fuel, &program.stmts, root) {
        Ok(_) => interp.run_main(fuel, program, root),
        Err(s) => Err(s),
    };
    Run { ended, lines: interp.state.lines(), floats: interp.floats }
}

/// The text of the first `n` printed lines.
pub open spec fn written_lines(lines: Seq<(Seq<char>, Span)>, n: nat) -> Seq<char>
    decreases n,
{
    if n == 0 || n > lines.len() {
        Seq::empty()
    } else {
        written_lines(lines, (n - 1) as nat) + lines[n - 1].0 + "\n"@
    }
}

/// What printed lines look like: each is followed by a line break.
pub fn output_text(lines: &Vec<Line>) -> (r: String)
    ensures
        r@ == written_lines(lines_view(lines@), lines@.len()),
{
    let mut out = String::new();
    let mut i: usize = 0;
    while i < lines.len()
        invariant
            i <= lines.len(),
            out@ == written_lines(lines_view(lines@), i as nat),
        decreases lines.len() - i,
    {
        out.append(lines[i].text.as_str());
        out.append("\n");
        i = i + 1;
    }
    out
}

/// The error of a line that the host could not write.
pub fn write_error(line: &Line, reason: &str) -> (r: Diagnostic)
    ensures
        r@ == runtime_diag("failed to write output: "@ + reason@, line.span),
{
    Diagnostic::runtime(cat2("failed to write output: ", reason), line.span)
}

} // verus!
