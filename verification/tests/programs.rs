//! The interpreter: expressions and statements built by hand, and whole programs
//! from source text.

use adder::ast::{
    Arg, Assign, BaseType, BinOp, Binder, Binding, Block, Comprehension, ComprehensionBinder,
    ComprehensionOutput, EnumDecl, Expr, ExprKind, FieldDecl, FnDecl, ForStmt, IfStmt, ImplDecl,
    Lambda, LitPattern, MatchArm, MatchExpr, Param, Pattern, PatternKind, Payload, Program, Stmt,
    StmtKind, StrSeg, StringLit, StructDecl, Target, TargetSeg, TraitDecl, TraitSig, Type,
    TypeParam, UnOp, VariantDecl, WhileStmt,
};
use adder::docs::documentation;
use adder::error::{Diagnostic, Phase};
use adder::integer::Integer;
use adder::interp::builtins::str_method;
use adder::interp::env::{env_define, env_get};
use adder::interp::float::{FloatOp, FloatTable, Question};
use adder::interp::heap::State;
use adder::interp::registry::Registry;
use adder::interp::show::{show, values_equal};
use adder::interp::value::{Env, EnumInstance, Scope, Stop, StructInstance, Value};
use adder::interp::{output_text, run, seed_prelude, write_error, Flow, Interp};
use adder::lexer::lex;
use adder::name_map::NameMap;
use adder::token::{Span, StrPart, Token, TokenKind};
use adder::{run_source, Finish, Report};
use std::borrow::Borrow;
use std::cell::RefCell;
use std::rc::Rc;

/// A budget that no test uses up.
const FUEL: u64 = 2_000;

fn bits(f: f64) -> u64 {
    f.to_bits()
}

/// Answer what the interpreter asks about floats.
fn answer(table: &mut FloatTable, q: Question) {
    match q {
        Question::Arith { op, a, b } => {
            let (x, y) = (f64::from_bits(a), f64::from_bits(b));
            let z = match op {
                FloatOp::Add => x + y,
                FloatOp::Sub => x - y,
                FloatOp::Mul => x * y,
                FloatOp::Div => x / y,
                FloatOp::Rem => x % y,
                FloatOp::Pow => x.powf(y),
            };
            table.answer_arith(op, a, b, z.to_bits());
        }
        Question::Text(b) => table.answer_text(b, format!("{}", f64::from_bits(b))),
    }
}

/// An interpreter whose questions about floats are answered.
struct Host {
    cell: RefCell<Interp>,
}

impl Host {
    fn asking<T>(&self, step: impl Fn(&mut Interp) -> Result<T, Stop>) -> Result<T, Diagnostic> {
        loop {
            let mut interp = self.cell.borrow_mut();
            match step(&mut interp) {
                Ok(v) => return Ok(v),
                Err(Stop::Error(d)) => return Err(d),
                Err(Stop::Ask(q)) => answer(&mut interp.floats, q),
                Err(Stop::Budget) => panic!("out of fuel"),
            }
        }
    }

    fn eval(&self, e: &Expr, env: &Env) -> Result<Value, Diagnostic> {
        self.asking(|i| i.eval(FUEL, e, *env))
    }

    fn exec_stmt(&self, s: &Stmt, env: &Env) -> Result<Flow, Diagnostic> {
        self.asking(|i| i.exec_stmt(FUEL, s, *env))
    }

    fn eval_match(&self, m: &MatchExpr, span: Span, env: &Env) -> Result<Value, Diagnostic> {
        self.asking(|i| i.eval_match(FUEL, m, span, *env))
    }

    fn collect_decls(&self, program: &Program) {
        self.cell.borrow_mut().registry.collect_decls(program);
    }

    fn list_method(
        &self,
        at: &usize,
        name: &str,
        args: Vec<Value>,
        span: Span,
    ) -> Result<Value, Diagnostic> {
        self.asking(|i| i.list_method(FUEL, *at, name, &args, span))
    }

    fn map_method(
        &self,
        at: &usize,
        name: &str,
        args: Vec<Value>,
        span: Span,
    ) -> Result<Value, Diagnostic> {
        self.asking(|i| i.map_method(FUEL, *at, name, &args, span))
    }

    fn set_method(
        &self,
        at: &usize,
        name: &str,
        args: Vec<Value>,
        span: Span,
    ) -> Result<Value, Diagnostic> {
        self.asking(|i| i.set_method(FUEL, *at, name, &args, span))
    }

    fn look(&self, env: &Env, name: &str) -> Option<Value> {
        env_get(&self.cell.borrow().state, *env, name)
    }

    fn define(&self, env: &Env, name: &str, value: Value, is_val: bool) {
        env_define(&mut self.cell.borrow_mut().state, *env, name, value, is_val);
    }

    fn same(&self, a: &Value, b: &Value) -> bool {
        values_equal(&self.cell.borrow().state, FUEL, a, b).unwrap()
    }

    fn show(&self, v: &Value) -> String {
        self.asking(|i| show(&i.state, &i.floats, FUEL, v)).unwrap()
    }

    fn list_value(&self, items: Vec<Value>) -> Value {
        Value::List(self.cell.borrow_mut().state.new_list(items))
    }

    fn set_value(&self, items: Vec<Value>) -> Value {
        Value::SetRef(self.cell.borrow_mut().state.new_set(items))
    }

    fn instance(&self, inst: StructInstance) -> Value {
        Value::Struct(self.cell.borrow_mut().state.new_struct(inst))
    }

    fn set_field<P: Borrow<usize>>(&self, at: P, name: &str, v: Value) {
        self.cell.borrow_mut().state.set_field(*at.borrow(), name.to_string(), v);
    }

    fn items<P: Borrow<usize>>(&self, at: P) -> Vec<Value> {
        self.cell.borrow().state.list_items(*at.borrow())
    }

    fn members<P: Borrow<usize>>(&self, at: P) -> Vec<Value> {
        self.cell.borrow().state.set_items(*at.borrow())
    }

    fn pairs<P: Borrow<usize>>(&self, at: P) -> Vec<(Value, Value)> {
        self.cell.borrow().state.map_pairs(*at.borrow())
    }
}

// ---- tiny constructors ----------------------------------------------------

fn sp() -> Span {
    Span::dummy()
}

fn ex(kind: ExprKind) -> Expr {
    Expr { kind, span: sp() }
}

fn whole(n: i64) -> Expr {
    ex(ExprKind::Int(Integer::from_i64(n)))
}

fn float(f: f64) -> Expr {
    ex(ExprKind::Float(bits(f)))
}

fn boolean(b: bool) -> Expr {
    ex(ExprKind::Bool(b))
}

fn name(n: &str) -> Expr {
    ex(ExprKind::Name(n.to_string()))
}

fn bin(op: BinOp, l: Expr, r: Expr) -> Expr {
    ex(ExprKind::Binary { op, lhs: Box::new(l), rhs: Box::new(r) })
}

fn st(kind: StmtKind) -> Stmt {
    Stmt { kind, span: sp() }
}

fn expr_stmt(e: Expr) -> Stmt {
    st(StmtKind::Expr(e))
}

fn block(stmts: Vec<Stmt>) -> Block {
    Block { stmts, span: sp() }
}

/// A fresh interpreter and its root scope, with the prelude in it.
fn fresh() -> (Host, Env) {
    let mut interp =
        Interp { registry: Registry::new(), floats: FloatTable::new(), state: State::new() };
    let root = Scope::new_root(&mut interp.state);
    seed_prelude(&mut interp.state, root);
    (Host { cell: RefCell::new(interp) }, root)
}

/// Evaluate an expression in a fresh interpreter.
fn eval_expr(e: &Expr) -> Result<Value, Diagnostic> {
    let (interp, root) = fresh();
    interp.eval(e, &root)
}

/// Run all statements of a source text but the last, which must be an
/// expression, and evaluate that. The interpreter must be fresh.
fn eval_last(interp: &Host, src: &str) -> Result<Value, Diagnostic> {
    let toks = lex(src).expect("source should lex");
    let program = parse(&toks).expect("source should parse");
    let root: Env = 0;
    interp.collect_decls(&program);
    let (last, init) = program.stmts.split_last().expect("at least one statement");
    for stmt in init {
        match interp.exec_stmt(stmt, &root) {
            Ok(_) => {}
            Err(d) => panic!("setup statement failed: {}", d.message),
        }
    }
    match &last.kind {
        StmtKind::Expr(e) => interp.eval(e, &root),
        other => panic!("expected a trailing expr statement, got {:?}", other),
    }
}

/// The value of a source text's final expression.
fn eval_src(interp: &Host, src: &str) -> Value {
    eval_last(interp, src).expect("final expr should evaluate")
}

/// The error of a source text's final expression.
fn eval_src_err(src: &str) -> Diagnostic {
    eval_last(&fresh().0, src).expect_err("final expr should fail at runtime")
}

fn small<N: Borrow<Integer>>(n: N) -> i64 {
    n.borrow().to_text().parse().unwrap()
}

/// A list of integers.
fn int_list(interp: &Host, ns: &[i64]) -> Value {
    interp.list_value(ns.iter().map(|&n| Value::Int(Integer::from_i64(n))).collect())
}

/// The integers of a list of integers.
fn list_ints(interp: &Host, v: &Value) -> Vec<i64> {
    match v {
        Value::List(items) => interp.items(items).iter().map(as_int).collect(),
        other => panic!("expected List, got {:?}", other),
    }
}

/// A function `p -> body`.
fn lambda1(interp: &Host, root: &Env, p: &str, body: Expr) -> Value {
    let lam = ex(ExprKind::Lambda(Rc::new(Lambda {
        params: vec![p.to_string()],
        body: Box::new(body),
    })));
    interp.eval(&lam, root).unwrap()
}

/// A function `(a, b) -> body`.
fn lambda1_2(interp: &Host, root: &Env, a: &str, b: &str, body: Expr) -> Value {
    let lam = ex(ExprKind::Lambda(Rc::new(Lambda {
        params: vec![a.to_string(), b.to_string()],
        body: Box::new(body),
    })));
    interp.eval(&lam, root).unwrap()
}

fn list_call(interp: &Host, recv: &Value, name: &str, args: Vec<Value>) -> Value {
    match recv {
        Value::List(at) => interp.list_method(at, name, args, sp()).unwrap(),
        other => panic!("list_call on non-list {:?}", other),
    }
}

fn map_value(interp: &Host, pairs: Vec<(Value, Value)>) -> Value {
    Value::MapRef(interp.cell.borrow_mut().state.new_map(pairs))
}

fn map_call(interp: &Host, recv: &Value, name: &str, args: Vec<Value>) -> Value {
    match recv {
        Value::MapRef(at) => interp.map_method(at, name, args, sp()).unwrap(),
        other => panic!("map_call on non-map {:?}", other),
    }
}

fn set_call(interp: &Host, recv: &Value, name: &str, args: Vec<Value>) -> Value {
    match recv {
        Value::SetRef(at) => interp.set_method(at, name, args, sp()).unwrap(),
        other => panic!("set_call on non-set {:?}", other),
    }
}

fn set_of(interp: &Host, ns: &[i64]) -> Value {
    interp.set_value(ns.iter().map(|&n| Value::Int(Integer::from_i64(n))).collect())
}

/// The contents of a list.
fn list_vals(interp: &Host, v: Value) -> Vec<Value> {
    match v {
        Value::List(items) => interp.items(items),
        other => panic!("expected List, got {:?}", other),
    }
}

fn as_int(v: &Value) -> i64 {
    match v {
        Value::Int(n) => small(n),
        other => panic!("expected Int, got {:?}", other),
    }
}

/// Take a source text through all stages, answering what it asks.
fn run_text(src: &str) -> Report {
    let mut table = FloatTable::new();
    loop {
        let report = run_source(src, |tokens: &Vec<Token>| parse(tokens), table, FUEL);
        match report.finish {
            Finish::Ask(q) => {
                table = report.floats;
                answer(&mut table, q);
            }
            _ => return report,
        }
    }
}

/// What a source text that runs to its end prints.
fn printed(src: &str) -> String {
    let report = run_text(src);
    assert!(matches!(report.finish, Finish::Done), "{:?}", report.finish);
    output_text(&report.lines)
}

/// The messages that a source text ends with.
fn complaints(src: &str) -> Vec<(Phase, String)> {
    match run_text(src).finish {
        Finish::Failed(ds) => ds.into_iter().map(|d| (d.phase, d.message)).collect(),
        other => panic!("expected diagnostics, got {:?}", other),
    }
}

#[test]
fn tests_int_arithmetic() {
    // 2 + 3 * 4 — precedence is encoded by the AST shape.
    let e = bin(BinOp::Add, whole(2), bin(BinOp::Mul, whole(3), whole(4)));
    match eval_expr(&e).unwrap() {
        Value::Int(n) => assert_eq!(n, Integer::from_i64(14)),
        v => panic!("expected Int, got {:?}", v),
    }
}

#[test]
fn tests_power_right_assoc_eval() {
    // 2 ** (3 ** 2) = 2 ** 9 = 512 — the AST already encodes right-assoc.
    let e = bin(BinOp::Pow, whole(2), bin(BinOp::Pow, whole(3), whole(2)));
    match eval_expr(&e).unwrap() {
        Value::Int(n) => assert_eq!(n, Integer::from_i64(512)),
        v => panic!("expected Int, got {:?}", v),
    }
}

#[test]
fn tests_float_true_division() {
    // 9.0 / 2.0 = 4.5
    let e = bin(BinOp::Div, float(9.0), float(2.0));
    match eval_expr(&e).unwrap() {
        Value::Float(f) => assert_eq!(f64::from_bits(f), 4.5),
        v => panic!("expected Float, got {:?}", v),
    }
}

#[test]
fn tests_int_division_exact_ok_inexact_errs() {
    // 6 / 3 = 2 (exact)
    let ok = bin(BinOp::Div, whole(6), whole(3));
    match eval_expr(&ok).unwrap() {
        Value::Int(n) => assert_eq!(n, Integer::from_i64(2)),
        v => panic!("expected Int, got {:?}", v),
    }
    // 7 / 2 is not exact -> error.
    let bad = bin(BinOp::Div, whole(7), whole(2));
    assert!(eval_expr(&bad).is_err());
}

#[test]
fn tests_division_by_zero_errs() {
    let e = bin(BinOp::Div, whole(1), whole(0));
    assert!(eval_expr(&e).is_err());
}

#[test]
fn tests_and_short_circuits() {
    // false and <undefined name>  -> false, never touches rhs.
    let e = bin(BinOp::And, boolean(false), name("nope"));
    match eval_expr(&e).unwrap() {
        Value::Bool(b) => assert!(!b),
        v => panic!("expected Bool, got {:?}", v),
    }
}

#[test]
fn tests_or_short_circuits() {
    // true or <undefined name>  -> true.
    let e = bin(BinOp::Or, boolean(true), name("nope"));
    match eval_expr(&e).unwrap() {
        Value::Bool(b) => assert!(b),
        v => panic!("expected Bool, got {:?}", v),
    }
}

#[test]
fn tests_and_requires_bool() {
    // 1 and true -> error (non-Bool operand).
    let e = bin(BinOp::And, whole(1), boolean(true));
    assert!(eval_expr(&e).is_err());
}

#[test]
fn tests_non_bool_condition_errs() {
    // if 1: print(...) else: ...  — condition is Int -> runtime error.
    let if_stmt = st(StmtKind::If(IfStmt {
        arms: vec![(whole(1), block(vec![expr_stmt(whole(0))]))],
        else_body: None,
    }));
    let (interp, root) = fresh();
    let r = interp.exec_stmt(&if_stmt, &root);
    assert!(r.is_err());
}

#[test]
fn tests_ternary_non_bool_errs() {
    // (1 if 5 else 2) — cond is Int.
    let e = ex(ExprKind::Ternary {
        then: Box::new(whole(1)),
        cond: Box::new(whole(5)),
        otherwise: Box::new(whole(2)),
    });
    assert!(eval_expr(&e).is_err());
}

#[test]
fn tests_structural_eq_on_lists() {
    let l1 = ex(ExprKind::List(vec![whole(1), whole(2), whole(3)]));
    let l2 = ex(ExprKind::List(vec![whole(1), whole(2), whole(3)]));
    let e = bin(BinOp::Eq, l1, l2);
    match eval_expr(&e).unwrap() {
        Value::Bool(b) => assert!(b),
        v => panic!("expected Bool, got {:?}", v),
    }
}

#[test]
fn tests_structural_eq_on_structs() {
    let (interp, _root) = fresh();
    // Build two Point structs by hand and compare with values_equal.
    let mut f1 = NameMap::new();
    f1.insert("x".to_string(), Value::Int(Integer::from_i64(1)));
    f1.insert("y".to_string(), Value::Int(Integer::from_i64(2)));
    let s1 = interp.instance(StructInstance {
        struct_name: "Point".to_string(),
        fields: f1,
        field_order: vec!["x".to_string(), "y".to_string()],
    });

    let mut f2 = NameMap::new();
    f2.insert("x".to_string(), Value::Int(Integer::from_i64(1)));
    f2.insert("y".to_string(), Value::Int(Integer::from_i64(2)));
    let s2 = interp.instance(StructInstance {
        struct_name: "Point".to_string(),
        fields: f2,
        field_order: vec!["x".to_string(), "y".to_string()],
    });

    assert!(interp.same(&s1, &s2));

    // Differ a field -> not equal.
    if let Value::Struct(s) = &s2 {
        interp.set_field(s, "y", Value::Int(Integer::from_i64(99)));
    }
    assert!(!interp.same(&s1, &s2));
}

#[test]
fn tests_is_not_value_inequality() {
    let e = bin(BinOp::IsNot, whole(1), whole(2));
    match eval_expr(&e).unwrap() {
        Value::Bool(b) => assert!(b),
        v => panic!("expected Bool, got {:?}", v),
    }
}

#[test]
fn tests_val_reassignment_errs() {
    // val x = 1 ; x = 2  -> runtime error on the reassignment.
    let bind = st(StmtKind::Binding(Binding {
        name: "x".to_string(),
        binder: Binder::Name("x".to_string()),
        is_val: true,
        ty: None,
        value: whole(1),
    }));
    let reassign = st(StmtKind::Assign(Assign {
        target: Target { base: "x".to_string(), path: vec![], span: sp() },
        value: whole(2),
    }));
    let (interp, root) = fresh();
    interp.exec_stmt(&bind, &root).unwrap();
    let r = interp.exec_stmt(&reassign, &root);
    assert!(r.is_err());
}

#[test]
fn tests_mutable_reassignment_ok() {
    let bind = st(StmtKind::Binding(Binding {
        name: "x".to_string(),
        binder: Binder::Name("x".to_string()),
        is_val: false,
        ty: None,
        value: whole(1),
    }));
    let reassign = st(StmtKind::Assign(Assign {
        target: Target { base: "x".to_string(), path: vec![], span: sp() },
        value: whole(2),
    }));
    let (interp, root) = fresh();
    interp.exec_stmt(&bind, &root).unwrap();
    interp.exec_stmt(&reassign, &root).unwrap();
    match interp.look(&root, "x").unwrap() {
        Value::Int(n) => assert_eq!(n, Integer::from_i64(2)),
        v => panic!("expected Int, got {:?}", v),
    }
}

#[test]
fn tests_for_loop_accumulates_over_range() {
    // sum = 0 ; for x in 0..5: sum = sum + x   -> 0+1+2+3+4 = 10
    let init = st(StmtKind::Binding(Binding {
        name: "sum".to_string(),
        binder: Binder::Name("sum".to_string()),
        is_val: false,
        ty: None,
        value: whole(0),
    }));
    let for_stmt = st(StmtKind::For(ForStmt {
        var: "x".to_string(),
        binder: Binder::Name("x".to_string()),
        iter: bin(BinOp::Range, whole(0), whole(5)),
        body: block(vec![st(StmtKind::Assign(Assign {
            target: Target { base: "sum".to_string(), path: vec![], span: sp() },
            value: bin(BinOp::Add, name("sum"), name("x")),
        }))]),
    }));
    let (interp, root) = fresh();
    interp.exec_stmt(&init, &root).unwrap();
    interp.exec_stmt(&for_stmt, &root).unwrap();
    match interp.look(&root, "sum").unwrap() {
        Value::Int(n) => assert_eq!(n, Integer::from_i64(10)),
        v => panic!("expected Int, got {:?}", v),
    }
}

#[test]
fn tests_for_loop_inclusive_range() {
    // for x in 0..=3 -> [0,1,2,3], sum 6
    let init = st(StmtKind::Binding(Binding {
        name: "sum".to_string(),
        binder: Binder::Name("sum".to_string()),
        is_val: false,
        ty: None,
        value: whole(0),
    }));
    let for_stmt = st(StmtKind::For(ForStmt {
        var: "x".to_string(),
        binder: Binder::Name("x".to_string()),
        iter: bin(BinOp::RangeIncl, whole(0), whole(3)),
        body: block(vec![st(StmtKind::Assign(Assign {
            target: Target { base: "sum".to_string(), path: vec![], span: sp() },
            value: bin(BinOp::Add, name("sum"), name("x")),
        }))]),
    }));
    let (interp, root) = fresh();
    interp.exec_stmt(&init, &root).unwrap();
    interp.exec_stmt(&for_stmt, &root).unwrap();
    match interp.look(&root, "sum").unwrap() {
        Value::Int(n) => assert_eq!(n, Integer::from_i64(6)),
        v => panic!("expected Int, got {:?}", v),
    }
}

#[test]
fn tests_match_enum_variant_returns_arm() {
    // enum E: A  B(Int) ; match B(7): A: 0 ; B(n): n  -> 7
    let scrut = Value::Enum(Rc::new(EnumInstance {
        enum_name: "E".to_string(),
        variant: "B".to_string(),
        payload: vec![Value::Int(Integer::from_i64(7))],
        payload_names: vec![],
    }));

    let m = MatchExpr {
        scrutinee: Box::new(whole(0)), // placeholder; we'll match a value directly
        arms: vec![
            MatchArm {
                pattern: Pattern {
                    kind: PatternKind::Variant {
                        enum_name: None,
                        name: "A".to_string(),
                        subs: vec![],
                    },
                    span: sp(),
                },
                guard: None,
                body: block(vec![expr_stmt(whole(0))]),
                span: sp(),
            },
            MatchArm {
                pattern: Pattern {
                    kind: PatternKind::Variant {
                        enum_name: None,
                        name: "B".to_string(),
                        subs: vec![Pattern {
                            kind: PatternKind::Binding("n".to_string()),
                            span: sp(),
                        }],
                    },
                    span: sp(),
                },
                guard: None,
                body: block(vec![expr_stmt(name("n"))]),
                span: sp(),
            },
        ],
    };

    // Drive eval_match by binding the scrutinee into a name and matching it.
    let (interp, root) = fresh();
    interp.define(&root, "scrut", scrut, false);
    let m = MatchExpr { scrutinee: Box::new(name("scrut")), ..m };
    let v = interp.eval_match(&m, sp(), &root).unwrap();
    match v {
        Value::Int(n) => assert_eq!(n, Integer::from_i64(7)),
        v => panic!("expected Int(7), got {:?}", v),
    }
}

#[test]
fn tests_match_wildcard_fallback() {
    let scrut = Value::Int(Integer::from_i64(42));
    let m = MatchExpr {
        scrutinee: Box::new(name("scrut")),
        arms: vec![
            MatchArm {
                pattern: Pattern {
                    kind: PatternKind::Literal(LitPattern::Int(Integer::from_i64(1))),
                    span: sp(),
                },
                guard: None,
                body: block(vec![expr_stmt(whole(100))]),
                span: sp(),
            },
            MatchArm {
                pattern: Pattern { kind: PatternKind::Wildcard, span: sp() },
                guard: None,
                body: block(vec![expr_stmt(whole(999))]),
                span: sp(),
            },
        ],
    };
    let (interp, root) = fresh();
    interp.define(&root, "scrut", scrut, false);
    match interp.eval_match(&m, sp(), &root).unwrap() {
        Value::Int(n) => assert_eq!(n, Integer::from_i64(999)),
        v => panic!("expected Int(999), got {:?}", v),
    }
}

#[test]
fn tests_show_float_has_decimal_point() {
    let (interp, _root) = fresh();
    assert_eq!(interp.show(&Value::Float(bits(9.0))), "9.0");
    assert_eq!(interp.show(&Value::Float(bits(2.5))), "2.5");
    assert_eq!(interp.show(&Value::Float(bits(-1.0))), "-1.0");
}

#[test]
fn tests_show_int_and_bool_and_null() {
    let (interp, _root) = fresh();
    assert_eq!(interp.show(&Value::Int(Integer::from_i64(42))), "42");
    assert_eq!(interp.show(&Value::Bool(true)), "true");
    assert_eq!(interp.show(&Value::Bool(false)), "false");
    assert_eq!(interp.show(&Value::Null), "null");
    assert_eq!(interp.show(&Value::Unit), "()");
}

#[test]
fn tests_show_struct() {
    let (interp, _root) = fresh();
    let mut fields = NameMap::new();
    fields.insert("x".to_string(), Value::Int(Integer::from_i64(1)));
    fields.insert("y".to_string(), Value::Float(bits(2.0)));
    let s = interp.instance(StructInstance {
        struct_name: "Point".to_string(),
        fields,
        field_order: vec!["x".to_string(), "y".to_string()],
    });
    assert_eq!(interp.show(&s), "Point(x: 1, y: 2.0)");
}

#[test]
fn tests_show_enum() {
    let (interp, _root) = fresh();
    let e = Value::Enum(Rc::new(EnumInstance {
        enum_name: "Expr".to_string(),
        variant: "Num".to_string(),
        payload: vec![Value::Float(bits(1.0))],
        payload_names: vec![],
    }));
    assert_eq!(interp.show(&e), "Num(1.0)");

    let empty = Value::Enum(Rc::new(EnumInstance {
        enum_name: "E".to_string(),
        variant: "Empty".to_string(),
        payload: vec![],
        payload_names: vec![],
    }));
    assert_eq!(interp.show(&empty), "Empty");
}

#[test]
fn tests_show_list() {
    let (interp, _root) = fresh();
    let l = interp.list_value(vec![
        Value::Int(Integer::from_i64(1)),
        Value::Int(Integer::from_i64(2)),
    ]);
    assert_eq!(interp.show(&l), "[1, 2]");
}

#[test]
fn tests_panic_produces_err() {
    let (interp, root) = fresh();
    let panic_call = ex(ExprKind::Call {
        callee: Box::new(name("panic")),
        args: vec![Arg::Positional(ex(ExprKind::Str(StringLit {
            parts: vec![StrSeg::Text("boom".to_string())],
        })))],
    });
    let r = interp.eval(&panic_call, &root);
    assert!(r.is_err());
    let d = r.unwrap_err();
    assert!(d.message.contains("boom"));
}

#[test]
fn tests_run_program_calls_main() {
    // fn main(): x = 1 ; (no assertion on stdout, just that it runs clean)
    let main = FnDecl {
        name: "main".to_string(),
        type_params: vec![],
        params: vec![],
        returns: None,
        body: block(vec![st(StmtKind::Binding(Binding {
            name: "x".to_string(),
            binder: Binder::Name("x".to_string()),
            is_val: false,
            ty: None,
            value: whole(1),
        }))]),
        doc: None,
        span: sp(),
    };
    let program = Program { stmts: vec![st(StmtKind::Fn(Rc::new(main)))] };
    assert!(run(&program, FloatTable::new(), FUEL).ended.is_ok());
}

#[test]
fn tests_function_call_and_implicit_return() {
    // fn double(n: Int) returns Int: n + n
    // double(21) -> 42
    let double = FnDecl {
        name: "double".to_string(),
        type_params: vec![],
        params: vec![Param::Named {
            name: "n".to_string(),
            ty: Type {
                base: BaseType::Named { name: "Int".to_string(), args: vec![] },
                nullable: false,
                span: sp(),
            },
            default: None,
        }],
        returns: None,
        body: block(vec![expr_stmt(bin(BinOp::Add, name("n"), name("n")))]),
        doc: None,
        span: sp(),
    };
    let (interp, root) = fresh();
    interp.exec_stmt(&st(StmtKind::Fn(Rc::new(double))), &root).unwrap();
    let call = ex(ExprKind::Call {
        callee: Box::new(name("double")),
        args: vec![Arg::Positional(whole(21))],
    });
    match interp.eval(&call, &root).unwrap() {
        Value::Int(n) => assert_eq!(n, Integer::from_i64(42)),
        v => panic!("expected Int(42), got {:?}", v),
    }
}

#[test]
fn tests_or_else_defaults_null() {
    // null.or_else(5) -> 5 ; 3.or_else(5) -> 3
    let (interp, root) = fresh();
    let e1 = ex(ExprKind::Call {
        callee: Box::new(ex(ExprKind::Member {
            base: Box::new(ex(ExprKind::Null)),
            name: "or_else".to_string(),
            safe: false,
        })),
        args: vec![Arg::Positional(whole(5))],
    });
    match interp.eval(&e1, &root).unwrap() {
        Value::Int(n) => assert_eq!(n, Integer::from_i64(5)),
        v => panic!("expected Int(5), got {:?}", v),
    }
    let e2 = ex(ExprKind::Call {
        callee: Box::new(ex(ExprKind::Member {
            base: Box::new(whole(3)),
            name: "or_else".to_string(),
            safe: false,
        })),
        args: vec![Arg::Positional(whole(5))],
    });
    match interp.eval(&e2, &root).unwrap() {
        Value::Int(n) => assert_eq!(n, Integer::from_i64(3)),
        v => panic!("expected Int(3), got {:?}", v),
    }
}

#[test]
fn tests_showcase_evaluator_yields_9_0() {
    // Helpers to spell out the AST tersely.
    fn ty_float() -> Type {
        Type {
            base: BaseType::Named { name: "Float".to_string(), args: vec![] },
            nullable: false,
            span: sp(),
        }
    }
    fn variant_pat(name: &str, subs: Vec<&str>) -> Pattern {
        Pattern {
            kind: PatternKind::Variant {
                enum_name: None,
                name: name.to_string(),
                subs: subs
                    .into_iter()
                    .map(|s| Pattern {
                        kind: PatternKind::Binding(s.to_string()),
                        span: sp(),
                    })
                    .collect(),
            },
            span: sp(),
        }
    }
    fn call(callee: Expr, args: Vec<Expr>) -> Expr {
        ex(ExprKind::Call {
            callee: Box::new(callee),
            args: args.into_iter().map(Arg::Positional).collect(),
        })
    }

    // enum Expr: Num(Float)  Add(Expr,Expr)  Mul(Expr,Expr)  Div(Expr,Expr)
    let expr_enum = EnumDecl {
        name: "Expr".to_string(),
        type_params: vec![],
        derives: vec![],
        variants: vec![
            VariantDecl {
                name: "Num".to_string(),
                payload: Some(Payload::Positional(vec![ty_float()])),
                doc: None,
                span: sp(),
            },
            VariantDecl {
                name: "Add".to_string(),
                payload: Some(Payload::Positional(vec![ty_float(), ty_float()])),
                doc: None,
                span: sp(),
            },
            VariantDecl {
                name: "Mul".to_string(),
                payload: Some(Payload::Positional(vec![ty_float(), ty_float()])),
                doc: None,
                span: sp(),
            },
            VariantDecl {
                name: "Div".to_string(),
                payload: Some(Payload::Positional(vec![ty_float(), ty_float()])),
                doc: None,
                span: sp(),
            },
        ],
        doc: None,
        span: sp(),
    };

    // fn eval(e: Expr) returns Float:
    //     return match e:
    //         Num(n):    n
    //         Add(a, b): eval(a) + eval(b)
    //         Mul(a, b): eval(a) * eval(b)
    //         Div(a, b):
    //             divisor = eval(b)
    //             if divisor == 0.0: panic("division by zero")
    //             eval(a) / divisor
    let match_expr = ex(ExprKind::Match(MatchExpr {
        scrutinee: Box::new(name("e")),
        arms: vec![
            MatchArm {
                pattern: variant_pat("Num", vec!["n"]),
                guard: None,
                body: block(vec![expr_stmt(name("n"))]),
                span: sp(),
            },
            MatchArm {
                pattern: variant_pat("Add", vec!["a", "b"]),
                guard: None,
                body: block(vec![expr_stmt(bin(
                    BinOp::Add,
                    call(name("eval"), vec![name("a")]),
                    call(name("eval"), vec![name("b")]),
                ))]),
                span: sp(),
            },
            MatchArm {
                pattern: variant_pat("Mul", vec!["a", "b"]),
                guard: None,
                body: block(vec![expr_stmt(bin(
                    BinOp::Mul,
                    call(name("eval"), vec![name("a")]),
                    call(name("eval"), vec![name("b")]),
                ))]),
                span: sp(),
            },
            MatchArm {
                pattern: variant_pat("Div", vec!["a", "b"]),
                guard: None,
                body: block(vec![
                    st(StmtKind::Binding(Binding {
                        name: "divisor".to_string(),
                        binder: Binder::Name("divisor".to_string()),
                        is_val: false,
                        ty: None,
                        value: call(name("eval"), vec![name("b")]),
                    })),
                    st(StmtKind::If(IfStmt {
                        arms: vec![(
                            bin(BinOp::Eq, name("divisor"), float(0.0)),
                            block(vec![expr_stmt(call(
                                name("panic"),
                                vec![ex(ExprKind::Str(StringLit {
                                    parts: vec![StrSeg::Text(
                                        "division by zero".to_string(),
                                    )],
                                }))],
                            ))]),
                        )],
                        else_body: None,
                    })),
                    expr_stmt(bin(
                        BinOp::Div,
                        call(name("eval"), vec![name("a")]),
                        name("divisor"),
                    )),
                ]),
                span: sp(),
            },
        ],
    }));

    let eval_fn = FnDecl {
        name: "eval".to_string(),
        type_params: vec![],
        params: vec![Param::Named {
            name: "e".to_string(),
            ty: Type {
                base: BaseType::Named { name: "Expr".to_string(), args: vec![] },
                nullable: false,
                span: sp(),
            },
            default: None,
        }],
        returns: Some(ty_float()),
        body: block(vec![st(StmtKind::Return(Some(match_expr)))]),
        doc: None,
        span: sp(),
    };

    // Build it and the program in a fresh interpreter.
    let program = Program {
        stmts: vec![st(StmtKind::Enum(Rc::new(expr_enum))), st(StmtKind::Fn(Rc::new(eval_fn)))],
    };

    let (interp, root) = fresh();
    interp.collect_decls(&program);
    for stmt in &program.stmts {
        interp.exec_stmt(stmt, &root).unwrap();
    }

    // program = Expr.Mul(Expr.Add(Expr.Num(1.0), Expr.Num(2.0)), Expr.Num(3.0))
    let vc = |v: &str, args: Vec<Expr>| {
        call(
            ex(ExprKind::Member { base: Box::new(name("Expr")), name: v.to_string(), safe: false }),
            args,
        )
    };
    let num = |f: f64| vc("Num", vec![float(f)]);
    let prog_expr = vc(
        "Mul",
        vec![vc("Add", vec![num(1.0), num(2.0)]), num(3.0)],
    );
    let call_eval = call(name("eval"), vec![prog_expr]);

    let result = interp.eval(&call_eval, &root).unwrap();
    match &result {
        Value::Float(f) => assert_eq!(f64::from_bits(*f), 9.0),
        v => panic!("expected Float(9.0), got {:?}", v),
    }
    assert_eq!(interp.show(&result), "9.0");
}

#[test]
fn tests_showcase_division_by_zero_panics() {
    // Reuse a minimal version: eval(Div(Num(1.0), Num(0.0))) must Err.
    // Build a tiny enum + eval fn covering just Num and Div.
    fn ty_float() -> Type {
        Type {
            base: BaseType::Named { name: "Float".to_string(), args: vec![] },
            nullable: false,
            span: sp(),
        }
    }
    fn call(callee: Expr, args: Vec<Expr>) -> Expr {
        ex(ExprKind::Call {
            callee: Box::new(callee),
            args: args.into_iter().map(Arg::Positional).collect(),
        })
    }
    fn variant_pat(name: &str, subs: Vec<&str>) -> Pattern {
        Pattern {
            kind: PatternKind::Variant {
                enum_name: None,
                name: name.to_string(),
                subs: subs
                    .into_iter()
                    .map(|s| Pattern {
                        kind: PatternKind::Binding(s.to_string()),
                        span: sp(),
                    })
                    .collect(),
            },
            span: sp(),
        }
    }

    let expr_enum = EnumDecl {
        name: "E".to_string(),
        type_params: vec![],
        derives: vec![],
        variants: vec![
            VariantDecl {
                name: "Num".to_string(),
                payload: Some(Payload::Positional(vec![ty_float()])),
                doc: None,
                span: sp(),
            },
            VariantDecl {
                name: "Div".to_string(),
                payload: Some(Payload::Positional(vec![ty_float(), ty_float()])),
                doc: None,
                span: sp(),
            },
        ],
        doc: None,
        span: sp(),
    };

    let match_expr = ex(ExprKind::Match(MatchExpr {
        scrutinee: Box::new(name("e")),
        arms: vec![
            MatchArm {
                pattern: variant_pat("Num", vec!["n"]),
                guard: None,
                body: block(vec![expr_stmt(name("n"))]),
                span: sp(),
            },
            MatchArm {
                pattern: variant_pat("Div", vec!["a", "b"]),
                guard: None,
                body: block(vec![
                    st(StmtKind::Binding(Binding {
                        name: "divisor".to_string(),
                        binder: Binder::Name("divisor".to_string()),
                        is_val: false,
                        ty: None,
                        value: call(name("eval"), vec![name("b")]),
                    })),
                    st(StmtKind::If(IfStmt {
                        arms: vec![(
                            bin(BinOp::Eq, name("divisor"), float(0.0)),
                            block(vec![expr_stmt(call(
                                name("panic"),
                                vec![ex(ExprKind::Str(StringLit {
                                    parts: vec![StrSeg::Text("division by zero".to_string())],
                                }))],
                            ))]),
                        )],
                        else_body: None,
                    })),
                    expr_stmt(bin(
                        BinOp::Div,
                        call(name("eval"), vec![name("a")]),
                        name("divisor"),
                    )),
                ]),
                span: sp(),
            },
        ],
    }));

    let eval_fn = FnDecl {
        name: "eval".to_string(),
        type_params: vec![],
        params: vec![Param::Named {
            name: "e".to_string(),
            ty: Type {
                base: BaseType::Named { name: "E".to_string(), args: vec![] },
                nullable: false,
                span: sp(),
            },
            default: None,
        }],
        returns: Some(ty_float()),
        body: block(vec![st(StmtKind::Return(Some(match_expr)))]),
        doc: None,
        span: sp(),
    };

    let program = Program {
        stmts: vec![st(StmtKind::Enum(Rc::new(expr_enum))), st(StmtKind::Fn(Rc::new(eval_fn)))],
    };
    let (interp, root) = fresh();
    interp.collect_decls(&program);
    for stmt in &program.stmts {
        interp.exec_stmt(stmt, &root).unwrap();
    }

    let vc = |v: &str, args: Vec<Expr>| {
        call(
            ex(ExprKind::Member { base: Box::new(name("E")), name: v.to_string(), safe: false }),
            args,
        )
    };
    let num = |f: f64| vc("Num", vec![float(f)]);
    let div_zero = call(name("eval"), vec![vc("Div", vec![num(1.0), num(0.0)])]);
    let r = interp.eval(&div_zero, &root);
    assert!(r.is_err());
    assert!(r.unwrap_err().message.contains("division by zero"));
}

#[test]
fn tests_list_map_filter_sum_pipeline() {
    let (interp, root) = fresh();
    let xs = int_list(&interp, &[1, 2, 3, 4, 5, 6]);
    // filter(n -> n % 2 == 0)
    let even = lambda1(
        &interp,
        &root,
        "n",
        bin(BinOp::Eq, bin(BinOp::Rem, name("n"), whole(2)), whole(0)),
    );
    let filtered = list_call(&interp, &xs, "filter", vec![even]);
    assert_eq!(list_ints(&interp, &filtered), vec![2, 4, 6]);
    // map(n -> n * n)
    let square = lambda1(&interp, &root, "n", bin(BinOp::Mul, name("n"), name("n")));
    let mapped = list_call(&interp, &filtered, "map", vec![square]);
    assert_eq!(list_ints(&interp, &mapped), vec![4, 16, 36]);
    // sum() -> 56
    match list_call(&interp, &mapped, "sum", vec![]) {
        Value::Int(n) => assert_eq!(n, Integer::from_i64(56)),
        v => panic!("expected Int(56), got {:?}", v),
    }
}

#[test]
fn tests_list_fold_and_reduce() {
    let (interp, root) = fresh();
    let xs = int_list(&interp, &[1, 2, 3, 4]);
    let add = lambda1_2(&interp, &root, "a", "b", bin(BinOp::Add, name("a"), name("b")));
    match list_call(&interp, &xs, "fold", vec![Value::Int(Integer::from_i64(100)), add.clone()]) {
        Value::Int(n) => assert_eq!(n, Integer::from_i64(110)),
        v => panic!("expected Int(110), got {:?}", v),
    }
    match list_call(&interp, &xs, "reduce", vec![add]) {
        Value::Int(n) => assert_eq!(n, Integer::from_i64(10)),
        v => panic!("expected Int(10), got {:?}", v),
    }
    // reduce on empty is an error.
    let empty = int_list(&interp, &[]);
    let add2 = lambda1_2(&interp, &root, "a", "b", bin(BinOp::Add, name("a"), name("b")));
    let items = match &empty {
        Value::List(i) => i.clone(),
        _ => unreachable!(),
    };
    assert!(interp.list_method(&items, "reduce", vec![add2], sp()).is_err());
}

#[test]
fn tests_list_predicates_and_search() {
    let (interp, root) = fresh();
    let xs = int_list(&interp, &[1, 2, 3, 4, 5]);
    let gt3 = |interp: &Host, root: &Env| {
        lambda1(interp, root, "n", bin(BinOp::Gt, name("n"), whole(3)))
    };
    let p = gt3(&interp, &root);
    assert!(matches!(list_call(&interp, &xs, "any", vec![p]), Value::Bool(true)));
    let p = gt3(&interp, &root);
    assert!(matches!(list_call(&interp, &xs, "all", vec![p]), Value::Bool(false)));
    let p = gt3(&interp, &root);
    match list_call(&interp, &xs, "find", vec![p]) {
        Value::Int(n) => assert_eq!(n, Integer::from_i64(4)),
        v => panic!("expected Int(4), got {:?}", v),
    }
    // find with no match -> Null
    let none = lambda1(&interp, &root, "n", bin(BinOp::Gt, name("n"), whole(99)));
    assert!(matches!(list_call(&interp, &xs, "find", vec![none]), Value::Null));
    // contains
    assert!(matches!(
        list_call(&interp, &xs, "contains", vec![Value::Int(Integer::from_i64(3))]),
        Value::Bool(true)
    ));
    assert!(matches!(
        list_call(&interp, &xs, "contains", vec![Value::Int(Integer::from_i64(9))]),
        Value::Bool(false)
    ));
    // a non-Bool predicate is a runtime error (no truthiness).
    let bad = lambda1(&interp, &root, "n", name("n"));
    let items = match &xs {
        Value::List(i) => i.clone(),
        _ => unreachable!(),
    };
    assert!(interp.list_method(&items, "filter", vec![bad], sp()).is_err());
}

#[test]
fn tests_list_size_first_last_min_max() {
    let (interp, _root) = fresh();
    let xs = int_list(&interp, &[3, 1, 4, 1, 5]);
    match list_call(&interp, &xs, "count", vec![]) {
        Value::Int(n) => assert_eq!(n, Integer::from_i64(5)),
        v => panic!("expected Int, got {:?}", v),
    }
    match list_call(&interp, &xs, "len", vec![]) {
        Value::Int(n) => assert_eq!(n, Integer::from_i64(5)),
        v => panic!("expected Int, got {:?}", v),
    }
    assert!(matches!(list_call(&interp, &xs, "is_empty", vec![]), Value::Bool(false)));
    match list_call(&interp, &xs, "first", vec![]) {
        Value::Int(n) => assert_eq!(n, Integer::from_i64(3)),
        v => panic!("got {:?}", v),
    }
    match list_call(&interp, &xs, "last", vec![]) {
        Value::Int(n) => assert_eq!(n, Integer::from_i64(5)),
        v => panic!("got {:?}", v),
    }
    match list_call(&interp, &xs, "min", vec![]) {
        Value::Int(n) => assert_eq!(n, Integer::from_i64(1)),
        v => panic!("got {:?}", v),
    }
    match list_call(&interp, &xs, "max", vec![]) {
        Value::Int(n) => assert_eq!(n, Integer::from_i64(5)),
        v => panic!("got {:?}", v),
    }
    // first/last on empty -> Null
    let empty = int_list(&interp, &[]);
    assert!(matches!(list_call(&interp, &empty, "first", vec![]), Value::Null));
    assert!(matches!(list_call(&interp, &empty, "last", vec![]), Value::Null));
    assert!(matches!(list_call(&interp, &empty, "is_empty", vec![]), Value::Bool(true)));
}

#[test]
fn tests_list_take_skip_reverse_sorted_collect() {
    let (interp, _root) = fresh();
    let xs = int_list(&interp, &[1, 2, 3, 4, 5]);
    assert_eq!(
        list_ints(&interp, &list_call(&interp, &xs, "take", vec![Value::Int(Integer::from_i64(2))])),
        vec![1, 2]
    );
    assert_eq!(
        list_ints(&interp, &list_call(&interp, &xs, "skip", vec![Value::Int(Integer::from_i64(3))])),
        vec![4, 5]
    );
    // take/skip beyond length, and a negative count clamps to 0.
    assert_eq!(
        list_ints(&interp, &list_call(&interp, &xs, "take", vec![Value::Int(Integer::from_i64(99))])),
        vec![1, 2, 3, 4, 5]
    );
    assert!(
        list_ints(&interp, &list_call(&interp, &xs, "skip", vec![Value::Int(Integer::from_i64(-1))]))
            .len()
            == 5
    );
    assert_eq!(
        list_ints(&interp, &list_call(&interp, &xs, "reverse", vec![])),
        vec![5, 4, 3, 2, 1]
    );
    let unsorted = int_list(&interp, &[3, 1, 4, 1, 5, 9, 2, 6]);
    assert_eq!(
        list_ints(&interp, &list_call(&interp, &unsorted, "sorted", vec![])),
        vec![1, 1, 2, 3, 4, 5, 6, 9]
    );
    assert_eq!(list_ints(&interp, &list_call(&interp, &xs, "collect", vec![])), vec![1, 2, 3, 4, 5]);
    // sorted over incomparable (mixed Int/String) is an error.
    let mixed = interp.list_value(vec![Value::Int(Integer::from_i64(1)), Value::Str("a".to_string())]);
    let items = match &mixed {
        Value::List(i) => i.clone(),
        _ => unreachable!(),
    };
    assert!(interp.list_method(&items, "sorted", vec![], sp()).is_err());
}

#[test]
fn tests_list_enumerate_and_zip_make_tuples() {
    let (interp, _root) = fresh();
    let xs = interp.list_value(vec![Value::Str("a".to_string()), Value::Str("b".to_string())]);
    let en = list_call(&interp, &xs, "enumerate", vec![]);
    match &en {
        Value::List(items) => {
            let items = interp.items(items);
            assert_eq!(items.len(), 2);
            match &items[0] {
                Value::Tuple(t) => {
                    assert!(matches!(&t[0], Value::Int(n) if *n == Integer::from_i64(0)));
                    assert!(matches!(&t[1], Value::Str(s) if s == "a"));
                }
                v => panic!("expected tuple, got {:?}", v),
            }
        }
        v => panic!("expected list, got {:?}", v),
    }
    // zip pairs up to the shorter length.
    let ns = int_list(&interp, &[10, 20, 30]);
    let zipped = list_call(&interp, &ns, "zip", vec![xs]);
    match &zipped {
        Value::List(items) => assert_eq!(interp.items(items).len(), 2),
        v => panic!("expected list, got {:?}", v),
    }
}

#[test]
fn tests_list_append_and_pop_last_mutate() {
    let (interp, _root) = fresh();
    let xs = int_list(&interp, &[1, 2]);
    list_call(&interp, &xs, "append", vec![Value::Int(Integer::from_i64(3))]);
    assert_eq!(list_ints(&interp, &xs), vec![1, 2, 3]); // mutated in place
    match list_call(&interp, &xs, "pop_last", vec![]) {
        Value::Int(n) => assert_eq!(n, Integer::from_i64(3)),
        v => panic!("got {:?}", v),
    }
    assert_eq!(list_ints(&interp, &xs), vec![1, 2]);
    // pop_last on empty -> Null
    let empty = int_list(&interp, &[]);
    assert!(matches!(list_call(&interp, &empty, "pop_last", vec![]), Value::Null));
}

#[test]
fn tests_sum_int_float_and_mixed_error() {
    let (interp, _root) = fresh();
    // empty sum is Int(0)
    match list_call(&interp, &int_list(&interp, &[]), "sum", vec![]) {
        Value::Int(n) => assert_eq!(n, Integer::from_i64(0)),
        v => panic!("got {:?}", v),
    }
    let floats = interp.list_value(vec![Value::Float(bits(1.5)), Value::Float(bits(2.0))]);
    match list_call(&interp, &floats, "sum", vec![]) {
        Value::Float(f) => assert_eq!(f64::from_bits(f), 3.5),
        v => panic!("got {:?}", v),
    }
    // mixing Int and Float is a runtime error (no coercion).
    let mixed = interp.list_value(vec![Value::Int(Integer::from_i64(1)), Value::Float(bits(2.0))]);
    let items = match &mixed {
        Value::List(i) => i.clone(),
        _ => unreachable!(),
    };
    assert!(interp.list_method(&items, "sum", vec![], sp()).is_err());
}

#[test]
fn tests_map_get_insert_contains_len() {
    let (interp, _root) = fresh();
    let m = map_value(&interp, vec![
        (Value::Str("a".to_string()), Value::Int(Integer::from_i64(1))),
        (Value::Str("b".to_string()), Value::Int(Integer::from_i64(2))),
    ]);
    match map_call(&interp, &m, "get", vec![Value::Str("a".to_string())]) {
        Value::Int(n) => assert_eq!(n, Integer::from_i64(1)),
        v => panic!("got {:?}", v),
    }
    // absent key -> Null
    assert!(matches!(
        map_call(&interp, &m, "get", vec![Value::Str("z".to_string())]),
        Value::Null
    ));
    // has / contains
    assert!(matches!(
        map_call(&interp, &m, "has", vec![Value::Str("b".to_string())]),
        Value::Bool(true)
    ));
    assert!(matches!(
        map_call(&interp, &m, "contains", vec![Value::Str("z".to_string())]),
        Value::Bool(false)
    ));
    // insert new key, then overwrite existing (in place; preserves order)
    map_call(&interp, &m, "insert", vec![Value::Str("c".to_string()), Value::Int(Integer::from_i64(3))]);
    map_call(&interp, &m, "insert", vec![Value::Str("a".to_string()), Value::Int(Integer::from_i64(9))]);
    match map_call(&interp, &m, "get", vec![Value::Str("a".to_string())]) {
        Value::Int(n) => assert_eq!(n, Integer::from_i64(9)),
        v => panic!("got {:?}", v),
    }
    match map_call(&interp, &m, "len", vec![]) {
        Value::Int(n) => assert_eq!(n, Integer::from_i64(3)),
        v => panic!("got {:?}", v),
    }
}

#[test]
fn tests_map_keys_values_items() {
    let (interp, _root) = fresh();
    let m = map_value(&interp, vec![
        (Value::Str("a".to_string()), Value::Int(Integer::from_i64(1))),
        (Value::Str("b".to_string()), Value::Int(Integer::from_i64(2))),
    ]);
    // keys() preserves insertion order
    match map_call(&interp, &m, "keys", vec![]) {
        Value::List(items) => {
            let ks: Vec<String> = interp.items(items)
                .iter()
                .map(|k| match k {
                    Value::Str(s) => s.clone(),
                    v => panic!("got {:?}", v),
                })
                .collect();
            assert_eq!(ks, vec!["a", "b"]);
        }
        v => panic!("got {:?}", v),
    }
    assert_eq!(list_ints(&interp, &map_call(&interp, &m, "values", vec![])), vec![1, 2]);
    // items() yields 2-tuples
    match map_call(&interp, &m, "items", vec![]) {
        Value::List(items) => {
            let items = interp.items(items);
            assert_eq!(items.len(), 2);
            match &items[0] {
                Value::Tuple(t) => {
                    assert_eq!(t.len(), 2);
                    assert!(matches!(&t[0], Value::Str(s) if s == "a"));
                    assert!(matches!(&t[1], Value::Int(n) if *n == Integer::from_i64(1)));
                }
                v => panic!("got {:?}", v),
            }
        }
        v => panic!("got {:?}", v),
    }
}

#[test]
fn tests_set_insert_dedup_contains_len() {
    let (interp, _root) = fresh();
    let s = set_of(&interp, &[1, 2]);
    set_call(&interp, &s, "insert", vec![Value::Int(Integer::from_i64(2))]); // dup, no-op
    set_call(&interp, &s, "insert", vec![Value::Int(Integer::from_i64(3))]);
    match set_call(&interp, &s, "len", vec![]) {
        Value::Int(n) => assert_eq!(n, Integer::from_i64(3)),
        v => panic!("got {:?}", v),
    }
    assert!(matches!(
        set_call(&interp, &s, "contains", vec![Value::Int(Integer::from_i64(3))]),
        Value::Bool(true)
    ));
    assert!(matches!(
        set_call(&interp, &s, "contains", vec![Value::Int(Integer::from_i64(9))]),
        Value::Bool(false)
    ));
}

#[test]
fn tests_set_union_and_intersect() {
    let (interp, _root) = fresh();
    let a = set_of(&interp, &[1, 2, 3]);
    let b = set_of(&interp, &[2, 3, 4]);
    let u = set_call(&interp, &a, "union", vec![b.clone()]);
    // union keeps insertion order of `a` then new elements of `b`
    match &u {
        Value::SetRef(items) => {
            let got: Vec<i64> = interp.members(items)
                .iter()
                .map(|v| match v {
                    Value::Int(n) => small(n),
                    x => panic!("got {:?}", x),
                })
                .collect();
            assert_eq!(got, vec![1, 2, 3, 4]);
        }
        v => panic!("got {:?}", v),
    }
    let i = set_call(&interp, &a, "intersect", vec![b]);
    match &i {
        Value::SetRef(items) => {
            let got: Vec<i64> = interp.members(items)
                .iter()
                .map(|v| match v {
                    Value::Int(n) => small(n),
                    x => panic!("got {:?}", x),
                })
                .collect();
            assert_eq!(got, vec![2, 3]);
        }
        v => panic!("got {:?}", v),
    }
}

#[test]
fn tests_string_len() {
    // counts Unicode scalar values, not bytes (`é` is one char, two bytes).
    match str_method(&"héllo".to_string(), "len", &vec![], sp()).unwrap() {
        Value::Int(n) => assert_eq!(n, Integer::from_i64(5)),
        v => panic!("expected Int(5), got {:?}", v),
    }
}

#[test]
fn tests_map_set_equality_is_order_insensitive() {
    let (interp, _root) = fresh();
    let m1 = map_value(&interp, vec![
        (Value::Str("a".to_string()), Value::Int(Integer::from_i64(1))),
        (Value::Str("b".to_string()), Value::Int(Integer::from_i64(2))),
    ]);
    let m2 = map_value(&interp, vec![
        (Value::Str("b".to_string()), Value::Int(Integer::from_i64(2))),
        (Value::Str("a".to_string()), Value::Int(Integer::from_i64(1))),
    ]);
    assert!(interp.same(&m1, &m2));
    // differing value breaks equality
    let m3 = map_value(&interp, vec![
        (Value::Str("a".to_string()), Value::Int(Integer::from_i64(1))),
        (Value::Str("b".to_string()), Value::Int(Integer::from_i64(9))),
    ]);
    assert!(!interp.same(&m1, &m3));

    let s1 = set_of(&interp, &[1, 2, 3]);
    let s2 = set_of(&interp, &[3, 2, 1]);
    assert!(interp.same(&s1, &s2));
    assert!(!interp.same(&s1, &set_of(&interp, &[1, 2])));
}

#[test]
fn tests_show_map_and_set() {
    let (interp, _root) = fresh();
    let m = map_value(&interp, vec![
        (Value::Str("a".to_string()), Value::Int(Integer::from_i64(1))),
        (Value::Str("b".to_string()), Value::Int(Integer::from_i64(2))),
    ]);
    assert_eq!(interp.show(&m), "{a: 1, b: 2}");
    // empty map is `{}`
    assert_eq!(interp.show(&map_value(&interp, vec![])), "{}");
    // set renders `{a, b}`; empty set renders `Set()`
    assert_eq!(interp.show(&set_of(&interp, &[1, 2])), "{1, 2}");
    assert_eq!(interp.show(&interp.set_value(vec![])), "Set()");
}

#[test]
fn tests_builtin_method_rejects_named_args() {
    let (interp, root) = fresh();
    // xs.contains(x: 1) — named arg on a built-in method is rejected.
    let call_expr = ex(ExprKind::Call {
        callee: Box::new(ex(ExprKind::Member {
            base: Box::new(ex(ExprKind::List(vec![whole(1), whole(2)]))),
            name: "contains".to_string(),
            safe: false,
        })),
        args: vec![Arg::Named { name: "x".to_string(), value: whole(1) }],
    });
    let r = interp.eval(&call_expr, &root);
    assert!(r.is_err());
    assert!(r.unwrap_err().message.contains("positional"));
}

#[test]
fn tests_unknown_builtin_method_errors() {
    let (interp, _root) = fresh();
    let xs = int_list(&interp, &[1, 2, 3]);
    let items = match &xs {
        Value::List(i) => i.clone(),
        _ => unreachable!(),
    };
    let r = interp.list_method(&items, "no_such_method", vec![], sp());
    assert!(r.is_err());
    assert!(r.unwrap_err().message.contains("no method"));
}

#[test]
fn tests_tuple_literal_and_eq() {
    // (1, 2) == (1, 2)
    match eval_src(&fresh().0, "val t = (1, 2)\nt == (1, 2)\n") {
        Value::Bool(b) => assert!(b),
        v => panic!("expected Bool, got {:?}", v),
    }
}

#[test]
fn tests_set_literal_dedups() {
    let (interp, _root) = fresh();
    // A set literal drops structural duplicates; collect its len via a list.
    match eval_src(&interp, "val s = {1, 2, 2, 3, 1}\ns\n") {
        Value::SetRef(items) => assert_eq!(interp.members(items).len(), 3),
        v => panic!("expected Set, got {:?}", v),
    }
}

#[test]
fn tests_map_literal_dedups_last_wins() {
    let (interp, _root) = fresh();
    // A repeated key keeps first-seen position but the latest value.
    match eval_src(&interp, "val m = {1: 10, 1: 20}\nm\n") {
        Value::MapRef(pairs) => {
            let p = interp.pairs(pairs);
            assert_eq!(p.len(), 1);
            assert_eq!(as_int(&p[0].1), 20);
        }
        v => panic!("expected Map, got {:?}", v),
    }
}

#[test]
fn tests_list_comprehension_runs() {
    let (interp, _root) = fresh();
    // [x * x for x in 1..=5 if x != 3] == [1, 4, 16, 25]
    let xs = list_vals(&interp, eval_src(&interp, "[x * x for x in 1..=5 if x != 3]\n"));
    let got: Vec<i64> = xs.iter().map(as_int).collect();
    assert_eq!(got, vec![1, 4, 16, 25]);
}

#[test]
fn tests_set_comprehension_dedups() {
    let (interp, _root) = fresh();
    match eval_src(&interp, "{x % 3 for x in 0..9}\n") {
        Value::SetRef(items) => assert_eq!(interp.members(items).len(), 3), // {0, 1, 2}
        v => panic!("expected Set, got {:?}", v),
    }
}

#[test]
fn tests_comprehension_over_tuple_list_destructures() {
    let (interp, _root) = fresh();
    // Iterate a list of tuples, destructuring each into (a, b); sum a + b.
    let xs = list_vals(&interp, eval_src(&interp, "[a + b for (a, b) in [(1, 2), (3, 4)]]\n"));
    let got: Vec<i64> = xs.iter().map(as_int).collect();
    assert_eq!(got, vec![3, 7]);
}

#[test]
fn tests_comprehension_filter_must_be_bool() {
    // A non-Bool filter is a runtime error (no truthiness).
    let toks = lex("[x for x in 0..3 if x]\n").unwrap();
    let program = parse(&toks).unwrap();
    let (interp, root) = fresh();
    interp.collect_decls(&program);
    let last = &program.stmts[program.stmts.len() - 1];
    if let StmtKind::Expr(e) = &last.kind {
        assert!(interp.eval(e, &root).is_err());
    } else {
        panic!("expected expr statement");
    }
}

#[test]
fn tests_val_tuple_destructure_binds_names() {
    // val (a, b) = (7, 9) ; a + b == 16
    assert_eq!(as_int(&eval_src(&fresh().0, "val (a, b) = (7, 9)\na + b\n")), 16);
}

#[test]
fn tests_for_tuple_destructure_sums() {
    // for (a, b) in [(1,2),(3,4)]: total = total + a + b  -> 10
    let src = "total = 0\nfor (a, b) in [(1, 2), (3, 4)]:\n    total = total + a + b\ntotal\n";
    assert_eq!(as_int(&eval_src(&fresh().0, src)), 10);
}

#[test]
fn tests_default_arg_used_when_omitted() {
    // fn add(a: Int, b: Int = 10) -> Int: a + b ; add(5) == 15
    let src = "fn add(a: Int, b: Int = 10) -> Int:\n    a + b\nadd(5)\n";
    assert_eq!(as_int(&eval_src(&fresh().0, src)), 15);
}

#[test]
fn tests_default_arg_overridden_positionally() {
    let src = "fn add(a: Int, b: Int = 10) -> Int:\n    a + b\nadd(5, 100)\n";
    assert_eq!(as_int(&eval_src(&fresh().0, src)), 105);
}

#[test]
fn tests_named_call_arg_binds_by_name() {
    // greeting passed by name; result is its concatenation.
    let src = "fn greet(name: String, greeting: String = \"Hi\") -> String:\n    greeting + name\ngreet(\"Ada\", greeting: \"Hello \")\n";
    match eval_src(&fresh().0, src) {
        Value::Str(s) => assert_eq!(s, "Hello Ada"),
        v => panic!("expected String, got {:?}", v),
    }
}

#[test]
fn tests_lambda_passed_to_function_typed_param() {
    // A lambda flows into a function-typed param and is called.
    let src = "fn apply(f: (Int) -> Int, x: Int) -> Int:\n    f(x)\napply(n -> n * n, 6)\n";
    assert_eq!(as_int(&eval_src(&fresh().0, src)), 36);
}

#[test]
fn tests_missing_required_arg_errors() {
    // fn f(a: Int): a ; f() -> arity error.
    let toks = lex("fn f(a: Int) -> Int:\n    a\nf()\n").unwrap();
    let program = parse(&toks).unwrap();
    let (interp, root) = fresh();
    interp.collect_decls(&program);
    let mut err = None;
    for stmt in &program.stmts {
        if let Err(d) = interp.exec_stmt(stmt, &root) {
            err = Some(d);
            break;
        }
    }
    assert!(err.is_some(), "expected an arity error");
}

#[test]
fn tests_tuple_destructure_arity_mismatch_errors() {
    // val (a, b) = (1, 2, 3) -> runtime error.
    let toks = lex("val (a, b) = (1, 2, 3)\n").unwrap();
    let program = parse(&toks).unwrap();
    let (interp, root) = fresh();
    interp.collect_decls(&program);
    let r = interp.exec_stmt(&program.stmts[0], &root);
    assert!(r.is_err());
}

#[test]
fn tests_match_guard_true_takes_arm() {
    // The guard holds, so the guarded arm fires (and sees the binding `x`).
    let src = "n = 7\nmatch n:\n    x if x > 5: x * 2\n    _: 0\n";
    assert_eq!(as_int(&eval_src(&fresh().0, src)), 14);
}

#[test]
fn tests_match_guard_false_falls_through() {
    // The guard fails, so control falls to the next (catch-all) arm.
    let src = "n = 3\nmatch n:\n    x if x > 5: x * 2\n    _: 99\n";
    assert_eq!(as_int(&eval_src(&fresh().0, src)), 99);
}

#[test]
fn tests_match_guard_non_bool_errors() {
    // A non-Bool guard is a runtime error (no truthiness).
    let toks = lex("match 1:\n    x if x: 1\n    _: 0\n").unwrap();
    let program = parse(&toks).unwrap();
    let (interp, root) = fresh();
    interp.collect_decls(&program);
    if let StmtKind::Expr(e) = &program.stmts[0].kind {
        assert!(interp.eval(e, &root).is_err());
    } else {
        panic!("expected expr statement");
    }
}

#[test]
fn tests_or_pattern_literal_alternatives() {
    // Any of 1/2/3 takes the arm; 4 falls through.
    let hit = "n = 2\nmatch n:\n    1 or 2 or 3: 1\n    _: 0\n";
    let miss = "n = 4\nmatch n:\n    1 or 2 or 3: 1\n    _: 0\n";
    assert_eq!(as_int(&eval_src(&fresh().0, hit)), 1);
    assert_eq!(as_int(&eval_src(&fresh().0, miss)), 0);
}

#[test]
fn tests_or_pattern_variant_alternatives() {
    // `.Red or .Green` matches either variant of the scrutinee's enum.
    let src = "enum Color:\n    Red\n    Green\n    Blue\nc = Color.Green\nmatch c:\n    .Red or .Green: 1\n    .Blue: 0\n";
    assert_eq!(as_int(&eval_src(&fresh().0, src)), 1);
}

#[test]
fn tests_or_pattern_binds_from_matching_alternative() {
    // The binding from the alternative that matched is visible in the body.
    let src = "n = 5\nmatch n:\n    0: 0\n    x or y: x\n";
    assert_eq!(as_int(&eval_src(&fresh().0, src)), 5);
}

#[test]
fn tests_tuple_pattern_destructures() {
    // A 2-tuple binds element-wise.
    let src = "p = (3, 4)\nmatch p:\n    (a, b): a + b\n";
    assert_eq!(as_int(&eval_src(&fresh().0, src)), 7);
}

#[test]
fn tests_tuple_pattern_wrong_arity_skips() {
    // A 3-arity tuple pattern does not match a 2-tuple; fall through.
    let src = "p = (1, 2)\nmatch p:\n    (a, b, c): 0\n    _: 99\n";
    assert_eq!(as_int(&eval_src(&fresh().0, src)), 99);
}

#[test]
fn tests_nested_variant_subpattern_binds_inner() {
    // A variant nested inside a variant binds the inner payload.
    let src = "enum Inner:\n    Pair(Int, Int)\nenum Outer:\n    Wrap(Inner)\n    None\nv = Outer.Wrap(Inner.Pair(2, 5))\nmatch v:\n    .Wrap(.Pair(a, b)): a + b\n    .None: 0\n";
    assert_eq!(as_int(&eval_src(&fresh().0, src)), 7);
}

#[test]
fn tests_nested_literal_subpattern_filters() {
    // A literal sub-pattern only matches a specific payload value.
    let src = "enum Tag:\n    N(Int)\nv = Tag.N(2)\nmatch v:\n    .N(1): 10\n    .N(2): 20\n    .N(x): x\n";
    assert_eq!(as_int(&eval_src(&fresh().0, src)), 20);
}

#[test]
fn tests_safe_member_on_null_yields_null() {
    // x?.field on a null receiver short-circuits to null.
    let src = "struct P:\n    name: String\nx: P? = null\nx?.name\n";
    assert!(matches!(eval_src(&fresh().0, src), Value::Null));
}

#[test]
fn tests_safe_member_on_present_reads_field() {
    // x?.field on a present struct reads the field like `.`.
    let src = "struct P:\n    name: String\nx: P? = P(name: \"Ada\")\nx?.name\n";
    match eval_src(&fresh().0, src) {
        Value::Str(s) => assert_eq!(s, "Ada"),
        v => panic!("expected String, got {:?}", v),
    }
}

#[test]
fn tests_safe_method_call_on_null_yields_null_without_evaluating_args() {
    // x?.m(panic(...)) on a null receiver must NOT evaluate the args — if it
    // did, the `panic` would surface as an error.
    let src =
        "struct P:\n    name: String\nx: P? = null\nx?.greet(panic(\"boom\"))\n";
    assert!(matches!(eval_src(&fresh().0, src), Value::Null));
}

#[test]
fn tests_safe_call_chain_short_circuits() {
    // a?.b?.c yields null when an inner link is null.
    let src = "struct Inner:\n    n: Int\nstruct Outer:\n    inner: Inner?\nval o = Outer(inner: null)\no?.inner?.n\n";
    assert!(matches!(eval_src(&fresh().0, src), Value::Null));
}

#[test]
fn tests_safe_call_chain_reaches_value_when_present() {
    let src = "struct Inner:\n    n: Int\nstruct Outer:\n    inner: Inner?\nval o = Outer(inner: Inner(n: 42))\no?.inner?.n\n";
    assert_eq!(as_int(&eval_src(&fresh().0, src)), 42);
}

#[test]
fn tests_expect_present_returns_value() {
    // x.expect(msg) on a present value returns the value unchanged.
    let src = "val x: Int? = 7\nx.expect(\"required\")\n";
    assert_eq!(as_int(&eval_src(&fresh().0, src)), 7);
}

#[test]
fn tests_expect_null_panics_with_message() {
    // x.expect(msg) on null is a runtime error carrying `msg`.
    let d = eval_src_err("val x: Int? = null\nx.expect(\"name was required\")\n");
    assert!(
        d.message.contains("name was required"),
        "expect panic should carry the message: {}",
        d.message
    );
}

#[test]
fn interp_int_arithmetic() {
    // 2 + 3 * 4 — precedence is encoded by the AST shape.
    let e = bin(BinOp::Add, whole(2), bin(BinOp::Mul, whole(3), whole(4)));
    match eval_expr(&e).unwrap() {
        Value::Int(n) => assert_eq!(n, Integer::from_i64(14)),
        v => panic!("expected Int, got {:?}", v),
    }
}

#[test]
fn interp_power_right_assoc_eval() {
    // 2 ** (3 ** 2) = 2 ** 9 = 512 — the AST already encodes right-assoc.
    let e = bin(BinOp::Pow, whole(2), bin(BinOp::Pow, whole(3), whole(2)));
    match eval_expr(&e).unwrap() {
        Value::Int(n) => assert_eq!(n, Integer::from_i64(512)),
        v => panic!("expected Int, got {:?}", v),
    }
}

#[test]
fn interp_float_true_division() {
    // 9.0 / 2.0 = 4.5
    let e = bin(BinOp::Div, float(9.0), float(2.0));
    match eval_expr(&e).unwrap() {
        Value::Float(f) => assert_eq!(f64::from_bits(f), 4.5),
        v => panic!("expected Float, got {:?}", v),
    }
}

#[test]
fn interp_int_division_exact_ok_inexact_errs() {
    // 6 / 3 = 2 (exact)
    let ok = bin(BinOp::Div, whole(6), whole(3));
    match eval_expr(&ok).unwrap() {
        Value::Int(n) => assert_eq!(n, Integer::from_i64(2)),
        v => panic!("expected Int, got {:?}", v),
    }
    // 7 / 2 is not exact -> error.
    let bad = bin(BinOp::Div, whole(7), whole(2));
    assert!(eval_expr(&bad).is_err());
}

#[test]
fn interp_division_by_zero_errs() {
    let e = bin(BinOp::Div, whole(1), whole(0));
    assert!(eval_expr(&e).is_err());
}

#[test]
fn interp_and_short_circuits() {
    // false and <undefined name>  -> false, never touches rhs.
    let e = bin(BinOp::And, boolean(false), name("nope"));
    match eval_expr(&e).unwrap() {
        Value::Bool(b) => assert!(!b),
        v => panic!("expected Bool, got {:?}", v),
    }
}

#[test]
fn interp_or_short_circuits() {
    // true or <undefined name>  -> true.
    let e = bin(BinOp::Or, boolean(true), name("nope"));
    match eval_expr(&e).unwrap() {
        Value::Bool(b) => assert!(b),
        v => panic!("expected Bool, got {:?}", v),
    }
}

#[test]
fn interp_and_requires_bool() {
    // 1 and true -> error (non-Bool operand).
    let e = bin(BinOp::And, whole(1), boolean(true));
    assert!(eval_expr(&e).is_err());
}

#[test]
fn interp_non_bool_condition_errs() {
    // if 1: print(...) else: ...  — condition is Int -> runtime error.
    let if_stmt = st(StmtKind::If(IfStmt {
        arms: vec![(whole(1), block(vec![expr_stmt(whole(0))]))],
        else_body: None,
    }));
    let (interp, root) = fresh();
    let r = interp.exec_stmt(&if_stmt, &root);
    assert!(r.is_err());
}

#[test]
fn interp_ternary_non_bool_errs() {
    // (1 if 5 else 2) — cond is Int.
    let e = ex(ExprKind::Ternary {
        then: Box::new(whole(1)),
        cond: Box::new(whole(5)),
        otherwise: Box::new(whole(2)),
    });
    assert!(eval_expr(&e).is_err());
}

#[test]
fn interp_structural_eq_on_lists() {
    let l1 = ex(ExprKind::List(vec![whole(1), whole(2), whole(3)]));
    let l2 = ex(ExprKind::List(vec![whole(1), whole(2), whole(3)]));
    let e = bin(BinOp::Eq, l1, l2);
    match eval_expr(&e).unwrap() {
        Value::Bool(b) => assert!(b),
        v => panic!("expected Bool, got {:?}", v),
    }
}

#[test]
fn interp_structural_eq_on_structs() {
    let (interp, _root) = fresh();
    // Build two Point structs by hand and compare with values_equal.
    let mut f1 = NameMap::new();
    f1.insert("x".to_string(), Value::Int(Integer::from_i64(1)));
    f1.insert("y".to_string(), Value::Int(Integer::from_i64(2)));
    let s1 = interp.instance(StructInstance {
        struct_name: "Point".to_string(),
        fields: f1,
        field_order: vec!["x".to_string(), "y".to_string()],
    });

    let mut f2 = NameMap::new();
    f2.insert("x".to_string(), Value::Int(Integer::from_i64(1)));
    f2.insert("y".to_string(), Value::Int(Integer::from_i64(2)));
    let s2 = interp.instance(StructInstance {
        struct_name: "Point".to_string(),
        fields: f2,
        field_order: vec!["x".to_string(), "y".to_string()],
    });

    assert!(interp.same(&s1, &s2));

    // Differ a field -> not equal.
    if let Value::Struct(s) = &s2 {
        interp.set_field(s, "y", Value::Int(Integer::from_i64(99)));
    }
    assert!(!interp.same(&s1, &s2));
}

#[test]
fn interp_is_not_value_inequality() {
    let e = bin(BinOp::IsNot, whole(1), whole(2));
    match eval_expr(&e).unwrap() {
        Value::Bool(b) => assert!(b),
        v => panic!("expected Bool, got {:?}", v),
    }
}

#[test]
fn interp_val_reassignment_errs() {
    // val x = 1 ; x = 2  -> runtime error on the reassignment.
    let bind = st(StmtKind::Binding(Binding {
        name: "x".to_string(),
        binder: Binder::Name("x".to_string()),
        is_val: true,
        ty: None,
        value: whole(1),
    }));
    let reassign = st(StmtKind::Assign(Assign {
        target: Target { base: "x".to_string(), path: vec![], span: sp() },
        value: whole(2),
    }));
    let (interp, root) = fresh();
    interp.exec_stmt(&bind, &root).unwrap();
    let r = interp.exec_stmt(&reassign, &root);
    assert!(r.is_err());
}

#[test]
fn interp_mutable_reassignment_ok() {
    let bind = st(StmtKind::Binding(Binding {
        name: "x".to_string(),
        binder: Binder::Name("x".to_string()),
        is_val: false,
        ty: None,
        value: whole(1),
    }));
    let reassign = st(StmtKind::Assign(Assign {
        target: Target { base: "x".to_string(), path: vec![], span: sp() },
        value: whole(2),
    }));
    let (interp, root) = fresh();
    interp.exec_stmt(&bind, &root).unwrap();
    interp.exec_stmt(&reassign, &root).unwrap();
    match interp.look(&root, "x").unwrap() {
        Value::Int(n) => assert_eq!(n, Integer::from_i64(2)),
        v => panic!("expected Int, got {:?}", v),
    }
}

#[test]
fn interp_for_loop_accumulates_over_range() {
    // sum = 0 ; for x in 0..5: sum = sum + x   -> 0+1+2+3+4 = 10
    let init = st(StmtKind::Binding(Binding {
        name: "sum".to_string(),
        binder: Binder::Name("sum".to_string()),
        is_val: false,
        ty: None,
        value: whole(0),
    }));
    let for_stmt = st(StmtKind::For(ForStmt {
        var: "x".to_string(),
        binder: Binder::Name("x".to_string()),
        iter: bin(BinOp::Range, whole(0), whole(5)),
        body: block(vec![st(StmtKind::Assign(Assign {
            target: Target { base: "sum".to_string(), path: vec![], span: sp() },
            value: bin(BinOp::Add, name("sum"), name("x")),
        }))]),
    }));
    let (interp, root) = fresh();
    interp.exec_stmt(&init, &root).unwrap();
    interp.exec_stmt(&for_stmt, &root).unwrap();
    match interp.look(&root, "sum").unwrap() {
        Value::Int(n) => assert_eq!(n, Integer::from_i64(10)),
        v => panic!("expected Int, got {:?}", v),
    }
}

#[test]
fn interp_for_loop_inclusive_range() {
    // for x in 0..=3 -> [0,1,2,3], sum 6
    let init = st(StmtKind::Binding(Binding {
        name: "sum".to_string(),
        binder: Binder::Name("sum".to_string()),
        is_val: false,
        ty: None,
        value: whole(0),
    }));
    let for_stmt = st(StmtKind::For(ForStmt {
        var: "x".to_string(),
        binder: Binder::Name("x".to_string()),
        iter: bin(BinOp::RangeIncl, whole(0), whole(3)),
        body: block(vec![st(StmtKind::Assign(Assign {
            target: Target { base: "sum".to_string(), path: vec![], span: sp() },
            value: bin(BinOp::Add, name("sum"), name("x")),
        }))]),
    }));
    let (interp, root) = fresh();
    interp.exec_stmt(&init, &root).unwrap();
    interp.exec_stmt(&for_stmt, &root).unwrap();
    match interp.look(&root, "sum").unwrap() {
        Value::Int(n) => assert_eq!(n, Integer::from_i64(6)),
        v => panic!("expected Int, got {:?}", v),
    }
}

#[test]
fn interp_match_enum_variant_returns_arm() {
    // enum E: A  B(Int) ; match B(7): A: 0 ; B(n): n  -> 7
    let scrut = Value::Enum(Rc::new(EnumInstance {
        enum_name: "E".to_string(),
        variant: "B".to_string(),
        payload: vec![Value::Int(Integer::from_i64(7))],
        payload_names: vec![],
    }));

    let m = MatchExpr {
        scrutinee: Box::new(whole(0)), // placeholder; we'll match a value directly
        arms: vec![
            MatchArm {
                pattern: Pattern {
                    kind: PatternKind::Variant {
                        enum_name: None,
                        name: "A".to_string(),
                        subs: vec![],
                    },
                    span: sp(),
                },
                guard: None,
                body: block(vec![expr_stmt(whole(0))]),
                span: sp(),
            },
            MatchArm {
                pattern: Pattern {
                    kind: PatternKind::Variant {
                        enum_name: None,
                        name: "B".to_string(),
                        subs: vec![Pattern {
                            kind: PatternKind::Binding("n".to_string()),
                            span: sp(),
                        }],
                    },
                    span: sp(),
                },
                guard: None,
                body: block(vec![expr_stmt(name("n"))]),
                span: sp(),
            },
        ],
    };

    // Drive eval_match by binding the scrutinee into a name and matching it.
    let (interp, root) = fresh();
    interp.define(&root, "scrut", scrut, false);
    let m = MatchExpr { scrutinee: Box::new(name("scrut")), ..m };
    let v = interp.eval_match(&m, sp(), &root).unwrap();
    match v {
        Value::Int(n) => assert_eq!(n, Integer::from_i64(7)),
        v => panic!("expected Int(7), got {:?}", v),
    }
}

#[test]
fn interp_match_wildcard_fallback() {
    let scrut = Value::Int(Integer::from_i64(42));
    let m = MatchExpr {
        scrutinee: Box::new(name("scrut")),
        arms: vec![
            MatchArm {
                pattern: Pattern {
                    kind: PatternKind::Literal(LitPattern::Int(Integer::from_i64(1))),
                    span: sp(),
                },
                guard: None,
                body: block(vec![expr_stmt(whole(100))]),
                span: sp(),
            },
            MatchArm {
                pattern: Pattern { kind: PatternKind::Wildcard, span: sp() },
                guard: None,
                body: block(vec![expr_stmt(whole(999))]),
                span: sp(),
            },
        ],
    };
    let (interp, root) = fresh();
    interp.define(&root, "scrut", scrut, false);
    match interp.eval_match(&m, sp(), &root).unwrap() {
        Value::Int(n) => assert_eq!(n, Integer::from_i64(999)),
        v => panic!("expected Int(999), got {:?}", v),
    }
}

#[test]
fn interp_show_float_has_decimal_point() {
    let (interp, _root) = fresh();
    assert_eq!(interp.show(&Value::Float(bits(9.0))), "9.0");
    assert_eq!(interp.show(&Value::Float(bits(2.5))), "2.5");
    assert_eq!(interp.show(&Value::Float(bits(-1.0))), "-1.0");
}

#[test]
fn interp_show_int_and_bool_and_null() {
    let (interp, _root) = fresh();
    assert_eq!(interp.show(&Value::Int(Integer::from_i64(42))), "42");
    assert_eq!(interp.show(&Value::Bool(true)), "true");
    assert_eq!(interp.show(&Value::Bool(false)), "false");
    assert_eq!(interp.show(&Value::Null), "null");
    assert_eq!(interp.show(&Value::Unit), "()");
}

#[test]
fn interp_show_struct() {
    let (interp, _root) = fresh();
    let mut fields = NameMap::new();
    fields.insert("x".to_string(), Value::Int(Integer::from_i64(1)));
    fields.insert("y".to_string(), Value::Float(bits(2.0)));
    let s = interp.instance(StructInstance {
        struct_name: "Point".to_string(),
        fields,
        field_order: vec!["x".to_string(), "y".to_string()],
    });
    assert_eq!(interp.show(&s), "Point(x: 1, y: 2.0)");
}

#[test]
fn interp_show_enum() {
    let (interp, _root) = fresh();
    let e = Value::Enum(Rc::new(EnumInstance {
        enum_name: "Expr".to_string(),
        variant: "Num".to_string(),
        payload: vec![Value::Float(bits(1.0))],
        payload_names: vec![],
    }));
    assert_eq!(interp.show(&e), "Num(1.0)");

    let empty = Value::Enum(Rc::new(EnumInstance {
        enum_name: "E".to_string(),
        variant: "Empty".to_string(),
        payload: vec![],
        payload_names: vec![],
    }));
    assert_eq!(interp.show(&empty), "Empty");
}

#[test]
fn interp_show_list() {
    let (interp, _root) = fresh();
    let l = interp.list_value(vec![
        Value::Int(Integer::from_i64(1)),
        Value::Int(Integer::from_i64(2)),
    ]);
    assert_eq!(interp.show(&l), "[1, 2]");
}

#[test]
fn interp_panic_produces_err() {
    let (interp, root) = fresh();
    let panic_call = ex(ExprKind::Call {
        callee: Box::new(name("panic")),
        args: vec![Arg::Positional(ex(ExprKind::Str(StringLit {
            parts: vec![StrSeg::Text("boom".to_string())],
        })))],
    });
    let r = interp.eval(&panic_call, &root);
    assert!(r.is_err());
    let d = r.unwrap_err();
    assert!(d.message.contains("boom"));
}

#[test]
fn interp_run_program_calls_main() {
    // fn main(): x = 1 ; (no assertion on stdout, just that it runs clean)
    let main = FnDecl {
        name: "main".to_string(),
        type_params: vec![],
        params: vec![],
        returns: None,
        body: block(vec![st(StmtKind::Binding(Binding {
            name: "x".to_string(),
            binder: Binder::Name("x".to_string()),
            is_val: false,
            ty: None,
            value: whole(1),
        }))]),
        doc: None,
        span: sp(),
    };
    let program = Program { stmts: vec![st(StmtKind::Fn(Rc::new(main)))] };
    assert!(run(&program, FloatTable::new(), FUEL).ended.is_ok());
}

#[test]
fn interp_function_call_and_implicit_return() {
    // fn double(n: Int) returns Int: n + n
    // double(21) -> 42
    let double = FnDecl {
        name: "double".to_string(),
        type_params: vec![],
        params: vec![Param::Named {
            name: "n".to_string(),
            ty: Type {
                base: BaseType::Named { name: "Int".to_string(), args: vec![] },
                nullable: false,
                span: sp(),
            },
            default: None,
        }],
        returns: None,
        body: block(vec![expr_stmt(bin(BinOp::Add, name("n"), name("n")))]),
        doc: None,
        span: sp(),
    };
    let (interp, root) = fresh();
    interp.exec_stmt(&st(StmtKind::Fn(Rc::new(double))), &root).unwrap();
    let call = ex(ExprKind::Call {
        callee: Box::new(name("double")),
        args: vec![Arg::Positional(whole(21))],
    });
    match interp.eval(&call, &root).unwrap() {
        Value::Int(n) => assert_eq!(n, Integer::from_i64(42)),
        v => panic!("expected Int(42), got {:?}", v),
    }
}

#[test]
fn interp_or_else_defaults_null() {
    // null.or_else(5) -> 5 ; 3.or_else(5) -> 3
    let (interp, root) = fresh();
    let e1 = ex(ExprKind::Call {
        callee: Box::new(ex(ExprKind::Member {
            base: Box::new(ex(ExprKind::Null)),
            name: "or_else".to_string(),
            safe: false,
        })),
        args: vec![Arg::Positional(whole(5))],
    });
    match interp.eval(&e1, &root).unwrap() {
        Value::Int(n) => assert_eq!(n, Integer::from_i64(5)),
        v => panic!("expected Int(5), got {:?}", v),
    }
    let e2 = ex(ExprKind::Call {
        callee: Box::new(ex(ExprKind::Member {
            base: Box::new(whole(3)),
            name: "or_else".to_string(),
            safe: false,
        })),
        args: vec![Arg::Positional(whole(5))],
    });
    match interp.eval(&e2, &root).unwrap() {
        Value::Int(n) => assert_eq!(n, Integer::from_i64(3)),
        v => panic!("expected Int(3), got {:?}", v),
    }
}

#[test]
fn interp_showcase_evaluator_yields_9_0() {
    // Helpers to spell out the AST tersely.
    fn ty_float() -> Type {
        Type {
            base: BaseType::Named { name: "Float".to_string(), args: vec![] },
            nullable: false,
            span: sp(),
        }
    }
    fn variant_pat(name: &str, subs: Vec<&str>) -> Pattern {
        Pattern {
            kind: PatternKind::Variant {
                enum_name: None,
                name: name.to_string(),
                subs: subs
                    .into_iter()
                    .map(|s| Pattern {
                        kind: PatternKind::Binding(s.to_string()),
                        span: sp(),
                    })
                    .collect(),
            },
            span: sp(),
        }
    }
    fn call(callee: Expr, args: Vec<Expr>) -> Expr {
        ex(ExprKind::Call {
            callee: Box::new(callee),
            args: args.into_iter().map(Arg::Positional).collect(),
        })
    }

    // enum Expr: Num(Float)  Add(Expr,Expr)  Mul(Expr,Expr)  Div(Expr,Expr)
    let expr_enum = EnumDecl {
        name: "Expr".to_string(),
        type_params: vec![],
        derives: vec![],
        variants: vec![
            VariantDecl {
                name: "Num".to_string(),
                payload: Some(Payload::Positional(vec![ty_float()])),
                doc: None,
                span: sp(),
            },
            VariantDecl {
                name: "Add".to_string(),
                payload: Some(Payload::Positional(vec![ty_float(), ty_float()])),
                doc: None,
                span: sp(),
            },
            VariantDecl {
                name: "Mul".to_string(),
                payload: Some(Payload::Positional(vec![ty_float(), ty_float()])),
                doc: None,
                span: sp(),
            },
            VariantDecl {
                name: "Div".to_string(),
                payload: Some(Payload::Positional(vec![ty_float(), ty_float()])),
                doc: None,
                span: sp(),
            },
        ],
        doc: None,
        span: sp(),
    };

    // fn eval(e: Expr) returns Float:
    //     return match e:
    //         Num(n):    n
    //         Add(a, b): eval(a) + eval(b)
    //         Mul(a, b): eval(a) * eval(b)
    //         Div(a, b):
    //             divisor = eval(b)
    //             if divisor == 0.0: panic("division by zero")
    //             eval(a) / divisor
    let match_expr = ex(ExprKind::Match(MatchExpr {
        scrutinee: Box::new(name("e")),
        arms: vec![
            MatchArm {
                pattern: variant_pat("Num", vec!["n"]),
                guard: None,
                body: block(vec![expr_stmt(name("n"))]),
                span: sp(),
            },
            MatchArm {
                pattern: variant_pat("Add", vec!["a", "b"]),
                guard: None,
                body: block(vec![expr_stmt(bin(
                    BinOp::Add,
                    call(name("eval"), vec![name("a")]),
                    call(name("eval"), vec![name("b")]),
                ))]),
                span: sp(),
            },
            MatchArm {
                pattern: variant_pat("Mul", vec!["a", "b"]),
                guard: None,
                body: block(vec![expr_stmt(bin(
                    BinOp::Mul,
                    call(name("eval"), vec![name("a")]),
                    call(name("eval"), vec![name("b")]),
                ))]),
                span: sp(),
            },
            MatchArm {
                pattern: variant_pat("Div", vec!["a", "b"]),
                guard: None,
                body: block(vec![
                    st(StmtKind::Binding(Binding {
                        name: "divisor".to_string(),
                        binder: Binder::Name("divisor".to_string()),
                        is_val: false,
                        ty: None,
                        value: call(name("eval"), vec![name("b")]),
                    })),
                    st(StmtKind::If(IfStmt {
                        arms: vec![(
                            bin(BinOp::Eq, name("divisor"), float(0.0)),
                            block(vec![expr_stmt(call(
                                name("panic"),
                                vec![ex(ExprKind::Str(StringLit {
                                    parts: vec![StrSeg::Text(
                                        "division by zero".to_string(),
                                    )],
                                }))],
                            ))]),
                        )],
                        else_body: None,
                    })),
                    expr_stmt(bin(
                        BinOp::Div,
                        call(name("eval"), vec![name("a")]),
                        name("divisor"),
                    )),
                ]),
                span: sp(),
            },
        ],
    }));

    let eval_fn = FnDecl {
        name: "eval".to_string(),
        type_params: vec![],
        params: vec![Param::Named {
            name: "e".to_string(),
            ty: Type {
                base: BaseType::Named { name: "Expr".to_string(), args: vec![] },
                nullable: false,
                span: sp(),
            },
            default: None,
        }],
        returns: Some(ty_float()),
        body: block(vec![st(StmtKind::Return(Some(match_expr)))]),
        doc: None,
        span: sp(),
    };

    // Build it and the program in a fresh interpreter.
    let program = Program {
        stmts: vec![st(StmtKind::Enum(Rc::new(expr_enum))), st(StmtKind::Fn(Rc::new(eval_fn)))],
    };

    let (interp, root) = fresh();
    interp.collect_decls(&program);
    for stmt in &program.stmts {
        interp.exec_stmt(stmt, &root).unwrap();
    }

    // program = Expr.Mul(Expr.Add(Expr.Num(1.0), Expr.Num(2.0)), Expr.Num(3.0))
    let vc = |v: &str, args: Vec<Expr>| {
        call(
            ex(ExprKind::Member { base: Box::new(name("Expr")), name: v.to_string(), safe: false }),
            args,
        )
    };
    let num = |f: f64| vc("Num", vec![float(f)]);
    let prog_expr = vc(
        "Mul",
        vec![vc("Add", vec![num(1.0), num(2.0)]), num(3.0)],
    );
    let call_eval = call(name("eval"), vec![prog_expr]);

    let result = interp.eval(&call_eval, &root).unwrap();
    match &result {
        Value::Float(f) => assert_eq!(f64::from_bits(*f), 9.0),
        v => panic!("expected Float(9.0), got {:?}", v),
    }
    assert_eq!(interp.show(&result), "9.0");
}

#[test]
fn interp_showcase_division_by_zero_panics() {
    // Reuse a minimal version: eval(Div(Num(1.0), Num(0.0))) must Err.
    // Build a tiny enum + eval fn covering just Num and Div.
    fn ty_float() -> Type {
        Type {
            base: BaseType::Named { name: "Float".to_string(), args: vec![] },
            nullable: false,
            span: sp(),
        }
    }
    fn call(callee: Expr, args: Vec<Expr>) -> Expr {
        ex(ExprKind::Call {
            callee: Box::new(callee),
            args: args.into_iter().map(Arg::Positional).collect(),
        })
    }
    fn variant_pat(name: &str, subs: Vec<&str>) -> Pattern {
        Pattern {
            kind: PatternKind::Variant {
                enum_name: None,
                name: name.to_string(),
                subs: subs
                    .into_iter()
                    .map(|s| Pattern {
                        kind: PatternKind::Binding(s.to_string()),
                        span: sp(),
                    })
                    .collect(),
            },
            span: sp(),
        }
    }

    let expr_enum = EnumDecl {
        name: "E".to_string(),
        type_params: vec![],
        derives: vec![],
        variants: vec![
            VariantDecl {
                name: "Num".to_string(),
                payload: Some(Payload::Positional(vec![ty_float()])),
                doc: None,
                span: sp(),
            },
            VariantDecl {
                name: "Div".to_string(),
                payload: Some(Payload::Positional(vec![ty_float(), ty_float()])),
                doc: None,
                span: sp(),
            },
        ],
        doc: None,
        span: sp(),
    };

    let match_expr = ex(ExprKind::Match(MatchExpr {
        scrutinee: Box::new(name("e")),
        arms: vec![
            MatchArm {
                pattern: variant_pat("Num", vec!["n"]),
                guard: None,
                body: block(vec![expr_stmt(name("n"))]),
                span: sp(),
            },
            MatchArm {
                pattern: variant_pat("Div", vec!["a", "b"]),
                guard: None,
                body: block(vec![
                    st(StmtKind::Binding(Binding {
                        name: "divisor".to_string(),
                        binder: Binder::Name("divisor".to_string()),
                        is_val: false,
                        ty: None,
                        value: call(name("eval"), vec![name("b")]),
                    })),
                    st(StmtKind::If(IfStmt {
                        arms: vec![(
                            bin(BinOp::Eq, name("divisor"), float(0.0)),
                            block(vec![expr_stmt(call(
                                name("panic"),
                                vec![ex(ExprKind::Str(StringLit {
                                    parts: vec![StrSeg::Text("division by zero".to_string())],
                                }))],
                            ))]),
                        )],
                        else_body: None,
                    })),
                    expr_stmt(bin(
                        BinOp::Div,
                        call(name("eval"), vec![name("a")]),
                        name("divisor"),
                    )),
                ]),
                span: sp(),
            },
        ],
    }));

    let eval_fn = FnDecl {
        name: "eval".to_string(),
        type_params: vec![],
        params: vec![Param::Named {
            name: "e".to_string(),
            ty: Type {
                base: BaseType::Named { name: "E".to_string(), args: vec![] },
                nullable: false,
                span: sp(),
            },
            default: None,
        }],
        returns: Some(ty_float()),
        body: block(vec![st(StmtKind::Return(Some(match_expr)))]),
        doc: None,
        span: sp(),
    };

    let program = Program {
        stmts: vec![st(StmtKind::Enum(Rc::new(expr_enum))), st(StmtKind::Fn(Rc::new(eval_fn)))],
    };
    let (interp, root) = fresh();
    interp.collect_decls(&program);
    for stmt in &program.stmts {
        interp.exec_stmt(stmt, &root).unwrap();
    }

    let vc = |v: &str, args: Vec<Expr>| {
        call(
            ex(ExprKind::Member { base: Box::new(name("E")), name: v.to_string(), safe: false }),
            args,
        )
    };
    let num = |f: f64| vc("Num", vec![float(f)]);
    let div_zero = call(name("eval"), vec![vc("Div", vec![num(1.0), num(0.0)])]);
    let r = interp.eval(&div_zero, &root);
    assert!(r.is_err());
    assert!(r.unwrap_err().message.contains("division by zero"));
}

#[test]
fn interp_list_map_filter_sum_pipeline() {
    let (interp, root) = fresh();
    let xs = int_list(&interp, &[1, 2, 3, 4, 5, 6]);
    // filter(n -> n % 2 == 0)
    let even = lambda1(
        &interp,
        &root,
        "n",
        bin(BinOp::Eq, bin(BinOp::Rem, name("n"), whole(2)), whole(0)),
    );
    let filtered = list_call(&interp, &xs, "filter", vec![even]);
    assert_eq!(list_ints(&interp, &filtered), vec![2, 4, 6]);
    // map(n -> n * n)
    let square = lambda1(&interp, &root, "n", bin(BinOp::Mul, name("n"), name("n")));
    let mapped = list_call(&interp, &filtered, "map", vec![square]);
    assert_eq!(list_ints(&interp, &mapped), vec![4, 16, 36]);
    // sum() -> 56
    match list_call(&interp, &mapped, "sum", vec![]) {
        Value::Int(n) => assert_eq!(n, Integer::from_i64(56)),
        v => panic!("expected Int(56), got {:?}", v),
    }
}

#[test]
fn interp_list_fold_and_reduce() {
    let (interp, root) = fresh();
    let xs = int_list(&interp, &[1, 2, 3, 4]);
    let add = lambda1_2(&interp, &root, "a", "b", bin(BinOp::Add, name("a"), name("b")));
    match list_call(&interp, &xs, "fold", vec![Value::Int(Integer::from_i64(100)), add.clone()]) {
        Value::Int(n) => assert_eq!(n, Integer::from_i64(110)),
        v => panic!("expected Int(110), got {:?}", v),
    }
    match list_call(&interp, &xs, "reduce", vec![add]) {
        Value::Int(n) => assert_eq!(n, Integer::from_i64(10)),
        v => panic!("expected Int(10), got {:?}", v),
    }
    // reduce on empty is an error.
    let empty = int_list(&interp, &[]);
    let add2 = lambda1_2(&interp, &root, "a", "b", bin(BinOp::Add, name("a"), name("b")));
    let items = match &empty {
        Value::List(i) => i.clone(),
        _ => unreachable!(),
    };
    assert!(interp.list_method(&items, "reduce", vec![add2], sp()).is_err());
}

#[test]
fn interp_list_predicates_and_search() {
    let (interp, root) = fresh();
    let xs = int_list(&interp, &[1, 2, 3, 4, 5]);
    let gt3 = |interp: &Host, root: &Env| {
        lambda1(interp, root, "n", bin(BinOp::Gt, name("n"), whole(3)))
    };
    let p = gt3(&interp, &root);
    assert!(matches!(list_call(&interp, &xs, "any", vec![p]), Value::Bool(true)));
    let p = gt3(&interp, &root);
    assert!(matches!(list_call(&interp, &xs, "all", vec![p]), Value::Bool(false)));
    let p = gt3(&interp, &root);
    match list_call(&interp, &xs, "find", vec![p]) {
        Value::Int(n) => assert_eq!(n, Integer::from_i64(4)),
        v => panic!("expected Int(4), got {:?}", v),
    }
    // find with no match -> Null
    let none = lambda1(&interp, &root, "n", bin(BinOp::Gt, name("n"), whole(99)));
    assert!(matches!(list_call(&interp, &xs, "find", vec![none]), Value::Null));
    // contains
    assert!(matches!(
        list_call(&interp, &xs, "contains", vec![Value::Int(Integer::from_i64(3))]),
        Value::Bool(true)
    ));
    assert!(matches!(
        list_call(&interp, &xs, "contains", vec![Value::Int(Integer::from_i64(9))]),
        Value::Bool(false)
    ));
    // a non-Bool predicate is a runtime error (no truthiness).
    let bad = lambda1(&interp, &root, "n", name("n"));
    let items = match &xs {
        Value::List(i) => i.clone(),
        _ => unreachable!(),
    };
    assert!(interp.list_method(&items, "filter", vec![bad], sp()).is_err());
}

#[test]
fn interp_list_size_first_last_min_max() {
    let (interp, _root) = fresh();
    let xs = int_list(&interp, &[3, 1, 4, 1, 5]);
    match list_call(&interp, &xs, "count", vec![]) {
        Value::Int(n) => assert_eq!(n, Integer::from_i64(5)),
        v => panic!("expected Int, got {:?}", v),
    }
    match list_call(&interp, &xs, "len", vec![]) {
        Value::Int(n) => assert_eq!(n, Integer::from_i64(5)),
        v => panic!("expected Int, got {:?}", v),
    }
    assert!(matches!(list_call(&interp, &xs, "is_empty", vec![]), Value::Bool(false)));
    match list_call(&interp, &xs, "first", vec![]) {
        Value::Int(n) => assert_eq!(n, Integer::from_i64(3)),
        v => panic!("got {:?}", v),
    }
    match list_call(&interp, &xs, "last", vec![]) {
        Value::Int(n) => assert_eq!(n, Integer::from_i64(5)),
        v => panic!("got {:?}", v),
    }
    match list_call(&interp, &xs, "min", vec![]) {
        Value::Int(n) => assert_eq!(n, Integer::from_i64(1)),
        v => panic!("got {:?}", v),
    }
    match list_call(&interp, &xs, "max", vec![]) {
        Value::Int(n) => assert_eq!(n, Integer::from_i64(5)),
        v => panic!("got {:?}", v),
    }
    // first/last on empty -> Null
    let empty = int_list(&interp, &[]);
    assert!(matches!(list_call(&interp, &empty, "first", vec![]), Value::Null));
    assert!(matches!(list_call(&interp, &empty, "last", vec![]), Value::Null));
    assert!(matches!(list_call(&interp, &empty, "is_empty", vec![]), Value::Bool(true)));
}

#[test]
fn interp_list_take_skip_reverse_sorted_collect() {
    let (interp, _root) = fresh();
    let xs = int_list(&interp, &[1, 2, 3, 4, 5]);
    assert_eq!(
        list_ints(&interp, &list_call(&interp, &xs, "take", vec![Value::Int(Integer::from_i64(2))])),
        vec![1, 2]
    );
    assert_eq!(
        list_ints(&interp, &list_call(&interp, &xs, "skip", vec![Value::Int(Integer::from_i64(3))])),
        vec![4, 5]
    );
    // take/skip beyond length, and a negative count clamps to 0.
    assert_eq!(
        list_ints(&interp, &list_call(&interp, &xs, "take", vec![Value::Int(Integer::from_i64(99))])),
        vec![1, 2, 3, 4, 5]
    );
    assert!(
        list_ints(&interp, &list_call(&interp, &xs, "skip", vec![Value::Int(Integer::from_i64(-1))]))
            .len()
            == 5
    );
    assert_eq!(
        list_ints(&interp, &list_call(&interp, &xs, "reverse", vec![])),
        vec![5, 4, 3, 2, 1]
    );
    let unsorted = int_list(&interp, &[3, 1, 4, 1, 5, 9, 2, 6]);
    assert_eq!(
        list_ints(&interp, &list_call(&interp, &unsorted, "sorted", vec![])),
        vec![1, 1, 2, 3, 4, 5, 6, 9]
    );
    assert_eq!(list_ints(&interp, &list_call(&interp, &xs, "collect", vec![])), vec![1, 2, 3, 4, 5]);
    // sorted over incomparable (mixed Int/String) is an error.
    let mixed = interp.list_value(vec![Value::Int(Integer::from_i64(1)), Value::Str("a".to_string())]);
    let items = match &mixed {
        Value::List(i) => i.clone(),
        _ => unreachable!(),
    };
    assert!(interp.list_method(&items, "sorted", vec![], sp()).is_err());
}

#[test]
fn interp_list_enumerate_and_zip_make_tuples() {
    let (interp, _root) = fresh();
    let xs = interp.list_value(vec![Value::Str("a".to_string()), Value::Str("b".to_string())]);
    let en = list_call(&interp, &xs, "enumerate", vec![]);
    match &en {
        Value::List(items) => {
            let items = interp.items(items);
            assert_eq!(items.len(), 2);
            match &items[0] {
                Value::Tuple(t) => {
                    assert!(matches!(&t[0], Value::Int(n) if *n == Integer::from_i64(0)));
                    assert!(matches!(&t[1], Value::Str(s) if s == "a"));
                }
                v => panic!("expected tuple, got {:?}", v),
            }
        }
        v => panic!("expected list, got {:?}", v),
    }
    // zip pairs up to the shorter length.
    let ns = int_list(&interp, &[10, 20, 30]);
    let zipped = list_call(&interp, &ns, "zip", vec![xs]);
    match &zipped {
        Value::List(items) => assert_eq!(interp.items(items).len(), 2),
        v => panic!("expected list, got {:?}", v),
    }
}

#[test]
fn interp_list_append_and_pop_last_mutate() {
    let (interp, _root) = fresh();
    let xs = int_list(&interp, &[1, 2]);
    list_call(&interp, &xs, "append", vec![Value::Int(Integer::from_i64(3))]);
    assert_eq!(list_ints(&interp, &xs), vec![1, 2, 3]); // mutated in place
    match list_call(&interp, &xs, "pop_last", vec![]) {
        Value::Int(n) => assert_eq!(n, Integer::from_i64(3)),
        v => panic!("got {:?}", v),
    }
    assert_eq!(list_ints(&interp, &xs), vec![1, 2]);
    // pop_last on empty -> Null
    let empty = int_list(&interp, &[]);
    assert!(matches!(list_call(&interp, &empty, "pop_last", vec![]), Value::Null));
}

#[test]
fn interp_sum_int_float_and_mixed_error() {
    let (interp, _root) = fresh();
    // empty sum is Int(0)
    match list_call(&interp, &int_list(&interp, &[]), "sum", vec![]) {
        Value::Int(n) => assert_eq!(n, Integer::from_i64(0)),
        v => panic!("got {:?}", v),
    }
    let floats = interp.list_value(vec![Value::Float(bits(1.5)), Value::Float(bits(2.0))]);
    match list_call(&interp, &floats, "sum", vec![]) {
        Value::Float(f) => assert_eq!(f64::from_bits(f), 3.5),
        v => panic!("got {:?}", v),
    }
    // mixing Int and Float is a runtime error (no coercion).
    let mixed = interp.list_value(vec![Value::Int(Integer::from_i64(1)), Value::Float(bits(2.0))]);
    let items = match &mixed {
        Value::List(i) => i.clone(),
        _ => unreachable!(),
    };
    assert!(interp.list_method(&items, "sum", vec![], sp()).is_err());
}

#[test]
fn interp_map_get_insert_contains_len() {
    let (interp, _root) = fresh();
    let m = map_value(&interp, vec![
        (Value::Str("a".to_string()), Value::Int(Integer::from_i64(1))),
        (Value::Str("b".to_string()), Value::Int(Integer::from_i64(2))),
    ]);
    match map_call(&interp, &m, "get", vec![Value::Str("a".to_string())]) {
        Value::Int(n) => assert_eq!(n, Integer::from_i64(1)),
        v => panic!("got {:?}", v),
    }
    // absent key -> Null
    assert!(matches!(
        map_call(&interp, &m, "get", vec![Value::Str("z".to_string())]),
        Value::Null
    ));
    // has / contains
    assert!(matches!(
        map_call(&interp, &m, "has", vec![Value::Str("b".to_string())]),
        Value::Bool(true)
    ));
    assert!(matches!(
        map_call(&interp, &m, "contains", vec![Value::Str("z".to_string())]),
        Value::Bool(false)
    ));
    // insert new key, then overwrite existing (in place; preserves order)
    map_call(&interp, &m, "insert", vec![Value::Str("c".to_string()), Value::Int(Integer::from_i64(3))]);
    map_call(&interp, &m, "insert", vec![Value::Str("a".to_string()), Value::Int(Integer::from_i64(9))]);
    match map_call(&interp, &m, "get", vec![Value::Str("a".to_string())]) {
        Value::Int(n) => assert_eq!(n, Integer::from_i64(9)),
        v => panic!("got {:?}", v),
    }
    match map_call(&interp, &m, "len", vec![]) {
        Value::Int(n) => assert_eq!(n, Integer::from_i64(3)),
        v => panic!("got {:?}", v),
    }
}

#[test]
fn interp_map_keys_values_items() {
    let (interp, _root) = fresh();
    let m = map_value(&interp, vec![
        (Value::Str("a".to_string()), Value::Int(Integer::from_i64(1))),
        (Value::Str("b".to_string()), Value::Int(Integer::from_i64(2))),
    ]);
    // keys() preserves insertion order
    match map_call(&interp, &m, "keys", vec![]) {
        Value::List(items) => {
            let ks: Vec<String> = interp.items(items)
                .iter()
                .map(|k| match k {
                    Value::Str(s) => s.clone(),
                    v => panic!("got {:?}", v),
                })
                .collect();
            assert_eq!(ks, vec!["a", "b"]);
        }
        v => panic!("got {:?}", v),
    }
    assert_eq!(list_ints(&interp, &map_call(&interp, &m, "values", vec![])), vec![1, 2]);
    // items() yields 2-tuples
    match map_call(&interp, &m, "items", vec![]) {
        Value::List(items) => {
            let items = interp.items(items);
            assert_eq!(items.len(), 2);
            match &items[0] {
                Value::Tuple(t) => {
                    assert_eq!(t.len(), 2);
                    assert!(matches!(&t[0], Value::Str(s) if s == "a"));
                    assert!(matches!(&t[1], Value::Int(n) if *n == Integer::from_i64(1)));
                }
                v => panic!("got {:?}", v),
            }
        }
        v => panic!("got {:?}", v),
    }
}

#[test]
fn interp_set_insert_dedup_contains_len() {
    let (interp, _root) = fresh();
    let s = set_of(&interp, &[1, 2]);
    set_call(&interp, &s, "insert", vec![Value::Int(Integer::from_i64(2))]); // dup, no-op
    set_call(&interp, &s, "insert", vec![Value::Int(Integer::from_i64(3))]);
    match set_call(&interp, &s, "len", vec![]) {
        Value::Int(n) => assert_eq!(n, Integer::from_i64(3)),
        v => panic!("got {:?}", v),
    }
    assert!(matches!(
        set_call(&interp, &s, "contains", vec![Value::Int(Integer::from_i64(3))]),
        Value::Bool(true)
    ));
    assert!(matches!(
        set_call(&interp, &s, "contains", vec![Value::Int(Integer::from_i64(9))]),
        Value::Bool(false)
    ));
}

#[test]
fn interp_set_union_and_intersect() {
    let (interp, _root) = fresh();
    let a = set_of(&interp, &[1, 2, 3]);
    let b = set_of(&interp, &[2, 3, 4]);
    let u = set_call(&interp, &a, "union", vec![b.clone()]);
    // union keeps insertion order of `a` then new elements of `b`
    match &u {
        Value::SetRef(items) => {
            let got: Vec<i64> = interp.members(items)
                .iter()
                .map(|v| match v {
                    Value::Int(n) => small(n),
                    x => panic!("got {:?}", x),
                })
                .collect();
            assert_eq!(got, vec![1, 2, 3, 4]);
        }
        v => panic!("got {:?}", v),
    }
    let i = set_call(&interp, &a, "intersect", vec![b]);
    match &i {
        Value::SetRef(items) => {
            let got: Vec<i64> = interp.members(items)
                .iter()
                .map(|v| match v {
                    Value::Int(n) => small(n),
                    x => panic!("got {:?}", x),
                })
                .collect();
            assert_eq!(got, vec![2, 3]);
        }
        v => panic!("got {:?}", v),
    }
}

#[test]
fn interp_string_len() {
    // counts Unicode scalar values, not bytes (`é` is one char, two bytes).
    match str_method(&"héllo".to_string(), "len", &vec![], sp()).unwrap() {
        Value::Int(n) => assert_eq!(n, Integer::from_i64(5)),
        v => panic!("expected Int(5), got {:?}", v),
    }
}

#[test]
fn interp_map_set_equality_is_order_insensitive() {
    let (interp, _root) = fresh();
    let m1 = map_value(&interp, vec![
        (Value::Str("a".to_string()), Value::Int(Integer::from_i64(1))),
        (Value::Str("b".to_string()), Value::Int(Integer::from_i64(2))),
    ]);
    let m2 = map_value(&interp, vec![
        (Value::Str("b".to_string()), Value::Int(Integer::from_i64(2))),
        (Value::Str("a".to_string()), Value::Int(Integer::from_i64(1))),
    ]);
    assert!(interp.same(&m1, &m2));
    // differing value breaks equality
    let m3 = map_value(&interp, vec![
        (Value::Str("a".to_string()), Value::Int(Integer::from_i64(1))),
        (Value::Str("b".to_string()), Value::Int(Integer::from_i64(9))),
    ]);
    assert!(!interp.same(&m1, &m3));

    let s1 = set_of(&interp, &[1, 2, 3]);
    let s2 = set_of(&interp, &[3, 2, 1]);
    assert!(interp.same(&s1, &s2));
    assert!(!interp.same(&s1, &set_of(&interp, &[1, 2])));
}

#[test]
fn interp_show_map_and_set() {
    let (interp, _root) = fresh();
    let m = map_value(&interp, vec![
        (Value::Str("a".to_string()), Value::Int(Integer::from_i64(1))),
        (Value::Str("b".to_string()), Value::Int(Integer::from_i64(2))),
    ]);
    assert_eq!(interp.show(&m), "{a: 1, b: 2}");
    // empty map is `{}`
    assert_eq!(interp.show(&map_value(&interp, vec![])), "{}");
    // set renders `{a, b}`; empty set renders `Set()`
    assert_eq!(interp.show(&set_of(&interp, &[1, 2])), "{1, 2}");
    assert_eq!(interp.show(&interp.set_value(vec![])), "Set()");
}

#[test]
fn interp_builtin_method_rejects_named_args() {
    let (interp, root) = fresh();
    // xs.contains(x: 1) — named arg on a built-in method is rejected.
    let call_expr = ex(ExprKind::Call {
        callee: Box::new(ex(ExprKind::Member {
            base: Box::new(ex(ExprKind::List(vec![whole(1), whole(2)]))),
            name: "contains".to_string(),
            safe: false,
        })),
        args: vec![Arg::Named { name: "x".to_string(), value: whole(1) }],
    });
    let r = interp.eval(&call_expr, &root);
    assert!(r.is_err());
    assert!(r.unwrap_err().message.contains("positional"));
}

#[test]
fn interp_unknown_builtin_method_errors() {
    let (interp, _root) = fresh();
    let xs = int_list(&interp, &[1, 2, 3]);
    let items = match &xs {
        Value::List(i) => i.clone(),
        _ => unreachable!(),
    };
    let r = interp.list_method(&items, "no_such_method", vec![], sp());
    assert!(r.is_err());
    assert!(r.unwrap_err().message.contains("no method"));
}

#[test]
fn interp_tuple_literal_and_eq() {
    // (1, 2) == (1, 2)
    match eval_src(&fresh().0, "val t = (1, 2)\nt == (1, 2)\n") {
        Value::Bool(b) => assert!(b),
        v => panic!("expected Bool, got {:?}", v),
    }
}

#[test]
fn interp_set_literal_dedups() {
    let (interp, _root) = fresh();
    // A set literal drops structural duplicates; collect its len via a list.
    match eval_src(&interp, "val s = {1, 2, 2, 3, 1}\ns\n") {
        Value::SetRef(items) => assert_eq!(interp.members(items).len(), 3),
        v => panic!("expected Set, got {:?}", v),
    }
}

#[test]
fn interp_map_literal_dedups_last_wins() {
    let (interp, _root) = fresh();
    // A repeated key keeps first-seen position but the latest value.
    match eval_src(&interp, "val m = {1: 10, 1: 20}\nm\n") {
        Value::MapRef(pairs) => {
            let p = interp.pairs(pairs);
            assert_eq!(p.len(), 1);
            assert_eq!(as_int(&p[0].1), 20);
        }
        v => panic!("expected Map, got {:?}", v),
    }
}

#[test]
fn interp_list_comprehension_runs() {
    let (interp, _root) = fresh();
    // [x * x for x in 1..=5 if x != 3] == [1, 4, 16, 25]
    let xs = list_vals(&interp, eval_src(&interp, "[x * x for x in 1..=5 if x != 3]\n"));
    let got: Vec<i64> = xs.iter().map(as_int).collect();
    assert_eq!(got, vec![1, 4, 16, 25]);
}

#[test]
fn interp_set_comprehension_dedups() {
    let (interp, _root) = fresh();
    match eval_src(&interp, "{x % 3 for x in 0..9}\n") {
        Value::SetRef(items) => assert_eq!(interp.members(items).len(), 3), // {0, 1, 2}
        v => panic!("expected Set, got {:?}", v),
    }
}

#[test]
fn interp_comprehension_over_tuple_list_destructures() {
    let (interp, _root) = fresh();
    // Iterate a list of tuples, destructuring each into (a, b); sum a + b.
    let xs = list_vals(&interp, eval_src(&interp, "[a + b for (a, b) in [(1, 2), (3, 4)]]\n"));
    let got: Vec<i64> = xs.iter().map(as_int).collect();
    assert_eq!(got, vec![3, 7]);
}

#[test]
fn interp_comprehension_filter_must_be_bool() {
    // A non-Bool filter is a runtime error (no truthiness).
    let toks = lex("[x for x in 0..3 if x]\n").unwrap();
    let program = parse(&toks).unwrap();
    let (interp, root) = fresh();
    interp.collect_decls(&program);
    let last = &program.stmts[program.stmts.len() - 1];
    if let StmtKind::Expr(e) = &last.kind {
        assert!(interp.eval(e, &root).is_err());
    } else {
        panic!("expected expr statement");
    }
}

#[test]
fn interp_val_tuple_destructure_binds_names() {
    // val (a, b) = (7, 9) ; a + b == 16
    assert_eq!(as_int(&eval_src(&fresh().0, "val (a, b) = (7, 9)\na + b\n")), 16);
}

#[test]
fn interp_for_tuple_destructure_sums() {
    // for (a, b) in [(1,2),(3,4)]: total = total + a + b  -> 10
    let src = "total = 0\nfor (a, b) in [(1, 2), (3, 4)]:\n    total = total + a + b\ntotal\n";
    assert_eq!(as_int(&eval_src(&fresh().0, src)), 10);
}

#[test]
fn interp_default_arg_used_when_omitted() {
    // fn add(a: Int, b: Int = 10) -> Int: a + b ; add(5) == 15
    let src = "fn add(a: Int, b: Int = 10) -> Int:\n    a + b\nadd(5)\n";
    assert_eq!(as_int(&eval_src(&fresh().0, src)), 15);
}

#[test]
fn interp_default_arg_overridden_positionally() {
    let src = "fn add(a: Int, b: Int = 10) -> Int:\n    a + b\nadd(5, 100)\n";
    assert_eq!(as_int(&eval_src(&fresh().0, src)), 105);
}

#[test]
fn interp_named_call_arg_binds_by_name() {
    // greeting passed by name; result is its concatenation.
    let src = "fn greet(name: String, greeting: String = \"Hi\") -> String:\n    greeting + name\ngreet(\"Ada\", greeting: \"Hello \")\n";
    match eval_src(&fresh().0, src) {
        Value::Str(s) => assert_eq!(s, "Hello Ada"),
        v => panic!("expected String, got {:?}", v),
    }
}

#[test]
fn interp_lambda_passed_to_function_typed_param() {
    // A lambda flows into a function-typed param and is called.
    let src = "fn apply(f: (Int) -> Int, x: Int) -> Int:\n    f(x)\napply(n -> n * n, 6)\n";
    assert_eq!(as_int(&eval_src(&fresh().0, src)), 36);
}

#[test]
fn interp_missing_required_arg_errors() {
    // fn f(a: Int): a ; f() -> arity error.
    let toks = lex("fn f(a: Int) -> Int:\n    a\nf()\n").unwrap();
    let program = parse(&toks).unwrap();
    let (interp, root) = fresh();
    interp.collect_decls(&program);
    let mut err = None;
    for stmt in &program.stmts {
        if let Err(d) = interp.exec_stmt(stmt, &root) {
            err = Some(d);
            break;
        }
    }
    assert!(err.is_some(), "expected an arity error");
}

#[test]
fn interp_tuple_destructure_arity_mismatch_errors() {
    // val (a, b) = (1, 2, 3) -> runtime error.
    let toks = lex("val (a, b) = (1, 2, 3)\n").unwrap();
    let program = parse(&toks).unwrap();
    let (interp, root) = fresh();
    interp.collect_decls(&program);
    let r = interp.exec_stmt(&program.stmts[0], &root);
    assert!(r.is_err());
}

#[test]
fn interp_match_guard_true_takes_arm() {
    // The guard holds, so the guarded arm fires (and sees the binding `x`).
    let src = "n = 7\nmatch n:\n    x if x > 5: x * 2\n    _: 0\n";
    assert_eq!(as_int(&eval_src(&fresh().0, src)), 14);
}

#[test]
fn interp_match_guard_false_falls_through() {
    // The guard fails, so control falls to the next (catch-all) arm.
    let src = "n = 3\nmatch n:\n    x if x > 5: x * 2\n    _: 99\n";
    assert_eq!(as_int(&eval_src(&fresh().0, src)), 99);
}

#[test]
fn interp_match_guard_non_bool_errors() {
    // A non-Bool guard is a runtime error (no truthiness).
    let toks = lex("match 1:\n    x if x: 1\n    _: 0\n").unwrap();
    let program = parse(&toks).unwrap();
    let (interp, root) = fresh();
    interp.collect_decls(&program);
    if let StmtKind::Expr(e) = &program.stmts[0].kind {
        assert!(interp.eval(e, &root).is_err());
    } else {
        panic!("expected expr statement");
    }
}

#[test]
fn interp_or_pattern_literal_alternatives() {
    // Any of 1/2/3 takes the arm; 4 falls through.
    let hit = "n = 2\nmatch n:\n    1 or 2 or 3: 1\n    _: 0\n";
    let miss = "n = 4\nmatch n:\n    1 or 2 or 3: 1\n    _: 0\n";
    assert_eq!(as_int(&eval_src(&fresh().0, hit)), 1);
    assert_eq!(as_int(&eval_src(&fresh().0, miss)), 0);
}

#[test]
fn interp_or_pattern_variant_alternatives() {
    // `.Red or .Green` matches either variant of the scrutinee's enum.
    let src = "enum Color:\n    Red\n    Green\n    Blue\nc = Color.Green\nmatch c:\n    .Red or .Green: 1\n    .Blue: 0\n";
    assert_eq!(as_int(&eval_src(&fresh().0, src)), 1);
}

#[test]
fn interp_or_pattern_binds_from_matching_alternative() {
    // The binding from the alternative that matched is visible in the body.
    let src = "n = 5\nmatch n:\n    0: 0\n    x or y: x\n";
    assert_eq!(as_int(&eval_src(&fresh().0, src)), 5);
}

#[test]
fn interp_tuple_pattern_destructures() {
    // A 2-tuple binds element-wise.
    let src = "p = (3, 4)\nmatch p:\n    (a, b): a + b\n";
    assert_eq!(as_int(&eval_src(&fresh().0, src)), 7);
}

#[test]
fn interp_tuple_pattern_wrong_arity_skips() {
    // A 3-arity tuple pattern does not match a 2-tuple; fall through.
    let src = "p = (1, 2)\nmatch p:\n    (a, b, c): 0\n    _: 99\n";
    assert_eq!(as_int(&eval_src(&fresh().0, src)), 99);
}

#[test]
fn interp_nested_variant_subpattern_binds_inner() {
    // A variant nested inside a variant binds the inner payload.
    let src = "enum Inner:\n    Pair(Int, Int)\nenum Outer:\n    Wrap(Inner)\n    None\nv = Outer.Wrap(Inner.Pair(2, 5))\nmatch v:\n    .Wrap(.Pair(a, b)): a + b\n    .None: 0\n";
    assert_eq!(as_int(&eval_src(&fresh().0, src)), 7);
}

#[test]
fn interp_nested_literal_subpattern_filters() {
    // A literal sub-pattern only matches a specific payload value.
    let src = "enum Tag:\n    N(Int)\nv = Tag.N(2)\nmatch v:\n    .N(1): 10\n    .N(2): 20\n    .N(x): x\n";
    assert_eq!(as_int(&eval_src(&fresh().0, src)), 20);
}

#[test]
fn interp_safe_member_on_null_yields_null() {
    // x?.field on a null receiver short-circuits to null.
    let src = "struct P:\n    name: String\nx: P? = null\nx?.name\n";
    assert!(matches!(eval_src(&fresh().0, src), Value::Null));
}

#[test]
fn interp_safe_member_on_present_reads_field() {
    // x?.field on a present struct reads the field like `.`.
    let src = "struct P:\n    name: String\nx: P? = P(name: \"Ada\")\nx?.name\n";
    match eval_src(&fresh().0, src) {
        Value::Str(s) => assert_eq!(s, "Ada"),
        v => panic!("expected String, got {:?}", v),
    }
}

#[test]
fn interp_safe_method_call_on_null_yields_null_without_evaluating_args() {
    // x?.m(panic(...)) on a null receiver must NOT evaluate the args — if it
    // did, the `panic` would surface as an error.
    let src =
        "struct P:\n    name: String\nx: P? = null\nx?.greet(panic(\"boom\"))\n";
    assert!(matches!(eval_src(&fresh().0, src), Value::Null));
}

#[test]
fn interp_safe_call_chain_short_circuits() {
    // a?.b?.c yields null when an inner link is null.
    let src = "struct Inner:\n    n: Int\nstruct Outer:\n    inner: Inner?\nval o = Outer(inner: null)\no?.inner?.n\n";
    assert!(matches!(eval_src(&fresh().0, src), Value::Null));
}

#[test]
fn interp_safe_call_chain_reaches_value_when_present() {
    let src = "struct Inner:\n    n: Int\nstruct Outer:\n    inner: Inner?\nval o = Outer(inner: Inner(n: 42))\no?.inner?.n\n";
    assert_eq!(as_int(&eval_src(&fresh().0, src)), 42);
}

#[test]
fn interp_expect_present_returns_value() {
    // x.expect(msg) on a present value returns the value unchanged.
    let src = "val x: Int? = 7\nx.expect(\"required\")\n";
    assert_eq!(as_int(&eval_src(&fresh().0, src)), 7);
}

#[test]
fn interp_expect_null_panics_with_message() {
    // x.expect(msg) on null is a runtime error carrying `msg`.
    let d = eval_src_err("val x: Int? = null\nx.expect(\"name was required\")\n");
    assert!(
        d.message.contains("name was required"),
        "expect panic should carry the message: {}",
        d.message
    );
}

#[test]
fn run_source_captures_print_output() {
    let report = run_source(
        r#"print("hi")"#,
        |tokens: &Vec<Token>| parse(tokens),
        FloatTable::new(),
        FUEL,
    );
    assert!(matches!(report.finish, Finish::Done), "program should run");
    assert_eq!(output_text(&report.lines), "hi\n");
}

// ---------------------------------------------------------------------------
// Whole programs
// ---------------------------------------------------------------------------

/// The message of the one runtime error that a source text ends with.
fn runtime_error(src: &str) -> String {
    let mut all = complaints(src);
    assert_eq!(all.len(), 1, "{:?}", all);
    let (phase, message) = all.remove(0);
    assert_eq!(phase, Phase::Runtime);
    message
}

#[test]
fn evaluator_prints_nine() {
    let src = "enum Expr:
    Num(Float)
    Add(Expr, Expr)
    Mul(Expr, Expr)
    Div(Expr, Expr)

fn eval(e: Expr) -> Float:
    return match e:
        .Num(n):    n
        .Add(a, b): eval(a) + eval(b)
        .Mul(a, b): eval(a) * eval(b)
        .Div(a, b):
            divisor = eval(b)
            if divisor == 0.0:
                panic(\"division by zero\")
            eval(a) / divisor

fn main():
    # (1 + 2) * 3
    program = Expr.Mul(Expr.Add(Expr.Num(1.0), Expr.Num(2.0)), Expr.Num(3.0))
    print(\"= {eval(program)}\")
";
    assert_eq!(printed(src), "= 9.0\n");
}

#[test]
fn tour_of_the_language() {
    let src = "enum Shape:
    Circle(radius: Float)
    Rect(w: Float, h: Float)
    Unit

fn area(s: Shape) -> Float:
    return match s:
        .Circle(r):  3.0 * r * r
        .Rect(w, h): w * h
        .Unit:       1.0

print(area(Shape.Circle(radius: 2.0)), area(Shape.Rect(2.0, 3.5)), area(Shape.Unit))

struct Rectangle:
    width: Float
    height: Float

impl Rectangle:
    fn area(self) -> Float:
        return self.width * self.height

    fn grow(self, factor: Float):
        self.width = self.width * factor
        self.height = self.height * factor

r = Rectangle(3.0, 4.0)
unit = Rectangle(width: 1.0, height: 1.0)
print(r.area(), unit)
r.grow(2.0)
print(r, r.area())

fn add_one(x: Int?) -> Int:
    if x is not null:
        return x + 1
    return 0

print(add_one(41), add_one(null))
";
    assert_eq!(
        printed(src),
        "12.0 7.0 1.0
12.0 Rectangle(width: 1.0, height: 1.0)
Rectangle(width: 6.0, height: 8.0) 48.0
42 0
"
    );
}

#[test]
fn integers_of_any_size() {
    assert_eq!(printed("print(2 + 3, 2 - 3, 2 * 3, 6 / 3, 7 % 3, 2 ** 10, -5)\n"), "5 -1 6 2 1 1024 -5\n");
    assert_eq!(printed("print(2 ** 100)\n"), "1267650600228229401496703205376\n");
    assert_eq!(printed("print(10 ** 20 * 10 ** 20 / 10 ** 39)\n"), "10\n");
    assert_eq!(printed("print(-7 % 3, 7 % -3, -6 / 3, 0 / 5, 0 ** 0)\n"), "-1 1 -2 0 1\n");
    assert_eq!(printed("print(12345678901234567890 - 12345678901234567891)\n"), "-1\n");
    assert_eq!(printed("print(1 < 2, 2 <= 2, 3 > 4, -1 >= 0, 3 == 3, 3 != 3)\n"), "true true false false true false\n");
    assert_eq!(printed("print(1_000 + 0007)\n"), "1007\n");
}

#[test]
fn integer_errors() {
    assert_eq!(runtime_error("1 / 0\n"), "division by zero");
    assert_eq!(runtime_error("7 / 2\n"), "Int division `7 / 2` is not exact (use Float division)");
    assert_eq!(runtime_error("-7 / 2\n"), "Int division `-7 / 2` is not exact (use Float division)");
    assert_eq!(runtime_error("1 % 0\n"), "remainder by zero");
    assert_eq!(runtime_error("2 ** -1\n"), "negative Int exponent (use Float)");
    assert_eq!(runtime_error("2 ** 4294967296\n"), "exponent too large");
}

#[test]
fn floats_follow_the_host() {
    assert_eq!(printed("print(9.0 / 2.0, 0.1 + 0.2, 2.0 ** 0.5, 7.5 % 2.0)\n"), "4.5 0.30000000000000004 1.4142135623730951 1.5\n");
    assert_eq!(printed("print(1.0 / 0.0, -1.0 / 0.0, 0.0 / 0.0)\n"), "inf -inf NaN\n");
    assert_eq!(printed("nan = 0.0 / 0.0\nprint(nan == nan, nan < 1.0, nan != nan, 0.0 == -0.0)\n"), "false false true true\n");
    assert_eq!(printed("print(1000000.0 * 1000000.0, -2.5)\n"), "1000000000000.0 -2.5\n");
}

#[test]
fn operator_errors() {
    assert_eq!(
        runtime_error("1 + 1.0\n"),
        "mixed Int/Float arithmetic is not allowed (convert explicitly)"
    );
    assert_eq!(runtime_error("1 + \"a\"\n"), "cannot apply `+` to Int and String");
    assert_eq!(runtime_error("\"a\" * \"b\"\n"), "cannot apply `*` to String and String");
    assert_eq!(runtime_error("1 < \"a\"\n"), "cannot compare Int and String");
    assert_eq!(runtime_error("1 < 2.0\n"), "cannot compare Int and Float");
    assert_eq!(runtime_error("2.5 >= 2\n"), "cannot compare Float and Int");
    assert_eq!(runtime_error("null < null\n"), "cannot compare null and null");
    assert_eq!(runtime_error("1 and true\n"), "`and` requires Bool operands, found Int");
    assert_eq!(runtime_error("false or 3\n"), "`or` requires Bool operands, found Int");
    assert_eq!(runtime_error("not 1\n"), "`not` requires Bool, found Int");
    assert_eq!(runtime_error("-\"a\"\n"), "unary `-` requires Int or Float, found String");
    assert_eq!(runtime_error("0..1.5\n"), "range bounds must be Int, found Int and Float");
}

#[test]
fn logic_stops_early() {
    assert_eq!(printed("print(false and panic(\"no\"), true or panic(\"no\"))\n"), "false true\n");
    assert_eq!(printed("print(true and false, false or true, not true)\n"), "false true false\n");
}

#[test]
fn is_means_equal() {
    assert_eq!(
        printed("print(1 is 1, 1 is not 1, [1] is [1], [1] == [2], \"a\" is not \"b\")\n"),
        "true false true false true\n"
    );
    assert_eq!(printed("f = x -> x\nprint(f == f, print == print, () -> 1 == 1)\n"), "false false <function>\n");
}

#[test]
fn conditions_must_be_bool() {
    assert_eq!(runtime_error("if 1:\n    2\n"), "condition must be Bool, found Int");
    assert_eq!(runtime_error("while \"a\":\n    2\n"), "condition must be Bool, found String");
    assert_eq!(runtime_error("1 if null else 2\n"), "condition must be Bool, found null");
    assert_eq!(runtime_error("[x for x in 0..3 if [x]]\n"), "condition must be Bool, found List");
}

#[test]
fn names_and_scopes() {
    let src = "x = 1
if true:
    x = 2
    y: Int = 5
print(x)
fn bump():
    x = x + 10
bump()
print(x)
get = () -> x
x = 7
print(get())
";
    assert_eq!(printed(src), "2\n12\n7\n");
    assert_eq!(runtime_error("print(nope)\n"), "undefined name `nope`");
    assert_eq!(runtime_error("self\n"), "`self` is not bound here");
    assert_eq!(runtime_error("val x = 1\nx = 2\n"), "cannot reassign `val` binding `x`");
    assert_eq!(runtime_error("val x = 1\nfn f():\n    x = 2\nf()\n"), "cannot reassign `val` binding `x`");
    assert_eq!(
        runtime_error("val (a, b) = (7, 9)\na = 1\n"),
        "cannot reassign `val` binding `a`"
    );
    assert_eq!(printed("for (a, b) in [(1, 2)]:\n    a = a + b\n    print(a)\n"), "3\n");
    assert_eq!(runtime_error("a.b = 1\n"), "cannot assign to undefined name `a`");
    assert_eq!(printed("val x = 1\nif true:\n    val x = 2\n    print(x)\nprint(x)\n"), "2\n1\n");
}

#[test]
fn the_prelude_can_be_shadowed() {
    assert_eq!(printed("show = print\nprint = 5\nshow(print)\n"), "5\n");
    assert_eq!(printed("print(print, Ok(1), Err(\"e\"), Set())\n"), "<builtin> Ok(1) Err(e) Set()\n");
    assert_eq!(runtime_error("Ok()\n"), "`Ok` takes exactly one argument");
    assert_eq!(runtime_error("Err(1, 2)\n"), "`Err` takes exactly one argument");
    assert_eq!(
        runtime_error("Set(1)\n"),
        "`Set()` takes no arguments; use `{a, b, …}` for a non-empty set"
    );
    assert_eq!(runtime_error("panic()\n"), "panic: panic");
    assert_eq!(runtime_error("panic([1, 2.0])\n"), "panic: [1, 2.0]");
}

#[test]
fn main_runs_after_the_top_level() {
    assert_eq!(printed("fn main():\n    print(\"main\")\nprint(\"top\")\n"), "top\nmain\n");
    assert_eq!(printed("fn main(x: Int):\n    print(x)\nprint(\"top\")\n"), "top\n");
    assert_eq!(printed("main = 5\nprint(main)\n"), "5\n");
    assert_eq!(printed("return 1\nprint(\"still\")\n"), "still\n");
}

#[test]
fn loops() {
    let src = "total = 0
for i in 0..10:
    if i == 2:
        continue
    if i == 5:
        break
    total = total + i
print(total)
n = 3
while n > 0:
    n = n - 1
    if n == 1:
        break
print(n)
fn first_even(xs: List[Int]) -> Int?:
    for x in xs:
        if x % 2 == 0:
            return x
    null
print(first_even([3, 5, 6, 7]), first_even([1]))
print(0..3, 0..=3, 3..0)
";
    assert_eq!(printed(src), "8\n1\n6 null\n[0, 1, 2] [0, 1, 2, 3] []\n");
    assert_eq!(runtime_error("for x in 5:\n    x\n"), "cannot iterate over Int");
    assert_eq!(
        runtime_error("fn f():\n    break\nf()\n"),
        "`break`/`continue` outside a loop"
    );
    assert_eq!(
        runtime_error("for x in 0..2:\n    y = match x:\n        _: break\n"),
        "`break`/`continue` not allowed in a match arm"
    );
    assert_eq!(runtime_error("for (a, b) in [1]:\n    a\n"), "cannot destructure Int as a tuple");
    assert_eq!(
        runtime_error("val (a, b) = (1, 2, 3)\n"),
        "cannot destructure a 3-tuple into 2 name(s)"
    );
}

#[test]
fn a_match_statement_can_leave_its_loop() {
    let src = "for x in 0..5:
    match x:
        3: break
        _: print(x)
fn sign(n: Int) -> String:
    match n:
        0: return \"zero\"
        x if x > 0: return \"plus\"
        _: return \"minus\"
    \"never\"
print(sign(0), sign(7), sign(-7))
";
    assert_eq!(printed(src), "0\n1\n2\nzero plus minus\n");
    assert_eq!(
        runtime_error("match 5:\n    1: 2\n"),
        "no match arm matched (non-exhaustive match)"
    );
}

#[test]
fn calls_bind_their_arguments() {
    let f = "fn f(a: Int, b: Int = a * 10, c: Int = 3) -> Int:\n    a * 10000 + b * 100 + c\n";
    let with = |call: &str| format!("{}print({})\n", f, call);
    assert_eq!(printed(&with("f(1)")), "11003\n");
    assert_eq!(printed(&with("f(1, 2)")), "10203\n");
    assert_eq!(printed(&with("f(1, c: 9)")), "11009\n");
    assert_eq!(printed(&with("f(c: 4, a: 2)")), "22004\n");
    assert_eq!(printed(&with("[1, 2].map(f)")), "[11003, 22003]\n");
    assert_eq!(runtime_error(&with("f()")), "`f`: missing argument `a`");
    assert_eq!(runtime_error(&with("f(1, 2, 3, 4)")), "`f` expects 1 to 3 argument(s), got 4");
    assert_eq!(runtime_error(&with("f(a: 1, 2)")), "`f`: positional argument after a named argument");
    assert_eq!(runtime_error(&with("f(a: 1, a: 2)")), "`f`: duplicate argument `a`");
    assert_eq!(
        runtime_error(&with("f(1, a: 2)")),
        "`f`: argument `a` given both positionally and by name"
    );
    assert_eq!(runtime_error(&with("f(1, z: 2)")), "`f` has no parameter named `z`");
    assert_eq!(runtime_error("fn g(a: Int, b: Int):\n    a\n[1].map(g)\n"), "`g` expects 2 argument(s), got 1");
    assert_eq!(runtime_error("g = x -> x\ng(1, 2)\n"), "lambda expects 1 argument(s), got 2");
    assert_eq!(runtime_error("g = x -> x\ng(x: 1)\n"), "named argument `x` is only valid in construction");
    assert_eq!(runtime_error("5(1)\n"), "Int is not callable");
}

#[test]
fn recursion_and_closures() {
    let src = "fn fact(n: Int) -> Int:
    1 if n == 0 else n * fact(n - 1)
print(fact(25))
fn counter() -> Int:
    count = 0
    bump = () -> add(1)
    fn add(k: Int) -> Int:
        count = count + k
        count
    bump()
    bump()
    count
print(counter())
";
    assert_eq!(printed(src), "15511210043330985984000000\n2\n");
}

#[test]
fn struct_construction() {
    let s = "struct P:\n    x: Int\n    y: Int\n";
    let with = |rest: &str| format!("{}{}\n", s, rest);
    assert_eq!(printed(&with("print(P(1, 2), P(y: 1, x: 2), P(1, 2) == P(y: 2, x: 1))")), "P(x: 1, y: 2) P(x: 2, y: 1) true\n");
    assert_eq!(runtime_error(&with("P(1)")), "struct `P` expects 2 field(s), got 1");
    assert_eq!(runtime_error(&with("P(1, y: 2)")), "`P` construction mixes positional and named arguments");
    assert_eq!(runtime_error(&with("P(x: 1)")), "struct `P` is missing field `y`");
    assert_eq!(runtime_error(&with("P(x: 1, z: 2)")), "struct `P` has no field `z`");
    assert_eq!(runtime_error(&with("P(1, 2).z")), "struct `P` has no field `z`");
    assert_eq!(runtime_error(&with("p = P(1, 2)\np.z = 3")), "struct `P` has no field `z`");
    assert_eq!(runtime_error(&with("p = P(1, 2)\np.z.x = 3")), "struct has no field `z`");
    assert_eq!(runtime_error(&with("p = P(1, 2)\np.x.y = 3")), "cannot set field `y` on Int");
    assert_eq!(runtime_error(&with("p = P(1, 2)\np.x.y.z = 3")), "cannot access field `y` on Int");
    assert_eq!(runtime_error("5.x\n"), "cannot access `.x` on Int");
    assert_eq!(runtime_error(&with("P(1, 2).area()")), "`P` has no method `area`");
    assert_eq!(runtime_error("5.area()\n"), "`Int` has no method `area`");
}

#[test]
fn references_are_shared() {
    let src = "struct Box:
    items: List[Int]
a = Box([1])
b = a
b.items.append(2)
b.items[0] = 9
print(a, a == b)
grid = [[1, 2], [3, 4]]
grid[1][0] = 7
print(grid)
";
    assert_eq!(printed(src), "Box(items: [9, 2]) true\n[[1, 2], [7, 4]]\n");
}

#[test]
fn variant_construction() {
    let e = "enum E:\n    A\n    B(Int, Int)\n    C(x: Int, y: Int)\n";
    let with = |rest: &str| format!("{}{}\n", e, rest);
    assert_eq!(
        printed(&with("print(E.A, E.B(1, 2), E.C(y: 1, x: 2), E.C(3, 4))")),
        "A B(1, 2) C(x: 2, y: 1) C(x: 3, y: 4)\n"
    );
    assert_eq!(runtime_error(&with("E.Z")), "enum `E` has no variant `Z`");
    assert_eq!(runtime_error(&with("E.A(1)")), "variant `A` takes no payload");
    assert_eq!(runtime_error(&with("E.B(1)")), "variant `B` expects 2 value(s), got 1");
    assert_eq!(runtime_error(&with("E.B(1, y: 2)")), "variant `B` has positional payload; `y:` is invalid");
    assert_eq!(
        printed(&with("print(E.C(1, y: 2), E.C(x: 1, 2), E.C(1, y: 2) == E.C(1, 2))")),
        "C(x: 1, y: 2) C(x: 1, y: 2) true\n"
    );
    // A name that is not at its own place would stand twice.
    assert_eq!(
        runtime_error(&with("E.C(y: 2, 1)")),
        "`C` construction mixes positional and named arguments"
    );
    assert_eq!(runtime_error(&with("E.C(1)")), "variant `C` expects 2 field(s), got 1");
    assert_eq!(runtime_error(&with("E.C(x: 1, z: 2)")), "variant `C` is missing field `y`");
}

#[test]
fn traits_give_defaults() {
    let src = "impl Greet for Dog:
    fn name(self) -> String:
        \"Rex\"

trait Greet:
    fn name(self) -> String
    fn greet(self) -> String:
        \"hi \" + self.name()
    fn loud(self) -> String:
        self.greet() + \"!\"

struct Dog:
    age: Int

struct Cat:
    age: Int

impl Greet for Cat:
    fn name(self) -> String:
        \"Tom\"
    fn greet(self) -> String:
        \"meow\"

print(Dog(1).loud(), Cat(2).loud())
";
    assert_eq!(printed(src), "hi Rex! meow!\n");
}

#[test]
fn results_and_try() {
    let src = "fn half(n: Int) -> Result[Int, String]:
    if n % 2 == 0:
        return Ok(n / 2)
    Err(\"odd: {n}\")
fn quarter(n: Int) -> Result[Int, String]:
    h = try half(n)
    Ok(try half(h))
print(quarter(8), quarter(6), quarter(3))
r = [2, 3].map(n -> try half(n))
print(r)
";
    assert_eq!(printed(src), "Ok(2) Err(odd: 3) Err(odd: 3)\n[1, Err(odd: 3)]\n");
    assert_eq!(
        runtime_error("try Err(1)\n"),
        "`try` used outside a function returning a `Result`"
    );
    assert_eq!(runtime_error("try 5\n"), "`try` can only be applied to a `Result` value");
    assert_eq!(
        runtime_error("enum E:\n    A\ntry E.A\n"),
        "`try` can only be applied to a `Result` value"
    );
}

#[test]
fn results_are_checked_for_exhaustiveness() {
    let src = "fn f(r: Result[Int, String]) -> Int:
    match r:
        .Ok(v): v
f(Ok(1))
";
    assert_eq!(
        complaints(src),
        vec![(
            Phase::Check,
            "non-exhaustive match over enum `Result`: missing variant(s) `Err` (add the arm(s) or a `_` catch-all)"
                .to_string()
        )]
    );
}

#[test]
fn null_sugar() {
    assert_eq!(printed("val x: Int? = null\nprint(x.or_else(5), 3.or_else(5), x?.len(panic(\"no\")))\n"), "5 3 null\n");
    assert_eq!(runtime_error("val x: Int? = null\nx.expect(\"need x\")\n"), "panic: need x");
    assert_eq!(runtime_error("null.or_else()\n"), "`.or_else` takes exactly one argument");
    assert_eq!(runtime_error("null.expect(1, 2)\n"), "`.expect` takes exactly one argument");
    assert_eq!(runtime_error("null.expect(42)\n"), "panic: 42");
}

#[test]
fn list_methods_and_errors() {
    assert_eq!(
        printed("xs = [3, 1, 2]\nprint(xs.sorted(), xs, xs.sort(), xs, xs.min(), xs.max(), xs.sum())\n"),
        "[1, 2, 3] [1, 2, 3] () [1, 2, 3] 1 3 6\n"
    );
    assert_eq!(printed("print([1, 2, 3].fold(10, (a, b) -> a - b), [1, 2, 3].reduce((a, b) -> a - b))\n"), "4 -4\n");
    assert_eq!(printed("print([1, 2].zip([3, 4, 5]), [7, 8].enumerate(), [1, 2, 3].take(2), [1, 2, 3].skip(2))\n"), "[(1, 3), (2, 4)] [(0, 7), (1, 8)] [1, 2] [3]\n");
    assert_eq!(printed("print([1, 2, 3].any(x -> x > 2), [1, 2].all(x -> x > 1), [1, 2].find(x -> x > 1), [].find(x -> true))\n"), "true false 2 null\n");
    assert_eq!(runtime_error("[].reduce((a, b) -> a)\n"), "`reduce` on an empty list has no result");
    assert_eq!(runtime_error("[].min()\n"), "`min` on an empty list has no result");
    assert_eq!(runtime_error("[].max()\n"), "`max` on an empty list has no result");
    assert_eq!(runtime_error("[1].filter(x -> x)\n"), "predicate must return Bool, found Int");
    assert_eq!(runtime_error("[1, 2.0].sum()\n"), "`sum` cannot add Float to an Int total");
    assert_eq!(runtime_error("[1.0, 2].sum()\n"), "`sum` cannot add Int to a Float total");
    assert_eq!(runtime_error("[\"a\"].sum()\n"), "`sum` requires numbers, found String");
    assert_eq!(runtime_error("[1].take(\"a\")\n"), "`take` expects an Int count, found String");
    assert_eq!(runtime_error("[1].zip(1)\n"), "`zip` expects a List argument, found Int");
    assert_eq!(runtime_error("[1].len(2)\n"), "`len` takes no arguments, got 1");
    assert_eq!(runtime_error("[1].map()\n"), "`map` takes exactly one argument, got 0");
    assert_eq!(runtime_error("[1].fold(1)\n"), "`fold` takes exactly two arguments, got 1");
    assert_eq!(runtime_error("[1].nope()\n"), "`List` has no method `nope`");
    assert_eq!(
        runtime_error("[1].take(n: 1)\n"),
        "built-in method `.take` takes positional arguments only; named argument `n` is not allowed"
    );
    assert_eq!(runtime_error("[1, 2][5]\n"), "list index out of bounds: 5 (len 2)");
    assert_eq!(runtime_error("[1, 2][-1]\n"), "list index out of bounds: -1");
    assert_eq!(runtime_error("[1, 2][2 ** 70]\n"), "list index out of bounds: 1180591620717411303424");
    assert_eq!(runtime_error("[1, 2][\"a\"]\n"), "list index must be Int, found String");
    assert_eq!(runtime_error("5[0]\n"), "cannot index Int");
    assert_eq!(runtime_error("x = 5\nx[0] = 1\n"), "cannot index-assign into Int");
}

#[test]
fn ordering_of_values() {
    let src = "derive Ord
enum Size:
    Small
    Large(Int)
derive Ord
struct Item:
    size: Size
    name: String
a = Item(Size.Large(2), \"b\")
b = Item(Size.Large(1), \"z\")
c = Item(Size.Small, \"q\")
print([a, b, c].sorted() == [c, b, a], a > b, c <= c)
print([\"b\", \"a\", \"ab\"].sorted(), [true, false].sorted(), [2.5, -1.0].sorted())
";
    assert_eq!(printed(src), "true true true\n[a, ab, b] [false, true] [-1.0, 2.5]\n");
    assert_eq!(
        runtime_error("struct P:\n    x: Int\nP(1) < P(2)\n"),
        "type `P` is not orderable; add `derive Ord` to compare or sort it"
    );
    assert_eq!(runtime_error("[1, \"a\"].sorted()\n"), "cannot order String against Int");
    assert_eq!(runtime_error("[[1], [2]].sorted()\n"), "cannot order List against List");
    assert_eq!(runtime_error("[0.0 / 0.0, 1.0].sorted()\n"), "cannot order NaN Float values");
}

#[test]
fn sorting_is_stable() {
    let (interp, _root) = fresh();
    let zero = Value::Float(bits(0.0));
    let minus = Value::Float(bits(-0.0));
    let xs = interp.list_value(vec![zero, minus, Value::Float(bits(-1.0))]);
    let sorted = list_call(&interp, &xs, "sorted", vec![]);
    assert_eq!(interp.show(&sorted), "[-1.0, 0.0, -0.0]");
}

#[test]
fn map_and_set_methods() {
    let src = "m = {\"a\": 1, \"b\": 2}
m.insert(\"a\", 9)
m.insert(\"c\", 3)
print(m, m.get(\"a\"), m.get(\"z\"), m.has(\"b\"), m.contains(\"z\"), m.len())
print(m.keys(), m.values(), m.items())
s = {3, 1, 3}
s.insert(1)
s.insert(2)
print(s, s.contains(2), s.len(), s.union({2, 5}), s.intersect({1, 9}))
print({1: 2, 3: 4} == {3: 4, 1: 2}, {1, 2} == {2, 1}, {1, 2} == {1, 3})
print({x: x * x for x in 0..3}, {x % 2 for x in 0..5}, {})
";
    assert_eq!(
        printed(src),
        "{a: 9, b: 2, c: 3} 9 null true false 3
[a, b, c] [9, 2, 3] [(a, 9), (b, 2), (c, 3)]
{3, 1, 2} true 3 {3, 1, 2, 5} {1}
true true false
{0: 0, 1: 1, 2: 4} {0, 1} {}
"
    );
    assert_eq!(runtime_error("{1: 2}.nope()\n"), "`Map` has no method `nope`");
    assert_eq!(runtime_error("{1}.nope()\n"), "`Set` has no method `nope`");
    assert_eq!(runtime_error("\"a\".nope()\n"), "`String` has no method `nope`");
    assert_eq!(runtime_error("{1}.union([1])\n"), "`union` expects a Set argument, found List");
}

#[test]
fn strings_interpolate() {
    assert_eq!(printed("x = 2\nprint(\"{x} + {x} = {x + x} {{x}} {\"in {x}\"}\")\n"), "2 + 2 = 4 {x} in 2\n");
    assert_eq!(printed("print(\"héllo\".len(), \"a\" + \"b\")\n"), "5 ab\n");
    assert_eq!(printed("print((1, \"a\"), null, true, x -> x)\n"), "(1, a) null true <function>\n");
}

#[test]
fn the_first_failing_stage_reports() {
    assert_eq!(complaints("print(\"a\n")[0].0, Phase::Lex);
    assert_eq!(complaints("print(1\n")[0].0, Phase::Parse);
    let two = "fn f(x: Int?) -> Int:\n    x + x\nprint(\"never\")\n";
    let all = complaints(two);
    assert_eq!(all.len(), 2);
    assert!(all.iter().all(|(p, _)| *p == Phase::Check));
    assert_eq!(
        all[0].1,
        "nullable value `x` used in operator operand where a non-null value is required; narrow with `if x is not null:` or default with `x.or_else(...)`"
    );
    assert!(run_text(two).lines.is_empty());
}

#[test]
fn output_before_an_error_stays() {
    let report = run_text("print(1)\nprint(2)\npanic(\"stop\")\nprint(3)\n");
    assert_eq!(output_text(&report.lines), "1\n2\n");
    assert_eq!(report.lines[1].span.line, 2);
    let d = write_error(&report.lines[1], "disk full");
    assert_eq!(d.message, "failed to write output: disk full");
    assert_eq!((d.phase, d.span.line), (Phase::Runtime, 2));
}

#[test]
fn a_run_asks_and_goes_on() {
    let src = "print(1)\nprint(0.5 + 0.25)\n";
    let first = run_source(src, |t: &Vec<Token>| parse(t), FloatTable::new(), FUEL);
    assert_eq!(output_text(&first.lines), "1\n");
    match first.finish {
        Finish::Ask(q) => assert_eq!(
            q,
            Question::Arith { op: FloatOp::Add, a: bits(0.5), b: bits(0.25) }
        ),
        other => panic!("expected a question, got {:?}", other),
    }
    assert_eq!(printed(src), "1\n0.75\n");
}

#[test]
fn a_larger_budget_changes_nothing() {
    let src = "n = 0\nwhile n < 50:\n    n = n + 1\nprint(n)\n";
    let small = run_source(src, |t: &Vec<Token>| parse(t), FloatTable::new(), 10);
    assert!(matches!(small.finish, Finish::Budget));
    for fuel in [100, 1_000] {
        let large = run_source(src, |t: &Vec<Token>| parse(t), FloatTable::new(), fuel);
        assert!(matches!(large.finish, Finish::Done));
        assert_eq!(output_text(&large.lines), "50\n");
    }
}

#[test]
fn documentation_lists_declarations() {
    let src = "## Adds.
## Twice.
fn add(a: Int) -> Int:
    a

x = 1

struct P:
    ## the first
    x: Int
    y: Int

## Colours.
enum C:
    Red
    ## warm
    Blue(Int)

trait T:
    ## needed
    fn a(self) -> Int
    fn b(self) -> Int:
        1

impl T for P:
    ## given
    fn a(self) -> Int:
        2

impl P:
    fn c(self) -> Int:
        3
";
    let program = parse(&lex(src).unwrap()).unwrap();
    assert_eq!(
        documentation(&program),
        "## Adds.
## Twice.
fn add
struct P
    ## the first
    x
    y
## Colours.
enum C
    Red
    ## warm
    Blue
trait T
    ## needed
    fn a
    fn b
impl T for P
    ## given
    fn a
impl P
    fn c
"
    );
}

#[test]
fn lists_come_apart_and_back_together() {
    let src = "xs = [1, 2, 3, 4]
print(xs.take(2), xs.skip(2), xs.take(9), xs.skip(9), xs.take(-1))
print(xs.reverse(), xs.reverse().reverse() == xs)
m = {\"a\": 1, \"b\": 2}
print(m.keys().zip(m.values()) == m.items())
print(1 < 2, 2 > 1, \"a\" < \"b\", false < true, true <= false)
xs.append(9)
print(xs.pop_last(), xs)
";
    assert_eq!(
        printed(src),
        "[1, 2] [3, 4] [1, 2, 3, 4] [] []
[4, 3, 2, 1] true
true
true true true true false
9 [1, 2, 3, 4]
"
    );
}

#[test]
fn a_match_that_passes_the_check_finds_an_arm() {
    let src = "enum Color:
    Red
    Green(Int)
    Blue(Int, Int)
fn name(c: Color) -> String:
    match c:
        .Red or .Green(_): \"warm\"
        Color.Blue(a, b): \"cold\"
print([Color.Red, Color.Green(1), Color.Blue(1, 2)].map(name))
";
    assert_eq!(printed(src), "[warm, warm, cold]\n");
}

#[test]
fn union_and_intersect_list_in_order() {
    let src = "fn main():
    print({3, 1, 2}.union({2, 5, 1, 4}))
    print({3, 1, 2}.intersect({2, 5, 3}))
";
    assert_eq!(printed(src), "{3, 1, 2, 5, 4}\n{3, 2}\n");
}

#[test]
fn inserting_leaves_other_keys() {
    let src = "fn main():
    m = {\"a\": 1, \"b\": 2}
    m.insert(\"b\", 3)
    m.insert(\"c\", 4)
    print(m.get(\"a\"), m.get(\"b\"), m.get(\"c\"), m.get(\"d\"))
";
    assert_eq!(printed(src), "1 3 4 null\n");
}

#[test]
fn equality_holds_both_ways_round() {
    let src = "struct P:
    x: Int
    y: List[Int]

fn main():
    a = ({1, 2}, {\"k\": [1]}, P(1, [2]))
    b = ({2, 1}, {\"k\": [1]}, P(y: [2], x: 1))
    c = ({2, 3}, {\"k\": [1]}, P(1, [2]))
    print(a == b, b == a, a == c, c == a)
";
    assert_eq!(printed(src), "true true false false\n");
}

#[test]
fn changed_items_can_make_a_set_untidy() {
    let src = "fn main():
    x = [1]
    y = [2]
    s = {x, y}
    y[0] = 1
    t = {[1], [3]}
    print(s == t, t == s)
";
    assert_eq!(printed(src), "true false\n");
}

#[test]
fn structs_by_position_and_by_name_agree() {
    let src = "struct P:
    x: Int
    y: Int

fn main():
    print(P(1, 2) == P(x: 1, y: 2), P(1, 2) == P(y: 2, x: 1), P(y: 2, x: 1).x)
";
    assert_eq!(printed(src), "true true 1\n");
    let missing = "struct P:
    x: Int
    y: Int

fn main():
    P(y: 1)
";
    assert_eq!(runtime_error(missing), "struct `P` is missing field `x`");
}

#[test]
fn one_impl_gives_its_methods_and_the_defaults() {
    let src = "trait Named:
    fn name(self) -> Str
    fn hello(self) -> Str:
        return \"hello {self.name()}\"
    fn bye(self) -> Str:
        return \"bye\"

struct P:
    x: Int

impl Named for P:
    fn name(self) -> Str:
        return \"p\"
    fn bye(self) -> Str:
        return \"so long\"

fn main():
    print(P(1).name(), P(1).hello(), P(1).bye())
";
    assert_eq!(printed(src), "p hello p so long\n");
}

#[test]
fn lines_of_a_stopped_run_come_first() {
    let src = "fn main():
    for i in 1..20:
        print(\"{i}\", 0.5 + 0.25)
";
    let whole = printed(src);
    for fuel in [0, 1, 5, 10, 20, 40, FUEL] {
        let report =
            run_source(src, |tokens: &Vec<Token>| parse(tokens), FloatTable::new(), fuel);
        assert!(matches!(report.finish, Finish::Budget | Finish::Ask(_)));
        assert!(whole.starts_with(&output_text(&report.lines)), "{}", fuel);
    }
    let plain = "fn main():
    for i in 1..20:
        print(i)
";
    let all = printed(plain);
    for fuel in [0, 5, 10, 20, FUEL] {
        let report =
            run_source(plain, |tokens: &Vec<Token>| parse(tokens), FloatTable::new(), fuel);
        assert!(all.starts_with(&output_text(&report.lines)), "{}", fuel);
    }
}

#[test]
fn keys_that_hold_values_read_back() {
    let src = "enum E:
    A(Int)
    B

struct P:
    x: Int

fn main():
    m = {(1, \"a\"): 1, E.A(2): 2}
    m.insert([1, 2], 3)
    m.insert(P(4), 4)
    m.insert(E.A(2), 5)
    m.insert({1: 2}, 6)
    print(m.get((1, \"a\")), m.get(E.A(2)), m.get([1, 2]), m.get(P(4)), m.get({1: 2}))
    print(m.get(E.B), m.get([2, 1]), m.len())
";
    assert_eq!(printed(src), "1 5 3 4 6\nnull null 5\n");
}

#[test]
fn declarations_in_any_order() {
    let parts = [
        "trait Named:\n    fn name(self) -> Str:\n        return \"none\"\n",
        "trait Loud:\n    fn shout(self) -> Str:\n        return \"HEY\"\n",
        "struct P:\n    x: Int\n",
        "struct Q:\n    y: Int\n",
        "impl Named for P:\n    fn name(self) -> Str:\n        return \"p\"\n",
        "impl Loud for P:\n    fn low(self) -> Str:\n        return \"hey\"\n",
        "impl Named for Q:\n    fn other(self) -> Int:\n        return self.y\n",
    ];
    let last = "fn main():\n    print(P(1).name(), P(1).shout(), P(1).low(), Q(2).name(), Q(2).other())\n";
    for turn in 0..parts.len() {
        let mut order = parts.to_vec();
        order.rotate_left(turn);
        let forward = order.concat() + last;
        order.reverse();
        let backward = order.concat() + last;
        assert_eq!(printed(&forward), "p HEY hey none 2\n");
        assert_eq!(printed(&backward), "p HEY hey none 2\n");
    }
}

#[test]
fn an_answer_is_to_one_question() {
    let mut table = FloatTable::new();
    table.answer_arith(FloatOp::Add, bits(1.0), bits(2.0), bits(3.0));
    table.answer_text(bits(1.5), "1.5".to_string());
    table.answer_arith(FloatOp::Add, bits(1.0), bits(2.0), bits(4.0));
    assert_eq!(table.find_arith(FloatOp::Add, bits(1.0), bits(2.0)), Some(bits(3.0)));
    assert_eq!(table.find_arith(FloatOp::Add, bits(2.0), bits(1.0)), None);
    assert_eq!(table.find_arith(FloatOp::Sub, bits(1.0), bits(2.0)), None);
    assert_eq!(table.find_text(bits(1.5)), Some("1.5".to_string()));
    assert_eq!(table.find_text(bits(1.0)), None);
}

// ---------------------------------------------------------------------------
// The parse stage
// ---------------------------------------------------------------------------

type Parsed<T> = Result<T, Diagnostic>;

/// Parse a whole program.
fn parse(tokens: &Vec<Token>) -> Result<Program, Vec<Diagnostic>> {
    let mut p = Parser { tokens, at: 0 };
    let mut stmts = Vec::new();
    while !p.is(&TokenKind::Eof) {
        match p.stmt() {
            Ok(s) => stmts.push(s),
            Err(d) => return Err(vec![d]),
        }
    }
    Ok(Program { stmts })
}

struct Parser<'a> {
    tokens: &'a [Token],
    at: usize,
}

fn cover(a: Span, b: Span) -> Span {
    Span { start: a.start, end: b.end.max(a.end), line: a.line, col: a.col }
}

impl<'a> Parser<'a> {
    fn peek(&self) -> &'a Token {
        &self.tokens[self.at.min(self.tokens.len() - 1)]
    }

    fn kind_at(&self, ahead: usize) -> &'a TokenKind {
        &self.tokens[(self.at + ahead).min(self.tokens.len() - 1)].kind
    }

    fn is(&self, kind: &TokenKind) -> bool {
        &self.peek().kind == kind
    }

    fn bump(&mut self) -> &'a Token {
        let t = self.peek();
        if self.at < self.tokens.len() {
            self.at += 1;
        }
        t
    }

    fn take(&mut self, kind: &TokenKind) -> bool {
        if self.is(kind) {
            self.bump();
            true
        } else {
            false
        }
    }

    fn fail<T>(&self, what: &str) -> Parsed<T> {
        let message = format!("expected {}, found {:?}", what, self.peek().kind);
        Err(Diagnostic::parse(message, self.peek().span))
    }

    fn need(&mut self, kind: TokenKind, what: &str) -> Parsed<Span> {
        if self.is(&kind) {
            Ok(self.bump().span)
        } else {
            self.fail(what)
        }
    }

    fn name(&mut self, what: &str) -> Parsed<(String, Span)> {
        let t = self.peek();
        match &t.kind {
            TokenKind::Name(n) => {
                self.bump();
                Ok((n.clone(), t.span))
            }
            _ => self.fail(what),
        }
    }

    fn span_from(&self, start: Span) -> Span {
        match self.at.checked_sub(1) {
            Some(i) => cover(start, self.tokens[i].span),
            None => start,
        }
    }

    /// The end of a statement: a line break, unless a block has just ended.
    fn end_stmt(&mut self) -> Parsed<()> {
        let closed = self.at > 0 && self.tokens[self.at - 1].kind == TokenKind::Dedent;
        if closed || self.take(&TokenKind::Newline) || self.is(&TokenKind::Eof) {
            Ok(())
        } else {
            self.fail("end of line")
        }
    }

    // -- statements ---------------------------------------------------------

    fn stmt(&mut self) -> Parsed<Stmt> {
        let start = self.peek().span;
        let doc = self.peek().doc.clone();
        let kind = match &self.peek().kind {
            TokenKind::If => self.if_stmt()?,
            TokenKind::While => {
                self.bump();
                let cond = self.expr()?;
                let body = self.suite()?;
                StmtKind::While(WhileStmt { cond, body })
            }
            TokenKind::For => {
                self.bump();
                let binder = self.binder()?;
                self.need(TokenKind::In, "`in`")?;
                let iter = self.expr()?;
                let body = self.suite()?;
                StmtKind::For(ForStmt { var: first_name(&binder), binder, iter, body })
            }
            TokenKind::Fn => {
                let (decl, _) = self.function(doc, true)?;
                StmtKind::Fn(Rc::new(decl))
            }
            TokenKind::Struct => self.structure(Vec::new(), doc)?,
            TokenKind::Enum => self.enumeration(Vec::new(), doc)?,
            TokenKind::Impl => self.implementation()?,
            TokenKind::Trait => self.trait_decl(doc)?,
            TokenKind::Name(n) if n == "derive" && matches!(self.kind_at(1), TokenKind::Name(_)) => {
                self.bump();
                let mut derives = vec![self.name("a trait name")?.0];
                while self.take(&TokenKind::Comma) {
                    derives.push(self.name("a trait name")?.0);
                }
                self.need(TokenKind::Newline, "end of line")?;
                if self.is(&TokenKind::Struct) {
                    self.structure(derives, doc)?
                } else if self.is(&TokenKind::Enum) {
                    self.enumeration(derives, doc)?
                } else {
                    return self.fail("`struct` or `enum` after `derive`");
                }
            }
            _ => {
                let kind = self.simple()?;
                self.end_stmt()?;
                kind
            }
        };
        Ok(Stmt { kind, span: self.span_from(start) })
    }

    /// A statement without a block of its own.
    fn simple(&mut self) -> Parsed<StmtKind> {
        match &self.peek().kind {
            TokenKind::Val => {
                self.bump();
                let binder = self.binder()?;
                let ty = self.annotation()?;
                self.need(TokenKind::Eq, "`=`")?;
                let value = self.expr()?;
                Ok(binding(binder, true, ty, value))
            }
            TokenKind::Return => {
                self.bump();
                if self.is(&TokenKind::Newline) || self.is(&TokenKind::Eof) {
                    Ok(StmtKind::Return(None))
                } else {
                    Ok(StmtKind::Return(Some(self.expr()?)))
                }
            }
            TokenKind::Break => {
                self.bump();
                Ok(StmtKind::Break)
            }
            TokenKind::Continue => {
                self.bump();
                Ok(StmtKind::Continue)
            }
            TokenKind::Name(n) if self.kind_at(1) == &TokenKind::Colon => {
                self.bump();
                let ty = self.annotation()?;
                self.need(TokenKind::Eq, "`=`")?;
                let value = self.expr()?;
                Ok(binding(Binder::Name(n.clone()), false, ty, value))
            }
            _ => {
                let e = self.expr()?;
                if !self.take(&TokenKind::Eq) {
                    return Ok(StmtKind::Expr(e));
                }
                let value = self.expr()?;
                let target = target_of(e)?;
                if target.path.is_empty() {
                    Ok(binding(Binder::Name(target.base), false, None, value))
                } else {
                    Ok(StmtKind::Assign(Assign { target, value }))
                }
            }
        }
    }

    fn if_stmt(&mut self) -> Parsed<StmtKind> {
        self.bump();
        let mut arms = Vec::new();
        let cond = self.expr()?;
        arms.push((cond, self.suite()?));
        while self.take(&TokenKind::Elif) {
            let cond = self.expr()?;
            arms.push((cond, self.suite()?));
        }
        let else_body = if self.take(&TokenKind::Else) { Some(self.suite()?) } else { None };
        Ok(StmtKind::If(IfStmt { arms, else_body }))
    }

    /// `:` and an indented block, or one statement on the same line.
    fn suite(&mut self) -> Parsed<Block> {
        let start = self.need(TokenKind::Colon, "`:`")?;
        let mut stmts = Vec::new();
        if self.take(&TokenKind::Newline) {
            self.need(TokenKind::Indent, "an indented block")?;
            while !self.take(&TokenKind::Dedent) {
                stmts.push(self.stmt()?);
            }
        } else {
            let first = self.peek().span;
            let kind = self.simple()?;
            self.end_stmt()?;
            stmts.push(Stmt { kind, span: self.span_from(first) });
        }
        Ok(Block { stmts, span: self.span_from(start) })
    }

    fn binder(&mut self) -> Parsed<Binder> {
        if !self.take(&TokenKind::LParen) {
            return Ok(Binder::Name(self.name("a name")?.0));
        }
        let mut names = vec![self.name("a name")?.0];
        while self.take(&TokenKind::Comma) {
            names.push(self.name("a name")?.0);
        }
        self.need(TokenKind::RParen, "`)`")?;
        Ok(Binder::Tuple(names))
    }

    fn annotation(&mut self) -> Parsed<Option<Type>> {
        if self.take(&TokenKind::Colon) {
            Ok(Some(self.ty()?))
        } else {
            Ok(None)
        }
    }

    // -- declarations -------------------------------------------------------

    /// A function, or the signature alone where no body follows.
    fn function(&mut self, doc: Option<String>, body_needed: bool) -> Parsed<(FnDecl, bool)> {
        let start = self.need(TokenKind::Fn, "`fn`")?;
        let name = self.name("a function name")?.0;
        let type_params = self.type_params()?;
        self.need(TokenKind::LParen, "`(`")?;
        let mut params = Vec::new();
        while !self.is(&TokenKind::RParen) {
            if self.take(&TokenKind::SelfKw) {
                params.push(Param::SelfRecv);
            } else {
                let name = self.name("a parameter")?.0;
                self.need(TokenKind::Colon, "`:` and a type")?;
                let ty = self.ty()?;
                let default = if self.take(&TokenKind::Eq) { Some(self.expr()?) } else { None };
                params.push(Param::Named { name, ty, default });
            }
            if !self.take(&TokenKind::Comma) {
                break;
            }
        }
        self.need(TokenKind::RParen, "`)`")?;
        let returns = if self.take(&TokenKind::Arrow) { Some(self.ty()?) } else { None };
        let has_body = body_needed || self.is(&TokenKind::Colon);
        let body = if has_body {
            self.suite()?
        } else {
            self.end_stmt()?;
            Block { stmts: Vec::new(), span: start }
        };
        let span = self.span_from(start);
        Ok((FnDecl { name, type_params, params, returns, body, doc, span }, has_body))
    }

    fn type_params(&mut self) -> Parsed<Vec<TypeParam>> {
        let mut out = Vec::new();
        if !self.take(&TokenKind::LBracket) {
            return Ok(out);
        }
        while !self.is(&TokenKind::RBracket) {
            let (name, span) = self.name("a type parameter")?;
            let mut bounds = Vec::new();
            if self.take(&TokenKind::Colon) {
                bounds.push(self.name("a trait name")?.0);
                while self.take(&TokenKind::And) {
                    bounds.push(self.name("a trait name")?.0);
                }
            }
            out.push(TypeParam { name, bounds, span });
            if !self.take(&TokenKind::Comma) {
                break;
            }
        }
        self.need(TokenKind::RBracket, "`]`")?;
        Ok(out)
    }

    fn open_block(&mut self) -> Parsed<()> {
        self.need(TokenKind::Colon, "`:`")?;
        self.need(TokenKind::Newline, "end of line")?;
        self.need(TokenKind::Indent, "an indented block")?;
        Ok(())
    }

    fn structure(&mut self, derives: Vec<String>, doc: Option<String>) -> Parsed<StmtKind> {
        let start = self.bump().span;
        let name = self.name("a struct name")?.0;
        let type_params = self.type_params()?;
        self.open_block()?;
        let mut fields = Vec::new();
        while !self.take(&TokenKind::Dedent) {
            let doc = self.peek().doc.clone();
            let (name, span) = self.name("a field")?;
            self.need(TokenKind::Colon, "`:` and a type")?;
            let ty = self.ty()?;
            self.end_stmt()?;
            fields.push(FieldDecl { name, ty, doc, span });
        }
        let span = self.span_from(start);
        Ok(StmtKind::Struct(Rc::new(StructDecl { name, type_params, derives, fields, doc, span })))
    }

    fn enumeration(&mut self, derives: Vec<String>, doc: Option<String>) -> Parsed<StmtKind> {
        let start = self.bump().span;
        let name = self.name("an enum name")?.0;
        let type_params = self.type_params()?;
        self.open_block()?;
        let mut variants = Vec::new();
        while !self.take(&TokenKind::Dedent) {
            let doc = self.peek().doc.clone();
            let (name, span) = self.name("a variant")?;
            let payload = self.payload()?;
            self.end_stmt()?;
            variants.push(VariantDecl { name, payload, doc, span });
        }
        let span = self.span_from(start);
        Ok(StmtKind::Enum(Rc::new(EnumDecl { name, type_params, derives, variants, doc, span })))
    }

    fn payload(&mut self) -> Parsed<Option<Payload>> {
        if !self.take(&TokenKind::LParen) {
            return Ok(None);
        }
        let named = matches!(self.kind_at(0), TokenKind::Name(_))
            && self.kind_at(1) == &TokenKind::Colon;
        let mut types = Vec::new();
        let mut fields = Vec::new();
        while !self.is(&TokenKind::RParen) {
            if named {
                let name = self.name("a field")?.0;
                self.need(TokenKind::Colon, "`:` and a type")?;
                fields.push((name, self.ty()?));
            } else {
                types.push(self.ty()?);
            }
            if !self.take(&TokenKind::Comma) {
                break;
            }
        }
        self.need(TokenKind::RParen, "`)`")?;
        Ok(Some(if named { Payload::Named(fields) } else { Payload::Positional(types) }))
    }

    fn type_path(&mut self) -> Parsed<String> {
        let name = self.name("a type name")?.0;
        if self.take(&TokenKind::LBracket) {
            while !self.is(&TokenKind::RBracket) {
                self.ty()?;
                if !self.take(&TokenKind::Comma) {
                    break;
                }
            }
            self.need(TokenKind::RBracket, "`]`")?;
        }
        Ok(name)
    }

    fn implementation(&mut self) -> Parsed<StmtKind> {
        let start = self.bump().span;
        let type_params = self.type_params()?;
        let first = self.type_path()?;
        let (trait_name, for_type) = if self.take(&TokenKind::For) {
            (Some(first), self.type_path()?)
        } else {
            (None, first)
        };
        self.open_block()?;
        let mut methods = Vec::new();
        while !self.take(&TokenKind::Dedent) {
            let doc = self.peek().doc.clone();
            methods.push(Rc::new(self.function(doc, true)?.0));
        }
        let span = self.span_from(start);
        Ok(StmtKind::Impl(ImplDecl { for_type, trait_name, type_params, methods, span }))
    }

    fn trait_decl(&mut self, doc: Option<String>) -> Parsed<StmtKind> {
        let start = self.bump().span;
        let name = self.name("a trait name")?.0;
        let type_params = self.type_params()?;
        self.open_block()?;
        let mut required = Vec::new();
        let mut defaults = Vec::new();
        while !self.take(&TokenKind::Dedent) {
            let doc = self.peek().doc.clone();
            let (f, has_body) = self.function(doc, false)?;
            if has_body {
                defaults.push(Rc::new(f));
            } else {
                required.push(TraitSig {
                    name: f.name,
                    params: f.params,
                    returns: f.returns,
                    doc: f.doc,
                    span: f.span,
                });
            }
        }
        let span = self.span_from(start);
        Ok(StmtKind::Trait(Rc::new(TraitDecl {
            name,
            type_params,
            required,
            defaults,
            doc,
            span,
        })))
    }

    fn ty(&mut self) -> Parsed<Type> {
        let start = self.peek().span;
        let base = if self.take(&TokenKind::LParen) {
            let mut parts = Vec::new();
            while !self.is(&TokenKind::RParen) {
                parts.push(self.ty()?);
                if !self.take(&TokenKind::Comma) {
                    break;
                }
            }
            self.need(TokenKind::RParen, "`)`")?;
            if self.take(&TokenKind::Arrow) {
                BaseType::Fn { params: parts, ret: Box::new(self.ty()?) }
            } else if parts.is_empty() {
                BaseType::Unit
            } else {
                BaseType::Tuple(parts)
            }
        } else {
            let name = self.name("a type")?.0;
            let mut args = Vec::new();
            if self.take(&TokenKind::LBracket) {
                while !self.is(&TokenKind::RBracket) {
                    args.push(self.ty()?);
                    if !self.take(&TokenKind::Comma) {
                        break;
                    }
                }
                self.need(TokenKind::RBracket, "`]`")?;
            }
            BaseType::Named { name, args }
        };
        let nullable = self.take(&TokenKind::Question);
        Ok(Type { base, nullable, span: self.span_from(start) })
    }

    // -- expressions --------------------------------------------------------

    fn expr(&mut self) -> Parsed<Expr> {
        let start = self.peek().span;
        if let Some(params) = self.lambda_params() {
            let body = self.expr()?;
            let kind = ExprKind::Lambda(Rc::new(Lambda { params, body: Box::new(body) }));
            return Ok(Expr { kind, span: self.span_from(start) });
        }
        let e = self.or_expr()?;
        if !self.take(&TokenKind::If) {
            return Ok(e);
        }
        let cond = self.or_expr()?;
        self.need(TokenKind::Else, "`else`")?;
        let otherwise = self.expr()?;
        let kind = ExprKind::Ternary {
            then: Box::new(e),
            cond: Box::new(cond),
            otherwise: Box::new(otherwise),
        };
        Ok(Expr { kind, span: self.span_from(start) })
    }

    /// `x ->` or `(a, b) ->`, where that is what comes.
    fn lambda_params(&mut self) -> Option<Vec<String>> {
        if let TokenKind::Name(n) = self.kind_at(0) {
            if self.kind_at(1) == &TokenKind::Arrow {
                self.at += 2;
                return Some(vec![n.clone()]);
            }
        }
        if self.kind_at(0) != &TokenKind::LParen {
            return None;
        }
        let mut names = Vec::new();
        let mut ahead = 1;
        while let TokenKind::Name(n) = self.kind_at(ahead) {
            names.push(n.clone());
            ahead += 1;
            if self.kind_at(ahead) != &TokenKind::Comma {
                break;
            }
            ahead += 1;
        }
        if self.kind_at(ahead) == &TokenKind::RParen
            && self.kind_at(ahead + 1) == &TokenKind::Arrow
        {
            self.at += ahead + 2;
            return Some(names);
        }
        None
    }

    fn binary(&self, op: BinOp, lhs: Expr, rhs: Expr) -> Expr {
        let span = cover(lhs.span, rhs.span);
        Expr { kind: ExprKind::Binary { op, lhs: Box::new(lhs), rhs: Box::new(rhs) }, span }
    }

    fn or_expr(&mut self) -> Parsed<Expr> {
        let mut e = self.and_expr()?;
        while self.take(&TokenKind::Or) {
            let rhs = self.and_expr()?;
            e = self.binary(BinOp::Or, e, rhs);
        }
        Ok(e)
    }

    fn and_expr(&mut self) -> Parsed<Expr> {
        let mut e = self.not_expr()?;
        while self.take(&TokenKind::And) {
            let rhs = self.not_expr()?;
            e = self.binary(BinOp::And, e, rhs);
        }
        Ok(e)
    }

    fn not_expr(&mut self) -> Parsed<Expr> {
        let start = self.peek().span;
        if self.take(&TokenKind::Not) {
            let operand = self.not_expr()?;
            let kind = ExprKind::Unary { op: UnOp::Not, operand: Box::new(operand) };
            return Ok(Expr { kind, span: self.span_from(start) });
        }
        let mut e = self.range()?;
        loop {
            let op = match &self.peek().kind {
                TokenKind::EqEq => BinOp::Eq,
                TokenKind::NotEq => BinOp::NotEq,
                TokenKind::Lt => BinOp::Lt,
                TokenKind::LtEq => BinOp::LtEq,
                TokenKind::Gt => BinOp::Gt,
                TokenKind::GtEq => BinOp::GtEq,
                TokenKind::Is => BinOp::Is,
                _ => return Ok(e),
            };
            self.bump();
            let op = if op == BinOp::Is && self.take(&TokenKind::Not) { BinOp::IsNot } else { op };
            let rhs = self.range()?;
            e = self.binary(op, e, rhs);
        }
    }

    fn range(&mut self) -> Parsed<Expr> {
        let e = self.sum()?;
        let op = match &self.peek().kind {
            TokenKind::DotDot => BinOp::Range,
            TokenKind::DotDotEq => BinOp::RangeIncl,
            _ => return Ok(e),
        };
        self.bump();
        let rhs = self.sum()?;
        Ok(self.binary(op, e, rhs))
    }

    fn sum(&mut self) -> Parsed<Expr> {
        let mut e = self.product()?;
        loop {
            let op = match &self.peek().kind {
                TokenKind::Plus => BinOp::Add,
                TokenKind::Minus => BinOp::Sub,
                _ => return Ok(e),
            };
            self.bump();
            let rhs = self.product()?;
            e = self.binary(op, e, rhs);
        }
    }

    fn product(&mut self) -> Parsed<Expr> {
        let mut e = self.unary()?;
        loop {
            let op = match &self.peek().kind {
                TokenKind::Star => BinOp::Mul,
                TokenKind::Slash => BinOp::Div,
                TokenKind::Percent => BinOp::Rem,
                _ => return Ok(e),
            };
            self.bump();
            let rhs = self.unary()?;
            e = self.binary(op, e, rhs);
        }
    }

    fn unary(&mut self) -> Parsed<Expr> {
        let start = self.peek().span;
        if self.take(&TokenKind::Minus) {
            let operand = self.unary()?;
            let kind = ExprKind::Unary { op: UnOp::Neg, operand: Box::new(operand) };
            return Ok(Expr { kind, span: self.span_from(start) });
        }
        let base = self.tried()?;
        if self.take(&TokenKind::StarStar) {
            let exponent = self.unary()?;
            return Ok(self.binary(BinOp::Pow, base, exponent));
        }
        Ok(base)
    }

    fn tried(&mut self) -> Parsed<Expr> {
        let start = self.peek().span;
        if self.take(&TokenKind::Try) {
            let inner = self.tried()?;
            let kind = ExprKind::Try(Box::new(inner));
            return Ok(Expr { kind, span: self.span_from(start) });
        }
        self.postfix()
    }

    fn postfix(&mut self) -> Parsed<Expr> {
        let start = self.peek().span;
        let mut e = self.primary()?;
        loop {
            let kind = match &self.peek().kind {
                TokenKind::LParen => {
                    self.bump();
                    let args = self.args()?;
                    ExprKind::Call { callee: Box::new(e), args }
                }
                TokenKind::LBracket => {
                    self.bump();
                    let index = self.expr()?;
                    self.need(TokenKind::RBracket, "`]`")?;
                    ExprKind::Index { base: Box::new(e), index: Box::new(index) }
                }
                TokenKind::Dot | TokenKind::QuestionDot => {
                    let safe = self.bump().kind == TokenKind::QuestionDot;
                    let name = self.name("a member name")?.0;
                    ExprKind::Member { base: Box::new(e), name, safe }
                }
                _ => return Ok(e),
            };
            e = Expr { kind, span: self.span_from(start) };
        }
    }

    fn args(&mut self) -> Parsed<Vec<Arg>> {
        let mut args = Vec::new();
        while !self.is(&TokenKind::RParen) {
            let named = matches!(self.kind_at(0), TokenKind::Name(_))
                && self.kind_at(1) == &TokenKind::Colon;
            if named {
                let name = self.name("an argument")?.0;
                self.bump();
                args.push(Arg::Named { name, value: self.expr()? });
            } else {
                args.push(Arg::Positional(self.expr()?));
            }
            if !self.take(&TokenKind::Comma) {
                break;
            }
        }
        self.need(TokenKind::RParen, "`)`")?;
        Ok(args)
    }

    fn primary(&mut self) -> Parsed<Expr> {
        let t = self.peek();
        let kind = match &t.kind {
            TokenKind::Int(n) => ExprKind::Int(n.clone()),
            TokenKind::Float(text) => ExprKind::Float(float_bits(text)),
            TokenKind::True => ExprKind::Bool(true),
            TokenKind::False => ExprKind::Bool(false),
            TokenKind::Null => ExprKind::Null,
            TokenKind::SelfKw => ExprKind::SelfExpr,
            TokenKind::Name(n) => ExprKind::Name(n.clone()),
            TokenKind::Str(parts) => ExprKind::Str(string_lit(parts)?),
            TokenKind::LParen => return self.grouped(),
            TokenKind::LBracket => return self.listed(),
            TokenKind::LBrace => return self.braced(),
            TokenKind::Match => return self.match_expr(),
            _ => return self.fail("an expression"),
        };
        self.bump();
        Ok(Expr { kind, span: t.span })
    }

    /// `(e)` or a tuple.
    fn grouped(&mut self) -> Parsed<Expr> {
        let start = self.bump().span;
        let first = self.expr()?;
        if self.take(&TokenKind::RParen) {
            return Ok(first);
        }
        let mut items = vec![first];
        while self.take(&TokenKind::Comma) {
            if self.is(&TokenKind::RParen) {
                break;
            }
            items.push(self.expr()?);
        }
        self.need(TokenKind::RParen, "`)`")?;
        Ok(Expr { kind: ExprKind::Tuple(items), span: self.span_from(start) })
    }

    /// What follows the output of a comprehension.
    fn comprehension(&mut self, output: ComprehensionOutput) -> Parsed<ExprKind> {
        self.need(TokenKind::For, "`for`")?;
        let binder = match self.binder()? {
            Binder::Name(n) => ComprehensionBinder::Name(n),
            Binder::Tuple(names) => ComprehensionBinder::Tuple(names),
        };
        self.need(TokenKind::In, "`in`")?;
        let iter = Box::new(self.or_expr()?);
        let cond =
            if self.take(&TokenKind::If) { Some(Box::new(self.or_expr()?)) } else { None };
        Ok(ExprKind::Comprehension(Comprehension { output, binder, iter, cond }))
    }

    fn listed(&mut self) -> Parsed<Expr> {
        let start = self.bump().span;
        let mut items = Vec::new();
        while !self.is(&TokenKind::RBracket) {
            let e = self.expr()?;
            if items.is_empty() && self.is(&TokenKind::For) {
                let kind = self.comprehension(ComprehensionOutput::List(Box::new(e)))?;
                self.need(TokenKind::RBracket, "`]`")?;
                return Ok(Expr { kind, span: self.span_from(start) });
            }
            items.push(e);
            if !self.take(&TokenKind::Comma) {
                break;
            }
        }
        self.need(TokenKind::RBracket, "`]`")?;
        Ok(Expr { kind: ExprKind::List(items), span: self.span_from(start) })
    }

    /// A map, a set, or a comprehension of either.
    fn braced(&mut self) -> Parsed<Expr> {
        let start = self.bump().span;
        if self.take(&TokenKind::RBrace) {
            return Ok(Expr { kind: ExprKind::MapLit(Vec::new()), span: self.span_from(start) });
        }
        let first = self.expr()?;
        let kind = if self.take(&TokenKind::Colon) {
            let value = self.expr()?;
            if self.is(&TokenKind::For) {
                let (key, value) = (Box::new(first), Box::new(value));
                self.comprehension(ComprehensionOutput::MapOut { key, value })?
            } else {
                let mut pairs = vec![(first, value)];
                while self.take(&TokenKind::Comma) && !self.is(&TokenKind::RBrace) {
                    let key = self.expr()?;
                    self.need(TokenKind::Colon, "`:`")?;
                    pairs.push((key, self.expr()?));
                }
                ExprKind::MapLit(pairs)
            }
        } else if self.is(&TokenKind::For) {
            self.comprehension(ComprehensionOutput::SetOut(Box::new(first)))?
        } else {
            let mut items = vec![first];
            while self.take(&TokenKind::Comma) && !self.is(&TokenKind::RBrace) {
                items.push(self.expr()?);
            }
            ExprKind::SetLit(items)
        };
        self.need(TokenKind::RBrace, "`}`")?;
        Ok(Expr { kind, span: self.span_from(start) })
    }

    fn match_expr(&mut self) -> Parsed<Expr> {
        let start = self.bump().span;
        let scrutinee = Box::new(self.expr()?);
        self.open_block()?;
        let mut arms = Vec::new();
        while !self.take(&TokenKind::Dedent) {
            let first = self.peek().span;
            let pattern = self.pattern()?;
            let guard = if self.take(&TokenKind::If) { Some(self.expr()?) } else { None };
            let body = self.suite()?;
            arms.push(MatchArm { pattern, guard, body, span: self.span_from(first) });
        }
        let span = self.span_from(start);
        Ok(Expr { kind: ExprKind::Match(MatchExpr { scrutinee, arms }), span })
    }

    // -- patterns -----------------------------------------------------------

    fn pattern(&mut self) -> Parsed<Pattern> {
        let start = self.peek().span;
        let first = self.one_pattern()?;
        if !self.is(&TokenKind::Or) {
            return Ok(first);
        }
        let mut alts = vec![first];
        while self.take(&TokenKind::Or) {
            alts.push(self.one_pattern()?);
        }
        Ok(Pattern { kind: PatternKind::Or(alts), span: self.span_from(start) })
    }

    fn patterns(&mut self) -> Parsed<Vec<Pattern>> {
        let mut out = Vec::new();
        while !self.is(&TokenKind::RParen) {
            out.push(self.pattern()?);
            if !self.take(&TokenKind::Comma) {
                break;
            }
        }
        self.need(TokenKind::RParen, "`)`")?;
        Ok(out)
    }

    fn variant(&mut self, enum_name: Option<String>) -> Parsed<PatternKind> {
        let name = self.name("a variant name")?.0;
        let subs =
            if self.take(&TokenKind::LParen) { self.patterns()? } else { Vec::new() };
        Ok(PatternKind::Variant { enum_name, name, subs })
    }

    fn one_pattern(&mut self) -> Parsed<Pattern> {
        let t = self.bump();
        let kind = match &t.kind {
            TokenKind::Name(n) if n == "_" => PatternKind::Wildcard,
            TokenKind::Name(n) => {
                if self.take(&TokenKind::Dot) {
                    self.variant(Some(n.clone()))?
                } else {
                    PatternKind::Binding(n.clone())
                }
            }
            TokenKind::Dot => self.variant(None)?,
            TokenKind::Null => PatternKind::Null,
            TokenKind::True => PatternKind::Literal(LitPattern::Bool(true)),
            TokenKind::False => PatternKind::Literal(LitPattern::Bool(false)),
            TokenKind::Int(n) => PatternKind::Literal(LitPattern::Int(n.clone())),
            TokenKind::Float(text) => PatternKind::Literal(LitPattern::Float(float_bits(text))),
            TokenKind::Str(parts) => match parts.as_slice() {
                [] => PatternKind::Literal(LitPattern::Str(String::new())),
                [StrPart::Text(text)] => PatternKind::Literal(LitPattern::Str(text.clone())),
                _ => {
                    let message = "a pattern cannot interpolate".to_string();
                    return Err(Diagnostic::parse(message, t.span));
                }
            },
            TokenKind::LParen => {
                let mut items = self.patterns()?;
                if items.len() == 1 {
                    return Ok(items.remove(0));
                }
                PatternKind::Tuple(items)
            }
            _ => {
                let message = format!("expected a pattern, found {:?}", t.kind);
                return Err(Diagnostic::parse(message, t.span));
            }
        };
        Ok(Pattern { kind, span: self.span_from(t.span) })
    }
}

fn first_name(binder: &Binder) -> String {
    match binder {
        Binder::Name(n) => n.clone(),
        Binder::Tuple(names) => names[0].clone(),
    }
}

fn binding(binder: Binder, is_val: bool, ty: Option<Type>, value: Expr) -> StmtKind {
    StmtKind::Binding(Binding { name: first_name(&binder), binder, is_val, ty, value })
}

/// The place that an expression on the left of `=` names.
fn target_of(e: Expr) -> Parsed<Target> {
    let span = e.span;
    match e.kind {
        ExprKind::Name(base) => Ok(Target { base, path: Vec::new(), span }),
        ExprKind::SelfExpr => Ok(Target { base: "self".to_string(), path: Vec::new(), span }),
        ExprKind::Member { base, name, safe: false } => {
            let mut target = target_of(*base)?;
            target.path.push(TargetSeg::Field(name));
            Ok(Target { span, ..target })
        }
        ExprKind::Index { base, index } => {
            let mut target = target_of(*base)?;
            target.path.push(TargetSeg::Index(*index));
            Ok(Target { span, ..target })
        }
        _ => Err(Diagnostic::parse("cannot assign to this expression".to_string(), span)),
    }
}

fn string_lit(parts: &[StrPart]) -> Parsed<StringLit> {
    let mut out = Vec::new();
    for part in parts {
        match part {
            StrPart::Text(text) => out.push(StrSeg::Text(text.clone())),
            StrPart::Interp(tokens) => {
                let mut p = Parser { tokens, at: 0 };
                let e = p.expr()?;
                if !p.is(&TokenKind::Eof) {
                    return p.fail("`}`");
                }
                out.push(StrSeg::Expr(Box::new(e)));
            }
        }
    }
    Ok(StringLit { parts: out })
}

/// The bits of the float that a literal's digits stand for.
fn float_bits(text: &str) -> u64 {
    text.parse::<f64>().unwrap_or(f64::NAN).to_bits()
}
