//! The static checks, on programs built by hand.

use adder::ast::{
    Arg, BaseType, BinOp, Block, Comprehension, ComprehensionBinder, ComprehensionOutput, EnumDecl,
    Expr, ExprKind, FnDecl, IfStmt, Lambda, LitPattern, MatchArm, MatchExpr, Param, Pattern, PatternKind, Payload, Program, Stmt, StmtKind, Type, VariantDecl,
};
use adder::checks::check;
use adder::integer::Integer;
use adder::token::Span;
use std::rc::Rc;

// ---- tiny AST constructors --

fn sp() -> Span {
    Span::dummy()
}

fn ty_named(name: &str, nullable: bool) -> Type {
    Type {
        base: BaseType::Named { name: name.to_string(), args: vec![] },
        nullable,
        span: sp(),
    }
}

fn expr(kind: ExprKind) -> Expr {
    Expr { kind, span: sp() }
}

fn name(n: &str) -> Expr {
    expr(ExprKind::Name(n.to_string()))
}

fn call(callee: Expr, args: Vec<Expr>) -> Expr {
    expr(ExprKind::Call {
        callee: Box::new(callee),
        args: args.into_iter().map(Arg::Positional).collect(),
    })
}

fn member(base: Expr, n: &str) -> Expr {
    expr(ExprKind::Member { base: Box::new(base), name: n.to_string(), safe: false })
}

fn stmt(kind: StmtKind) -> Stmt {
    Stmt { kind, span: sp() }
}

fn block(stmts: Vec<Stmt>) -> Block {
    Block { stmts, span: sp() }
}

fn enum_decl(name: &str, variants: &[(&str, usize)]) -> Stmt {
    let variants = variants
        .iter()
        .map(|(n, arity)| VariantDecl {
            name: n.to_string(),
            payload: if *arity == 0 {
                None
            } else {
                Some(Payload::Positional((0..*arity).map(|_| ty_named("Int", false)).collect()))
            },
            doc: None,
            span: sp(),
        })
        .collect();
    stmt(StmtKind::Enum(Rc::new(EnumDecl {
        name: name.to_string(),
        type_params: vec![],
        derives: vec![],
        variants,
        doc: None,
        span: sp(),
    })))
}

fn variant_arm(name: &str, binds: &[&str], body: Expr) -> MatchArm {
    MatchArm {
        pattern: Pattern {
            kind: PatternKind::Variant {
                enum_name: None,
                name: name.to_string(),
                subs: binds
                    .iter()
                    .map(|b| Pattern {
                        kind: PatternKind::Binding(b.to_string()),
                        span: sp(),
                    })
                    .collect(),
            },
            span: sp(),
        },
        guard: None,
        body: block(vec![stmt(StmtKind::Expr(body))]),
        span: sp(),
    }
}

fn wildcard_arm(body: Expr) -> MatchArm {
    MatchArm {
        pattern: Pattern { kind: PatternKind::Wildcard, span: sp() },
        guard: None,
        body: block(vec![stmt(StmtKind::Expr(body))]),
        span: sp(),
    }
}

fn match_expr(scrutinee: Expr, arms: Vec<MatchArm>) -> Expr {
    expr(ExprKind::Match(MatchExpr { scrutinee: Box::new(scrutinee), arms }))
}

/// `fn <name>(<param>: <ty>) returns <ret?>: <body>`
fn fn_one_param(
    fname: &str,
    pname: &str,
    pty: Type,
    returns: Option<Type>,
    body: Vec<Stmt>,
) -> Stmt {
    stmt(StmtKind::Fn(Rc::new(FnDecl {
        name: fname.to_string(),
        type_params: vec![],
        params: vec![Param::Named { name: pname.to_string(), ty: pty, default: None }],
        returns,
        body: block(body),
        doc: None,
        span: sp(),
    })))
}

fn program(stmts: Vec<Stmt>) -> Program {
    Program { stmts }
}

fn check_errs(p: &Program) -> Vec<String> {
    match check(p) {
        Ok(()) => vec![],
        Err(ds) => ds.into_iter().map(|d| d.message).collect(),
    }
}

// ----------------------- Exhaustiveness tests --------------------------

/// An enum Expr { Num, Add, Mul, Div } and fn eval.
/// Full match → Ok.
#[test]
fn exhaustive_full_match_ok() {
    let expr_enum =
        enum_decl("Expr", &[("Num", 1), ("Add", 2), ("Mul", 2), ("Div", 2)]);
    let m = match_expr(
        name("e"),
        vec![
            variant_arm("Num", &["n"], name("n")),
            variant_arm("Add", &["a", "b"], name("a")),
            variant_arm("Mul", &["a", "b"], name("a")),
            variant_arm("Div", &["a", "b"], name("a")),
        ],
    );
    let eval = fn_one_param(
        "eval",
        "e",
        ty_named("Expr", false),
        Some(ty_named("Float", false)),
        vec![stmt(StmtKind::Return(Some(m)))],
    );
    let p = program(vec![expr_enum, eval]);
    assert_eq!(check_errs(&p), Vec::<String>::new());
}

/// Removing the `Div` arm is a compile-time exhaustiveness error naming Div.
#[test]
fn exhaustive_missing_div_errors() {
    let expr_enum =
        enum_decl("Expr", &[("Num", 1), ("Add", 2), ("Mul", 2), ("Div", 2)]);
    let m = match_expr(
        name("e"),
        vec![
            variant_arm("Num", &["n"], name("n")),
            variant_arm("Add", &["a", "b"], name("a")),
            variant_arm("Mul", &["a", "b"], name("a")),
            // Div arm removed.
        ],
    );
    let eval = fn_one_param(
        "eval",
        "e",
        ty_named("Expr", false),
        Some(ty_named("Float", false)),
        vec![stmt(StmtKind::Return(Some(m)))],
    );
    let p = program(vec![expr_enum, eval]);
    let errs = check_errs(&p);
    assert_eq!(errs.len(), 1, "expected exactly one error, got {:?}", errs);
    assert!(errs[0].contains("Div"), "error should name Div: {}", errs[0]);
    assert!(errs[0].contains("Expr"), "error should name the enum: {}", errs[0]);
}

/// A `_` catch-all covers the missing variant → Ok.
#[test]
fn exhaustive_wildcard_covers_missing_ok() {
    let expr_enum =
        enum_decl("Expr", &[("Num", 1), ("Add", 2), ("Mul", 2), ("Div", 2)]);
    let m = match_expr(
        name("e"),
        vec![
            variant_arm("Num", &["n"], name("n")),
            wildcard_arm(name("n")),
        ],
    );
    let eval = fn_one_param(
        "eval",
        "e",
        ty_named("Expr", false),
        Some(ty_named("Float", false)),
        vec![stmt(StmtKind::Return(Some(m)))],
    );
    let p = program(vec![expr_enum, eval]);
    assert_eq!(check_errs(&p), Vec::<String>::new());
}

/// A bare `NAME` binding pattern is also a catch-all → Ok.
#[test]
fn exhaustive_binding_pattern_covers_ok() {
    let expr_enum = enum_decl("Color", &[("Red", 0), ("Green", 0), ("Blue", 0)]);
    let other_arm = MatchArm {
        pattern: Pattern { kind: PatternKind::Binding("other".to_string()), span: sp() },
        guard: None,
        body: block(vec![stmt(StmtKind::Expr(name("other")))]),
        span: sp(),
    };
    let m = match_expr(
        name("c"),
        vec![variant_arm("Red", &[], name("c")), other_arm],
    );
    let f = fn_one_param(
        "f",
        "c",
        ty_named("Color", false),
        None,
        vec![stmt(StmtKind::Expr(m))],
    );
    let p = program(vec![expr_enum, f]);
    assert_eq!(check_errs(&p), Vec::<String>::new());
}

/// A match over a non-enum / unresolvable scrutinee must NOT error.
#[test]
fn exhaustive_unresolvable_scrutinee_no_error() {
    // `x` is annotated Int (not an enum). A match over it must not be
    // flagged even though arms are literal patterns only.
    let m = match_expr(
        name("x"),
        vec![MatchArm {
            pattern: Pattern {
                kind: PatternKind::Literal(LitPattern::Int(Integer::from_i64(0))),
                span: sp(),
            },
            guard: None,
            body: block(vec![stmt(StmtKind::Expr(name("x")))]),
            span: sp(),
        }],
    );
    let f = fn_one_param(
        "f",
        "x",
        ty_named("Int", false),
        None,
        vec![stmt(StmtKind::Expr(m))],
    );
    let p = program(vec![f]);
    assert_eq!(check_errs(&p), Vec::<String>::new());
}

/// A match whose scrutinee is a construction call resolves to that enum.
#[test]
fn exhaustive_construction_scrutinee_resolves() {
    let color = enum_decl("Color", &[("Red", 0), ("Green", 0), ("Blue", 0)]);
    // match Red(): Red(): ... — missing Green and Blue → error.
    let m = match_expr(
        call(name("Red"), vec![]),
        vec![variant_arm("Red", &[], name("x"))],
    );
    let main = stmt(StmtKind::Fn(Rc::new(FnDecl {
        name: "main".to_string(),
        type_params: vec![],
        params: vec![],
        returns: None,
        body: block(vec![stmt(StmtKind::Expr(m))]),
        doc: None,
        span: sp(),
    })));
    let p = program(vec![color, main]);
    let errs = check_errs(&p);
    assert_eq!(errs.len(), 1, "expected one error, got {:?}", errs);
    assert!(errs[0].contains("Green") && errs[0].contains("Blue"), "{}", errs[0]);
}

/// Variant pattern arity mismatch is flagged.
#[test]
fn exhaustive_arity_mismatch_flagged() {
    let expr_enum = enum_decl("Pair", &[("Both", 2)]);
    // Both(x) — arity 1 vs declared 2.
    let m = match_expr(
        name("e"),
        vec![variant_arm("Both", &["x"], name("x"))],
    );
    let f = fn_one_param(
        "f",
        "e",
        ty_named("Pair", false),
        None,
        vec![stmt(StmtKind::Expr(m))],
    );
    let p = program(vec![expr_enum, f]);
    let errs = check_errs(&p);
    assert!(errs.iter().any(|e| e.contains("field")), "expected arity error: {:?}", errs);
}

// ----------------------- Null-narrowing tests --------------------------

/// `fn f(x: T?)` doing `x.field` directly → error.
#[test]
fn null_direct_member_errors() {
    let body = vec![stmt(StmtKind::Expr(member(name("x"), "field")))];
    let f = fn_one_param("f", "x", ty_named("Thing", true), None, body);
    let p = program(vec![f]);
    let errs = check_errs(&p);
    assert_eq!(errs.len(), 1, "expected one null error, got {:?}", errs);
    assert!(errs[0].contains("`x`"), "{}", errs[0]);
}

/// The same wrapped in `if x is not null:` then `x.field` → Ok.
#[test]
fn null_narrowed_member_ok() {
    let guard = expr(ExprKind::Binary {
        op: BinOp::IsNot,
        lhs: Box::new(name("x")),
        rhs: Box::new(expr(ExprKind::Null)),
    });
    let then_body = block(vec![stmt(StmtKind::Expr(member(name("x"), "field")))]);
    let if_stmt = stmt(StmtKind::If(IfStmt {
        arms: vec![(guard, then_body)],
        else_body: None,
    }));
    let f = fn_one_param("f", "x", ty_named("Thing", true), None, vec![if_stmt]);
    let p = program(vec![f]);
    assert_eq!(check_errs(&p), Vec::<String>::new());
}

/// `x.or_else(d)` usage of a nullable x → Ok (it's a valid use).
#[test]
fn null_or_else_ok() {
    // x.or_else(0).field — the or_else result is non-null, so .field is fine.
    let or_else = call(member(name("x"), "or_else"), vec![expr(ExprKind::Int(Integer::from_i64(0)))]);
    let use_expr = member(or_else, "field");
    let body = vec![stmt(StmtKind::Expr(use_expr))];
    let f = fn_one_param("f", "x", ty_named("Thing", true), None, body);
    let p = program(vec![f]);
    assert_eq!(check_errs(&p), Vec::<String>::new());
}

/// `x.or_else(d)` on its own (no further use) is also fine.
#[test]
fn null_or_else_bare_ok() {
    let or_else =
        call(member(name("x"), "or_else"), vec![expr(ExprKind::Int(Integer::from_i64(0)))]);
    let body = vec![stmt(StmtKind::Expr(or_else))];
    let f = fn_one_param("f", "x", ty_named("Thing", true), None, body);
    let p = program(vec![f]);
    assert_eq!(check_errs(&p), Vec::<String>::new());
}

/// A non-nullable param used as a member is fine.
#[test]
fn null_nonnullable_member_ok() {
    let body = vec![stmt(StmtKind::Expr(member(name("x"), "field")))];
    let f = fn_one_param("f", "x", ty_named("Thing", false), None, body);
    let p = program(vec![f]);
    assert_eq!(check_errs(&p), Vec::<String>::new());
}

/// Nullable used in arithmetic → error.
#[test]
fn null_arithmetic_errors() {
    let add = expr(ExprKind::Binary {
        op: BinOp::Add,
        lhs: Box::new(name("x")),
        rhs: Box::new(expr(ExprKind::Int(Integer::from_i64(1)))),
    });
    let body = vec![stmt(StmtKind::Expr(add))];
    let f = fn_one_param("f", "x", ty_named("Int", true), None, body);
    let p = program(vec![f]);
    let errs = check_errs(&p);
    assert_eq!(errs.len(), 1, "expected one error, got {:?}", errs);
}

/// Comparing a nullable to null with `is not` is allowed (no error).
#[test]
fn null_compare_to_null_ok() {
    let cmp = expr(ExprKind::Binary {
        op: BinOp::IsNot,
        lhs: Box::new(name("x")),
        rhs: Box::new(expr(ExprKind::Null)),
    });
    let body = vec![stmt(StmtKind::Expr(cmp))];
    let f = fn_one_param("f", "x", ty_named("Int", true), None, body);
    let p = program(vec![f]);
    assert_eq!(check_errs(&p), Vec::<String>::new());
}

// ----------------------- More of both checks ----------------------------

/// A pattern `.name(binds)`, or `qual.name(binds)`.
fn variant_pattern(qual: Option<&str>, name: &str, binds: usize) -> Pattern {
    Pattern {
        kind: PatternKind::Variant {
            enum_name: qual.map(|q| q.to_string()),
            name: name.to_string(),
            subs: (0..binds)
                .map(|_| Pattern { kind: PatternKind::Wildcard, span: sp() })
                .collect(),
        },
        span: sp(),
    }
}

fn arm(pattern: Pattern, guard: Option<Expr>) -> MatchArm {
    MatchArm { pattern, guard, body: block(vec![stmt(StmtKind::Expr(name("c")))]), span: sp() }
}

/// What is reported of a match over `c: Color` with these arms.
fn color_errs(arms: Vec<MatchArm>) -> Vec<String> {
    let color = enum_decl("Color", &[("Red", 0), ("Green", 0), ("Blue", 1)]);
    let body = vec![stmt(StmtKind::Expr(match_expr(name("c"), arms)))];
    let f = fn_one_param("f", "c", ty_named("Color", false), None, body);
    check_errs(&program(vec![color, f]))
}

#[test]
fn exhaustiveness_messages() {
    assert_eq!(
        color_errs(vec![arm(variant_pattern(None, "Green", 0), None)]),
        vec![
            "non-exhaustive match over enum `Color`: missing variant(s) `Red`, `Blue` (add the arm(s) or a `_` catch-all)"
        ]
    );
    assert_eq!(
        color_errs(vec![
            arm(variant_pattern(Some("Size"), "Red", 0), None),
            arm(variant_pattern(None, "Pink", 0), None),
            arm(variant_pattern(Some("Color"), "Blue", 2), None),
            wildcard_arm(name("c")),
        ]),
        vec![
            "pattern matches enum `Size`, but the value is `Color`",
            "unknown variant `Pink` for enum `Color`",
            "variant `Color::Blue` expects 1 field(s), but the pattern binds 2",
        ]
    );
}

#[test]
fn guarded_arms_do_not_count() {
    let yes = || Some(expr(ExprKind::Bool(true)));
    let errs = color_errs(vec![
        arm(variant_pattern(None, "Red", 0), None),
        arm(variant_pattern(None, "Green", 0), yes()),
        arm(variant_pattern(None, "Blue", 1), None),
        arm(Pattern { kind: PatternKind::Wildcard, span: sp() }, yes()),
    ]);
    assert_eq!(errs.len(), 1);
    assert!(errs[0].contains("missing variant(s) `Green` "), "{}", errs[0]);
}

#[test]
fn or_patterns_cover_their_alternatives() {
    let either = Pattern {
        kind: PatternKind::Or(vec![
            variant_pattern(None, "Red", 0),
            variant_pattern(None, "Green", 0),
        ]),
        span: sp(),
    };
    assert_eq!(
        color_errs(vec![arm(either, None), arm(variant_pattern(None, "Blue", 1), None)]),
        Vec::<String>::new()
    );
}

#[test]
fn a_variant_of_two_enums_decides_nothing() {
    let a = enum_decl("A", &[("Same", 0), ("Other", 0)]);
    let b = enum_decl("B", &[("Same", 0)]);
    let m = match_expr(call(name("Same"), vec![]), vec![variant_arm("Same", &[], name("x"))]);
    let p = program(vec![a, b, stmt(StmtKind::Expr(m))]);
    assert_eq!(check_errs(&p), Vec::<String>::new());
}

#[test]
fn a_qualified_construction_has_its_enum() {
    let build = |shadowed: bool, variant: &str| {
        let c = enum_decl("C", &[("A", 1), ("B", 0)]);
        let made = call(member(name("C"), variant), vec![name("n")]);
        let m = match_expr(made, vec![variant_arm("A", &["x"], name("x"))]);
        let pname = if shadowed { "C" } else { "n" };
        let body = vec![stmt(StmtKind::Expr(m))];
        check_errs(&program(vec![c, fn_one_param("f", pname, ty_named("Int", false), None, body)]))
    };
    assert_eq!(
        build(false, "A"),
        vec![
            "non-exhaustive match over enum `C`: missing variant(s) `B` (add the arm(s) or a `_` catch-all)"
        ]
    );
    assert_eq!(build(false, "Z"), Vec::<String>::new());
    assert_eq!(build(true, "A"), Vec::<String>::new());
}

#[test]
fn names_bound_inside_are_untracked() {
    let add_one = || {
        expr(ExprKind::Binary {
            op: BinOp::Add,
            lhs: Box::new(name("x")),
            rhs: Box::new(expr(ExprKind::Int(Integer::from_i64(1)))),
        })
    };
    let errs_of = |e: Expr| {
        let body = vec![stmt(StmtKind::Expr(e))];
        check_errs(&program(vec![fn_one_param("f", "x", ty_named("Int", true), None, body)]))
    };
    let comprehension = |iter: Expr, binder: &str| {
        expr(ExprKind::Comprehension(Comprehension {
            output: ComprehensionOutput::List(Box::new(add_one())),
            binder: ComprehensionBinder::Name(binder.to_string()),
            iter: Box::new(iter),
            cond: Some(Box::new(add_one())),
        }))
    };
    assert_eq!(errs_of(comprehension(name("xs"), "x")), Vec::<String>::new());
    assert_eq!(errs_of(comprehension(name("xs"), "y")).len(), 2);
    assert_eq!(errs_of(comprehension(add_one(), "x")).len(), 1);
    let lambda = |param: &str| {
        expr(ExprKind::Lambda(Rc::new(Lambda {
            params: vec![param.to_string()],
            body: Box::new(add_one()),
        })))
    };
    assert_eq!(errs_of(lambda("x")), Vec::<String>::new());
    assert_eq!(errs_of(lambda("y")).len(), 1);
    let matched = |bound: &str| {
        match_expr(
            name("v"),
            vec![MatchArm {
                pattern: Pattern {
                    kind: PatternKind::Tuple(vec![
                        Pattern { kind: PatternKind::Binding(bound.to_string()), span: sp() },
                        Pattern { kind: PatternKind::Wildcard, span: sp() },
                    ]),
                    span: sp(),
                },
                guard: None,
                body: block(vec![stmt(StmtKind::Expr(add_one()))]),
                span: sp(),
            }],
        )
    };
    assert_eq!(errs_of(matched("x")), Vec::<String>::new());
    assert_eq!(errs_of(matched("y")).len(), 1);
}

#[test]
fn names_bound_inside_hide_enums() {
    let color = || enum_decl("Color", &[("Red", 0), ("Green", 0)]);
    let partial = || match_expr(name("c"), vec![variant_arm("Red", &[], name("c"))]);
    let errs_of = |e: Expr| {
        let body = vec![stmt(StmtKind::Expr(e))];
        let f = fn_one_param("f", "c", ty_named("Color", false), None, body);
        check_errs(&program(vec![color(), f]))
    };
    assert_eq!(errs_of(partial()).len(), 1);
    assert_eq!(
        errs_of(expr(ExprKind::Lambda(Rc::new(Lambda {
            params: vec!["c".to_string()],
            body: Box::new(partial()),
        })))),
        Vec::<String>::new()
    );
}

#[test]
fn null_messages_name_the_use() {
    let uses = |e: Expr| {
        let body = vec![stmt(StmtKind::Expr(e))];
        check_errs(&program(vec![fn_one_param("f", "x", ty_named("T", true), None, body)]))
    };
    let told = |what: &str| {
        vec![format!(
            "nullable value `x` used in {} where a non-null value is required; narrow with `if x is not null:` or default with `x.or_else(...)`",
            what
        )]
    };
    assert_eq!(uses(member(name("x"), "y")), told("member access"));
    assert_eq!(uses(call(member(name("x"), "y"), vec![])), told("method call"));
    assert_eq!(
        uses(expr(ExprKind::Index { base: Box::new(name("x")), index: Box::new(name("i")) })),
        told("indexing")
    );
    assert_eq!(
        uses(expr(ExprKind::Unary {
            op: adder::ast::UnOp::Neg,
            operand: Box::new(name("x"))
        })),
        told("operator operand")
    );
    assert_eq!(
        uses(expr(ExprKind::Member { base: Box::new(name("x")), name: "y".to_string(), safe: true })),
        Vec::<String>::new()
    );
    assert_eq!(uses(call(member(name("x"), "expect"), vec![name("m")])), Vec::<String>::new());
    assert_eq!(uses(expr(ExprKind::Try(Box::new(member(name("x"), "y"))))), told("member access"));
}
