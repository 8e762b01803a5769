//! The lexer.

use adder::integer::Integer;
use adder::lexer::lex;
use adder::token::{StrPart, TokenKind};

/// The kinds of the tokens of a text that lexes.
fn kinds(src: &str) -> Vec<TokenKind> {
    lex(src)
        .expect("expected successful lex")
        .into_iter()
        .map(|t| t.kind)
        .collect()
}

fn whole(n: i64) -> TokenKind {
    TokenKind::Int(Integer::from_i64(n))
}

/// The token of a float literal, which keeps the digits.
fn float(f: f64) -> TokenKind {
    TokenKind::Float(format!("{}", f))
}

/// The doc comment of the first token of a kind.
fn doc_on(src: &str, want: &TokenKind) -> Option<String> {
    let toks = lex(src).expect("expected successful lex");
    toks.iter()
        .find(|t| &t.kind == want)
        .unwrap_or_else(|| panic!("no token {:?} in {:?}", want, src))
        .doc
        .clone()
}

#[test]
fn lexer_keywords_vs_names() {
    let ks = kinds("fn val struct enum impl return if elif else match while for in break continue and or not is true false null self\n");
    let expected = vec![
        TokenKind::Fn, TokenKind::Val, TokenKind::Struct, TokenKind::Enum, TokenKind::Impl, TokenKind::Return, TokenKind::If, TokenKind::Elif, TokenKind::Else, TokenKind::Match, TokenKind::While, TokenKind::For, TokenKind::In,
        TokenKind::Break, TokenKind::Continue, TokenKind::And, TokenKind::Or, TokenKind::Not, TokenKind::Is, TokenKind::True, TokenKind::False, TokenKind::Null, TokenKind::SelfKw, TokenKind::Newline, TokenKind::Eof,
    ];
    assert_eq!(ks, expected);
}

#[test]
fn lexer_returns_is_now_a_plain_name() {
    assert_eq!(kinds("returns\n"), vec![TokenKind::Name("returns".into()), TokenKind::Newline, TokenKind::Eof]);
}

#[test]
fn lexer_question_dot_vs_question() {
    // `?.` is one token; a lone `?` (nullable suffix) stays separate from a
    // following `.field` access when whitespace intervenes.
    assert_eq!(
        kinds("x?.y\n"),
        vec![TokenKind::Name("x".into()), TokenKind::QuestionDot, TokenKind::Name("y".into()), TokenKind::Newline, TokenKind::Eof]
    );
    // `Int?` then a newline: a bare `?` with no following `.`.
    assert_eq!(kinds("Int?\n"), vec![TokenKind::Name("Int".into()), TokenKind::Question, TokenKind::Newline, TokenKind::Eof]);
}

#[test]
fn lexer_unicode_identifiers() {
    let ks = kinds("café _x x1 λ\n");
    assert_eq!(
        ks,
        vec![
            TokenKind::Name("café".into()),
            TokenKind::Name("_x".into()),
            TokenKind::Name("x1".into()),
            TokenKind::Name("λ".into()),
            TokenKind::Newline,
            TokenKind::Eof,
        ]
    );
}

#[test]
fn lexer_int_and_float_with_underscores() {
    let ks = kinds("1_000_000 3.14 0 42 1_2.3_4\n");
    assert_eq!(
        ks,
        vec![
            whole(1_000_000),
            float(3.14),
            whole(0),
            whole(42),
            float(12.34),
            TokenKind::Newline,
            TokenKind::Eof,
        ]
    );
}

#[test]
fn lexer_range_does_not_become_float() {
    // `0..n` must be Int DotDot Name — never a float.
    let ks = kinds("0..n\n");
    assert_eq!(
        ks,
        vec![whole(0), TokenKind::DotDot, TokenKind::Name("n".into()), TokenKind::Newline, TokenKind::Eof]
    );
}

#[test]
fn lexer_inclusive_range() {
    let ks = kinds("0..=10\n");
    assert_eq!(ks, vec![whole(0), TokenKind::DotDotEq, whole(10), TokenKind::Newline, TokenKind::Eof]);
}

#[test]
fn lexer_member_access_not_float() {
    // `x.field` must be Name Dot Name.
    let ks = kinds("x.field\n");
    assert_eq!(
        ks,
        vec![TokenKind::Name("x".into()), TokenKind::Dot, TokenKind::Name("field".into()), TokenKind::Newline, TokenKind::Eof]
    );
}

#[test]
fn lexer_float_then_member() {
    // `3.14.foo` -> float(3.14) Dot Name(foo)
    let ks = kinds("3.14.foo\n");
    assert_eq!(
        ks,
        vec![float(3.14), TokenKind::Dot, TokenKind::Name("foo".into()), TokenKind::Newline, TokenKind::Eof]
    );
}

#[test]
fn lexer_trailing_underscore_in_number_is_error() {
    assert!(lex("1_\n").is_err());
    assert!(lex("1_.0\n").is_err());
}

#[test]
fn lexer_maximal_munch_operators() {
    let ks = kinds("== != <= >= < > -> ** .. ..= . + - * / % = : , ? ?. ( ) [ ] { }\n");
    let expected = vec![
        TokenKind::EqEq, TokenKind::NotEq, TokenKind::LtEq, TokenKind::GtEq, TokenKind::Lt, TokenKind::Gt, TokenKind::Arrow, TokenKind::StarStar, TokenKind::DotDot, TokenKind::DotDotEq, TokenKind::Dot, TokenKind::Plus, TokenKind::Minus,
        TokenKind::Star, TokenKind::Slash, TokenKind::Percent, TokenKind::Eq, TokenKind::Colon, TokenKind::Comma, TokenKind::Question, TokenKind::QuestionDot, TokenKind::LParen, TokenKind::RParen, TokenKind::LBracket,
        TokenKind::RBracket, TokenKind::LBrace, TokenKind::RBrace, TokenKind::Newline, TokenKind::Eof,
    ];
    assert_eq!(ks, expected);
}

#[test]
fn lexer_star_vs_starstar() {
    assert_eq!(
        kinds("a * b ** c\n"),
        vec![
            TokenKind::Name("a".into()),
            TokenKind::Star,
            TokenKind::Name("b".into()),
            TokenKind::StarStar,
            TokenKind::Name("c".into()),
            TokenKind::Newline,
            TokenKind::Eof,
        ]
    );
}

#[test]
fn lexer_is_not_is_two_tokens() {
    assert_eq!(
        kinds("x is not null\n"),
        vec![TokenKind::Name("x".into()), TokenKind::Is, TokenKind::Not, TokenKind::Null, TokenKind::Newline, TokenKind::Eof]
    );
}

#[test]
fn lexer_string_text_and_interpolation() {
    // `"= {eval(program)}"` -> Str([Text("= "), Interp([eval ( program ) Eof])])
    let toks = lex("\"= {eval(program)}\"\n").unwrap();
    let str_tok = &toks[0];
    match &str_tok.kind {
        TokenKind::Str(parts) => {
            assert_eq!(parts.len(), 2);
            assert_eq!(parts[0], StrPart::Text("= ".into()));
            match &parts[1] {
                StrPart::Interp(inner) => {
                    let inner_kinds: Vec<&TokenKind> = inner.iter().map(|t| &t.kind).collect();
                    let expected = vec![
                        TokenKind::Name("eval".into()),
                        TokenKind::LParen,
                        TokenKind::Name("program".into()),
                        TokenKind::RParen,
                        TokenKind::Eof,
                    ];
                    let expected_refs: Vec<&TokenKind> = expected.iter().collect();
                    assert_eq!(inner_kinds, expected_refs);
                }
                other => panic!("expected Interp, got {:?}", other),
            }
        }
        other => panic!("expected Str, got {:?}", other),
    }
    // Stream shape: Str Newline Eof.
    assert_eq!(toks[1].kind, TokenKind::Newline);
    assert_eq!(toks[2].kind, TokenKind::Eof);
}

#[test]
fn lexer_nested_brackets_in_interpolation() {
    // `{f(g(x))}` must balance nested parens.
    let toks = lex("\"{f(g(x))}\"\n").unwrap();
    match &toks[0].kind {
        TokenKind::Str(parts) => {
            assert_eq!(parts.len(), 1);
            match &parts[0] {
                StrPart::Interp(inner) => {
                    let got: Vec<&TokenKind> = inner.iter().map(|t| &t.kind).collect();
                    assert_eq!(
                        got,
                        vec![
                            TokenKind::Name("f".into()),
                            TokenKind::LParen,
                            TokenKind::Name("g".into()),
                            TokenKind::LParen,
                            TokenKind::Name("x".into()),
                            TokenKind::RParen,
                            TokenKind::RParen,
                            TokenKind::Eof,
                        ].iter().collect::<Vec<&TokenKind>>()
                    );
                }
                other => panic!("expected Interp, got {:?}", other),
            }
        }
        other => panic!("expected Str, got {:?}", other),
    }
}

#[test]
fn lexer_brace_escapes() {
    // `"{{x}}"` -> Text("{x}")
    let toks = lex("\"{{x}}\"\n").unwrap();
    match &toks[0].kind {
        TokenKind::Str(parts) => {
            assert_eq!(parts, &vec![StrPart::Text("{x}".into())]);
        }
        other => panic!("expected Str, got {:?}", other),
    }
}

#[test]
fn lexer_string_escapes_resolved() {
    let toks = lex("\"a\\nb\\t\\\"\\\\\\{x\\}\"\n").unwrap();
    match &toks[0].kind {
        TokenKind::Str(parts) => {
            assert_eq!(parts, &vec![StrPart::Text("a\nb\t\"\\{x}".into())]);
        }
        other => panic!("expected Str, got {:?}", other),
    }
}

#[test]
fn lexer_unterminated_string_is_error() {
    assert!(lex("\"abc\n").is_err());
    assert!(lex("\"abc").is_err());
}

#[test]
fn lexer_unbalanced_interpolation_is_error() {
    assert!(lex("\"{abc\"\n").is_err());
}

#[test]
fn lexer_offside_rule_simple_block() {
    // if x:
    //     y
    // z
    let src = "if x:\n    y\nz\n";
    assert_eq!(
        kinds(src),
        vec![
            TokenKind::If,
            TokenKind::Name("x".into()),
            TokenKind::Colon,
            TokenKind::Newline,
            TokenKind::Indent,
            TokenKind::Name("y".into()),
            TokenKind::Newline,
            TokenKind::Dedent,
            TokenKind::Name("z".into()),
            TokenKind::Newline,
            TokenKind::Eof,
        ]
    );
}

#[test]
fn lexer_nested_blocks_dedent_to_eof() {
    // a:
    //     b:
    //         c
    let src = "a:\n    b:\n        c\n";
    assert_eq!(
        kinds(src),
        vec![
            TokenKind::Name("a".into()),
            TokenKind::Colon,
            TokenKind::Newline,
            TokenKind::Indent,
            TokenKind::Name("b".into()),
            TokenKind::Colon,
            TokenKind::Newline,
            TokenKind::Indent,
            TokenKind::Name("c".into()),
            TokenKind::Newline,
            TokenKind::Dedent,
            TokenKind::Dedent,
            TokenKind::Eof,
        ]
    );
}

#[test]
fn lexer_blank_and_comment_lines_no_layout() {
    // Blank lines and comment-only lines must not affect indentation or
    // produce Newline tokens.
    let src = "a\n\n# comment\n   # indented comment\nb\n";
    assert_eq!(
        kinds(src),
        vec![
            TokenKind::Name("a".into()),
            TokenKind::Newline,
            TokenKind::Name("b".into()),
            TokenKind::Newline,
            TokenKind::Eof,
        ]
    );
}

#[test]
fn lexer_tab_in_indent_is_error() {
    let src = "if x:\n\ty\n";
    let err = lex(src).unwrap_err();
    assert!(err.message.contains("tab"), "message was: {}", err.message);
}

#[test]
fn lexer_bracket_continuation_suppresses_newline() {
    // A newline inside `(...)` does not produce a Newline token.
    let src = "f(a,\n  b)\n";
    assert_eq!(
        kinds(src),
        vec![
            TokenKind::Name("f".into()),
            TokenKind::LParen,
            TokenKind::Name("a".into()),
            TokenKind::Comma,
            TokenKind::Name("b".into()),
            TokenKind::RParen,
            TokenKind::Newline,
            TokenKind::Eof,
        ]
    );
}

#[test]
fn lexer_bracket_continuation_in_list() {
    let src = "[\n  1,\n  2,\n]\n";
    assert_eq!(
        kinds(src),
        vec![
            TokenKind::LBracket,
            whole(1),
            TokenKind::Comma,
            whole(2),
            TokenKind::Comma,
            TokenKind::RBracket,
            TokenKind::Newline,
            TokenKind::Eof,
        ]
    );
}

#[test]
fn lexer_inconsistent_dedent_is_error() {
    // Dedent to a level that was never opened.
    //   a:
    //         b
    //     c       <- 4 spaces, but open levels are {0, 8}
    let src = "a:\n        b\n    c\n";
    assert!(lex(src).is_err());
}

#[test]
fn lexer_spans_track_line_and_col() {
    let toks = lex("ab\n  cd\n").unwrap();
    // ab at line 1 col 1
    assert_eq!(toks[0].span.line, 1);
    assert_eq!(toks[0].span.col, 1);
    assert_eq!(toks[0].span.start, 0);
    assert_eq!(toks[0].span.end, 2);
    // find `cd`
    let cd = toks
        .iter()
        .find(|t| matches!(&t.kind, TokenKind::Name(n) if n == "cd"))
        .unwrap();
    assert_eq!(cd.span.line, 2);
    assert_eq!(cd.span.col, 3);
}

#[test]
fn lexer_no_trailing_newline_in_source() {
    // Source without a final newline still gets a synthetic Newline + Eof.
    assert_eq!(
        kinds("x"),
        vec![TokenKind::Name("x".into()), TokenKind::Newline, TokenKind::Eof]
    );
}

#[test]
fn lexer_empty_source() {
    assert_eq!(kinds(""), vec![TokenKind::Eof]);
    assert_eq!(kinds("\n\n  \n"), vec![TokenKind::Eof]);
}

#[test]
fn lexer_doc_attaches_to_following_fn() {
    let doc = doc_on("## adds two numbers\nfn add():\n    1\n", &TokenKind::Fn);
    assert_eq!(doc.as_deref(), Some("adds two numbers"));
}

#[test]
fn lexer_doc_strips_leading_hashes_and_one_space() {
    // Exactly one leading space after `##` is stripped; further spaces stay.
    let doc = doc_on("##  two spaces\nstruct S:\n    x: Int\n", &TokenKind::Struct);
    assert_eq!(doc.as_deref(), Some(" two spaces"));
    // No space at all after `##` is fine.
    let doc2 = doc_on("##nospace\nstruct S:\n    x: Int\n", &TokenKind::Struct);
    assert_eq!(doc2.as_deref(), Some("nospace"));
}

#[test]
fn lexer_multiple_doc_lines_join_with_newline() {
    let doc = doc_on("## line one\n## line two\nenum E:\n    A\n", &TokenKind::Enum);
    assert_eq!(doc.as_deref(), Some("line one\nline two"));
}

#[test]
fn lexer_blank_line_detaches_doc() {
    let doc = doc_on("## orphaned\n\nfn f():\n    1\n", &TokenKind::Fn);
    assert_eq!(doc, None);
}

#[test]
fn lexer_plain_comment_line_detaches_doc() {
    // A `##` block followed by a plain `#` line is no longer "immediately
    // above" the declaration, so it detaches.
    let doc = doc_on("## doc\n# plain\nfn f():\n    1\n", &TokenKind::Fn);
    assert_eq!(doc, None);
}

#[test]
fn lexer_plain_comment_is_not_a_doc() {
    let doc = doc_on("# just a comment\nfn f():\n    1\n", &TokenKind::Fn);
    assert_eq!(doc, None);
}

#[test]
fn lexer_doc_attaches_to_indented_decl_not_indent_token() {
    // Inside an `impl`, the doc must land on the inner `fn`, never on the
    // synthetic `Indent` emitted just before it.
    let src = "impl Foo:\n    ## a method\n    fn bar(self):\n        1\n";
    let toks = lex(src).expect("lex");
    // No layout token carries a doc.
    for t in &toks {
        if matches!(
            t.kind,
            TokenKind::Newline | TokenKind::Indent | TokenKind::Dedent | TokenKind::Eof
        ) {
            assert_eq!(t.doc, None, "layout token must not carry a doc: {:?}", t);
        }
    }
    let fn_doc = toks
        .iter()
        .find(|t| t.kind == TokenKind::Fn)
        .unwrap()
        .doc
        .clone();
    assert_eq!(fn_doc.as_deref(), Some("a method"));
}

#[test]
fn lexer_doc_above_non_declaration_lands_on_its_token() {
    // A `##` above a plain statement attaches to that statement's leading
    // token (the parser will simply ignore it). It must not leak to a later
    // declaration on the next line.
    let src = "## not a decl doc\nx = 1\nfn f():\n    1\n";
    let toks = lex(src).expect("lex");
    let x_doc = toks
        .iter()
        .find(|t| matches!(&t.kind, TokenKind::Name(n) if n == "x"))
        .unwrap()
        .doc
        .clone();
    assert_eq!(x_doc.as_deref(), Some("not a decl doc"));
    // The `fn` after a real content line gets nothing.
    let fn_doc = toks.iter().find(|t| t.kind == TokenKind::Fn).unwrap().doc.clone();
    assert_eq!(fn_doc, None);
}

#[test]
fn lexer_doc_capture_does_not_perturb_layout() {
    // The token stream (kinds only) with a doc block must be identical to the
    // same program without it — docs are metadata, not structure.
    let with_doc = kinds("## d1\n## d2\nfn f():\n    1\n");
    let without = kinds("fn f():\n    1\n");
    assert_eq!(with_doc, without);
}

#[test]
fn full_mvp_showcase_lexes() {
    let src = r#"## A tiny expression evaluator (MVP subset).

enum Expr:
    Num(Float)
    Add(Expr, Expr)
    Mul(Expr, Expr)
    Div(Expr, Expr)

fn eval(e: Expr) -> Float:
    return match e:
        Num(n):    n
        Add(a, b): eval(a) + eval(b)
        Mul(a, b): eval(a) * eval(b)
        Div(a, b):
            divisor = eval(b)
            if divisor == 0.0:
                panic("division by zero")
            eval(a) / divisor

fn main():
    # (1 + 2) * 3
    program = Mul(Add(Num(1.0), Num(2.0)), Num(3.0))
    print("= {eval(program)}")     # = 9.0
"#;
    let toks = lex(src).expect("showcase must lex cleanly");
    assert_eq!(toks.last().unwrap().kind, TokenKind::Eof);
    // Sanity: the interpolated string is present and well-formed.
    let has_interp = toks.iter().any(|t| matches!(&t.kind, TokenKind::Str(parts)
        if parts.iter().any(|p| matches!(p, StrPart::Interp(_)))));
    assert!(has_interp, "expected an interpolated string in showcase");
    // Indent/Dedent balance: equal counts.
    let indents = toks.iter().filter(|t| t.kind == TokenKind::Indent).count();
    let dedents = toks.iter().filter(|t| t.kind == TokenKind::Dedent).count();
    assert_eq!(indents, dedents, "Indent/Dedent must balance");
}

#[test]
fn lexer_tests_keywords_vs_names() {
    let ks = kinds("fn val struct enum impl return if elif else match while for in break continue and or not is true false null self\n");
    let expected = vec![
        TokenKind::Fn, TokenKind::Val, TokenKind::Struct, TokenKind::Enum, TokenKind::Impl, TokenKind::Return, TokenKind::If, TokenKind::Elif, TokenKind::Else, TokenKind::Match, TokenKind::While, TokenKind::For, TokenKind::In,
        TokenKind::Break, TokenKind::Continue, TokenKind::And, TokenKind::Or, TokenKind::Not, TokenKind::Is, TokenKind::True, TokenKind::False, TokenKind::Null, TokenKind::SelfKw, TokenKind::Newline, TokenKind::Eof,
    ];
    assert_eq!(ks, expected);
}

#[test]
fn lexer_tests_returns_is_now_a_plain_name() {
    // `returns` is not a keyword — it lexes as an identifier.
    assert_eq!(kinds("returns\n"), vec![TokenKind::Name("returns".into()), TokenKind::Newline, TokenKind::Eof]);
}

#[test]
fn lexer_tests_question_dot_vs_question() {
    // `?.` is one token; a lone `?` (nullable suffix) stays separate from a
    // following `.field` access when whitespace intervenes.
    assert_eq!(
        kinds("x?.y\n"),
        vec![TokenKind::Name("x".into()), TokenKind::QuestionDot, TokenKind::Name("y".into()), TokenKind::Newline, TokenKind::Eof]
    );
    // `Int?` then a newline: a bare `?` with no following `.`.
    assert_eq!(kinds("Int?\n"), vec![TokenKind::Name("Int".into()), TokenKind::Question, TokenKind::Newline, TokenKind::Eof]);
}

#[test]
fn lexer_tests_print_and_panic_are_names() {
    // `print`/`panic` are prelude bindings, not keywords. `Self`/`import`/
    // `from`/`as`/`to` are still reserved-but-unused → plain names; `trait`
    let ks = kinds("print panic Self import from as to trait try\n");
    assert_eq!(
        ks,
        vec![
            TokenKind::Name("print".into()),
            TokenKind::Name("panic".into()),
            TokenKind::Name("Self".into()),
            TokenKind::Name("import".into()),
            TokenKind::Name("from".into()),
            TokenKind::Name("as".into()),
            TokenKind::Name("to".into()),
            TokenKind::Trait,
            TokenKind::Try,
            TokenKind::Newline,
            TokenKind::Eof,
        ]
    );
}

#[test]
fn lexer_tests_unicode_identifiers() {
    let ks = kinds("café _x x1 λ\n");
    assert_eq!(
        ks,
        vec![
            TokenKind::Name("café".into()),
            TokenKind::Name("_x".into()),
            TokenKind::Name("x1".into()),
            TokenKind::Name("λ".into()),
            TokenKind::Newline,
            TokenKind::Eof,
        ]
    );
}

#[test]
fn lexer_tests_int_and_float_with_underscores() {
    let ks = kinds("1_000_000 3.14 0 42 1_2.3_4\n");
    assert_eq!(
        ks,
        vec![
            whole(1_000_000),
            float(3.14),
            whole(0),
            whole(42),
            float(12.34),
            TokenKind::Newline,
            TokenKind::Eof,
        ]
    );
}

#[test]
fn lexer_tests_range_does_not_become_float() {
    // `0..n` must be Int DotDot Name — never a float.
    let ks = kinds("0..n\n");
    assert_eq!(
        ks,
        vec![whole(0), TokenKind::DotDot, TokenKind::Name("n".into()), TokenKind::Newline, TokenKind::Eof]
    );
}

#[test]
fn lexer_tests_inclusive_range() {
    let ks = kinds("0..=10\n");
    assert_eq!(ks, vec![whole(0), TokenKind::DotDotEq, whole(10), TokenKind::Newline, TokenKind::Eof]);
}

#[test]
fn lexer_tests_member_access_not_float() {
    // `x.field` must be Name Dot Name.
    let ks = kinds("x.field\n");
    assert_eq!(
        ks,
        vec![TokenKind::Name("x".into()), TokenKind::Dot, TokenKind::Name("field".into()), TokenKind::Newline, TokenKind::Eof]
    );
}

#[test]
fn lexer_tests_float_then_member() {
    // `3.14.foo` -> float(3.14) Dot Name(foo)
    let ks = kinds("3.14.foo\n");
    assert_eq!(
        ks,
        vec![float(3.14), TokenKind::Dot, TokenKind::Name("foo".into()), TokenKind::Newline, TokenKind::Eof]
    );
}

#[test]
fn lexer_tests_trailing_underscore_in_number_is_error() {
    assert!(lex("1_\n").is_err());
    assert!(lex("1_.0\n").is_err());
}

#[test]
fn lexer_tests_maximal_munch_operators() {
    let ks = kinds("== != <= >= < > -> ** .. ..= . + - * / % = : , ? ?. ( ) [ ] { }\n");
    let expected = vec![
        TokenKind::EqEq, TokenKind::NotEq, TokenKind::LtEq, TokenKind::GtEq, TokenKind::Lt, TokenKind::Gt, TokenKind::Arrow, TokenKind::StarStar, TokenKind::DotDot, TokenKind::DotDotEq, TokenKind::Dot, TokenKind::Plus, TokenKind::Minus,
        TokenKind::Star, TokenKind::Slash, TokenKind::Percent, TokenKind::Eq, TokenKind::Colon, TokenKind::Comma, TokenKind::Question, TokenKind::QuestionDot, TokenKind::LParen, TokenKind::RParen, TokenKind::LBracket,
        TokenKind::RBracket, TokenKind::LBrace, TokenKind::RBrace, TokenKind::Newline, TokenKind::Eof,
    ];
    assert_eq!(ks, expected);
}

#[test]
fn lexer_tests_star_vs_starstar() {
    assert_eq!(
        kinds("a * b ** c\n"),
        vec![
            TokenKind::Name("a".into()),
            TokenKind::Star,
            TokenKind::Name("b".into()),
            TokenKind::StarStar,
            TokenKind::Name("c".into()),
            TokenKind::Newline,
            TokenKind::Eof,
        ]
    );
}

#[test]
fn lexer_tests_is_not_is_two_tokens() {
    assert_eq!(
        kinds("x is not null\n"),
        vec![TokenKind::Name("x".into()), TokenKind::Is, TokenKind::Not, TokenKind::Null, TokenKind::Newline, TokenKind::Eof]
    );
}

#[test]
fn lexer_tests_string_text_and_interpolation() {
    // `"= {eval(program)}"` -> Str([Text("= "), Interp([eval ( program ) Eof])])
    let toks = lex("\"= {eval(program)}\"\n").unwrap();
    let str_tok = &toks[0];
    match &str_tok.kind {
        TokenKind::Str(parts) => {
            assert_eq!(parts.len(), 2);
            assert_eq!(parts[0], StrPart::Text("= ".into()));
            match &parts[1] {
                StrPart::Interp(inner) => {
                    let inner_kinds: Vec<&TokenKind> = inner.iter().map(|t| &t.kind).collect();
                    let expected = vec![
                        TokenKind::Name("eval".into()),
                        TokenKind::LParen,
                        TokenKind::Name("program".into()),
                        TokenKind::RParen,
                        TokenKind::Eof,
                    ];
                    let expected_refs: Vec<&TokenKind> = expected.iter().collect();
                    assert_eq!(inner_kinds, expected_refs);
                }
                other => panic!("expected Interp, got {:?}", other),
            }
        }
        other => panic!("expected Str, got {:?}", other),
    }
    // Stream shape: Str Newline Eof.
    assert_eq!(toks[1].kind, TokenKind::Newline);
    assert_eq!(toks[2].kind, TokenKind::Eof);
}

#[test]
fn lexer_tests_nested_brackets_in_interpolation() {
    // `{f(g(x))}` must balance nested parens.
    let toks = lex("\"{f(g(x))}\"\n").unwrap();
    match &toks[0].kind {
        TokenKind::Str(parts) => {
            assert_eq!(parts.len(), 1);
            match &parts[0] {
                StrPart::Interp(inner) => {
                    let got: Vec<&TokenKind> = inner.iter().map(|t| &t.kind).collect();
                    assert_eq!(
                        got,
                        vec![
                            TokenKind::Name("f".into()),
                            TokenKind::LParen,
                            TokenKind::Name("g".into()),
                            TokenKind::LParen,
                            TokenKind::Name("x".into()),
                            TokenKind::RParen,
                            TokenKind::RParen,
                            TokenKind::Eof,
                        ].iter().collect::<Vec<&TokenKind>>()
                    );
                }
                other => panic!("expected Interp, got {:?}", other),
            }
        }
        other => panic!("expected Str, got {:?}", other),
    }
}

#[test]
fn lexer_tests_brace_escapes() {
    // `"{{x}}"` -> Text("{x}")
    let toks = lex("\"{{x}}\"\n").unwrap();
    match &toks[0].kind {
        TokenKind::Str(parts) => {
            assert_eq!(parts, &vec![StrPart::Text("{x}".into())]);
        }
        other => panic!("expected Str, got {:?}", other),
    }
}

#[test]
fn lexer_tests_string_escapes_resolved() {
    let toks = lex("\"a\\nb\\t\\\"\\\\\\{x\\}\"\n").unwrap();
    match &toks[0].kind {
        TokenKind::Str(parts) => {
            assert_eq!(parts, &vec![StrPart::Text("a\nb\t\"\\{x}".into())]);
        }
        other => panic!("expected Str, got {:?}", other),
    }
}

#[test]
fn lexer_tests_unterminated_string_is_error() {
    assert!(lex("\"abc\n").is_err());
    assert!(lex("\"abc").is_err());
}

#[test]
fn lexer_tests_unbalanced_interpolation_is_error() {
    assert!(lex("\"{abc\"\n").is_err());
}

#[test]
fn lexer_tests_offside_rule_simple_block() {
    // if x:
    //     y
    // z
    let src = "if x:\n    y\nz\n";
    assert_eq!(
        kinds(src),
        vec![
            TokenKind::If,
            TokenKind::Name("x".into()),
            TokenKind::Colon,
            TokenKind::Newline,
            TokenKind::Indent,
            TokenKind::Name("y".into()),
            TokenKind::Newline,
            TokenKind::Dedent,
            TokenKind::Name("z".into()),
            TokenKind::Newline,
            TokenKind::Eof,
        ]
    );
}

#[test]
fn lexer_tests_nested_blocks_dedent_to_eof() {
    // a:
    //     b:
    //         c
    let src = "a:\n    b:\n        c\n";
    assert_eq!(
        kinds(src),
        vec![
            TokenKind::Name("a".into()),
            TokenKind::Colon,
            TokenKind::Newline,
            TokenKind::Indent,
            TokenKind::Name("b".into()),
            TokenKind::Colon,
            TokenKind::Newline,
            TokenKind::Indent,
            TokenKind::Name("c".into()),
            TokenKind::Newline,
            TokenKind::Dedent,
            TokenKind::Dedent,
            TokenKind::Eof,
        ]
    );
}

#[test]
fn lexer_tests_blank_and_comment_lines_no_layout() {
    // Blank lines and comment-only lines must not affect indentation or
    // produce Newline tokens.
    let src = "a\n\n# comment\n   # indented comment\nb\n";
    assert_eq!(
        kinds(src),
        vec![
            TokenKind::Name("a".into()),
            TokenKind::Newline,
            TokenKind::Name("b".into()),
            TokenKind::Newline,
            TokenKind::Eof,
        ]
    );
}

#[test]
fn lexer_tests_tab_in_indent_is_error() {
    let src = "if x:\n\ty\n";
    let err = lex(src).unwrap_err();
    assert!(err.message.contains("tab"), "message was: {}", err.message);
}

#[test]
fn lexer_tests_bracket_continuation_suppresses_newline() {
    // A newline inside `(...)` does not produce a Newline token.
    let src = "f(a,\n  b)\n";
    assert_eq!(
        kinds(src),
        vec![
            TokenKind::Name("f".into()),
            TokenKind::LParen,
            TokenKind::Name("a".into()),
            TokenKind::Comma,
            TokenKind::Name("b".into()),
            TokenKind::RParen,
            TokenKind::Newline,
            TokenKind::Eof,
        ]
    );
}

#[test]
fn lexer_tests_bracket_continuation_in_list() {
    let src = "[\n  1,\n  2,\n]\n";
    assert_eq!(
        kinds(src),
        vec![
            TokenKind::LBracket,
            whole(1),
            TokenKind::Comma,
            whole(2),
            TokenKind::Comma,
            TokenKind::RBracket,
            TokenKind::Newline,
            TokenKind::Eof,
        ]
    );
}

#[test]
fn lexer_tests_inconsistent_dedent_is_error() {
    // Dedent to a level that was never opened.
    //   a:
    //         b
    //     c       <- 4 spaces, but open levels are {0, 8}
    let src = "a:\n        b\n    c\n";
    assert!(lex(src).is_err());
}

#[test]
fn lexer_tests_spans_track_line_and_col() {
    let toks = lex("ab\n  cd\n").unwrap();
    // ab at line 1 col 1
    assert_eq!(toks[0].span.line, 1);
    assert_eq!(toks[0].span.col, 1);
    assert_eq!(toks[0].span.start, 0);
    assert_eq!(toks[0].span.end, 2);
    // find `cd`
    let cd = toks
        .iter()
        .find(|t| matches!(&t.kind, TokenKind::Name(n) if n == "cd"))
        .unwrap();
    assert_eq!(cd.span.line, 2);
    assert_eq!(cd.span.col, 3);
}

#[test]
fn lexer_tests_no_trailing_newline_in_source() {
    // Source without a final newline still gets a synthetic Newline + Eof.
    assert_eq!(
        kinds("x"),
        vec![TokenKind::Name("x".into()), TokenKind::Newline, TokenKind::Eof]
    );
}

#[test]
fn lexer_tests_empty_source() {
    assert_eq!(kinds(""), vec![TokenKind::Eof]);
    assert_eq!(kinds("\n\n  \n"), vec![TokenKind::Eof]);
}

#[test]
fn lexer_tests_doc_attaches_to_following_fn() {
    let doc = doc_on("## adds two numbers\nfn add():\n    1\n", &TokenKind::Fn);
    assert_eq!(doc.as_deref(), Some("adds two numbers"));
}

#[test]
fn lexer_tests_doc_strips_leading_hashes_and_one_space() {
    // Exactly one leading space after `##` is stripped; further spaces stay.
    let doc = doc_on("##  two spaces\nstruct S:\n    x: Int\n", &TokenKind::Struct);
    assert_eq!(doc.as_deref(), Some(" two spaces"));
    // No space at all after `##` is fine.
    let doc2 = doc_on("##nospace\nstruct S:\n    x: Int\n", &TokenKind::Struct);
    assert_eq!(doc2.as_deref(), Some("nospace"));
}

#[test]
fn lexer_tests_multiple_doc_lines_join_with_newline() {
    let doc = doc_on("## line one\n## line two\nenum E:\n    A\n", &TokenKind::Enum);
    assert_eq!(doc.as_deref(), Some("line one\nline two"));
}

#[test]
fn lexer_tests_blank_line_detaches_doc() {
    let doc = doc_on("## orphaned\n\nfn f():\n    1\n", &TokenKind::Fn);
    assert_eq!(doc, None);
}

#[test]
fn lexer_tests_plain_comment_line_detaches_doc() {
    // A `##` block followed by a plain `#` line is no longer "immediately
    // above" the declaration, so it detaches.
    let doc = doc_on("## doc\n# plain\nfn f():\n    1\n", &TokenKind::Fn);
    assert_eq!(doc, None);
}

#[test]
fn lexer_tests_plain_comment_is_not_a_doc() {
    let doc = doc_on("# just a comment\nfn f():\n    1\n", &TokenKind::Fn);
    assert_eq!(doc, None);
}

#[test]
fn lexer_tests_doc_attaches_to_indented_decl_not_indent_token() {
    // Inside an `impl`, the doc must land on the inner `fn`, never on the
    // synthetic `Indent` emitted just before it.
    let src = "impl Foo:\n    ## a method\n    fn bar(self):\n        1\n";
    let toks = lex(src).expect("lex");
    // No layout token carries a doc.
    for t in &toks {
        if matches!(
            t.kind,
            TokenKind::Newline | TokenKind::Indent | TokenKind::Dedent | TokenKind::Eof
        ) {
            assert_eq!(t.doc, None, "layout token must not carry a doc: {:?}", t);
        }
    }
    let fn_doc = toks
        .iter()
        .find(|t| t.kind == TokenKind::Fn)
        .unwrap()
        .doc
        .clone();
    assert_eq!(fn_doc.as_deref(), Some("a method"));
}

#[test]
fn lexer_tests_doc_above_non_declaration_lands_on_its_token() {
    // A `##` above a plain statement attaches to that statement's leading
    // token (the parser will simply ignore it). It must not leak to a later
    // declaration on the next line.
    let src = "## not a decl doc\nx = 1\nfn f():\n    1\n";
    let toks = lex(src).expect("lex");
    let x_doc = toks
        .iter()
        .find(|t| matches!(&t.kind, TokenKind::Name(n) if n == "x"))
        .unwrap()
        .doc
        .clone();
    assert_eq!(x_doc.as_deref(), Some("not a decl doc"));
    // The `fn` after a real content line gets nothing.
    let fn_doc = toks.iter().find(|t| t.kind == TokenKind::Fn).unwrap().doc.clone();
    assert_eq!(fn_doc, None);
}

#[test]
fn lexer_tests_doc_capture_does_not_perturb_layout() {
    // The token stream (kinds only) with a doc block must be identical to the
    // same program without it — docs are metadata, not structure.
    let with_doc = kinds("## d1\n## d2\nfn f():\n    1\n");
    let without = kinds("fn f():\n    1\n");
    assert_eq!(with_doc, without);
}

#[test]
fn full_showcase_lexes() {
    let src = r#"## A tiny expression evaluator.

enum Expr:
    Num(Float)
    Add(Expr, Expr)
    Mul(Expr, Expr)
    Div(Expr, Expr)

fn eval(e: Expr) -> Float:
    return match e:
        Num(n):    n
        Add(a, b): eval(a) + eval(b)
        Mul(a, b): eval(a) * eval(b)
        Div(a, b):
            divisor = eval(b)
            if divisor == 0.0:
                panic("division by zero")
            eval(a) / divisor

fn main():
    # (1 + 2) * 3
    program = Mul(Add(Num(1.0), Num(2.0)), Num(3.0))
    print("= {eval(program)}")     # = 9.0
"#;
    let toks = lex(src).expect("showcase must lex cleanly");
    assert_eq!(toks.last().unwrap().kind, TokenKind::Eof);
    // Sanity: the interpolated string is present and well-formed.
    let has_interp = toks.iter().any(|t| matches!(&t.kind, TokenKind::Str(parts)
        if parts.iter().any(|p| matches!(p, StrPart::Interp(_)))));
    assert!(has_interp, "expected an interpolated string in showcase");
    // Indent/Dedent balance: equal counts.
    let indents = toks.iter().filter(|t| t.kind == TokenKind::Indent).count();
    let dedents = toks.iter().filter(|t| t.kind == TokenKind::Dedent).count();
    assert_eq!(indents, dedents, "Indent/Dedent must balance");
}

// ---------------------------------------------------------------------------
// Errors
// ---------------------------------------------------------------------------

/// The message of a text that does not lex, and where it points.
fn lex_error(src: &str) -> (String, usize, usize) {
    let d = lex(src).unwrap_err();
    (d.message, d.span.line, d.span.col)
}

#[test]
fn lex_errors_say_what_and_where() {
    assert_eq!(
        lex_error("if x:\n\ty\n"),
        (
            "tab in leading whitespace is not allowed (use 4 spaces per indent level)".to_string(),
            2,
            1
        )
    );
    assert_eq!(
        lex_error("a:\n        b\n    c\n"),
        (
            "inconsistent indentation: does not match any enclosing block level".to_string(),
            3,
            5
        )
    );
    assert_eq!(
        lex_error("x = 1_\n"),
        ("digit separator `_` may not be trailing or adjacent to `.`".to_string(), 1, 5)
    );
    assert_eq!(
        lex_error("a ! b\n"),
        ("unexpected `!` (did you mean `!=` or `not`?)".to_string(), 1, 3)
    );
    assert_eq!(lex_error("a @ b\n"), ("unexpected character `@`".to_string(), 1, 3));
    assert_eq!(
        lex_error("\"abc\n"),
        ("unterminated string literal (Adder strings are single-line)".to_string(), 1, 1)
    );
    assert_eq!(lex_error("\"abc"), ("unterminated string literal".to_string(), 1, 1));
    assert_eq!(
        lex_error("\"abc\\"),
        ("unterminated string literal (trailing backslash)".to_string(), 1, 1)
    );
    assert_eq!(lex_error("\"a\\qb\""), ("invalid string escape `\\q`".to_string(), 1, 3));
    assert_eq!(
        lex_error("\"a}b\""),
        ("unexpected `}` in string (use `}}` for a literal brace)".to_string(), 1, 3)
    );
    assert_eq!(
        lex_error("\"{a"),
        ("unterminated interpolation: missing `}` before end of string".to_string(), 1, 1)
    );
    assert_eq!(
        lex_error("\"{a\n}\""),
        ("unterminated interpolation (Adder strings are single-line)".to_string(), 1, 1)
    );
    assert_eq!(
        lex_error("\"{f(\"x\n\")}\""),
        ("unterminated string inside interpolation".to_string(), 1, 1)
    );
}

// ---------------------------------------------------------------------------
// Streams
// ---------------------------------------------------------------------------

#[test]
fn every_stream_ends_once_and_balances() {
    for src in [
        "",
        "x",
        "a:\n  b:\n    c\nd",
        "## doc\nfn f():\n    # note\n    g(1,\n  2)\n\n\nh\n",
        "\"{a} {\"{b}\"}\"\n",
        "a:\r\n    b\r\nc\r\n",
    ] {
        let toks = lex(src).unwrap();
        let (last, rest) = toks.split_last().unwrap();
        assert_eq!(last.kind, TokenKind::Eof);
        let mut open: i32 = 0;
        for t in rest {
            assert_ne!(t.kind, TokenKind::Eof);
            match t.kind {
                TokenKind::Indent => open += 1,
                TokenKind::Dedent => open -= 1,
                _ => {}
            }
            assert!(open >= 0);
        }
        assert_eq!(open, 0, "{:?}", src);
        for pair in toks.windows(2) {
            assert!(pair[0].span.start <= pair[0].span.end);
            assert!(pair[0].span.end <= pair[1].span.start);
        }
    }
}

#[test]
fn spans_inside_interpolations_are_those_of_the_program() {
    let toks = lex("x = \"é{ab}\"\n").unwrap();
    match &toks[2].kind {
        TokenKind::Str(parts) => match &parts[1] {
            StrPart::Interp(inner) => {
                assert_eq!(inner[0].kind, TokenKind::Name("ab".into()));
                assert_eq!((inner[0].span.start, inner[0].span.end), (8, 10));
                assert_eq!((inner[0].span.line, inner[0].span.col), (1, 8));
            }
            other => panic!("expected Interp, got {:?}", other),
        },
        other => panic!("expected Str, got {:?}", other),
    }
}

#[test]
fn integers_of_any_length() {
    assert_eq!(
        kinds("123456789012345678901234567890 -42\n"),
        vec![
            TokenKind::Int(match &kinds("123456789012345678901234567890")[0] {
                TokenKind::Int(n) => {
                    assert_eq!(n.to_text(), "123456789012345678901234567890");
                    n.clone()
                }
                other => panic!("expected Int, got {:?}", other),
            }),
            TokenKind::Minus,
            whole(42),
            TokenKind::Newline,
            TokenKind::Eof,
        ]
    );
    assert_eq!(Integer::from_i64(i64::MIN).to_text(), "-9223372036854775808");
    assert_eq!(Integer::from_i64(0).to_text(), "0");
}

#[test]
fn names_follow_unicode() {
    assert_eq!(
        kinds("x² ñandú_9 _\n"),
        vec![
            TokenKind::Name("x²".into()),
            TokenKind::Name("ñandú_9".into()),
            TokenKind::Name("_".into()),
            TokenKind::Newline,
            TokenKind::Eof,
        ]
    );
    assert!(lex("²x\n").is_err());
}

/// How a text is written as a string literal.
fn literal(text: &str) -> String {
    let mut s = String::from("\"");
    for c in text.chars() {
        match c {
            '\\' => s.push_str("\\\\"),
            '"' => s.push_str("\\\""),
            '\n' => s.push_str("\\n"),
            '{' => s.push_str("{{"),
            '}' => s.push_str("}}"),
            _ => s.push(c),
        }
    }
    s.push('"');
    s
}

#[test]
fn literals_lex_back_to_their_text() {
    for text in ["", "plain", "a\\b", "say \"hi\"", "two\nlines", "{x}", "}{", "é\t# no comment"] {
        let parts = if text.is_empty() { vec![] } else { vec![StrPart::Text(text.to_string())] };
        assert_eq!(
            kinds(&literal(text)),
            vec![TokenKind::Str(parts), TokenKind::Newline, TokenKind::Eof],
            "{:?}",
            text
        );
        let span = lex(&literal(text)).unwrap()[0].span;
        assert_eq!((span.start, span.end), (0, literal(text).len()));
        assert_eq!((span.line, span.col), (1, 1));
    }
}

#[test]
fn newline_follows_a_token_and_brackets_hold_no_layout() {
    let src = "\n# top\nf(1,\n\n   # inside\n  [2,\n3])\n\nif x:\n    y # tail\n\nz";
    let toks = kinds(src);
    let layout = |k: &TokenKind| {
        matches!(
            k,
            TokenKind::Newline | TokenKind::Indent | TokenKind::Dedent | TokenKind::Eof
        )
    };
    let mut depth = 0;
    for (i, kind) in toks.iter().enumerate() {
        match kind {
            TokenKind::Newline => assert!(i > 0 && !layout(&toks[i - 1])),
            TokenKind::LParen | TokenKind::LBracket => depth += 1,
            TokenKind::RParen | TokenKind::RBracket => depth -= 1,
            _ => {}
        }
        assert!(!layout(kind) || depth == 0);
    }
    // A bracket that is never closed: only layout follows.
    assert_eq!(
        kinds("(a\n"),
        vec![
            TokenKind::LParen,
            TokenKind::Name("a".into()),
            TokenKind::Newline,
            TokenKind::Eof,
        ]
    );
}

#[test]
fn spans_cover_what_they_stand_for() {
    let src = "é = 1\nif é:\n    naïve = \"a{b}c\"\n";
    for t in &lex(src).unwrap() {
        let (a, b) = (t.span.start, t.span.end);
        assert!(a <= b && b <= src.len());
        assert_eq!(t.span.line, 1 + src[..a].matches('\n').count());
        let line = src[..a].rsplit('\n').next().unwrap();
        assert_eq!(t.span.col, 1 + line.chars().count());
        if let TokenKind::Name(s) = &t.kind {
            assert_eq!(&src[a..b], s);
        }
        if let TokenKind::Newline | TokenKind::Indent | TokenKind::Dedent | TokenKind::Eof = t.kind {
            assert_eq!(a, b);
        }
    }
}

#[test]
fn a_comment_line_changes_no_kind() {
    let lines = ["f(1,", "  2)", "if x:", "    y = \"s\"", "", "    z", "w"];
    let plain = kinds(&(lines.join("\n") + "\n"));
    for at in 0..=lines.len() {
        for comment in ["# note", "## doc", "      # deep", "## cr\r", "#"] {
            let mut more = lines.to_vec();
            more.insert(at, comment);
            assert_eq!(kinds(&(more.join("\n") + "\n")), plain, "{} at {}", comment, at);
        }
    }
    // A backslash at the end of a comment, or of a line that does not lex, is no matter.
    assert_eq!(kinds("a # b\\\n# note\nc\n"), kinds("a # b\\\nc\n"));
    assert_eq!(kinds("# a\\\n  ## note\n\"s\"\n"), kinds("# a\\\n\"s\"\n"));
    assert!(lex("a \\\nb\n").is_err() && lex("a \\\n# note\nb\n").is_err());
    // Behind a backslash a string of an interpolation can go on, and there the line is
    // no comment.
    assert!(lex("\"{x # \"\\\n y # \" }\"\n").is_ok());
    assert!(lex("\"{x # \"\\\n# note\n y # \" }\"\n").is_err());
}

#[test]
fn indentation_goes_back_to_an_open_block() {
    let dedents = |src: &str| kinds(src).iter().filter(|k| **k == TokenKind::Dedent).count();
    assert_eq!(dedents("a:\n  b:\n      c:\n       d\ne\n"), 3);
    assert_eq!(dedents("a:\n  b:\n      c\n  d\ne\n"), 2);
    assert_eq!(
        lex_error("a:\n    b\n  c\n").0,
        "inconsistent indentation: does not match any enclosing block level"
    );
    assert!(lex("a:\n  b:\n      c\n    d\n").is_err());
}
