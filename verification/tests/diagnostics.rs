//! Diagnostics and how they are rendered.

use adder::error::{render_all, Diagnostic, Phase};
use adder::token::Span;

fn at(start: usize, end: usize, line: usize, col: usize) -> Span {
    Span { start, end, line, col }
}

#[test]
fn constructors_set_the_phase() {
    let span = at(1, 2, 3, 4);
    let all = [
        (Diagnostic::lex("m".to_string(), span), Phase::Lex, "lex error"),
        (Diagnostic::parse("m".to_string(), span), Phase::Parse, "parse error"),
        (Diagnostic::check("m".to_string(), span), Phase::Check, "check error"),
        (Diagnostic::runtime("m".to_string(), span), Phase::Runtime, "runtime error"),
    ];
    for (d, phase, label) in all {
        assert_eq!(d, Diagnostic::new(phase, "m".to_string(), span));
        assert_eq!(d.phase.label(), label);
        assert_eq!(d.clone(), d);
    }
}

#[test]
fn a_caret_underlines_the_span() {
    let src = "x = 1\ny = 2\n    if ready\n";
    let d = Diagnostic::parse("expected ':' after condition".to_string(), at(19, 24, 3, 8));
    assert_eq!(
        d.render(src),
        "parse error: expected ':' after condition
 --> line 3, col 8
  |
3 |     if ready
  |        ^^^^^
"
    );
}

#[test]
fn the_underline_stays_on_its_line() {
    let src = "ab\r\ncdefg\nlast";
    let long = Diagnostic::runtime("m".to_string(), at(0, 100, 2, 4));
    assert_eq!(
        long.render(src),
        "runtime error: m\n --> line 2, col 4\n  |\n2 | cdefg\n  |    ^^\n"
    );
    let first = Diagnostic::runtime("m".to_string(), at(0, 1, 1, 1));
    assert_eq!(
        first.render(src),
        "runtime error: m\n --> line 1, col 1\n  |\n1 | ab\n  | ^\n"
    );
    let empty = Diagnostic::runtime("m".to_string(), at(5, 5, 2, 1));
    assert_eq!(
        empty.render(src),
        "runtime error: m\n --> line 2, col 1\n  |\n2 | cdefg\n  | ^\n"
    );
}

#[test]
fn the_underline_counts_characters() {
    let src = "λ = \"日本\" + x\n";
    let one = Diagnostic::runtime("m".to_string(), at(0, 2, 1, 1));
    assert_eq!(
        one.render(src),
        "runtime error: m\n --> line 1, col 1\n  |\n1 | λ = \"日本\" + x\n  | ^\n"
    );
    let text = Diagnostic::runtime("m".to_string(), at(5, 13, 1, 5));
    assert_eq!(
        text.render(src),
        "runtime error: m\n --> line 1, col 5\n  |\n1 | λ = \"日本\" + x\n  |     ^^^^\n"
    );
}

#[test]
fn spans_outside_the_source_still_render() {
    let nowhere = Diagnostic::runtime("m".to_string(), Span::dummy());
    assert_eq!(
        nowhere.render("abc"),
        "runtime error: m\n --> line 1, col 1\n  |\n1 | abc\n  | ^\n"
    );
    let behind = Diagnostic::check("m".to_string(), at(0, 3, 12, 2));
    assert_eq!(
        behind.render("abc"),
        "check error: m\n --> line 12, col 2\n   |\n12 | \n   |  ^\n"
    );
}

#[test]
fn several_are_separated_by_blank_lines() {
    let a = Diagnostic::check("a".to_string(), at(0, 1, 1, 1));
    let b = Diagnostic::check("b".to_string(), at(1, 2, 1, 2));
    assert_eq!(
        render_all(&vec![a.clone(), b.clone()], "xy"),
        format!("{}\n{}", a.render("xy"), b.render("xy"))
    );
    assert_eq!(render_all(&vec![], "xy"), "");
}
