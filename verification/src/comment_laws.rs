//! Laws of comments: a line that is only a comment changes no token.

use crate::error::{lex_diag, DiagnosticView};
use crate::integer::digits_value;
use crate::lexer::{
    ahead, blocks_closed, capped, continues_name, dedented, depth_after, doc_line, escaped,
    finished, flushed, indented, interpolation_lexed, is_digit, keyword_of, laid_out, lexed,
    line_lexed, lines_lexed, name_lexed, number_lexed, onward, operator_at, operator_lexed,
    past_blanks, past_comment, past_comment_line, past_digits, past_name, past_nested, starting,
    starts_name, string_rest, to_close, token_lexed, without_seps, Lexing, Mark,
};
use crate::source_places::{law_next_place, mark_at};
use crate::token::{KindView, PartView, Span, TokenKind, TokenView};
use vstd::prelude::*;

verus! {

// ---------------------------------------------------------------------------
// Tokens of one kind
// ---------------------------------------------------------------------------

/// Whether two parts are texts that are equal, or interpolations of one length.
pub open spec fn same_shape(p: PartView, q: PartView) -> bool {
    match (p, q) {
        (PartView::Text(s), PartView::Text(t)) => s == t,
        (PartView::Interp(xs), PartView::Interp(ys)) => xs.len() == ys.len(),
        _ => false,
    }
}

/// Whether two tokens are of one kind, and so are those of their interpolations.
/// Where they stand and what comments they carry does not matter.
pub open spec fn alike(a: TokenView, b: TokenView) -> bool
    decreases a,
{
    match (a.kind, b.kind) {
        (KindView::Str(ps), KindView::Str(qs)) => {
            &&& ps.len() == qs.len()
            &&& forall|i: int| 0 <= i < ps.len() ==> same_shape(#[trigger] ps[i], qs[i])
            &&& forall|i: int, j: int|
                #![trigger ps[i]->Interp_0[j]]
                0 <= i < ps.len() && ps[i] is Interp && 0 <= j < ps[i]->Interp_0.len() ==> alike(
                    ps[i]->Interp_0[j],
                    qs[i]->Interp_0[j],
                )
        },
        _ => a.kind == b.kind,
    }
}

/// Whether two token sequences are of the same kinds.
pub open spec fn all_alike(xs: Seq<TokenView>, ys: Seq<TokenView>) -> bool {
    xs.len() == ys.len() && forall|i: int|
        0 <= i < xs.len() ==> alike(#[trigger] xs[i], ys[i])
}

spec fn parts_alike(ps: Seq<PartView>, qs: Seq<PartView>) -> bool {
    &&& ps.len() == qs.len()
    &&& forall|i: int| 0 <= i < ps.len() ==> same_shape(#[trigger] ps[i], qs[i])
    &&& forall|i: int|
        0 <= i < ps.len() && (#[trigger] ps[i]) is Interp ==> all_alike(
            ps[i]->Interp_0,
            qs[i]->Interp_0,
        )
}

spec fn kinds_alike(a: KindView, b: KindView) -> bool {
    match (a, b) {
        (KindView::Str(ps), KindView::Str(qs)) => parts_alike(ps, qs),
        _ => a == b,
    }
}

proof fn tokens_alike(a: TokenView, b: TokenView)
    requires
        kinds_alike(a.kind, b.kind),
    ensures
        alike(a, b),
{
    if let (KindView::Str(ps), KindView::Str(qs)) = (a.kind, b.kind) {
        assert forall|i: int, j: int|
            #![trigger ps[i]->Interp_0[j]]
            0 <= i < ps.len() && ps[i] is Interp && 0 <= j < ps[i]->Interp_0.len() implies alike(
            ps[i]->Interp_0[j],
            qs[i]->Interp_0[j],
        ) by {
            assert(all_alike(ps[i]->Interp_0, qs[i]->Interp_0));
        }
    }
}

// ---------------------------------------------------------------------------
// The same characters ahead
// ---------------------------------------------------------------------------

/// Whether two lexers have the same characters ahead, the second `d` places
/// further on, and agree in all but where they are and which doc comment is above.
spec fn sim(d: int, src: Seq<char>, l: Lexing, src2: Seq<char>, l2: Lexing) -> bool {
    &&& d >= 0
    &&& l.i <= src.len()
    &&& l2.i == l.i + d
    &&& src2.len() == src.len() + d
    &&& forall|k: int| l.i <= k < src.len() ==> #[trigger] src[k] == src2[k + d]
    &&& l.indents == l2.indents
    &&& l.depth == l2.depth
    &&& l.inline == l2.inline
    &&& all_alike(l.out, l2.out)
}

/// The same of two lexers that may have stopped.
spec fn both(
    d: int,
    src: Seq<char>,
    r: Result<Lexing, DiagnosticView>,
    src2: Seq<char>,
    r2: Result<Lexing, DiagnosticView>,
) -> bool {
    match (r, r2) {
        (Ok(l), Ok(l2)) => sim(d, src, l, src2, l2),
        (Err(_), Err(_)) => true,
        _ => false,
    }
}

/// Whether two lexers that are done gave the same kinds of tokens.
spec fn done_alike(r: Result<Lexing, DiagnosticView>, r2: Result<Lexing, DiagnosticView>) -> bool {
    match (r, r2) {
        (Ok(l), Ok(l2)) => all_alike(l.out, l2.out),
        (Err(_), Err(_)) => true,
        _ => false,
    }
}

proof fn bump_sim(d: int, src: Seq<char>, l: Lexing, src2: Seq<char>, l2: Lexing)
    requires
        sim(d, src, l, src2, l2),
    ensures
        sim(d, src, l.bumped(src), src2, l2.bumped(src2)),
        l.i < src.len() ==> src[l.i as int] == src2[l2.i as int],
        ahead(src, l, 0) == ahead(src2, l2, 0),
        ahead(src, l, 1) == ahead(src2, l2, 1),
        ahead(src, l, 2) == ahead(src2, l2, 2),
{
    assert(l.i + 1 < src.len() ==> src[(l.i + 1) as int] == src2[l.i + 1 + d]);
    assert(l.i + 2 < src.len() ==> src[(l.i + 2) as int] == src2[l.i + 2 + d]);
}

proof fn push_sim(
    d: int,
    src: Seq<char>,
    l: Lexing,
    src2: Seq<char>,
    l2: Lexing,
    kind: KindView,
    kind2: KindView,
    span: Span,
    span2: Span,
)
    requires
        sim(d, src, l, src2, l2),
        kinds_alike(kind, kind2),
    ensures
        sim(d, src, l.pushed(kind, span), src2, l2.pushed(kind2, span2)),
{
    let (xs, ys) = (l.pushed(kind, span).out, l2.pushed(kind2, span2).out);
    assert forall|i: int| 0 <= i < xs.len() implies alike(#[trigger] xs[i], ys[i]) by {
        if i < l.out.len() {
            assert(xs[i] == l.out[i] && ys[i] == l2.out[i]);
        } else {
            tokens_alike(xs[i], ys[i]);
        }
    }
}

proof fn comment_sim(d: int, src: Seq<char>, l: Lexing, src2: Seq<char>, l2: Lexing)
    requires
        sim(d, src, l, src2, l2),
    ensures
        sim(d, src, past_comment(src, l), src2, past_comment(src2, l2)),
    decreases src.len() - l.i,
{
    bump_sim(d, src, l, src2, l2);
    if l.i < src.len() && src[l.i as int] != '\n' {
        comment_sim(d, src, l.bumped(src), src2, l2.bumped(src2));
    }
}

proof fn doc_line_sim(
    d: int,
    src: Seq<char>,
    l: Lexing,
    src2: Seq<char>,
    l2: Lexing,
    text: Seq<char>,
)
    requires
        sim(d, src, l, src2, l2),
    ensures
        sim(d, src, doc_line(src, l, text).1, src2, doc_line(src2, l2, text).1),
    decreases src.len() - l.i,
{
    bump_sim(d, src, l, src2, l2);
    if l.i < src.len() {
        doc_line_sim(
            d,
            src,
            l.bumped(src),
            src2,
            l2.bumped(src2),
            text.push(src[l.i as int]),
        );
    }
}

proof fn comment_line_sim(d: int, src: Seq<char>, l: Lexing, src2: Seq<char>, l2: Lexing)
    requires
        sim(d, src, l, src2, l2),
    ensures
        sim(d, src, past_comment_line(src, l), src2, past_comment_line(src2, l2)),
{
    bump_sim(d, src, l, src2, l2);
    comment_sim(d, src, l, src2, l2);
    let (a, a2) = (l.bumped(src), l2.bumped(src2));
    bump_sim(d, src, a, src2, a2);
    let (b, b2) = (a.bumped(src), a2.bumped(src2));
    bump_sim(d, src, b, src2, b2);
    doc_line_sim(d, src, b, src2, b2, Seq::empty());
    doc_line_sim(d, src, b.bumped(src), src2, b2.bumped(src2), Seq::empty());
}

proof fn blanks_sim(d: int, src: Seq<char>, l: Lexing, src2: Seq<char>, l2: Lexing)
    requires
        sim(d, src, l, src2, l2),
    ensures
        sim(d, src, past_blanks(src, l), src2, past_blanks(src2, l2)),
    decreases src.len() - l.i,
{
    bump_sim(d, src, l, src2, l2);
    if l.i < src.len() {
        let (a, a2) = (l.bumped(src), l2.bumped(src2));
        if src[l.i as int] == '#' {
            comment_sim(d, src, a, src2, a2);
            if onward(src, l, past_comment(src, a)) {
                blanks_sim(d, src, past_comment(src, a), src2, past_comment(src2, a2));
            }
        } else {
            blanks_sim(d, src, a, src2, a2);
        }
    }
}

/// The start of a line, in both.
spec fn starts_alike(
    d: int,
    src: Seq<char>,
    r: Result<(Option<usize>, Lexing), DiagnosticView>,
    src2: Seq<char>,
    r2: Result<(Option<usize>, Lexing), DiagnosticView>,
) -> bool {
    match (r, r2) {
        (Ok((w, l)), Ok((w2, l2))) => w == w2 && sim(d, src, l, src2, l2),
        (Err(_), Err(_)) => true,
        _ => false,
    }
}

proof fn indented_sim(
    d: int,
    src: Seq<char>,
    l: Lexing,
    src2: Seq<char>,
    l2: Lexing,
    width: usize,
)
    requires
        sim(d, src, l, src2, l2),
    ensures
        starts_alike(d, src, indented(src, l, width), src2, indented(src2, l2, width)),
    decreases src.len() - l.i,
{
    bump_sim(d, src, l, src2, l2);
    if l.i < src.len() {
        let c = src[l.i as int];
        if c == ' ' {
            indented_sim(d, src, l.bumped(src), src2, l2.bumped(src2), capped(width, 1));
        } else if c == '\r' {
            indented_sim(d, src, l.bumped(src), src2, l2.bumped(src2), width);
        } else if c == '#' {
            comment_line_sim(d, src, l, src2, l2);
            let (a, a2) = (past_comment_line(src, l), past_comment_line(src2, l2));
            bump_sim(d, src, a, src2, a2);
        }
    }
}

proof fn dedent_sim(d: int, src: Seq<char>, l: Lexing, src2: Seq<char>, l2: Lexing)
    requires
        sim(d, src, l, src2, l2),
    ensures
        ({
            let kind = KindView::Plain(TokenKind::Dedent);
            let a = (Lexing { indents: l.indents.drop_last(), ..l }).pushed(kind, l.here());
            let a2 = (Lexing { indents: l2.indents.drop_last(), ..l2 }).pushed(kind, l2.here());
            sim(d, src, a, src2, a2)
        }),
{
    let kind = KindView::Plain(TokenKind::Dedent);
    let a = Lexing { indents: l.indents.drop_last(), ..l };
    let a2 = Lexing { indents: l2.indents.drop_last(), ..l2 };
    push_sim(d, src, a, src2, a2, kind, kind, l.here(), l2.here());
}

proof fn dedented_sim(
    d: int,
    src: Seq<char>,
    l: Lexing,
    src2: Seq<char>,
    l2: Lexing,
    width: usize,
)
    requires
        sim(d, src, l, src2, l2),
    ensures
        sim(d, src, dedented(l, width), src2, dedented(l2, width)),
    decreases l.indents.len(),
{
    if l.indents.len() > 0 && l.indents.last() > width {
        dedent_sim(d, src, l, src2, l2);
        let kind = KindView::Plain(TokenKind::Dedent);
        let a = (Lexing { indents: l.indents.drop_last(), ..l }).pushed(kind, l.here());
        let a2 = (Lexing { indents: l2.indents.drop_last(), ..l2 }).pushed(kind, l2.here());
        dedented_sim(d, src, a, src2, a2, width);
    }
}

proof fn laid_out_sim(
    d: int,
    src: Seq<char>,
    l: Lexing,
    src2: Seq<char>,
    l2: Lexing,
    width: usize,
)
    requires
        sim(d, src, l, src2, l2),
    ensures
        both(d, src, laid_out(l, width), src2, laid_out(l2, width)),
{
    if width > l.indent() {
        let kind = KindView::Plain(TokenKind::Indent);
        let a = Lexing { indents: l.indents.push(width), ..l };
        let a2 = Lexing { indents: l2.indents.push(width), ..l2 };
        push_sim(d, src, a, src2, a2, kind, kind, l.here(), l2.here());
    } else if width < l.indent() {
        dedented_sim(d, src, l, src2, l2, width);
    }
}

proof fn closed_sim(d: int, src: Seq<char>, l: Lexing, src2: Seq<char>, l2: Lexing)
    requires
        sim(d, src, l, src2, l2),
    ensures
        sim(d, src, blocks_closed(l), src2, blocks_closed(l2)),
    decreases l.indents.len(),
{
    if l.indents.len() > 1 {
        dedent_sim(d, src, l, src2, l2);
        let kind = KindView::Plain(TokenKind::Dedent);
        let a = (Lexing { indents: l.indents.drop_last(), ..l }).pushed(kind, l.here());
        let a2 = (Lexing { indents: l2.indents.drop_last(), ..l2 }).pushed(kind, l2.here());
        closed_sim(d, src, a, src2, a2);
    }
}

proof fn finished_sim(
    d: int,
    src: Seq<char>,
    l: Lexing,
    src2: Seq<char>,
    l2: Lexing,
    produced: bool,
)
    requires
        sim(d, src, l, src2, l2),
    ensures
        all_alike(finished(l, produced).out, finished(l2, produced).out),
{
    let newline = KindView::Plain(TokenKind::Newline);
    let eof = KindView::Plain(TokenKind::Eof);
    if l.out.len() > 0 {
        let n = l.out.len() - 1;
        assert(alike(l.out[n], l2.out[n]));
    }
    let ended = l.out.len() > 0 && l.out.last().kind == newline;
    assert(ended == (l2.out.len() > 0 && l2.out.last().kind == newline));
    push_sim(d, src, l, src2, l2, newline, newline, l.here(), l2.here());
    let (a, a2) = if produced && !ended {
        (l.pushed(newline, l.here()), l2.pushed(newline, l2.here()))
    } else {
        (l, l2)
    };
    closed_sim(d, src, a, src2, a2);
    let (b, b2) = if l.inline {
        (l, l2)
    } else {
        (blocks_closed(a), blocks_closed(a2))
    };
    push_sim(d, src, b, src2, b2, eof, eof, b.here(), b2.here());
}

proof fn name_end_sim(d: int, src: Seq<char>, l: Lexing, src2: Seq<char>, l2: Lexing)
    requires
        sim(d, src, l, src2, l2),
    ensures
        sim(d, src, past_name(src, l), src2, past_name(src2, l2)),
        l.i <= past_name(src, l).i,
    decreases src.len() - l.i,
{
    bump_sim(d, src, l, src2, l2);
    if l.i < src.len() && continues_name(src[l.i as int]) {
        name_end_sim(d, src, l.bumped(src), src2, l2.bumped(src2));
    }
}

/// The characters between two places are the same in both.
proof fn same_between(
    d: int,
    src: Seq<char>,
    l: Lexing,
    src2: Seq<char>,
    l2: Lexing,
    end: nat,
)
    requires
        sim(d, src, l, src2, l2),
        l.i <= end <= src.len(),
    ensures
        src.subrange(l.i as int, end as int) == src2.subrange(l2.i as int, end + d),
{
    let (a, b) = (src.subrange(l.i as int, end as int), src2.subrange(l2.i as int, end + d));
    assert forall|k: int| 0 <= k < a.len() implies a[k] == b[k] by {
        assert(src[l.i + k] == src2[l.i + k + d]);
    }
    assert(a =~= b);
}

proof fn name_sim(d: int, src: Seq<char>, l: Lexing, src2: Seq<char>, l2: Lexing)
    requires
        sim(d, src, l, src2, l2),
    ensures
        sim(d, src, name_lexed(src, l), src2, name_lexed(src2, l2)),
{
    name_end_sim(d, src, l, src2, l2);
    let (a, a2) = (past_name(src, l), past_name(src2, l2));
    same_between(d, src, l, src2, l2, a.i);
    let text = src.subrange(l.i as int, a.i as int);
    let kind = match keyword_of(text) {
        Some(k) => KindView::Plain(k),
        None => KindView::Name(text),
    };
    push_sim(d, src, a, src2, a2, kind, kind, a.since(l.mark()), a2.since(l2.mark()));
}

proof fn digits_sim(
    d: int,
    src: Seq<char>,
    l: Lexing,
    src2: Seq<char>,
    l2: Lexing,
    sep: bool,
)
    requires
        sim(d, src, l, src2, l2),
    ensures
        sim(d, src, past_digits(src, l, sep).0, src2, past_digits(src2, l2, sep).0),
        past_digits(src, l, sep).1 == past_digits(src2, l2, sep).1,
        l.i <= past_digits(src, l, sep).0.i,
    decreases src.len() - l.i,
{
    bump_sim(d, src, l, src2, l2);
    if l.i < src.len() {
        let c = src[l.i as int];
        if is_digit(c) || c == '_' {
            digits_sim(d, src, l.bumped(src), src2, l2.bumped(src2), c == '_');
        }
    }
}

proof fn number_sim(d: int, src: Seq<char>, l: Lexing, src2: Seq<char>, l2: Lexing)
    requires
        sim(d, src, l, src2, l2),
    ensures
        both(d, src, number_lexed(src, l), src2, number_lexed(src2, l2)),
{
    let (m, m2) = (l.mark(), l2.mark());
    digits_sim(d, src, l, src2, l2, false);
    let (a, a2) = (past_digits(src, l, false).0, past_digits(src2, l2, false).0);
    bump_sim(d, src, a, src2, a2);
    same_between(d, src, l, src2, l2, a.i);
    let raw = src.subrange(l.i as int, a.i as int);
    let short = KindView::Int(digits_value(without_seps(raw)) as int);
    push_sim(d, src, a, src2, a2, short, short, a.since(m), a2.since(m2));
    let (b, b2) = (a.bumped(src), a2.bumped(src2));
    digits_sim(d, src, b, src2, b2, false);
    let (e, e2) = (past_digits(src, b, false).0, past_digits(src2, b2, false).0);
    same_between(d, src, l, src2, l2, e.i);
    let long = KindView::Float(without_seps(src.subrange(l.i as int, e.i as int)));
    push_sim(d, src, e, src2, e2, long, long, e.since(m), e2.since(m2));
}

proof fn bumped_by_sim(d: int, src: Seq<char>, l: Lexing, src2: Seq<char>, l2: Lexing, n: nat)
    requires
        sim(d, src, l, src2, l2),
    ensures
        sim(d, src, l.bumped_by(src, n), src2, l2.bumped_by(src2, n)),
    decreases n,
{
    if n > 0 {
        bump_sim(d, src, l, src2, l2);
        bumped_by_sim(d, src, l.bumped(src), src2, l2.bumped(src2), (n - 1) as nat);
    }
}

proof fn operator_sim(d: int, src: Seq<char>, l: Lexing, src2: Seq<char>, l2: Lexing)
    requires
        sim(d, src, l, src2, l2),
        l.i < src.len(),
    ensures
        both(d, src, operator_lexed(src, l), src2, operator_lexed(src2, l2)),
{
    bump_sim(d, src, l, src2, l2);
    if let Some(op) = operator_at(src[l.i as int], ahead(src, l, 1), ahead(src, l, 2)) {
        let a = Lexing { depth: depth_after(l.depth, op), ..l };
        let a2 = Lexing { depth: depth_after(l2.depth, op), ..l2 };
        bumped_by_sim(d, src, a, src2, a2, op.len);
        let (b, b2) = (a.bumped_by(src, op.len), a2.bumped_by(src2, op.len));
        let kind = KindView::Plain(op.kind);
        push_sim(d, src, b, src2, b2, kind, kind, b.since(l.mark()), b2.since(l2.mark()));
    }
}

proof fn nested_sim(
    d: int,
    src: Seq<char>,
    l: Lexing,
    m: Mark,
    src2: Seq<char>,
    l2: Lexing,
    m2: Mark,
)
    requires
        sim(d, src, l, src2, l2),
    ensures
        both(d, src, past_nested(src, l, m), src2, past_nested(src2, l2, m2)),
    decreases src.len() - l.i,
{
    bump_sim(d, src, l, src2, l2);
    if l.i < src.len() {
        let (a, a2) = (l.bumped(src), l2.bumped(src2));
        nested_sim(d, src, a, m, src2, a2, m2);
        if a.i < src.len() {
            bump_sim(d, src, a, src2, a2);
            nested_sim(d, src, a.bumped(src), m, src2, a2.bumped(src2), m2);
        }
    }
}

proof fn close_sim(
    d: int,
    src: Seq<char>,
    l: Lexing,
    m: Mark,
    src2: Seq<char>,
    l2: Lexing,
    m2: Mark,
    depth: usize,
)
    requires
        sim(d, src, l, src2, l2),
    ensures
        both(d, src, to_close(src, l, m, depth), src2, to_close(src2, l2, m2, depth)),
    decreases src.len() - l.i,
{
    bump_sim(d, src, l, src2, l2);
    if l.i < src.len() {
        let (a, a2) = (l.bumped(src), l2.bumped(src2));
        let c = src[l.i as int];
        if c == '}' || c == ')' || c == ']' {
            let less: usize = if depth > 0 {
                (depth - 1) as usize
            } else {
                0
            };
            close_sim(d, src, a, m, src2, a2, m2, less);
        } else if c == '{' || c == '(' || c == '[' {
            close_sim(d, src, a, m, src2, a2, m2, capped(depth, 1));
        } else if c == '"' {
            nested_sim(d, src, a, m, src2, a2, m2);
            if let (Ok(b), Ok(b2)) = (past_nested(src, a, m), past_nested(src2, a2, m2)) {
                if onward(src, l, b) {
                    close_sim(d, src, b, m, src2, b2, m2, depth);
                }
            }
        } else {
            close_sim(d, src, a, m, src2, a2, m2, depth);
        }
    }
}

/// An interpolation, in both.
spec fn interps_alike(
    d: int,
    src: Seq<char>,
    r: Result<(Seq<TokenView>, Lexing), DiagnosticView>,
    src2: Seq<char>,
    r2: Result<(Seq<TokenView>, Lexing), DiagnosticView>,
) -> bool {
    match (r, r2) {
        (Ok((xs, l)), Ok((ys, l2))) => all_alike(xs, ys) && sim(d, src, l, src2, l2),
        (Err(_), Err(_)) => true,
        _ => false,
    }
}

proof fn interpolation_sim(
    d: int,
    src: Seq<char>,
    l: Lexing,
    m: Mark,
    src2: Seq<char>,
    l2: Lexing,
    m2: Mark,
)
    requires
        sim(d, src, l, src2, l2),
    ensures
        interps_alike(
            d,
            src,
            interpolation_lexed(src, l, m),
            src2,
            interpolation_lexed(src2, l2, m2),
        ),
    decreases src.len(), src.len() - l.i, 0nat,
{
    bump_sim(d, src, l, src2, l2);
    let (a, a2) = (l.bumped(src), l2.bumped(src2));
    close_sim(d, src, a, m, src2, a2, m2, 0);
    if let (Ok(b), Ok(b2)) = (to_close(src, a, m, 0), to_close(src2, a2, m2, 0)) {
        bump_sim(d, src, b, src2, b2);
        if onward(src, l, a) && a.i <= b.i <= src.len() {
            same_between(d, src, a, src2, a2, b.i);
            let inner = src.subrange(a.i as int, b.i as int);
            let s = starting(a.at.pos, a.at.line, a.at.col, true);
            let s2 = starting(a2.at.pos, a2.at.line, a2.at.col, true);
            assert(sim(0, inner, s, inner, s2));
            lines_sim(0, inner, s, inner, s2, false);
        }
    }
}

/// The rest of a string, in both.
spec fn strings_alike(
    d: int,
    src: Seq<char>,
    r: Result<(Seq<PartView>, Lexing), DiagnosticView>,
    src2: Seq<char>,
    r2: Result<(Seq<PartView>, Lexing), DiagnosticView>,
) -> bool {
    match (r, r2) {
        (Ok((ps, l)), Ok((qs, l2))) => parts_alike(ps, qs) && sim(d, src, l, src2, l2),
        (Err(_), Err(_)) => true,
        _ => false,
    }
}

proof fn string_sim(
    d: int,
    src: Seq<char>,
    l: Lexing,
    m: Mark,
    src2: Seq<char>,
    l2: Lexing,
    m2: Mark,
    ps: Seq<PartView>,
    qs: Seq<PartView>,
    text: Seq<char>,
)
    requires
        sim(d, src, l, src2, l2),
        parts_alike(ps, qs),
    ensures
        strings_alike(
            d,
            src,
            string_rest(src, l, m, ps, text),
            src2,
            string_rest(src2, l2, m2, qs, text),
        ),
    decreases src.len(), src.len() - l.i, 1nat,
{
    bump_sim(d, src, l, src2, l2);
    assert(parts_alike(flushed(ps, text), flushed(qs, text)));
    if l.i < src.len() {
        let (a, a2) = (l.bumped(src), l2.bumped(src2));
        bump_sim(d, src, a, src2, a2);
        let (b, b2) = (a.bumped(src), a2.bumped(src2));
        let c = src[l.i as int];
        let next = ahead(src, l, 1);
        if c == '\n' || c == '"' {
        } else if c == '\\' {
            if let Some(e) = next {
                if let Some(r) = escaped(e) {
                    string_sim(d, src, b, m, src2, b2, m2, ps, qs, text.push(r));
                }
            }
        } else if (c == '{' || c == '}') && next == Some(c) {
            string_sim(d, src, b, m, src2, b2, m2, ps, qs, text.push(c));
        } else if c == '{' {
            interpolation_sim(d, src, l, m, src2, l2, m2);
            if let (Ok((xs, e)), Ok((ys, e2))) = (
                interpolation_lexed(src, l, m),
                interpolation_lexed(src2, l2, m2),
            ) {
                if onward(src, l, e) {
                    let more = flushed(ps, text).push(PartView::Interp(xs));
                    let more2 = flushed(qs, text).push(PartView::Interp(ys));
                    assert(parts_alike(more, more2));
                    string_sim(d, src, e, m, src2, e2, m2, more, more2, Seq::empty());
                }
            }
        } else if c != '}' {
            string_sim(d, src, a, m, src2, a2, m2, ps, qs, text.push(c));
        }
    }
}

proof fn token_sim(d: int, src: Seq<char>, l: Lexing, src2: Seq<char>, l2: Lexing)
    requires
        sim(d, src, l, src2, l2),
        l.i < src.len(),
    ensures
        both(d, src, token_lexed(src, l), src2, token_lexed(src2, l2)),
    decreases src.len(), src.len() - l.i, 2nat,
{
    bump_sim(d, src, l, src2, l2);
    let c = src[l.i as int];
    if starts_name(c) {
        name_sim(d, src, l, src2, l2);
    } else if is_digit(c) {
        number_sim(d, src, l, src2, l2);
    } else if c == '"' {
        let (m, m2) = (l.mark(), l2.mark());
        let (a, a2) = (l.bumped(src), l2.bumped(src2));
        let none = Seq::<PartView>::empty();
        string_sim(d, src, a, m, src2, a2, m2, none, none, Seq::empty());
        if let (Ok((ps, b)), Ok((qs, b2))) = (
            string_rest(src, a, m, none, Seq::empty()),
            string_rest(src2, a2, m2, none, Seq::empty()),
        ) {
            let (kind, kind2) = (KindView::Str(ps), KindView::Str(qs));
            push_sim(d, src, b, src2, b2, kind, kind2, b.since(m), b2.since(m2));
        }
    } else {
        operator_sim(d, src, l, src2, l2);
    }
}

/// A line, in both.
spec fn lines_alike(
    d: int,
    src: Seq<char>,
    r: Result<(bool, Lexing), DiagnosticView>,
    src2: Seq<char>,
    r2: Result<(bool, Lexing), DiagnosticView>,
) -> bool {
    match (r, r2) {
        (Ok((p, l)), Ok((p2, l2))) => p == p2 && sim(d, src, l, src2, l2),
        (Err(_), Err(_)) => true,
        _ => false,
    }
}

proof fn line_sim(
    d: int,
    src: Seq<char>,
    l: Lexing,
    src2: Seq<char>,
    l2: Lexing,
    produced: bool,
)
    requires
        sim(d, src, l, src2, l2),
    ensures
        lines_alike(
            d,
            src,
            line_lexed(src, l, produced),
            src2,
            line_lexed(src2, l2, produced),
        ),
    decreases src.len(), src.len() - l.i, 3nat,
{
    bump_sim(d, src, l, src2, l2);
    if l.i < src.len() {
        let (a, a2) = (l.bumped(src), l2.bumped(src2));
        let c = src[l.i as int];
        if c == '\n' {
            if a.depth == 0 {
                let kind = KindView::Plain(TokenKind::Newline);
                push_sim(d, src, a, src2, a2, kind, kind, a.here(), a2.here());
            } else {
                blanks_sim(d, src, a, src2, a2);
                let (b, b2) = (past_blanks(src, a), past_blanks(src2, a2));
                if onward(src, l, b) {
                    line_sim(d, src, b, src2, b2, produced);
                }
            }
        } else if c == '\r' || c == ' ' || c == '\t' {
            line_sim(d, src, a, src2, a2, produced);
        } else if c == '#' {
            comment_sim(d, src, a, src2, a2);
            let (b, b2) = (past_comment(src, a), past_comment(src2, a2));
            if onward(src, l, b) {
                line_sim(d, src, b, src2, b2, produced);
            }
        } else {
            token_sim(d, src, l, src2, l2);
            if let (Ok(b), Ok(b2)) = (token_lexed(src, l), token_lexed(src2, l2)) {
                if onward(src, l, b) {
                    line_sim(d, src, b, src2, b2, true);
                }
            }
        }
    }
}

proof fn lines_sim(
    d: int,
    src: Seq<char>,
    l: Lexing,
    src2: Seq<char>,
    l2: Lexing,
    produced: bool,
)
    requires
        sim(d, src, l, src2, l2),
    ensures
        done_alike(lines_lexed(src, l, produced), lines_lexed(src2, l2, produced)),
    decreases src.len(), src.len() - l.i, 5nat,
{
    if l.depth == 0 && !l.inline {
        indented_sim(d, src, l, src2, l2, 0);
        if let (Ok((w, a)), Ok((_, a2))) = (indented(src, l, 0), indented(src2, l2, 0)) {
            if let Some(width) = w {
                laid_out_sim(d, src, a, src2, a2, width);
                if let (Ok(b), Ok(b2)) = (laid_out(a, width), laid_out(a2, width)) {
                    rest_sim(d, src, l, b, src2, l2, b2, produced);
                }
            } else if a.i >= src.len() {
                finished_sim(d, src, a, src2, a2, produced);
            } else if onward(src, l, a) {
                lines_sim(d, src, a, src2, a2, produced);
            }
        }
    } else {
        rest_sim(d, src, l, l, src2, l2, l2, produced);
    }
}

/// A line behind its indentation, and the lines below it.
spec fn lines_from(src: Seq<char>, l: Lexing, l1: Lexing, produced: bool) -> Result<
    Lexing,
    DiagnosticView,
> {
    if l1.i != l.i && !onward(src, l, l1) {
        Ok(l1)
    } else {
        match line_lexed(src, l1, false) {
            Err(d) => Err(d),
            Ok((content, l2)) => if l2.i >= src.len() {
                Ok(finished(l2, produced || content))
            } else if onward(src, l, l2) {
                lines_lexed(src, l2, produced || content)
            } else {
                Ok(l2)
            },
        }
    }
}

proof fn rest_sim(
    d: int,
    src: Seq<char>,
    l: Lexing,
    a: Lexing,
    src2: Seq<char>,
    l2: Lexing,
    a2: Lexing,
    produced: bool,
)
    requires
        l2.i == l.i + d,
        l.i <= src.len(),
        sim(d, src, a, src2, a2),
    ensures
        done_alike(lines_from(src, l, a, produced), lines_from(src2, l2, a2, produced)),
    decreases src.len(), src.len() - l.i, 4nat,
{
    if a.i == l.i || onward(src, l, a) {
        line_sim(d, src, a, src2, a2, false);
        if let (Ok((content, b)), Ok((_, b2))) = (
            line_lexed(src, a, false),
            line_lexed(src2, a2, false),
        ) {
            if b.i >= src.len() {
                finished_sim(d, src, b, src2, b2, produced || content);
            } else if onward(src, l, b) {
                lines_sim(d, src, b, src2, b2, produced || content);
            }
        }
    }
}

// ---------------------------------------------------------------------------
// The same characters behind
// ---------------------------------------------------------------------------

/// Whether a source, which ends with a line, goes on in another, where `p` is the
/// start of the next line.
spec fn shared(p: int, src: Seq<char>, src2: Seq<char>) -> bool {
    &&& 1 <= p == src.len()
    &&& p <= src2.len()
    &&& forall|k: int| 0 <= k < p ==> #[trigger] src[k] == src2[k]
    &&& src[p - 1] == '\n'
}

/// Whether a lexer knows its place in a source.
spec fn placed(src: Seq<char>, l: Lexing) -> bool {
    l.i <= src.len() && l.at == mark_at(src, l.i)
}

/// Whether a source ends inside a string of an interpolation, with a line end that
/// a backslash escapes: lexing it stops at its very end, for want of the end of such
/// a string.
pub open spec fn ends_in_nested(src: Seq<char>, d: DiagnosticView) -> bool {
    &&& src.len() >= 2 && src[src.len() - 2] == '\\'
    &&& d.message == "unterminated string inside interpolation"@
    &&& d.span.end == mark_at(src, src.len()).pos
}

/// Whether two steps end the same, before `p`, or the source ends inside a string
/// of an interpolation.
spec fn same_step(
    src: Seq<char>,
    l: Lexing,
    r: Result<Lexing, DiagnosticView>,
    r2: Result<Lexing, DiagnosticView>,
) -> bool {
    ||| r == r2 && (r matches Ok(l1) ==> l1.i < src.len() && l1.inline == l.inline && placed(
        src,
        l1,
    ))
    ||| r matches Err(d) && ends_in_nested(src, d)
}

proof fn bump_same(p: int, src: Seq<char>, src2: Seq<char>, l: Lexing)
    requires
        shared(p, src, src2),
        l.i < p,
        placed(src, l),
    ensures
        l.bumped(src) == l.bumped(src2),
        src[l.i as int] == src2[l.i as int],
        ahead(src, l, 0) == ahead(src2, l, 0),
        l.i + 1 < p ==> ahead(src, l, 1) == ahead(src2, l, 1),
        l.i + 2 < p ==> ahead(src, l, 2) == ahead(src2, l, 2),
        src[l.i as int] != '\n' ==> l.i + 1 < p,
        placed(src, l.bumped(src)),
{
    law_next_place(src, l.i);
    assert(l.i + 1 < p ==> src[(l.i + 1) as int] == src2[(l.i + 1) as int]);
    assert(l.i + 2 < p ==> src[(l.i + 2) as int] == src2[(l.i + 2) as int]);
}

proof fn comment_same(p: int, src: Seq<char>, src2: Seq<char>, l: Lexing)
    requires
        shared(p, src, src2),
        l.i < p,
        placed(src, l),
    ensures
        past_comment(src, l) == past_comment(src2, l),
        l.i <= past_comment(src, l).i < p,
        past_comment(src, l).inline == l.inline,
        placed(src, past_comment(src, l)),
    decreases src.len() - l.i,
{
    bump_same(p, src, src2, l);
    if src[l.i as int] != '\n' {
        comment_same(p, src, src2, l.bumped(src));
    }
}

proof fn doc_line_same(p: int, src: Seq<char>, src2: Seq<char>, l: Lexing, text: Seq<char>)
    requires
        shared(p, src, src2),
        l.i < p,
        placed(src, l),
    ensures
        doc_line(src, l, text) == doc_line(src2, l, text),
        l.i <= doc_line(src, l, text).1.i < p,
        placed(src, doc_line(src, l, text).1),
    decreases src.len() - l.i,
{
    bump_same(p, src, src2, l);
    if src[l.i as int] != '\n' {
        doc_line_same(p, src, src2, l.bumped(src), text.push(src[l.i as int]));
    }
}

proof fn comment_line_same(p: int, src: Seq<char>, src2: Seq<char>, l: Lexing)
    requires
        shared(p, src, src2),
        l.i < p,
        placed(src, l),
        src[l.i as int] == '#',
    ensures
        past_comment_line(src, l) == past_comment_line(src2, l),
        l.i <= past_comment_line(src, l).i < p,
        placed(src, past_comment_line(src, l)),
{
    bump_same(p, src, src2, l);
    comment_same(p, src, src2, l);
    if !l.inline && ahead(src, l, 1) == Some('#') {
        let a = l.bumped(src);
        bump_same(p, src, src2, a);
        let b = a.bumped(src);
        bump_same(p, src, src2, b);
        doc_line_same(p, src, src2, b, Seq::empty());
        if ahead(src, b, 0) == Some(' ') {
            doc_line_same(p, src, src2, b.bumped(src), Seq::empty());
        }
    }
}

proof fn indented_same(p: int, src: Seq<char>, src2: Seq<char>, l: Lexing, width: usize)
    requires
        shared(p, src, src2),
        l.i < p,
        placed(src, l),
    ensures
        indented(src, l, width) == indented(src2, l, width),
        match indented(src, l, width) {
            Err(_) => true,
            Ok((None, l1)) => l.i < l1.i <= p && l1.indents == l.indents && l1.depth == l.depth
                && l1.inline == l.inline && l1.out == l.out && placed(src, l1),
            Ok((Some(_), l1)) => l.i <= l1.i < p && l1.inline == l.inline && placed(src, l1),
        },
    decreases src.len() - l.i,
{
    bump_same(p, src, src2, l);
    let c = src[l.i as int];
    if c == ' ' {
        indented_same(p, src, src2, l.bumped(src), capped(width, 1));
    } else if c == '\r' {
        indented_same(p, src, src2, l.bumped(src), width);
    } else if c == '#' {
        comment_line_same(p, src, src2, l);
        comment_line_keeps(src, l);
        bump_same(p, src, src2, past_comment_line(src, l));
    }
}

proof fn comment_keeps(src: Seq<char>, l: Lexing)
    requires
        l.i <= src.len(),
    ensures
        past_comment(src, l) == (Lexing {
            i: past_comment(src, l).i,
            at: past_comment(src, l).at,
            ..l
        }),
        l.i <= past_comment(src, l).i <= src.len(),
        l.i < src.len() && src[l.i as int] != '\n' ==> l.i < past_comment(src, l).i,
    decreases src.len() - l.i,
{
    if l.i < src.len() && src[l.i as int] != '\n' {
        comment_keeps(src, l.bumped(src));
    }
}

proof fn doc_line_keeps(src: Seq<char>, l: Lexing, text: Seq<char>)
    requires
        l.i <= src.len(),
    ensures
        doc_line(src, l, text).1 == (Lexing {
            i: doc_line(src, l, text).1.i,
            at: doc_line(src, l, text).1.at,
            ..l
        }),
        l.i <= doc_line(src, l, text).1.i <= src.len(),
    decreases src.len() - l.i,
{
    if l.i < src.len() {
        doc_line_keeps(src, l.bumped(src), text.push(src[l.i as int]));
    }
}

proof fn comment_line_keeps(src: Seq<char>, l: Lexing)
    requires
        l.i < src.len(),
        src[l.i as int] == '#',
    ensures
        past_comment_line(src, l) == (Lexing {
            i: past_comment_line(src, l).i,
            at: past_comment_line(src, l).at,
            doc: past_comment_line(src, l).doc,
            ..l
        }),
        l.i < past_comment_line(src, l).i <= src.len(),
{
    comment_keeps(src, l);
    let a = l.bumped(src).bumped(src);
    if a.i <= src.len() {
        doc_line_keeps(src, a, Seq::empty());
        doc_line_keeps(src, a.bumped(src), Seq::empty());
    }
}

proof fn name_same(p: int, src: Seq<char>, src2: Seq<char>, l: Lexing)
    requires
        shared(p, src, src2),
        l.i < p,
        placed(src, l),
    ensures
        past_name(src, l) == past_name(src2, l),
        l.i <= past_name(src, l).i < p,
        past_name(src, l).inline == l.inline,
        placed(src, past_name(src, l)),
    decreases src.len() - l.i,
{
    bump_same(p, src, src2, l);
    if src[l.i as int] != '\n' && continues_name(src[l.i as int]) {
        name_same(p, src, src2, l.bumped(src));
    } else if src[l.i as int] == '\n' {
        assert(!continues_name('\n'));
    }
}

proof fn digits_same(p: int, src: Seq<char>, src2: Seq<char>, l: Lexing, sep: bool)
    requires
        shared(p, src, src2),
        l.i < p,
        placed(src, l),
    ensures
        past_digits(src, l, sep) == past_digits(src2, l, sep),
        l.i <= past_digits(src, l, sep).0.i < p,
        past_digits(src, l, sep).0.inline == l.inline,
        placed(src, past_digits(src, l, sep).0),
    decreases src.len() - l.i,
{
    bump_same(p, src, src2, l);
    let c = src[l.i as int];
    if is_digit(c) || c == '_' {
        digits_same(p, src, src2, l.bumped(src), c == '_');
    }
}

proof fn text_same(p: int, src: Seq<char>, src2: Seq<char>, a: nat, b: nat)
    requires
        shared(p, src, src2),
        a <= b <= p,
    ensures
        src.subrange(a as int, b as int) == src2.subrange(a as int, b as int),
{
    assert(src.subrange(a as int, b as int) =~= src2.subrange(a as int, b as int));
}

proof fn number_same(p: int, src: Seq<char>, src2: Seq<char>, l: Lexing)
    requires
        shared(p, src, src2),
        l.i < p,
        placed(src, l),
    ensures
        same_step(src, l, number_lexed(src, l), number_lexed(src2, l)),
{
    digits_same(p, src, src2, l, false);
    let a = past_digits(src, l, false).0;
    bump_same(p, src, src2, a);
    text_same(p, src, src2, l.i, a.i);
    if ahead(src, a, 0) == Some('.') {
        let b = a.bumped(src);
        digits_same(p, src, src2, b, false);
        text_same(p, src, src2, l.i, past_digits(src, b, false).0.i);
    }
}

proof fn operator_same(p: int, src: Seq<char>, src2: Seq<char>, l: Lexing)
    requires
        shared(p, src, src2),
        l.i < p,
        placed(src, l),
        src[l.i as int] != '\n',
    ensures
        same_step(src, l, operator_lexed(src, l), operator_lexed(src2, l)),
{
    bump_same(p, src, src2, l);
    let c = src[l.i as int];
    let c1 = ahead(src, l, 1);
    assert(operator_at(c, c1, ahead(src, l, 2)) == operator_at(c, c1, ahead(src2, l, 2)));
    if let Some(op) = operator_at(c, c1, ahead(src, l, 2)) {
        let a = Lexing { depth: depth_after(l.depth, op), ..l };
        bump_same(p, src, src2, a);
        let b = a.bumped(src);
        bump_same(p, src, src2, b);
        let e = b.bumped(src);
        assert(a.bumped_by(src, 1) == b.bumped_by(src, 0));
        assert(a.bumped_by(src2, 1) == b.bumped_by(src2, 0));
        assert(a.bumped_by(src, 2) == b.bumped_by(src, 1));
        assert(a.bumped_by(src2, 2) == b.bumped_by(src2, 1));
        assert(b.bumped_by(src, 1) == e.bumped_by(src, 0));
        assert(b.bumped_by(src2, 1) == e.bumped_by(src2, 0));
        if op.len == 3 {
            assert(l.i + 2 < p);
            bump_same(p, src, src2, e);
            assert(a.bumped_by(src, 3) == b.bumped_by(src, 2));
            assert(a.bumped_by(src2, 3) == b.bumped_by(src2, 2));
            assert(b.bumped_by(src, 2) == e.bumped_by(src, 1));
            assert(b.bumped_by(src2, 2) == e.bumped_by(src2, 1));
            assert(e.bumped_by(src, 1) == e.bumped(src).bumped_by(src, 0));
            assert(e.bumped_by(src2, 1) == e.bumped(src2).bumped_by(src2, 0));
        }
    }
}

proof fn nested_same(p: int, src: Seq<char>, src2: Seq<char>, l: Lexing, m: Mark)
    requires
        shared(p, src, src2),
        l.i < p,
        placed(src, l),
    ensures
        same_step(src, l, past_nested(src, l, m), past_nested(src2, l, m)),
        past_nested(src, l, m) matches Ok(l1) ==> l.i < l1.i,
    decreases src.len() - l.i,
{
    bump_same(p, src, src2, l);
    if src[l.i as int] != '\n' {
        let a = l.bumped(src);
        bump_same(p, src, src2, a);
        if src[l.i as int] == '\\' {
            let b = a.bumped(src);
            if b.i < p {
                nested_same(p, src, src2, b, m);
            } else {
                assert(past_nested(src, b, m) == Err::<Lexing, DiagnosticView>(
                    lex_diag("unterminated string inside interpolation"@, b.since(m)),
                ));
            }
        } else if src[l.i as int] != '"' {
            nested_same(p, src, src2, a, m);
        }
    }
}

proof fn close_same(p: int, src: Seq<char>, src2: Seq<char>, l: Lexing, m: Mark, depth: usize)
    requires
        shared(p, src, src2),
        l.i < p,
        placed(src, l),
    ensures
        same_step(src, l, to_close(src, l, m, depth), to_close(src2, l, m, depth)),
        to_close(src, l, m, depth) matches Ok(l1) ==> l.i <= l1.i && src[l1.i as int] == '}',
    decreases src.len() - l.i,
{
    bump_same(p, src, src2, l);
    let c = src[l.i as int];
    let a = l.bumped(src);
    if c == '\n' || (c == '}' && depth == 0) {
    } else if c == '}' || c == ')' || c == ']' {
        let less: usize = if depth > 0 {
            (depth - 1) as usize
        } else {
            0
        };
        close_same(p, src, src2, a, m, less);
    } else if c == '{' || c == '(' || c == '[' {
        close_same(p, src, src2, a, m, capped(depth, 1));
    } else if c == '"' {
        nested_same(p, src, src2, a, m);
        if let Ok(b) = past_nested(src, a, m) {
            close_same(p, src, src2, b, m, depth);
        }
    } else {
        close_same(p, src, src2, a, m, depth);
    }
}

/// The same of a step that gives something more.
spec fn same_pair<T>(
    src: Seq<char>,
    l: Lexing,
    r: Result<(T, Lexing), DiagnosticView>,
    r2: Result<(T, Lexing), DiagnosticView>,
) -> bool {
    ||| r == r2 && (r matches Ok((_, l1)) ==> l1.i < src.len() && l1.inline == l.inline && placed(
        src,
        l1,
    ))
    ||| r matches Err(d) && ends_in_nested(src, d)
}

proof fn interpolation_same(p: int, src: Seq<char>, src2: Seq<char>, l: Lexing, m: Mark)
    requires
        shared(p, src, src2),
        l.i < p,
        placed(src, l),
        src[l.i as int] == '{',
    ensures
        same_pair(src, l, interpolation_lexed(src, l, m), interpolation_lexed(src2, l, m)),
{
    bump_same(p, src, src2, l);
    let a = l.bumped(src);
    close_same(p, src, src2, a, m, 0);
    if let Ok(b) = to_close(src, a, m, 0) {
        bump_same(p, src, src2, b);
        if a.i <= b.i {
            text_same(p, src, src2, a.i, b.i);
        }
    }
}

proof fn string_same(
    p: int,
    src: Seq<char>,
    src2: Seq<char>,
    l: Lexing,
    m: Mark,
    parts: Seq<PartView>,
    text: Seq<char>,
)
    requires
        shared(p, src, src2),
        l.i < p,
        placed(src, l),
    ensures
        same_pair(
            src,
            l,
            string_rest(src, l, m, parts, text),
            string_rest(src2, l, m, parts, text),
        ),
    decreases src.len() - l.i,
{
    bump_same(p, src, src2, l);
    let c = src[l.i as int];
    if c != '\n' {
        let a = l.bumped(src);
        bump_same(p, src, src2, a);
        let b = a.bumped(src);
        let next = ahead(src, l, 1);
        if c == '"' {
        } else if c == '\\' {
            if let Some(e) = next {
                if let Some(r) = escaped(e) {
                    string_same(p, src, src2, b, m, parts, text.push(r));
                }
            }
        } else if (c == '{' || c == '}') && next == Some(c) {
            string_same(p, src, src2, b, m, parts, text.push(c));
        } else if c == '{' {
            interpolation_same(p, src, src2, l, m);
            if let Ok((ts, e)) = interpolation_lexed(src, l, m) {
                if onward(src, l, e) {
                    let more = flushed(parts, text).push(PartView::Interp(ts));
                    string_same(p, src, src2, e, m, more, Seq::empty());
                }
            }
        } else if c != '}' {
            string_same(p, src, src2, a, m, parts, text.push(c));
        }
    }
}

proof fn token_same(p: int, src: Seq<char>, src2: Seq<char>, l: Lexing)
    requires
        shared(p, src, src2),
        l.i < p,
        placed(src, l),
        src[l.i as int] != '\n',
    ensures
        same_step(src, l, token_lexed(src, l), token_lexed(src2, l)),
{
    bump_same(p, src, src2, l);
    let c = src[l.i as int];
    if starts_name(c) {
        name_same(p, src, src2, l);
        text_same(p, src, src2, l.i, past_name(src, l).i);
    } else if is_digit(c) {
        number_same(p, src, src2, l);
    } else if c == '"' {
        string_same(
            p,
            src,
            src2,
            l.bumped(src),
            l.mark(),
            Seq::empty(),
            Seq::empty(),
        );
    } else {
        operator_same(p, src, src2, l);
    }
}

// ---------------------------------------------------------------------------
// A line that is only a comment
// ---------------------------------------------------------------------------

/// A line of spaces and a comment.
pub open spec fn comment_line(spaces: nat, text: Seq<char>) -> Seq<char> {
    Seq::new(spaces, |i: int| ' ') + seq!['#'] + text + seq!['\n']
}

/// A source with some characters put in at place `p`.
pub open spec fn with_inserted(src: Seq<char>, p: int, line: Seq<char>) -> Seq<char> {
    src.take(p) + line + src.skip(p)
}

/// Whether a source has from `a` on spaces, a `#` at `h`, and the end of that line
/// at `e`.
spec fn has_comment(src: Seq<char>, a: int, h: int, e: int) -> bool {
    &&& 0 <= a <= h < e < src.len()
    &&& forall|k: int| a <= k < h ==> #[trigger] src[k] == ' '
    &&& src[h] == '#'
    &&& forall|k: int| h < k < e ==> #[trigger] src[k] != '\n'
    &&& src[e] == '\n'
}

proof fn comment_ends(src: Seq<char>, l: Lexing, e: int)
    requires
        l.i <= e < src.len(),
        forall|k: int| l.i <= k < e ==> #[trigger] src[k] != '\n',
        src[e] == '\n',
    ensures
        past_comment(src, l).i == e,
    decreases e - l.i,
{
    if l.i < e {
        comment_ends(src, l.bumped(src), e);
    }
}

proof fn doc_line_ends(src: Seq<char>, l: Lexing, text: Seq<char>, e: int)
    requires
        l.i <= e < src.len(),
        forall|k: int| l.i <= k < e ==> #[trigger] src[k] != '\n',
        src[e] == '\n',
    ensures
        ({
            let at = doc_line(src, l, text).1.i;
            at == e || (at == e - 1 && src[at as int] == '\r')
        }),
    decreases e - l.i,
{
    if l.i < e {
        if src[l.i as int] == '\r' && ahead(src, l, 1) == Some('\n') {
            assert(l.i + 1 == e) by {
                if l.i + 1 < e {
                    assert(src[(l.i + 1) as int] != '\n');
                }
            }
        } else {
            doc_line_ends(src, l.bumped(src), text.push(src[l.i as int]), e);
        }
    }
}

/// Inside brackets the line is passed.
proof fn blanks_pass(src: Seq<char>, l: Lexing, a: int, h: int, e: int) -> (l1: Lexing)
    requires
        has_comment(src, a, h, e),
        a <= l.i <= h,
    ensures
        past_blanks(src, l) == past_blanks(src, l1),
        l1 == (Lexing { i: (e + 1) as nat, at: l1.at, ..l }),
    decreases h - l.i,
{
    if l.i < h {
        assert(src[l.i as int] == ' ');
        blanks_pass(src, l.bumped(src), a, h, e)
    } else {
        let b = l.bumped(src);
        comment_ends(src, b, e);
        comment_keeps(src, b);
        let c = past_comment(src, b);
        assert(past_blanks(src, l) == past_blanks(src, c));
        assert(past_blanks(src, c) == past_blanks(src, c.bumped(src)));
        c.bumped(src)
    }
}

/// At the start of a line it is passed, but perhaps for a `\r` before its end.
proof fn start_passes(src: Seq<char>, l: Lexing, width: usize, a: int, h: int, e: int) -> (l1:
    Lexing)
    requires
        has_comment(src, a, h, e),
        a <= l.i <= h,
        !l.inline,
    ensures
        indented(src, l, width) == Ok::<(Option<usize>, Lexing), DiagnosticView>((None, l1)),
        l1 == (Lexing { i: l1.i, at: l1.at, doc: l1.doc, ..l }),
        l1.i == e + 1 || (l1.i == e - 1 && l1.i > l.i && src[l1.i as int] == '\r'),
    decreases h - l.i,
{
    if l.i < h {
        assert(src[l.i as int] == ' ');
        start_passes(src, l.bumped(src), capped(width, 1), a, h, e)
    } else {
        comment_line_keeps(src, l);
        let b = past_comment_line(src, l);
        if ahead(src, l, 1) != Some('#') {
            assert(src[l.i as int] != '\n');
            comment_ends(src, l, e);
        } else {
            assert(l.i + 1 != e);
            let c = l.bumped(src).bumped(src);
            doc_line_ends(src, c, Seq::empty(), e);
            if ahead(src, c, 0) == Some(' ') {
                doc_line_ends(src, c.bumped(src), Seq::empty(), e);
            }
        }
        if ahead(src, b, 0) == Some('\n') {
            b.bumped(src)
        } else {
            b
        }
    }
}

/// The lines from the start of one on, if there are any.
spec fn from_line(src: Seq<char>, l: Lexing, produced: bool) -> Result<Lexing, DiagnosticView> {
    if l.i >= src.len() {
        Ok(finished(l, produced))
    } else {
        lines_lexed(src, l, produced)
    }
}

proof fn line_passes(src: Seq<char>, l: Lexing, produced: bool, h: int, e: int) -> (l1: Lexing)
    requires
        has_comment(src, l.i as int, h, e),
        !l.inline,
        l.depth == 0,
    ensures
        lines_lexed(src, l, produced) == from_line(src, l1, produced),
        l1 == (Lexing { i: (e + 1) as nat, at: l1.at, doc: l1.doc, ..l }),
{
    let b = start_passes(src, l, 0, l.i as int, h, e);
    assert(lines_lexed(src, l, produced) == from_line(src, b, produced));
    if b.i == e + 1 {
        b
    } else {
        let c = b.bumped(src);
        let g = c.bumped(src).without_doc();
        assert(indented(src, c, 0) == Ok::<(Option<usize>, Lexing), DiagnosticView>((None, g)));
        assert(indented(src, b, 0) == indented(src, c, 0));
        assert(lines_lexed(src, b, produced) == from_line(src, g, produced));
        g
    }
}

proof fn alike_itself(a: TokenView)
    ensures
        alike(a, a),
    decreases a,
{
    if let KindView::Str(ps) = a.kind {
        assert forall|i: int, j: int|
            #![trigger ps[i]->Interp_0[j]]
            0 <= i < ps.len() && ps[i] is Interp && 0 <= j < ps[i]->Interp_0.len() implies alike(
            ps[i]->Interp_0[j],
            ps[i]->Interp_0[j],
        ) by {
            alike_itself(ps[i]->Interp_0[j]);
        }
    }
}

proof fn all_alike_itself(xs: Seq<TokenView>)
    ensures
        all_alike(xs, xs),
{
    assert forall|i: int| 0 <= i < xs.len() implies alike(#[trigger] xs[i], xs[i]) by {
        alike_itself(xs[i]);
    }
}

/// Whether the second source is the first with a comment line put in at `p`.
spec fn inserted(p: int, d: int, h: int, src: Seq<char>, src2: Seq<char>) -> bool {
    &&& 0 <= p <= src.len()
    &&& d > 0
    &&& src2.len() == src.len() + d
    &&& has_comment(src2, p, h, p + d - 1)
    &&& forall|k: int| p <= k < src.len() ==> #[trigger] src[k] == src2[k + d]
}

proof fn blanks_keep(src: Seq<char>, l: Lexing)
    requires
        l.i <= src.len(),
    ensures
        l.i <= past_blanks(src, l).i <= src.len(),
        past_blanks(src, l).inline == l.inline,
    decreases src.len() - l.i,
{
    if l.i < src.len() {
        let a = l.bumped(src);
        if src[l.i as int] == '#' {
            comment_keeps(src, a);
            blanks_keep(src, past_comment(src, a));
        } else {
            blanks_keep(src, a);
        }
    }
}

/// Whether two sources go on from the same lines.
spec fn both_go_on(p: int, pre: Seq<char>, src: Seq<char>, src2: Seq<char>) -> bool {
    shared(p, pre, src) && shared(p, pre, src2)
}

proof fn blanks_both(
    p: int,
    d: int,
    h: int,
    pre: Seq<char>,
    src: Seq<char>,
    src2: Seq<char>,
    l: Lexing,
)
    requires
        both_go_on(p, pre, src, src2),
        inserted(p, d, h, src, src2),
        l.i <= p,
        placed(pre, l),
    ensures
        ({
            let (r, r2) = (past_blanks(src, l), past_blanks(src2, l));
            &&& l.i <= r.i
            &&& r.inline == l.inline
            &&& (r == r2 && r == past_blanks(pre, l) && r.i < p && placed(pre, r)) || (sim(
                d,
                src,
                r,
                src2,
                r2,
            ) && r.i >= p)
        }),
    decreases p - l.i,
{
    blanks_keep(src, l);
    if l.i == p {
        let l2 = blanks_pass(src2, l, p, h, p + d - 1);
        all_alike_itself(l.out);
        assert(sim(d, src, l, src2, l2));
        blanks_sim(d, src, l, src2, l2);
    } else {
        bump_same(p, pre, src, l);
        bump_same(p, pre, src2, l);
        let a = l.bumped(src);
        if src[l.i as int] == '#' {
            comment_same(p, pre, src, a);
            comment_same(p, pre, src2, a);
            blanks_both(p, d, h, pre, src, src2, past_comment(src, a));
        } else {
            blanks_both(p, d, h, pre, src, src2, a);
        }
    }
}

/// A line in both: it ends the same at `p` or before it, or behind it.
spec fn line_ends_alike(
    p: int,
    d: int,
    pre: Seq<char>,
    r0: Result<(bool, Lexing), DiagnosticView>,
    src: Seq<char>,
    r: Result<(bool, Lexing), DiagnosticView>,
    src2: Seq<char>,
    r2: Result<(bool, Lexing), DiagnosticView>,
) -> bool {
    match (r, r2) {
        (Ok((c, l)), Ok((c2, l2))) => {
            &&& c == c2
            &&& (l == l2 && r0 == r && l.i <= p && !l.inline && (l.i == p ==> l.depth == 0)
                && placed(pre, l)) || (sim(
                d,
                src,
                l,
                src2,
                l2,
            ) && l.i >= p)
        },
        (Err(_), Err(_)) => true,
        _ => false,
    }
}

proof fn name_goes_on(src: Seq<char>, l: Lexing)
    requires
        l.i <= src.len(),
    ensures
        l.i <= past_name(src, l).i <= src.len(),
        l.i < src.len() && continues_name(src[l.i as int]) ==> l.i < past_name(src, l).i,
    decreases src.len() - l.i,
{
    if l.i < src.len() && continues_name(src[l.i as int]) {
        name_goes_on(src, l.bumped(src));
    }
}

proof fn digits_go_on(src: Seq<char>, l: Lexing, sep: bool)
    requires
        l.i <= src.len(),
    ensures
        l.i <= past_digits(src, l, sep).0.i <= src.len(),
        l.i < src.len() && is_digit(src[l.i as int]) ==> l.i < past_digits(src, l, sep).0.i,
    decreases src.len() - l.i,
{
    if l.i < src.len() && (is_digit(src[l.i as int]) || src[l.i as int] == '_') {
        digits_go_on(src, l.bumped(src), src[l.i as int] == '_');
    }
}

proof fn bumps_go_on(src: Seq<char>, l: Lexing, n: nat)
    requires
        l.i <= src.len(),
    ensures
        l.i <= l.bumped_by(src, n).i <= src.len(),
        n > 0 && l.i < src.len() ==> l.i < l.bumped_by(src, n).i,
    decreases n,
{
    if n > 0 {
        bumps_go_on(src, l.bumped(src), (n - 1) as nat);
    }
}

proof fn nested_goes_on(src: Seq<char>, l: Lexing, m: Mark)
    requires
        l.i <= src.len(),
    ensures
        past_nested(src, l, m) matches Ok(l1) ==> l.i < l1.i <= src.len(),
    decreases src.len() - l.i,
{
    if l.i < src.len() {
        let a = l.bumped(src);
        nested_goes_on(src, a, m);
        if a.i < src.len() {
            nested_goes_on(src, a.bumped(src), m);
        }
    }
}

proof fn close_goes_on(src: Seq<char>, l: Lexing, m: Mark, depth: usize)
    requires
        l.i <= src.len(),
    ensures
        to_close(src, l, m, depth) matches Ok(l1) ==> l.i <= l1.i < src.len(),
    decreases src.len() - l.i,
{
    if l.i < src.len() {
        let a = l.bumped(src);
        let less: usize = if depth > 0 {
            (depth - 1) as usize
        } else {
            0
        };
        close_goes_on(src, a, m, less);
        close_goes_on(src, a, m, capped(depth, 1));
        close_goes_on(src, a, m, depth);
        nested_goes_on(src, a, m);
        if let Ok(b) = past_nested(src, a, m) {
            close_goes_on(src, b, m, depth);
        }
    }
}

proof fn string_goes_on(
    src: Seq<char>,
    l: Lexing,
    m: Mark,
    parts: Seq<PartView>,
    text: Seq<char>,
)
    requires
        l.i <= src.len(),
    ensures
        string_rest(src, l, m, parts, text) matches Ok((_, l1)) ==> l.i < l1.i <= src.len(),
    decreases src.len() - l.i,
{
    if l.i < src.len() {
        let a = l.bumped(src);
        let b = a.bumped(src);
        let c = src[l.i as int];
        let next = ahead(src, l, 1);
        if c == '\n' || c == '"' {
        } else if c == '\\' {
            if let Some(e) = next {
                if let Some(r) = escaped(e) {
                    string_goes_on(src, b, m, parts, text.push(r));
                }
            }
        } else if (c == '{' || c == '}') && next == Some(c) {
            string_goes_on(src, b, m, parts, text.push(c));
        } else if c == '{' {
            close_goes_on(src, a, m, 0);
            if let Ok((ts, e)) = interpolation_lexed(src, l, m) {
                let more = flushed(parts, text).push(PartView::Interp(ts));
                string_goes_on(src, e, m, more, Seq::empty());
            }
        } else if c != '}' {
            string_goes_on(src, a, m, parts, text.push(c));
        }
    }
}

proof fn token_goes_on(src: Seq<char>, l: Lexing)
    requires
        l.i < src.len(),
    ensures
        token_lexed(src, l) matches Ok(l1) ==> l.i < l1.i <= src.len(),
{
    let c = src[l.i as int];
    if starts_name(c) {
        name_goes_on(src, l);
    } else if is_digit(c) {
        digits_go_on(src, l, false);
        let a = past_digits(src, l, false).0;
        digits_go_on(src, a.bumped(src), false);
    } else if c == '"' {
        string_goes_on(src, l.bumped(src), l.mark(), Seq::empty(), Seq::empty());
    } else if let Some(op) = operator_at(c, ahead(src, l, 1), ahead(src, l, 2)) {
        bumps_go_on(src, Lexing { depth: depth_after(l.depth, op), ..l }, op.len);
    }
}

proof fn line_keeps_on(src: Seq<char>, l: Lexing, produced: bool)
    requires
        l.i <= src.len(),
    ensures
        line_lexed(src, l, produced) matches Ok((_, l1)) ==> l1.i >= l.i,
    decreases src.len() - l.i,
{
    if l.i < src.len() {
        let a = l.bumped(src);
        let c = src[l.i as int];
        if c == '\n' {
            if a.depth != 0 {
                blanks_keep(src, a);
                line_keeps_on(src, past_blanks(src, a), produced);
            }
        } else if c == '\r' || c == ' ' || c == '\t' {
            line_keeps_on(src, a, produced);
        } else if c == '#' {
            comment_keeps(src, a);
            line_keeps_on(src, past_comment(src, a), produced);
        } else if let Ok(b) = token_lexed(src, l) {
            token_goes_on(src, l);
            line_keeps_on(src, b, true);
        }
    }
}

proof fn line_both(
    p: int,
    d: int,
    h: int,
    pre: Seq<char>,
    src: Seq<char>,
    src2: Seq<char>,
    l: Lexing,
    produced: bool,
)
    requires
        both_go_on(p, pre, src, src2),
        inserted(p, d, h, src, src2),
        l.i < p,
        placed(pre, l),
        !l.inline,
    ensures
        line_ends_alike(
            p,
            d,
            pre,
            line_lexed(pre, l, produced),
            src,
            line_lexed(src, l, produced),
            src2,
            line_lexed(src2, l, produced),
        ) || (line_lexed(pre, l, produced) matches Err(e) && ends_in_nested(pre, e)),
    decreases p - l.i,
{
    bump_same(p, pre, src, l);
    bump_same(p, pre, src2, l);
    let a = l.bumped(src);
    let c = src[l.i as int];
    if c == '\n' {
        if a.depth != 0 {
            blanks_both(p, d, h, pre, src, src2, a);
            let (b, b2) = (past_blanks(src, a), past_blanks(src2, a));
            assert(line_lexed(src, l, produced) == line_lexed(src, b, produced));
            assert(line_lexed(src2, l, produced) == line_lexed(src2, b2, produced));
            if b.i < p {
                assert(line_lexed(pre, l, produced) == line_lexed(pre, b, produced));
                line_both(p, d, h, pre, src, src2, b, produced);
            } else {
                line_sim(d, src, b, src2, b2, produced);
                line_keeps_on(src, b, produced);
            }
        }
    } else if c == '\r' || c == ' ' || c == '\t' {
        assert(line_lexed(pre, l, produced) == line_lexed(pre, a, produced));
        assert(line_lexed(src, l, produced) == line_lexed(src, a, produced));
        assert(line_lexed(src2, l, produced) == line_lexed(src2, a, produced));
        line_both(p, d, h, pre, src, src2, a, produced);
    } else if c == '#' {
        comment_same(p, pre, src, a);
        comment_same(p, pre, src2, a);
        let b = past_comment(src, a);
        assert(line_lexed(pre, l, produced) == line_lexed(pre, b, produced));
        assert(line_lexed(src, l, produced) == line_lexed(src, b, produced));
        assert(line_lexed(src2, l, produced) == line_lexed(src2, b, produced));
        line_both(p, d, h, pre, src, src2, b, produced);
    } else {
        token_same(p, pre, src, l);
        token_same(p, pre, src2, l);
        token_goes_on(pre, l);
        match token_lexed(pre, l) {
            Ok(b) => {
                assert(line_lexed(pre, l, produced) == line_lexed(pre, b, true));
                assert(line_lexed(src, l, produced) == line_lexed(src, b, true));
                assert(line_lexed(src2, l, produced) == line_lexed(src2, b, true));
                line_both(p, d, h, pre, src, src2, b, true);
            },
            Err(e) => {
                assert(line_lexed(pre, l, produced) == Err::<(bool, Lexing), DiagnosticView>(e));
            },
        }
    }
}

proof fn dedented_keeps(l: Lexing, width: usize)
    ensures
        dedented(l, width).i == l.i,
        dedented(l, width).at == l.at,
        dedented(l, width).inline == l.inline,
    decreases l.indents.len(),
{
    if l.indents.len() > 0 && l.indents.last() > width {
        let kind = KindView::Plain(TokenKind::Dedent);
        let a = (Lexing { indents: l.indents.drop_last(), ..l }).pushed(kind, l.here());
        dedented_keeps(a, width);
    }
}

/// The lines from `l` on in both: they give the same kinds of tokens.
proof fn lines_both(
    p: int,
    d: int,
    h: int,
    pre: Seq<char>,
    src: Seq<char>,
    src2: Seq<char>,
    l: Lexing,
    produced: bool,
)
    requires
        p > 0 ==> both_go_on(p, pre, src, src2),
        placed(pre, l),
        inserted(p, d, h, src, src2),
        l.i <= p,
        l.i == p ==> l.depth == 0,
        !l.inline,
    ensures
        done_alike(from_line(src, l, produced), lines_lexed(src2, l, produced)) || (l.i < p && (
        lines_lexed(pre, l, produced) matches Err(e) && ends_in_nested(pre, e))),
    decreases p - l.i, 1nat,
{
    if l.i == p {
        let l2 = line_passes(src2, l, produced, h, p + d - 1);
        all_alike_itself(l.out);
        assert(sim(d, src, l, src2, l2));
        if l.i >= src.len() {
            finished_sim(d, src, l, src2, l2, produced);
        } else {
            lines_sim(d, src, l, src2, l2, produced);
        }
    } else if l.depth == 0 {
        indented_same(p, pre, src, l, 0);
        indented_same(p, pre, src2, l, 0);
        if let Ok((w, a)) = indented(src, l, 0) {
            if let Some(width) = w {
                dedented_keeps(a, width);
                if let Ok(b) = laid_out(a, width) {
                    rest_both(p, d, h, pre, src, src2, l, b, produced);
                }
            } else {
                lines_both(p, d, h, pre, src, src2, a, produced);
            }
        }
    } else {
        rest_both(p, d, h, pre, src, src2, l, l, produced);
    }
}

proof fn rest_both(
    p: int,
    d: int,
    h: int,
    pre: Seq<char>,
    src: Seq<char>,
    src2: Seq<char>,
    l: Lexing,
    a: Lexing,
    produced: bool,
)
    requires
        both_go_on(p, pre, src, src2),
        inserted(p, d, h, src, src2),
        l.i <= a.i < p,
        placed(pre, a),
        !a.inline,
    ensures
        done_alike(lines_from(src, l, a, produced), lines_from(src2, l, a, produced)) || (
        lines_from(pre, l, a, produced) matches Err(e) && ends_in_nested(pre, e)),
    decreases p - l.i, 0nat,
{
    line_both(p, d, h, pre, src, src2, a, false);
    let (r0, r) = (line_lexed(pre, a, false), line_lexed(src, a, false));
    let r2 = line_lexed(src2, a, false);
    if line_ends_alike(p, d, pre, r0, src, r, src2, r2) && r is Ok {
        let (content, b) = r->Ok_0;
        let b2 = r2->Ok_0.1;
        if sim(d, src, b, src2, b2) && b.i >= p {
            if b.i >= src.len() {
                finished_sim(d, src, b, src2, b2, produced || content);
            } else {
                lines_sim(d, src, b, src2, b2, produced || content);
            }
        } else if onward(src, l, b) {
            lines_both(p, d, h, pre, src, src2, b, produced || content);
        } else {
            all_alike_itself(b.out);
        }
    }
}

/// Whether place `p` of a source is inside a string of an interpolation, whose line
/// end a backslash escapes.
pub open spec fn inside_nested(src: Seq<char>, p: int) -> bool {
    lexed(src.take(p)) matches Err(d) && ends_in_nested(src.take(p), d)
}

/// A line that is only a comment changes no token: with it or without it a source
/// lexes or does not, and if it does, its tokens are of the same kinds, also those
/// inside strings. The line goes in at the start of any line but one that is inside
/// a string of an interpolation, which can only be behind a backslash.
pub proof fn law_comment_line_changes_no_kind(
    src: Seq<char>,
    p: int,
    spaces: nat,
    text: Seq<char>,
)
    requires
        0 <= p <= src.len(),
        p > 0 ==> src[p - 1] == '\n',
        !inside_nested(src, p),
        !text.contains('\n'),
    ensures
        match (lexed(src), lexed(with_inserted(src, p, comment_line(spaces, text)))) {
            (Ok(out), Ok(out2)) => all_alike(out, out2),
            (Err(_), Err(_)) => true,
            _ => false,
        },
{
    let line = comment_line(spaces, text);
    let src2 = with_inserted(src, p, line);
    let d = line.len() as int;
    let h = p + spaces;
    assert(forall|k: int| 0 <= k < d ==> src2[p + k] == line[k]);
    assert(has_comment(src2, p, h, p + d - 1)) by {
        assert(src2[p + spaces] == line[spaces as int]);
        assert(src2[p + (d - 1)] == line[d - 1]);
        assert forall|k: int| p <= k < h implies #[trigger] src2[k] == ' ' by {
            assert(src2[p + (k - p)] == line[k - p]);
        }
        assert forall|k: int| h < k < p + d - 1 implies #[trigger] src2[k] != '\n' by {
            assert(src2[p + (k - p)] == line[k - p]);
            assert(line[k - p] == text[k - h - 1]);
            assert(text.contains(text[k - h - 1]));
        }
    }
    assert forall|k: int| p <= k < src.len() implies #[trigger] src[k] == src2[k + d] by {
        assert(src2[k + d] == src.skip(p)[k - p]);
    }
    let l = starting(0, 1, 1, false);
    let pre = src.take(p);
    assert(p > 0 ==> both_go_on(p, pre, src, src2));
    lines_both(p, d, h, pre, src, src2, l, false);
    if src.len() == 0 {
        assert(indented(src, l, 0) == Ok::<(Option<usize>, Lexing), DiagnosticView>(
            (None, l.without_doc()),
        ));
        assert(lines_lexed(src, l, false) == Ok::<Lexing, DiagnosticView>(
            finished(l.without_doc(), false),
        ));
        assert(l.without_doc() == l);
    }
}

} // verus!
