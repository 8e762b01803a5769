//! Laws of the lexer: what every token stream looks like.

use crate::error::{DiagnosticView, Phase};
use crate::integer::digits_value;
use crate::lexer::{
    ahead, blocks_closed, capped, continues_name, dedented, digits_lexed, doc_line, finished,
    flushed, indented, interpolation_lexed, is_digit, keyword_of, laid_out, layout_kind,
    lemma_behind, lexed, line_lexed, lines_lexed, name_lexed, number_lexed, operator_at,
    operator_lexed, past_blanks, past_comment, past_comment_line, past_digits, past_name,
    past_nested, starting, starts_name, string_rest, to_close, token_lexed, without_seps,
    Lexing, Mark,
};
use crate::source_places::{
    bump_tracks, ground, law_places_grow, mark_at, span_of, tracks, Ground,
};
use crate::token::{KindView, PartView, Span, TokenKind, TokenView};
use vstd::prelude::*;
use vstd::string::*;

verus! {

broadcast use {lemma_behind, bump_tracks};

// ---------------------------------------------------------------------------
// Places
// ---------------------------------------------------------------------------

/// Whether a token has the span of the characters from `a` up to `b`. A name is
/// just these characters; layout covers none.
pub open spec fn covers(src: Seq<char>, kind: KindView, span: Span, a: nat, b: nat) -> bool {
    &&& a <= b <= src.len()
    &&& span == span_of(src, a, b)
    &&& kind matches KindView::Name(s) ==> s == src.subrange(a as int, b as int)
    &&& layout_kind(kind) ==> a == b
}

/// Whether a token, and each token of its interpolations, has a span that covers
/// its characters. The tokens of an interpolation follow each other.
pub open spec fn located(src: Seq<char>, t: TokenView) -> bool
    decreases t,
{
    &&& exists|a: nat, b: nat| #[trigger] covers(src, t.kind, t.span, a, b)
    &&& t.kind matches KindView::Str(parts) ==> forall|i: int|
        0 <= i < parts.len() ==> (#[trigger] parts[i] matches PartView::Interp(ts) ==> in_line(
            ts,
            ts.last().span.end,
        ))
    &&& t.kind matches KindView::Str(parts) ==> forall|i: int, j: int|
        #![trigger parts[i]->Interp_0[j]]
        0 <= i < parts.len() && parts[i] is Interp && 0 <= j < parts[i]->Interp_0.len() ==> located(
            src,
            parts[i]->Interp_0[j],
        )
}

// ---------------------------------------------------------------------------
// Token streams
// ---------------------------------------------------------------------------

pub open spec fn is_eof(t: TokenView) -> bool {
    t.kind == KindView::Plain(TokenKind::Eof)
}

/// What a token does to the number of open blocks.
pub open spec fn level_change(t: TokenView) -> int {
    if t.kind == KindView::Plain(TokenKind::Indent) {
        1
    } else if t.kind == KindView::Plain(TokenKind::Dedent) {
        -1
    } else {
        0
    }
}

/// How many blocks are open behind some tokens.
pub open spec fn level(out: Seq<TokenView>) -> int
    decreases out.len(),
{
    if out.len() == 0 {
        0
    } else {
        level(out.drop_last()) + level_change(out.last())
    }
}

/// Whether no block is closed that was not opened.
pub open spec fn nests(out: Seq<TokenView>) -> bool {
    forall|n: int| 0 <= n <= out.len() ==> level(#[trigger] out.take(n)) >= 0
}

/// Whether the tokens of each interpolation end in `Eof`.
pub open spec fn parts_end(parts: Seq<PartView>) -> bool {
    forall|i: int|
        0 <= i < parts.len() ==> (#[trigger] parts[i] matches PartView::Interp(ts) ==> ts.len() > 0
            && is_eof(ts.last()))
}

/// Whether a token may stand before the end: it is no `Eof`, it carries no doc
/// comment if it is layout, and its interpolations end.
pub open spec fn inner_token(t: TokenView) -> bool {
    &&& !is_eof(t)
    &&& layout_kind(t.kind) ==> t.doc is None
    &&& t.kind matches KindView::Str(parts) ==> parts_end(parts)
}

/// Whether tokens stand one behind the other, up to a place in the source.
pub open spec fn in_line(out: Seq<TokenView>, end: usize) -> bool {
    &&& forall|i: int|
        0 <= i < out.len() ==> (#[trigger] out[i]).span.start <= out[i].span.end <= end
    &&& forall|i: int, j: int|
        0 <= i < j < out.len() ==> (#[trigger] out[i]).span.end <= (#[trigger] out[j]).span.start
}

/// A token stream: it ends in its only `Eof`, its blocks nest and are all closed,
/// layout tokens carry no doc comment, and the tokens of interpolations end too.
/// The spans follow each other in the source.
pub open spec fn is_stream(out: Seq<TokenView>) -> bool {
    &&& out.len() > 0
    &&& is_eof(out.last())
    &&& out.last().doc is None
    &&& forall|i: int| 0 <= i < out.len() - 1 ==> inner_token(#[trigger] out[i])
    &&& nests(out)
    &&& level(out) == 0
    &&& in_line(out, out.last().span.end)
}

/// Whether each `Newline` directly follows a token that is no layout.
pub open spec fn newlines_follow(out: Seq<TokenView>) -> bool {
    &&& out.len() > 0 ==> out[0].kind != KindView::Plain(TokenKind::Newline)
    &&& forall|i: int, j: int|
        0 <= i && j == i + 1 && j < out.len() && (#[trigger] out[j]).kind == KindView::Plain(
            TokenKind::Newline,
        ) ==> !layout_kind((#[trigger] out[i]).kind)
}

/// The number of open brackets behind a token.
pub open spec fn brackets_after(depth: usize, kind: KindView) -> usize {
    if kind == KindView::Plain(TokenKind::LParen) || kind == KindView::Plain(TokenKind::LBracket)
        || kind == KindView::Plain(TokenKind::LBrace) {
        capped(depth, 1)
    } else if depth > 0 && (kind == KindView::Plain(TokenKind::RParen) || kind == KindView::Plain(
        TokenKind::RBracket,
    ) || kind == KindView::Plain(TokenKind::RBrace)) {
        (depth - 1) as usize
    } else {
        depth
    }
}

/// How many brackets are open behind some tokens. A bracket that closes none
/// changes nothing.
pub open spec fn open_brackets(out: Seq<TokenView>) -> usize
    decreases out.len(),
{
    if out.len() == 0 {
        0
    } else {
        brackets_after(open_brackets(out.drop_last()), out.last().kind)
    }
}

/// Whether only layout follows from place `i` on.
pub open spec fn only_layout_from(out: Seq<TokenView>, i: int) -> bool {
    forall|j: int| i <= j < out.len() ==> layout_kind((#[trigger] out[j]).kind)
}

/// Whether no layout stands between an opening bracket and the bracket that closes
/// it: where brackets are open before a layout token, nothing but layout follows,
/// and they are never closed.
pub open spec fn brackets_hold_no_layout(out: Seq<TokenView>) -> bool {
    forall|i: int|
        #![trigger out[i]]
        0 <= i < out.len() && layout_kind(out[i].kind) && open_brackets(out.take(i)) > 0
            ==> only_layout_from(out, i)
}

/// Whether the indentations of open blocks increase strictly.
pub open spec fn rising(indents: Seq<usize>) -> bool {
    forall|i: int, j: int|
        0 <= i < j < indents.len() ==> #[trigger] indents[i] < #[trigger] indents[j]
}

// ---------------------------------------------------------------------------
// The state of a lexer
// ---------------------------------------------------------------------------

/// Whether the tokens have their places.
spec fn all_located(g: Ground, out: Seq<TokenView>) -> bool {
    forall|i: int| 0 <= i < out.len() ==> located(g.all, #[trigger] out[i])
}

/// Whether the tokens of each interpolation have their places and follow each
/// other.
spec fn parts_located(g: Ground, parts: Seq<PartView>) -> bool {
    forall|i: int|
        0 <= i < parts.len() ==> (#[trigger] parts[i] matches PartView::Interp(ts) ==> all_located(
            g,
            ts,
        ) && in_line(ts, ts.last().span.end))
}

/// Whether no bracket is open before a layout token.
spec fn layout_outside(out: Seq<TokenView>) -> bool {
    forall|i: int|
        0 <= i < out.len() && layout_kind((#[trigger] out[i]).kind) ==> open_brackets(out.take(i))
            == 0
}

/// Whether the lexer counts the brackets of its tokens.
spec fn counted(l: Lexing) -> bool {
    l.depth == open_brackets(l.out) && layout_outside(l.out)
}

/// Whether the last token is no layout.
spec fn ends_plain(l: Lexing) -> bool {
    l.out.len() > 0 && !layout_kind(l.out.last().kind)
}

/// Whether the tokens end a line, or there are none.
spec fn settled(l: Lexing) -> bool {
    l.out.len() == 0 || ends_plain(l) || l.out.last().kind == KindView::Plain(TokenKind::Newline)
}

proof fn push_counted(l: Lexing, kind: KindView, span: Span)
    requires
        layout_outside(l.out),
        l.depth == brackets_after(open_brackets(l.out), kind),
        layout_kind(kind) ==> open_brackets(l.out) == 0,
    ensures
        counted(l.pushed(kind, span)),
{
    let more = l.pushed(kind, span).out;
    assert(more.drop_last() =~= l.out);
    assert forall|i: int| 0 <= i < more.len() && layout_kind((#[trigger] more[i]).kind) implies
        open_brackets(more.take(i)) == 0 by {
        assert(more.take(i) =~= l.out.take(i));
        if i < l.out.len() {
            assert(more[i] == l.out[i]);
        } else {
            assert(l.out.take(i) =~= l.out);
        }
    }
}

/// What holds of a lexer between two steps.
spec fn steady(g: Ground, l: Lexing) -> bool {
    &&& l.indents.len() >= 1
    &&& l.indents[0] == 0
    &&& rising(l.indents)
    &&& newlines_follow(l.out)
    &&& tracks(g, l)
    &&& all_located(g, l.out)
    &&& level(l.out) == l.indents.len() - 1
    &&& nests(l.out)
    &&& in_line(l.out, l.at.pos)
    &&& forall|i: int| 0 <= i < l.out.len() ==> inner_token(#[trigger] l.out[i])
}

/// Further on, with the same tokens and blocks.
spec fn moved(g: Ground, src: Seq<char>, l: Lexing, l1: Lexing) -> bool {
    &&& l.i <= l1.i <= src.len()
    &&& l1.out == l.out
    &&& l1.indents == l.indents
    &&& l1.inline == l.inline
    &&& l1.depth == l.depth
    &&& tracks(g, l) ==> tracks(g, l1)
    &&& l.at.pos <= l1.at.pos
}

proof fn level_push(out: Seq<TokenView>, t: TokenView)
    requires
        nests(out),
        level(out) + level_change(t) >= 0,
    ensures
        level(out.push(t)) == level(out) + level_change(t),
        nests(out.push(t)),
{
    let more = out.push(t);
    assert(more.drop_last() =~= out);
    assert forall|n: int| 0 <= n <= more.len() implies level(#[trigger] more.take(n)) >= 0 by {
        if n <= out.len() {
            assert(more.take(n) =~= out.take(n));
        } else {
            assert(more.take(n) =~= more);
        }
    }
}

/// One more token that is no layout, or a `Newline`, behind the others.
proof fn push_steady(g: Ground, l: Lexing, kind: KindView, span: Span, a: nat, b: nat)
    requires
        steady(g, l),
        in_line(l.out, span.start),
        span.start <= span.end <= l.at.pos,
        !layout_kind(kind) || kind == KindView::Plain(TokenKind::Newline),
        kind == KindView::Plain(TokenKind::Newline) ==> ends_plain(l),
        covers(g.all, kind, span, a, b),
        kind matches KindView::Str(parts) ==> parts_end(parts) && parts_located(g, parts),
    ensures
        steady(g, l.pushed(kind, span)),
{
    let t = TokenView {
        kind,
        span,
        doc: if layout_kind(kind) {
            None
        } else {
            l.doc
        },
    };
    let more = l.pushed(kind, span).out;
    assert(more == l.out.push(t));
    level_push(l.out, t);
    assert(covers(g.all, t.kind, t.span, a, b));
    if let KindView::Str(parts) = kind {
        assert forall|i: int, j: int|
            #![trigger parts[i]->Interp_0[j]]
            0 <= i < parts.len() && parts[i] is Interp && 0 <= j
                < parts[i]->Interp_0.len() implies located(g.all, parts[i]->Interp_0[j]) by {
            assert(all_located(g, parts[i]->Interp_0));
        }
    }
    assert(located(g.all, t));
    assert forall|i: int| 0 <= i < more.len() implies located(g.all, #[trigger] more[i]) by {
        assert(i < l.out.len() ==> more[i] == l.out[i]);
    }
}

// ---------------------------------------------------------------------------
// Comments and blanks
// ---------------------------------------------------------------------------

proof fn comment_moves(g: Ground, src: Seq<char>, l: Lexing)
    requires
        ground(g, src),
        l.i <= src.len(),
    ensures
        moved(g, src, l, past_comment(src, l)),
        l.i < src.len() && src[l.i as int] != '\n' ==> past_comment(src, l).i > l.i,
    decreases src.len() - l.i,
{
    if l.i < src.len() && src[l.i as int] != '\n' {
        comment_moves(g, src, l.bumped(src));
    }
}

proof fn doc_line_moves(g: Ground, src: Seq<char>, l: Lexing, text: Seq<char>)
    requires
        ground(g, src),
        l.i <= src.len(),
    ensures
        moved(g, src, l, doc_line(src, l, text).1),
    decreases src.len() - l.i,
{
    if !(l.i >= src.len() || src[l.i as int] == '\n' || (src[l.i as int] == '\r' && ahead(
        src,
        l,
        1,
    ) == Some('\n'))) {
        doc_line_moves(g, src, l.bumped(src), text.push(src[l.i as int]));
    }
}

proof fn comment_line_moves(g: Ground, src: Seq<char>, l: Lexing)
    requires
        ground(g, src),
        l.i < src.len(),
        src[l.i as int] == '#',
    ensures
        moved(g, src, l, past_comment_line(src, l)),
        past_comment_line(src, l).i > l.i,
{
    if l.inline || ahead(src, l, 1) != Some('#') {
        comment_moves(g, src, l);
    } else {
        let l1 = l.bumped(src).bumped(src);
        let l2 = if ahead(src, l1, 0) == Some(' ') {
            l1.bumped(src)
        } else {
            l1
        };
        doc_line_moves(g, src, l2, Seq::empty());
    }
}

proof fn blanks_move(g: Ground, src: Seq<char>, l: Lexing)
    requires
        ground(g, src),
        l.i <= src.len(),
    ensures
        moved(g, src, l, past_blanks(src, l)),
    decreases src.len() - l.i,
{
    if l.i < src.len() {
        let c = src[l.i as int];
        if c == '#' {
            comment_moves(g, src, l.bumped(src));
            let l1 = past_comment(src, l.bumped(src));
            blanks_move(g, src, l1);
        } else if c == ' ' || c == '\t' || c == '\r' || c == '\n' {
            blanks_move(g, src, l.bumped(src));
        }
    }
}

/// Whether a character is none that stands between tokens.
spec fn starts_token(c: char) -> bool {
    c != ' ' && c != '\t' && c != '\r' && c != '\n' && c != '#'
}

proof fn indented_moves(g: Ground, src: Seq<char>, l: Lexing, width: usize)
    requires
        ground(g, src),
        l.i <= src.len(),
    ensures
        match indented(src, l, width) {
            Err(d) => d.phase == Phase::Lex,
            Ok((None, l1)) => moved(g, src, l, l1) && (l.i < src.len() ==> l1.i > l.i),
            Ok((Some(_), l1)) => moved(g, src, l, l1) && l1.i < src.len() && starts_token(
                src[l1.i as int],
            ),
        },
    decreases src.len() - l.i,
{
    if l.i < src.len() {
        let c = src[l.i as int];
        if c == ' ' {
            indented_moves(g, src, l.bumped(src), capped(width, 1));
        } else if c == '\r' {
            indented_moves(g, src, l.bumped(src), width);
        } else if c == '#' {
            comment_line_moves(g, src, l);
        }
    }
}

// ---------------------------------------------------------------------------
// Layout
// ---------------------------------------------------------------------------

/// A layout token where the lexer is has its place.
proof fn layout_located(g: Ground, l: Lexing, t: TokenView)
    requires
        tracks(g, l),
        all_located(g, l.out),
        layout_kind(t.kind),
        t.span == l.here(),
    ensures
        all_located(g, l.out.push(t)),
{
    let k = g.base + l.i;
    assert(covers(g.all, t.kind, t.span, k, k));
    let more = l.out.push(t);
    assert forall|i: int| 0 <= i < more.len() implies located(g.all, #[trigger] more[i]) by {
        assert(i < l.out.len() ==> more[i] == l.out[i]);
    }
}

proof fn dedent_steady(g: Ground, l: Lexing)
    requires
        steady(g, l),
        l.indents.len() > 1,
    ensures
        steady(
            g,
            (Lexing { indents: l.indents.drop_last(), ..l }).pushed(
                KindView::Plain(TokenKind::Dedent),
                l.here(),
            ),
        ),
{
    let t = TokenView { kind: KindView::Plain(TokenKind::Dedent), span: l.here(), doc: None };
    level_push(l.out, t);
    layout_located(g, l, t);
}

proof fn dedented_steady(g: Ground, l: Lexing, width: usize)
    requires
        steady(g, l),
    ensures
        steady(g, dedented(l, width)),
        counted(l) && l.depth == 0 ==> counted(dedented(l, width)),
        dedented(l, width).i == l.i,
        dedented(l, width).depth == l.depth,
        dedented(l, width).inline == l.inline,
    decreases l.indents.len(),
{
    if l.indents.len() > 0 && l.indents.last() > width {
        dedent_steady(g, l);
        let l1 = (Lexing { indents: l.indents.drop_last(), ..l }).pushed(
            KindView::Plain(TokenKind::Dedent),
            l.here(),
        );
        if counted(l) && l.depth == 0 {
            push_counted(
                Lexing { indents: l.indents.drop_last(), ..l },
                KindView::Plain(TokenKind::Dedent),
                l.here(),
            );
        }
        dedented_steady(g, l1, width);
    }
}

proof fn layout_steady(g: Ground, l: Lexing, width: usize)
    requires
        steady(g, l),
        counted(l),
        l.depth == 0,
    ensures
        laid_out(l, width) matches Err(d) ==> d.phase == Phase::Lex,
        laid_out(l, width) matches Ok(l1) ==> steady(g, l1) && counted(l1) && l1.i == l.i
            && l1.inline == l.inline,
{
    if width > l.indent() {
        let t = TokenView { kind: KindView::Plain(TokenKind::Indent), span: l.here(), doc: None };
        level_push(l.out, t);
        layout_located(g, l, t);
        push_counted(
            Lexing { indents: l.indents.push(width), ..l },
            KindView::Plain(TokenKind::Indent),
            l.here(),
        );
    } else if width < l.indent() {
        dedented_steady(g, l, width);
    }
}

proof fn closed_steady(g: Ground, l: Lexing)
    requires
        steady(g, l),
    ensures
        steady(g, blocks_closed(l)),
        blocks_closed(l).indents.len() == 1,
        l.out.is_prefix_of(blocks_closed(l).out),
        only_layout_from(blocks_closed(l).out, l.out.len() as int),
    decreases l.indents.len(),
{
    if l.indents.len() > 1 {
        dedent_steady(g, l);
        let l1 = (Lexing { indents: l.indents.drop_last(), ..l }).pushed(
            KindView::Plain(TokenKind::Dedent),
            l.here(),
        );
        closed_steady(g, l1);
        let out = blocks_closed(l).out;
        assert(out == blocks_closed(l1).out);
        assert(out[l.out.len() as int] == l1.out[l.out.len() as int]);
        assert forall|i: int| 0 <= i < l.out.len() implies l.out[i] == #[trigger] out[i] by {
            assert(l1.out[i] == l.out[i]);
        }
        assert(l.out =~= out.take(l.out.len() as int));
    } else {
        assert(l.out =~= l.out.take(l.out.len() as int));
    }
}

/// The last line ended and the blocks closed, outside strings.
spec fn ended(l: Lexing, produced: bool) -> Lexing {
    if l.inline {
        l
    } else {
        blocks_closed(
            if produced && !(l.out.len() > 0 && l.out.last().kind == KindView::Plain(
                TokenKind::Newline,
            )) {
                l.pushed(KindView::Plain(TokenKind::Newline), l.here())
            } else {
                l
            },
        )
    }
}

proof fn ended_steady(g: Ground, l: Lexing, produced: bool)
    requires
        steady(g, l),
        settled(l),
        produced ==> l.out.len() > 0,
        l.inline ==> l.indents.len() == 1,
    ensures
        steady(g, ended(l, produced)),
        ended(l, produced).indents.len() == 1,
        l.out.len() <= ended(l, produced).out.len(),
        forall|i: int| 0 <= i < l.out.len() ==> #[trigger] ended(l, produced).out[i] == l.out[i],
        only_layout_from(ended(l, produced).out, l.out.len() as int),
{
    if !l.inline {
        if produced && l.out.last().kind != KindView::Plain(TokenKind::Newline) {
            let k = g.base + l.i;
            let l0 = l.pushed(KindView::Plain(TokenKind::Newline), l.here());
            push_steady(g, l, KindView::Plain(TokenKind::Newline), l.here(), k, k);
            closed_steady(g, l0);
            let out = blocks_closed(l0).out;
            assert forall|j: int| l.out.len() <= j < out.len() implies layout_kind(
                (#[trigger] out[j]).kind,
            ) by {
                if j < l0.out.len() {
                    assert(out[j] == l0.out[j]);
                }
            }
            assert forall|i: int| 0 <= i < l.out.len() implies #[trigger] out[i] == l.out[i] by {
                assert(l0.out[i] == l.out[i]);
            }
        } else {
            closed_steady(g, l);
        }
    }
}

/// What holds of the tokens in the end.
spec fn finished_well(g: Ground, out: Seq<TokenView>) -> bool {
    &&& is_stream(out)
    &&& newlines_follow(out)
    &&& brackets_hold_no_layout(out)
    &&& all_located(g, out)
}

proof fn finished_is_stream(g: Ground, l: Lexing, produced: bool)
    requires
        steady(g, l),
        counted(l),
        settled(l),
        produced ==> l.out.len() > 0,
        l.inline ==> l.indents.len() == 1,
    ensures
        finished_well(g, finished(l, produced).out),
{
    let l1 = ended(l, produced);
    ended_steady(g, l, produced);
    let n = l.out.len() as int;
    let t = TokenView { kind: KindView::Plain(TokenKind::Eof), span: l1.here(), doc: None };
    level_push(l1.out, t);
    layout_located(g, l1, t);
    let out = l1.out.push(t);
    assert(finished(l, produced).out == out);
    assert forall|i: int| 0 <= i < out.len() - 1 implies inner_token(#[trigger] out[i]) by {
        assert(out[i] == l1.out[i]);
    }
    assert forall|j: int| n <= j < out.len() implies layout_kind((#[trigger] out[j]).kind) by {
        assert(j < l1.out.len() ==> out[j] == l1.out[j]);
    }
    assert forall|i: int|
        #![trigger out[i]]
        0 <= i < out.len() && layout_kind(out[i].kind) && open_brackets(out.take(i))
            > 0 implies only_layout_from(out, i) by {
        if i < n {
            assert(out[i] == l1.out[i]);
            assert(out.take(i) =~= l.out.take(i));
            assert(layout_kind(l.out[i].kind));
        }
    }
    assert forall|i: int, j: int|
        0 <= i && j == i + 1 && j < out.len() && (#[trigger] out[j]).kind == KindView::Plain(
            TokenKind::Newline,
        ) implies !layout_kind((#[trigger] out[i]).kind) by {
        assert(j < l1.out.len());
        assert(out[j] == l1.out[j] && out[i] == l1.out[i]);
    }
    assert(out[0] == l1.out[0] || l1.out.len() == 0);
}

// ---------------------------------------------------------------------------
// Tokens
// ---------------------------------------------------------------------------

proof fn name_moves(g: Ground, src: Seq<char>, l: Lexing)
    requires
        ground(g, src),
        l.i <= src.len(),
    ensures
        moved(g, src, l, past_name(src, l)),
        l.i < src.len() && continues_name(src[l.i as int]) ==> past_name(src, l).i > l.i,
    decreases src.len() - l.i,
{
    if l.i < src.len() && continues_name(src[l.i as int]) {
        name_moves(g, src, l.bumped(src));
    }
}

/// One more token, and no layout.
spec fn lexed_one(g: Ground, src: Seq<char>, l: Lexing, l1: Lexing) -> bool {
    &&& steady(g, l1)
    &&& counted(l1)
    &&& ends_plain(l1)
    &&& l.i < l1.i <= src.len()
    &&& l1.indents == l.indents
    &&& l1.inline == l.inline
}

proof fn name_steady(g: Ground, src: Seq<char>, l: Lexing)
    requires
        ground(g, src),
        steady(g, l),
        counted(l),
        l.i < src.len(),
        starts_name(src[l.i as int]),
    ensures
        lexed_one(g, src, l, name_lexed(src, l)),
{
    name_moves(g, src, l);
    let l1 = past_name(src, l);
    let text = src.subrange(l.i as int, l1.i as int);
    let kind = match keyword_of(text) {
        Some(k) => KindView::Plain(k),
        None => KindView::Name(text),
    };
    let (a, b) = (g.base + l.i, g.base + l1.i);
    assert(text =~= g.all.subrange(a as int, b as int));
    push_steady(g, l1, kind, l1.since(l.mark()), a, b);
    push_counted(l1, kind, l1.since(l.mark()));
}

proof fn digits_move(g: Ground, src: Seq<char>, l: Lexing, sep: bool)
    requires
        ground(g, src),
        l.i <= src.len(),
    ensures
        moved(g, src, l, past_digits(src, l, sep).0),
        l.i < src.len() && is_digit(src[l.i as int]) ==> past_digits(src, l, sep).0.i > l.i,
    decreases src.len() - l.i,
{
    if l.i < src.len() && (is_digit(src[l.i as int]) || src[l.i as int] == '_') {
        digits_move(g, src, l.bumped(src), src[l.i as int] == '_');
    }
}

proof fn number_steady(g: Ground, src: Seq<char>, l: Lexing)
    requires
        ground(g, src),
        steady(g, l),
        counted(l),
        l.i < src.len(),
        is_digit(src[l.i as int]),
    ensures
        number_lexed(src, l) matches Err(d) ==> d.phase == Phase::Lex,
        number_lexed(src, l) matches Ok(l1) ==> lexed_one(g, src, l, l1),
{
    let m = l.mark();
    digits_move(g, src, l, false);
    if let Ok(l1) = digits_lexed(src, l, m) {
        let raw = src.subrange(l.i as int, l1.i as int);
        if l1.i < src.len() {
            digits_move(g, src, l1.bumped(src), false);
            if let Ok(l2) = digits_lexed(src, l1.bumped(src), m) {
                let long = src.subrange(l.i as int, l2.i as int);
                let kind = KindView::Float(without_seps(long));
                push_steady(g, l2, kind, l2.since(m), g.base + l.i, g.base + l2.i);
                push_counted(l2, kind, l2.since(m));
            }
        }
        let kind = KindView::Int(digits_value(without_seps(raw)) as int);
        push_steady(g, l1, kind, l1.since(m), g.base + l.i, g.base + l1.i);
        push_counted(l1, kind, l1.since(m));
    }
}

proof fn bumped_by_moves(g: Ground, src: Seq<char>, l: Lexing, n: nat)
    requires
        ground(g, src),
        l.i <= src.len(),
    ensures
        moved(g, src, l, l.bumped_by(src, n)),
        n > 0 && l.i < src.len() ==> l.bumped_by(src, n).i > l.i,
    decreases n,
{
    if n > 0 {
        bumped_by_moves(g, src, l.bumped(src), (n - 1) as nat);
    }
}

proof fn operator_steady(g: Ground, src: Seq<char>, l: Lexing)
    requires
        ground(g, src),
        steady(g, l),
        counted(l),
        l.i < src.len(),
    ensures
        operator_lexed(src, l) matches Err(d) ==> d.phase == Phase::Lex,
        operator_lexed(src, l) matches Ok(l1) ==> lexed_one(g, src, l, l1),
{
    let c = src[l.i as int];
    if let Some(op) = operator_at(c, ahead(src, l, 1), ahead(src, l, 2)) {
        let l0 = Lexing { depth: crate::lexer::depth_after(l.depth, op), ..l };
        bumped_by_moves(g, src, l0, op.len);
        let l1 = l0.bumped_by(src, op.len);
        assert(steady(g, l1));
        let kind = KindView::Plain(op.kind);
        assert(l1.depth == brackets_after(l.depth, kind));
        push_steady(g, l1, kind, l1.since(l.mark()), g.base + l.i, g.base + l1.i);
        push_counted(l1, kind, l1.since(l.mark()));
    }
}

proof fn nested_moves(g: Ground, src: Seq<char>, l: Lexing, m: Mark)
    requires
        ground(g, src),
        l.i <= src.len(),
    ensures
        past_nested(src, l, m) matches Err(d) ==> d.phase == Phase::Lex,
        past_nested(src, l, m) matches Ok(l1) ==> moved(g, src, l, l1) && l1.i > l.i,
    decreases src.len() - l.i,
{
    if l.i < src.len() && src[l.i as int] != '\n' {
        if src[l.i as int] == '\\' {
            let l1 = l.bumped(src);
            if l1.i < src.len() {
                nested_moves(g, src, l1.bumped(src), m);
            } else {
                nested_moves(g, src, l1, m);
            }
        } else if src[l.i as int] != '"' {
            nested_moves(g, src, l.bumped(src), m);
        }
    }
}

proof fn close_moves(g: Ground, src: Seq<char>, l: Lexing, m: Mark, depth: usize)
    requires
        ground(g, src),
        l.i <= src.len(),
    ensures
        to_close(src, l, m, depth) matches Err(d) ==> d.phase == Phase::Lex,
        to_close(src, l, m, depth) matches Ok(l1) ==> moved(g, src, l, l1) && l1.i < src.len(),
    decreases src.len() - l.i,
{
    if l.i < src.len() {
        let c = src[l.i as int];
        if c == '\n' || (c == '}' && depth == 0) {
        } else if c == '}' || c == ')' || c == ']' {
            close_moves(g, 
                src,
                l.bumped(src),
                m,
                if depth > 0 {
                    (depth - 1) as usize
                } else {
                    0
                },
            );
        } else if c == '{' || c == '(' || c == '[' {
            close_moves(g, src, l.bumped(src), m, capped(depth, 1));
        } else if c == '"' {
            nested_moves(g, src, l.bumped(src), m);
            if let Ok(l1) = past_nested(src, l.bumped(src), m) {
                close_moves(g, src, l1, m, depth);
            }
        } else {
            close_moves(g, src, l.bumped(src), m, depth);
        }
    }
}

proof fn ground_within(g: Ground, src: Seq<char>, l: Lexing, end: nat)
    requires
        ground(g, src),
        tracks(g, l),
        l.i <= end <= src.len(),
    ensures
        ground(
            Ground { all: g.all, base: g.base + l.i },
            src.subrange(l.i as int, end as int),
        ),
        tracks(
            Ground { all: g.all, base: g.base + l.i },
            starting(l.at.pos, l.at.line, l.at.col, true),
        ),
{
    let inner = src.subrange(l.i as int, end as int);
    let base = g.base + l.i;
    assert(inner =~= g.all.subrange(base as int, (base + inner.len()) as int));
}

proof fn start_is_steady(g: Ground, l: Lexing)
    requires
        tracks(g, l),
        l.out.len() == 0,
        l.indents == seq![0usize],
        l.depth == 0,
    ensures
        steady(g, l),
        counted(l),
        settled(l),
{
    assert forall|n: int| 0 <= n <= l.out.len() implies level(#[trigger] l.out.take(n)) >= 0 by {
        assert(l.out.take(n) =~= l.out);
    }
}

proof fn interpolation_moves(g: Ground, src: Seq<char>, l: Lexing, m: Mark)
    requires
        ground(g, src),
        tracks(g, l),
        l.i < src.len(),
    ensures
        interpolation_lexed(src, l, m) matches Err(d) ==> d.phase == Phase::Lex,
        interpolation_lexed(src, l, m) matches Ok((ts, l1)) ==> moved(g, src, l, l1) && l1.i > l.i
            && ts.len() > 0 && is_eof(ts.last()) && all_located(g, ts) && in_line(
            ts,
            ts.last().span.end,
        ),
    decreases src.len(), src.len() - l.i, 0nat,
{
    let l1 = l.bumped(src);
    close_moves(g, src, l1, m, 0);
    if let Ok(l2) = to_close(src, l1, m, 0) {
        let inner = src.subrange(l1.i as int, l2.i as int);
        let within = Ground { all: g.all, base: g.base + l1.i };
        let start = starting(l1.at.pos, l1.at.line, l1.at.col, true);
        ground_within(g, src, l1, l2.i);
        start_is_steady(within, start);
        lines_stream(within, inner, start, false);
    }
}

proof fn parts_push(g: Ground, parts: Seq<PartView>, text: Seq<char>, ts: Seq<TokenView>)
    requires
        parts_end(parts),
        parts_located(g, parts),
    ensures
        parts_end(flushed(parts, text)),
        parts_located(g, flushed(parts, text)),
        all_located(g, ts) && in_line(ts, ts.last().span.end) ==> parts_located(
            g,
            flushed(parts, text).push(PartView::Interp(ts)),
        ),
        ts.len() > 0 && is_eof(ts.last()) ==> parts_end(
            flushed(parts, text).push(PartView::Interp(ts)),
        ),
{
}

proof fn string_moves(
    g: Ground,
    src: Seq<char>,
    l: Lexing,
    m: Mark,
    parts: Seq<PartView>,
    text: Seq<char>,
)
    requires
        ground(g, src),
        tracks(g, l),
        l.i <= src.len(),
        parts_end(parts),
        parts_located(g, parts),
    ensures
        string_rest(src, l, m, parts, text) matches Err(d) ==> d.phase == Phase::Lex,
        string_rest(src, l, m, parts, text) matches Ok((ps, l1)) ==> moved(g, src, l, l1) && l1.i
            > l.i && parts_end(ps) && parts_located(g, ps),
    decreases src.len(), src.len() - l.i, 1nat,
{
    if l.i < src.len() {
        let c = src[l.i as int];
        let next = ahead(src, l, 1);
        parts_push(g, parts, text, Seq::empty());
        if c == '\n' || c == '"' {
        } else if c == '\\' {
            if let Some(e) = next {
                if let Some(r) = crate::lexer::escaped(e) {
                    let l2 = l.bumped(src).bumped(src);
                    string_moves(g, src, l2, m, parts, text.push(r));
                }
            }
        } else if c == '{' {
            if next == Some('{') {
                let l2 = l.bumped(src).bumped(src);
                string_moves(g, src, l2, m, parts, text.push('{'));
            } else {
                interpolation_moves(g, src, l, m);
                if let Ok((ts, l1)) = interpolation_lexed(src, l, m) {
                    parts_push(g, parts, text, ts);
                    let more = flushed(parts, text).push(PartView::Interp(ts));
                    string_moves(g, src, l1, m, more, Seq::empty());
                }
            }
        } else if c == '}' {
            if next == Some('}') {
                let l2 = l.bumped(src).bumped(src);
                string_moves(g, src, l2, m, parts, text.push('}'));
            }
        } else {
            string_moves(g, src, l.bumped(src), m, parts, text.push(c));
        }
    }
}

proof fn token_steady(g: Ground, src: Seq<char>, l: Lexing)
    requires
        ground(g, src),
        steady(g, l),
        counted(l),
        l.i < src.len(),
    ensures
        token_lexed(src, l) matches Err(d) ==> d.phase == Phase::Lex,
        token_lexed(src, l) matches Ok(l1) ==> lexed_one(g, src, l, l1),
    decreases src.len(), src.len() - l.i, 2nat,
{
    let c = src[l.i as int];
    if starts_name(c) {
        name_steady(g, src, l);
    } else if is_digit(c) {
        number_steady(g, src, l);
    } else if c == '"' {
        let m = l.mark();
        string_moves(g, src, l.bumped(src), m, Seq::empty(), Seq::empty());
        if let Ok((parts, l1)) = string_rest(
            src,
            l.bumped(src),
            m,
            Seq::empty(),
            Seq::empty(),
        ) {
            let kind = KindView::Str(parts);
            push_steady(g, l1, kind, l1.since(m), g.base + l.i, g.base + l1.i);
            push_counted(l1, kind, l1.since(m));
        }
    } else {
        operator_steady(g, src, l);
    }
}

// ---------------------------------------------------------------------------
// Lines
// ---------------------------------------------------------------------------

proof fn line_steady(g: Ground, src: Seq<char>, l: Lexing, produced: bool)
    requires
        ground(g, src),
        steady(g, l),
        counted(l),
        produced ==> ends_plain(l),
        l.i <= src.len(),
    ensures
        line_lexed(src, l, produced) matches Err(d) ==> d.phase == Phase::Lex,
        line_lexed(src, l, produced) matches Ok((content, l1)) ==> {
            &&& steady(g, l1)
            &&& counted(l1)
            &&& l.i <= l1.i <= src.len()
            &&& l.i < src.len() ==> l1.i > l.i
            &&& l1.indents == l.indents
            &&& l1.inline == l.inline
            &&& produced || (l.i < src.len() && starts_token(src[l.i as int])) ==> content
            &&& content ==> l1.out.len() > 0 && settled(l1)
            &&& !content ==> l1.out == l.out
        },
    decreases src.len(), src.len() - l.i, 3nat,
{
    if l.i < src.len() {
        let c = src[l.i as int];
        if c == '\n' {
            let l1 = l.bumped(src);
            if l1.depth == 0 {
                if produced {
                    let kind = KindView::Plain(TokenKind::Newline);
                    let k = g.base + l1.i;
                    push_steady(g, l1, kind, l1.here(), k, k);
                    push_counted(l1, kind, l1.here());
                }
            } else {
                blanks_move(g, src, l1);
                line_steady(g, src, past_blanks(src, l1), produced);
            }
        } else if c == '\r' || c == ' ' || c == '\t' {
            line_steady(g, src, l.bumped(src), produced);
        } else if c == '#' {
            comment_moves(g, src, l.bumped(src));
            line_steady(g, src, past_comment(src, l.bumped(src)), produced);
        } else {
            token_steady(g, src, l);
            if let Ok(l1) = token_lexed(src, l) {
                line_steady(g, src, l1, true);
            }
        }
    }
}

proof fn lines_stream(g: Ground, src: Seq<char>, l: Lexing, produced: bool)
    requires
        ground(g, src),
        steady(g, l),
        counted(l),
        settled(l),
        produced ==> l.out.len() > 0,
        l.i <= src.len(),
        l.inline ==> l.indents.len() == 1,
    ensures
        lines_lexed(src, l, produced) matches Err(d) ==> d.phase == Phase::Lex,
        lines_lexed(src, l, produced) matches Ok(l1) ==> finished_well(g, l1.out),
    decreases src.len(), src.len() - l.i, 4nat,
{
    let started: Result<(bool, Lexing), DiagnosticView> = if l.depth == 0 && !l.inline {
        match indented(src, l, 0) {
            Err(d) => Err(d),
            Ok((None, l1)) => Ok((false, l1)),
            Ok((Some(width), l1)) => match laid_out(l1, width) {
                Err(d) => Err(d),
                Ok(l2) => Ok((true, l2)),
            },
        }
    } else {
        Ok((true, l))
    };
    if l.depth == 0 && !l.inline {
        indented_moves(g, src, l, 0);
        if let Ok((Some(width), l1)) = indented(src, l, 0) {
            assert(steady(g, l1) && counted(l1));
            layout_steady(g, l1, width);
        }
    }
    match started {
        Err(_) => {},
        Ok((false, l1)) => {
            assert(steady(g, l1));
            if l1.i >= src.len() {
                finished_is_stream(g, l1, produced);
            } else {
                lines_stream(g, src, l1, produced);
            }
        },
        Ok((true, l1)) => {
            line_steady(g, src, l1, false);
            if let Ok((content, l2)) = line_lexed(src, l1, false) {
                if l2.i >= src.len() {
                    finished_is_stream(g, l2, produced || content);
                } else {
                    lines_stream(g, src, l2, produced || content);
                }
            }
        },
    }
}

proof fn lexed_well(src: Seq<char>)
    ensures
        lexed(src) matches Ok(out) ==> finished_well(Ground { all: src, base: 0 }, out),
        lexed(src) matches Err(d) ==> d.phase == Phase::Lex,
{
    let g = Ground { all: src, base: 0 };
    let l = starting(0, 1, 1, false);
    assert(src =~= g.all.subrange(0, src.len() as int));
    start_is_steady(g, l);
    lines_stream(g, src, l, false);
}

/// A source text that lexes gives a token stream: it ends in its only `Eof`, each
/// `Indent` has its `Dedent` and they nest, no layout token carries a doc comment,
/// the tokens of every interpolation end in `Eof`, and the spans follow each other
/// in the source. What a text that does not lex ends in is a lex error.
pub proof fn law_tokens_are_a_stream(src: Seq<char>)
    ensures
        lexed(src) matches Ok(out) ==> is_stream(out),
        lexed(src) matches Err(d) ==> d.phase == Phase::Lex,
{
    lexed_well(src);
}

/// Each `Newline` directly follows a token that is no layout: a blank line or one
/// with only a comment gives none.
pub proof fn law_newline_ends_a_line(src: Seq<char>)
    ensures
        lexed(src) matches Ok(out) ==> newlines_follow(out),
{
    lexed_well(src);
}

/// No layout token stands between an opening bracket and the bracket that closes
/// it.
pub proof fn law_no_layout_in_brackets(src: Seq<char>)
    ensures
        lexed(src) matches Ok(out) ==> brackets_hold_no_layout(out),
{
    lexed_well(src);
}

/// Every token, also inside a string, has the span of the characters that it
/// stands for, and none reaches past the end of the source.
pub proof fn law_spans_cover_the_source(src: Seq<char>)
    ensures
        lexed(src) matches Ok(out) ==> forall|i: int|
            0 <= i < out.len() ==> located(src, #[trigger] out[i]) && out[i].span.start
                <= out[i].span.end <= mark_at(src, src.len()).pos,
{
    lexed_well(src);
    if let Ok(out) = lexed(src) {
        assert forall|i: int| 0 <= i < out.len() implies located(src, #[trigger] out[i])
            && out[i].span.start <= out[i].span.end <= mark_at(src, src.len()).pos by {
            let t = out[i];
            assert(located(src, t));
            let (a, b) = choose|a: nat, b: nat| #[trigger] covers(src, t.kind, t.span, a, b);
            law_places_grow(src, a, b);
            law_places_grow(src, b, src.len());
        }
    }
}

// ---------------------------------------------------------------------------
// Indentation
// ---------------------------------------------------------------------------

proof fn front_of_rising(s: Seq<usize>, width: usize, k: int)
    requires
        0 <= k <= s.len(),
        forall|i: int| 0 <= i < k ==> #[trigger] s[i] < width,
        forall|i: int| k <= i < s.len() ==> #[trigger] s[i] >= width,
    ensures
        s.filter(|n: usize| n < width) == s.take(k),
    decreases s.len(),
{
    reveal(Seq::filter);
    if s.len() > 0 {
        let front = s.drop_last();
        assert(forall|i: int| 0 <= i < front.len() ==> front[i] == s[i]);
        if k == s.len() {
            front_of_rising(front, width, k - 1);
            assert(s[k - 1] < width);
            assert(s.take(k) =~= front.take(k - 1).push(s.last()));
        } else {
            front_of_rising(front, width, k);
            assert(s[s.len() - 1] >= width);
            assert(s.take(k) =~= front.take(k));
        }
    } else {
        assert(s.take(k) =~= s);
    }
}

proof fn back_of_rising(s: Seq<usize>, width: usize, k: int)
    requires
        0 <= k <= s.len(),
        forall|i: int| 0 <= i < k ==> #[trigger] s[i] <= width,
        forall|i: int| k <= i < s.len() ==> #[trigger] s[i] > width,
    ensures
        s.filter(|n: usize| n > width).len() == s.len() - k,
    decreases s.len(),
{
    reveal(Seq::filter);
    if s.len() > 0 {
        let front = s.drop_last();
        assert(forall|i: int| 0 <= i < front.len() ==> front[i] == s[i]);
        if k == s.len() {
            back_of_rising(front, width, k - 1);
            assert(s[k - 1] <= width);
        } else {
            back_of_rising(front, width, k);
            assert(s[s.len() - 1] > width);
        }
    }
}

/// So many of a layout token, one behind the other.
pub open spec fn layout_run(kind: TokenKind, span: Span, n: nat) -> Seq<TokenView> {
    Seq::new(n, |i: int| TokenView { kind: KindView::Plain(kind), span, doc: None })
}

proof fn dedented_to(l: Lexing, width: usize) -> (k: int)
    requires
        l.indents.len() >= 1,
        l.indents[0] == 0,
        rising(l.indents),
    ensures
        1 <= k <= l.indents.len(),
        forall|i: int| 0 <= i < k ==> #[trigger] l.indents[i] <= width,
        forall|i: int| k <= i < l.indents.len() ==> #[trigger] l.indents[i] > width,
        dedented(l, width) == (Lexing {
            indents: l.indents.take(k),
            out: l.out + layout_run(TokenKind::Dedent, l.here(), (l.indents.len() - k) as nat),
            ..l
        }),
    decreases l.indents.len(),
{
    let s = l.indents;
    if s.last() > width {
        let l1 = (Lexing { indents: s.drop_last(), ..l }).pushed(
            KindView::Plain(TokenKind::Dedent),
            l.here(),
        );
        let k = dedented_to(l1, width);
        assert(l1.indents.take(k) =~= s.take(k));
        assert(forall|i: int| 0 <= i < l1.indents.len() ==> s[i] == l1.indents[i]);
        let run = layout_run(TokenKind::Dedent, l.here(), (s.len() - k) as nat);
        let rest = layout_run(TokenKind::Dedent, l.here(), (l1.indents.len() - k) as nat);
        assert(l1.out + rest =~= l.out + run);
        k
    } else {
        assert(s.take(s.len() as int) =~= s);
        assert(l.out + layout_run(TokenKind::Dedent, l.here(), 0) =~= l.out);
        assert forall|i: int| 0 <= i < s.len() implies #[trigger] s[i] <= width by {
            assert(s[i] <= s[s.len() - 1]);
        }
        s.len() as int
    }
}

/// A line's indentation against those of the open blocks, which increase strictly
/// from nothing and still do so afterwards. It is refused just if it is less than
/// the innermost and none of them. Otherwise the open ones are those below it and
/// it: a deeper line opens one block, and a shallower one closes each block that
/// is deeper than it. Nothing else changes.
pub proof fn law_indentation(l: Lexing, width: usize)
    requires
        l.indents.len() >= 1,
        l.indents[0] == 0,
        rising(l.indents),
    ensures
        laid_out(l, width) is Err <==> width < l.indents.last() && !l.indents.contains(width),
        laid_out(l, width) matches Ok(l1) ==> {
            let above = l.indents.filter(|n: usize| n > width);
            &&& l1.indents == l.indents.filter(|n: usize| n < width).push(width)
            &&& rising(l1.indents)
            &&& l1.indents[0] == 0
            &&& l1.out == l.out + (if width > l.indents.last() {
                layout_run(TokenKind::Indent, l.here(), 1)
            } else {
                layout_run(TokenKind::Dedent, l.here(), above.len())
            })
            &&& l1 == Lexing { indents: l1.indents, out: l1.out, ..l }
        },
{
    let s = l.indents;
    let n = s.len() as int;
    assert(s[n - 1] == s.last());
    assert(forall|i: int| 0 <= i < n ==> #[trigger] s[i] <= s[n - 1]);
    if width > s.last() {
        front_of_rising(s, width, n);
        assert(s.take(n) =~= s);
        assert(l.out.push(
            TokenView { kind: KindView::Plain(TokenKind::Indent), span: l.here(), doc: None },
        ) =~= l.out + layout_run(TokenKind::Indent, l.here(), 1));
    } else {
        let k = dedented_to(l, width);
        back_of_rising(s, width, k);
        assert(s.take(k).last() == s[k - 1]);
        if s[k - 1] == width {
            assert forall|i: int| 0 <= i < k - 1 implies #[trigger] s[i] < width by {
                assert(s[i] < s[k - 1]);
            }
            front_of_rising(s, width, k - 1);
            assert(s.take(k - 1).push(width) =~= s.take(k));
        } else if s.contains(width) {
            let i = choose|i: int| 0 <= i < n && s[i] == width;
            assert(i < k);
            assert(s[i] <= s[k - 1]);
        }
    }
}

} // verus!
