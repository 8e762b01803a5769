//! Laws of string literals: what is written comes back.

use crate::error::DiagnosticView;
use crate::lexer::{
    blocks_closed, finished, flushed, indented, is_digit, laid_out, lexed, line_lexed,
    lines_lexed, starting, starts_name, string_rest, token_lexed, Lexing, Mark,
};
use crate::lexer_laws::is_eof;
use crate::source_places::{bump_tracks, span_of, tracks, Ground};
use crate::token::{KindView, PartView, TokenKind, TokenView};
use vstd::prelude::*;

verus! {

/// How a character of a text is written in a string literal.
pub open spec fn quoted_char(c: char) -> Seq<char> {
    if c == '\\' || c == '"' {
        seq!['\\', c]
    } else if c == '\n' {
        seq!['\\', 'n']
    } else if c == '{' || c == '}' {
        seq![c, c]
    } else {
        seq![c]
    }
}

/// A text as it is written in a string literal, with the closing quote.
pub open spec fn quoted(text: Seq<char>) -> Seq<char>
    decreases text.len(),
{
    if text.len() == 0 {
        seq!['"']
    } else {
        quoted_char(text[0]) + quoted(text.skip(1))
    }
}

/// A string literal that stands for a text.
pub open spec fn literal_of(text: Seq<char>) -> Seq<char> {
    seq!['"'] + quoted(text)
}

/// A source by itself, from its start.
spec fn whole(src: Seq<char>) -> Ground {
    Ground { all: src, base: 0 }
}

/// The rest of a string that is a quoted text gives the text, and the lexer is
/// behind the quote.
proof fn quoted_rest(
    src: Seq<char>,
    l: Lexing,
    m: Mark,
    parts: Seq<PartView>,
    before: Seq<char>,
    text: Seq<char>,
) -> (l1: Lexing)
    requires
        l.i + quoted(text).len() <= src.len(),
        src.subrange(l.i as int, (l.i + quoted(text).len()) as int) == quoted(text),
    ensures
        string_rest(src, l, m, parts, before) == Ok::<(Seq<PartView>, Lexing), DiagnosticView>(
            (flushed(parts, before + text), l1),
        ),
        l1 == (Lexing { i: l.i + quoted(text).len(), at: l1.at, ..l }),
        tracks(whole(src), l) ==> tracks(whole(src), l1),
    decreases text.len(),
{
    let g = whole(src);
    assert(src =~= src.subrange(0, src.len() as int));
    if tracks(g, l) {
        bump_tracks(g, src, l);
        bump_tracks(g, src, l.bumped(src));
    }
    let q = quoted(text);
    assert(forall|k: int| 0 <= k < q.len() ==> src[l.i + k] == #[trigger] q[k]) by {
        assert forall|k: int| 0 <= k < q.len() implies src[l.i + k] == #[trigger] q[k] by {
            assert(src.subrange(l.i as int, (l.i + q.len()) as int)[k] == q[k]);
        }
    }
    if text.len() == 0 {
        assert(src[l.i as int] == q[0]);
        assert(before + text =~= before);
        l.bumped(src)
    } else {
        let c = text[0];
        let w = quoted_char(c);
        let rest = text.skip(1);
        assert(q == w + quoted(rest));
        assert(src[l.i as int] == q[0] && q[0] == w[0]);
        let l2 = if w.len() == 2 {
            assert(src[(l.i + 1) as int] == q[1] && q[1] == w[1]);
            l.bumped(src).bumped(src)
        } else {
            l.bumped(src)
        };
        assert(quoted(rest).len() >= 1);
        assert(l2.i == l.i + w.len());
        assert(src.subrange(l2.i as int, (l2.i + quoted(rest).len()) as int) =~= quoted(rest)) by {
            assert forall|k: int| 0 <= k < quoted(rest).len() implies src[l2.i + k] == quoted(
                rest,
            )[k] by {
                assert(src[l.i + (w.len() + k)] == q[w.len() + k]);
            }
        }
        let l1 = quoted_rest(src, l2, m, parts, before.push(c), rest);
        assert(before.push(c) + rest =~= before + text);
        l1
    }
}

/// A literal that stands for a text lexes back to the text, wherever it stands in
/// a source: one string token whose only part is the text, or that has no part if
/// the text is empty. The lexer is then behind the literal, and knows the place.
pub proof fn law_literal_lexes_back(src: Seq<char>, l: Lexing, text: Seq<char>)
    requires
        l.i + literal_of(text).len() <= src.len(),
        src.subrange(l.i as int, (l.i + literal_of(text).len()) as int) == literal_of(text),
    ensures
        token_lexed(src, l) matches Ok(l1) && l1.i == l.i + literal_of(text).len() && l1.out
            == l.out.push(
            TokenView {
                kind: KindView::Str(flushed(Seq::empty(), text)),
                span: l1.since(l.mark()),
                doc: l.doc,
            },
        ) && l1.indents == l.indents && l1.depth == l.depth && l1.inline == l.inline && (tracks(
            Ground { all: src, base: 0 },
            l,
        ) ==> tracks(Ground { all: src, base: 0 }, l1)),
{
    let g = whole(src);
    assert(src =~= src.subrange(0, src.len() as int));
    if tracks(g, l) {
        bump_tracks(g, src, l);
    }
    let lit = literal_of(text);
    let q = quoted(text);
    let l0 = l.bumped(src);
    assert(src.subrange(l.i as int, (l.i + lit.len()) as int)[0] == lit[0]);
    assert(src[l.i as int] == '"');
    assert(src.subrange(l0.i as int, (l0.i + q.len()) as int) =~= q) by {
        assert forall|k: int| 0 <= k < q.len() implies src[l0.i + k] == q[k] by {
            assert(src.subrange(l.i as int, (l.i + lit.len()) as int)[k + 1] == lit[k + 1]);
        }
    }
    let l1 = quoted_rest(src, l0, l.mark(), Seq::empty(), Seq::empty(), text);
    assert(Seq::<char>::empty() + text =~= text);
    assert(!starts_name('"') && !is_digit('"'));
    let kind = KindView::Str(flushed(Seq::empty(), text));
    assert(token_lexed(src, l) == Ok::<Lexing, DiagnosticView>(
        l1.pushed(kind, l1.since(l.mark())),
    ));
}

/// A source that is just a literal gives the string, the end of the line and the
/// end. The string covers all of it.
pub proof fn law_literal_is_one_token(text: Seq<char>)
    ensures
        lexed(literal_of(text)) matches Ok(out) && out.len() == 3 && out[0].kind == KindView::Str(
            flushed(Seq::empty(), text),
        ) && out[1].kind == KindView::Plain(TokenKind::Newline) && is_eof(out[2]) && out[0].span
            == span_of(literal_of(text), 0, literal_of(text).len()),
{
    let src = literal_of(text);
    let l = starting(0, 1, 1, false);
    assert(src.subrange(0, src.len() as int) =~= src);
    law_literal_lexes_back(src, l, text);
    assert(tracks(whole(src), l));
    assert(src[0] == '"');
    assert(indented(src, l, 0) == Ok::<(Option<usize>, Lexing), DiagnosticView>((Some(0), l)));
    assert(laid_out(l, 0) == Ok::<Lexing, DiagnosticView>(l));
    if let Ok(l1) = token_lexed(src, l) {
        assert(line_lexed(src, l1, true) == Ok::<(bool, Lexing), DiagnosticView>((true, l1)));
        assert(line_lexed(src, l, false) == Ok::<(bool, Lexing), DiagnosticView>((true, l1)));
        let l2 = l1.pushed(KindView::Plain(TokenKind::Newline), l1.here());
        assert(blocks_closed(l2) == l2);
        assert(lines_lexed(src, l, false) == Ok::<Lexing, DiagnosticView>(finished(l1, true)));
    }
}

} // verus!
