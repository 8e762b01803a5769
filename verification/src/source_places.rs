//! Places in a source text, counted in bytes, lines and columns.

use crate::lexer::{Lexing, Mark};
use crate::text::utf8_len;
use crate::token::Span;
use vstd::prelude::*;

verus! {

/// How many bytes the first `k` characters take.
pub open spec fn bytes(src: Seq<char>, k: nat) -> nat
    decreases k,
{
    if k == 0 {
        0
    } else {
        bytes(src, (k - 1) as nat) + utf8_len(src[k - 1]) as nat
    }
}

/// The line of the character behind the first `k`: one more than there are line
/// ends before it.
pub open spec fn line_at(src: Seq<char>, k: nat) -> nat
    decreases k,
{
    if k == 0 {
        1
    } else if src[k - 1] == '\n' {
        line_at(src, (k - 1) as nat) + 1
    } else {
        line_at(src, (k - 1) as nat)
    }
}

/// The column of the character behind the first `k`: one more than there are
/// characters between the last line end and it.
pub open spec fn col_at(src: Seq<char>, k: nat) -> nat
    decreases k,
{
    if k == 0 || src[k - 1] == '\n' {
        1
    } else {
        col_at(src, (k - 1) as nat) + 1
    }
}

/// A number as a place holds it: no text in memory is so long that the greatest one
/// is passed, and if one were, it would stay there.
pub open spec fn numbered(n: nat) -> usize {
    if n < usize::MAX {
        n as usize
    } else {
        usize::MAX
    }
}

/// The place of the character behind the first `k`.
pub open spec fn mark_at(src: Seq<char>, k: nat) -> Mark {
    Mark {
        pos: numbered(bytes(src, k)),
        line: numbered(line_at(src, k)),
        col: numbered(col_at(src, k)),
    }
}

/// The span of the characters from `a` up to `b`: it starts and ends there in bytes,
/// and its line and column are those of the first of them.
pub open spec fn span_of(src: Seq<char>, a: nat, b: nat) -> Span {
    Span {
        start: mark_at(src, a).pos,
        end: mark_at(src, b).pos,
        line: mark_at(src, a).line,
        col: mark_at(src, a).col,
    }
}

/// The place behind a character follows from the place of the character.
pub proof fn law_next_place(src: Seq<char>, k: nat)
    ensures
        mark_at(src, k + 1) == mark_at(src, k).behind(src[k as int]),
{
    assert((k + 1 - 1) as nat == k);
    assert(bytes(src, k + 1) == bytes(src, k) + utf8_len(src[k as int]));
    assert(line_at(src, k + 1) == line_at(src, k) + if src[k as int] == '\n' {
        1nat
    } else {
        0nat
    });
}

/// Places further on have greater numbers.
pub proof fn law_places_grow(src: Seq<char>, a: nat, b: nat)
    requires
        a <= b,
    ensures
        bytes(src, a) + (b - a) <= bytes(src, b),
        mark_at(src, a).pos <= mark_at(src, b).pos,
    decreases b - a,
{
    if a < b {
        law_places_grow(src, a, (b - 1) as nat);
    }
}

/// The program that a lexer works on, and where in it the lexer started: at its
/// start, or inside a string.
pub ghost struct Ground {
    pub all: Seq<char>,
    pub base: nat,
}

/// Whether `src` is the part of the program from where the lexer started.
pub open spec fn ground(g: Ground, src: Seq<char>) -> bool {
    g.base + src.len() <= g.all.len() && src == g.all.subrange(
        g.base as int,
        (g.base + src.len()) as int,
    )
}

/// Whether the lexer knows where it is.
pub open spec fn tracks(g: Ground, l: Lexing) -> bool {
    g.base + l.i <= g.all.len() && l.at == mark_at(g.all, g.base + l.i)
}

pub broadcast proof fn bump_tracks(g: Ground, src: Seq<char>, l: Lexing)
    requires
        #[trigger] ground(g, src),
        tracks(g, l),
    ensures
        tracks(g, #[trigger] l.bumped(src)),
{
    if l.i < src.len() {
        assert(src[l.i as int] == g.all[(g.base + l.i) as int]);
        law_next_place(g.all, g.base + l.i);
    }
}

} // verus!
