//! Diagnostics, which every stage reports, and their rendering against the source.

use crate::text::{
    chars_of, count_text, decimal, join, joined, len_utf8, repeat_char, repeated, text_of, texts,
    utf8_len,
};
use crate::token::Span;
use vstd::prelude::*;
use vstd::string::*;

verus! {

/// The stage that a diagnostic comes from.
#[derive(Debug, Clone, Copy, PartialEq, Eq, Structural)]
pub enum Phase {
    /// Tokenization.
    Lex,
    /// Parsing.
    Parse,
    /// The static checks.
    Check,
    /// Evaluation.
    Runtime,
}

impl Phase {
    /// The text of a phase's label.
    pub open spec fn label_text(self) -> Seq<char> {
        match self {
            Phase::Lex => "lex error"@,
            Phase::Parse => "parse error"@,
            Phase::Check => "check error"@,
            Phase::Runtime => "runtime error"@,
        }
    }

    /// Short label for the phase.
    pub fn label(self) -> (r: &'static str)
        ensures
            r@ == self.label_text(),
    {
        match self {
            Phase::Lex => "lex error",
            Phase::Parse => "parse error",
            Phase::Check => "check error",
            Phase::Runtime => "runtime error",
        }
    }
}

/// A message tied to a source position.
#[derive(Debug, PartialEq)]
pub struct Diagnostic {
    pub phase: Phase,
    pub message: String,
    pub span: Span,
}

/// What a `Diagnostic` says.
pub struct DiagnosticView {
    pub phase: Phase,
    pub message: Seq<char>,
    pub span: Span,
}

impl View for Diagnostic {
    type V = DiagnosticView;

    open spec fn view(&self) -> DiagnosticView {
        DiagnosticView { phase: self.phase, message: self.message@, span: self.span }
    }
}

/// What each diagnostic of a sequence says.
pub open spec fn diagnostics_view(diags: Seq<Diagnostic>) -> Seq<DiagnosticView> {
    Seq::new(diags.len(), |i: int| diags[i]@)
}

/// Pushing a diagnostic pushes what it says.
pub broadcast proof fn lemma_diagnostics_push(ds: Seq<Diagnostic>, d: Diagnostic)
    ensures
        #[trigger] diagnostics_view(ds.push(d)) == diagnostics_view(ds).push(d@),
{
    assert(diagnostics_view(ds.push(d)) =~= diagnostics_view(ds).push(d@));
}

impl Clone for Diagnostic {
    fn clone(&self) -> (r: Self)
        ensures
            r == *self,
    {
        Diagnostic { phase: self.phase, message: self.message.clone(), span: self.span }
    }
}

/// A diagnostic of the checks.
pub open spec fn check_diag(message: Seq<char>, span: Span) -> DiagnosticView {
    DiagnosticView { phase: Phase::Check, message, span }
}

/// A diagnostic of the lexer.
pub open spec fn lex_diag(message: Seq<char>, span: Span) -> DiagnosticView {
    DiagnosticView { phase: Phase::Lex, message, span }
}

/// A diagnostic of evaluation.
pub open spec fn runtime_diag(message: Seq<char>, span: Span) -> DiagnosticView {
    DiagnosticView { phase: Phase::Runtime, message, span }
}

/// The place of the first line feed at `i` or after it, or the text's length.
pub open spec fn line_end(src: Seq<char>, i: nat) -> nat
    decreases src.len() - i,
{
    if i >= src.len() {
        src.len()
    } else if src[i as int] == '\n' {
        i
    } else {
        line_end(src, i + 1)
    }
}

/// The text between `from` and `to`, without a carriage return that stands
/// directly before a line feed at `to`.
pub open spec fn line_body(src: Seq<char>, from: nat, to: nat) -> Seq<char> {
    if to < src.len() && from < to && src[to - 1] == '\r' {
        src.subrange(from as int, to - 1)
    } else {
        src.subrange(from as int, to as int)
    }
}

/// Line `n`, counted from zero, of the text from `from` on; empty where there
/// are not so many lines.
pub open spec fn nth_line(src: Seq<char>, from: nat, n: nat) -> Seq<char>
    decreases n,
{
    if from >= src.len() {
        Seq::empty()
    } else if n == 0 {
        line_body(src, from, line_end(src, from))
    } else {
        nth_line(src, line_end(src, from) + 1, (n - 1) as nat)
    }
}

pub open spec fn at_least_one(n: usize) -> usize {
    if n < 1 {
        1
    } else {
        n
    }
}

/// How many characters of a line, from column `from` on, a stretch of so many bytes
/// covers.
pub open spec fn chars_covered(line: Seq<char>, from: nat, bytes: int) -> nat
    decreases line.len() - from,
{
    if from >= line.len() || bytes <= 0 {
        0
    } else {
        1 + chars_covered(line, from + 1, bytes - utf8_len(line[from as int]))
    }
}

/// How many columns a diagnostic underlines on a line: one for each character of
/// the line that the span covers, and at least one.
pub open spec fn underline_width(span: Span, line: Seq<char>) -> nat {
    let n = chars_covered(line, (at_least_one(span.col) - 1) as nat, span.end - span.start);
    if n < 1 {
        1
    } else {
        n
    }
}

/// The rendering of a diagnostic: label and message, the position, and the line
/// it stands on, with carets under the span.
pub open spec fn rendered(d: DiagnosticView, src: Seq<char>) -> Seq<char> {
    let line_no = at_least_one(d.span.line);
    let col_no = at_least_one(d.span.col);
    let line_text = nth_line(src, 0, (line_no - 1) as nat);
    let gutter = decimal(line_no as nat);
    let pad = repeated(' ', gutter.len());
    d.phase.label_text() + ": "@ + d.message + "\n"@ + " --> line "@ + gutter + ", col "@ + decimal(
        col_no as nat,
    ) + "\n"@ + pad + " |\n"@ + gutter + " | "@ + line_text + "\n"@ + pad + " | "@ + repeated(
        ' ',
        (col_no - 1) as nat,
    ) + repeated('^', underline_width(d.span, line_text)) + "\n"@
}

/// The rendering of each diagnostic of a sequence.
pub open spec fn renderings(diags: Seq<DiagnosticView>, src: Seq<char>) -> Seq<Seq<char>> {
    Seq::new(diags.len(), |i: int| rendered(diags[i], src))
}

proof fn lemma_line_end(src: Seq<char>, i: nat)
    requires
        i <= src.len(),
    ensures
        i <= line_end(src, i) <= src.len(),
    decreases src.len() - i,
{
    if i < src.len() && src[i as int] != '\n' {
        lemma_line_end(src, i + 1);
    }
}

/// The text of one line of the source.
fn line_of(src: &Vec<char>, n: usize) -> (r: Vec<char>)
    ensures
        r@ == nth_line(src@, 0, n as nat),
{
    let mut from: usize = 0;
    let mut left: usize = n;
    loop
        invariant
            from <= src.len(),
            nth_line(src@, from as nat, left as nat) == nth_line(src@, 0, n as nat),
        decreases left,
    {
        let mut out: Vec<char> = Vec::new();
        if from >= src.len() {
            return out;
        }
        let mut to: usize = from;
        while to < src.len() && src[to] != '\n'
            invariant
                from <= to <= src.len(),
                out@ == src@.subrange(from as int, to as int),
                line_end(src@, to as nat) == line_end(src@, from as nat),
            decreases src.len() - to,
        {
            out.push(src[to]);
            to = to + 1;
        }
        assert(to == line_end(src@, from as nat));
        if left == 0 {
            if to < src.len() && from < to && src[to - 1] == '\r' {
                out.pop();
                assert(out@ == src@.subrange(from as int, to - 1));
            }
            return out;
        }
        if to >= src.len() {
            assert(nth_line(src@, (to + 1) as nat, (left - 1) as nat) == Seq::<char>::empty());
            return Vec::new();
        }
        from = to + 1;
        left = left - 1;
    }
}

impl Diagnostic {
    pub fn new(phase: Phase, message: String, span: Span) -> (r: Self)
        ensures
            r@ == (DiagnosticView { phase, message: message@, span }),
    {
        Diagnostic { phase, message, span }
    }

    pub fn lex(message: String, span: Span) -> (r: Self)
        ensures
            r@ == lex_diag(message@, span),
    {
        Diagnostic::new(Phase::Lex, message, span)
    }

    pub fn parse(message: String, span: Span) -> (r: Self)
        ensures
            r@ == (DiagnosticView { phase: Phase::Parse, message: message@, span }),
    {
        Diagnostic::new(Phase::Parse, message, span)
    }

    pub fn check(message: String, span: Span) -> (r: Self)
        ensures
            r@ == check_diag(message@, span),
    {
        Diagnostic::new(Phase::Check, message, span)
    }

    pub fn runtime(message: String, span: Span) -> (r: Self)
        ensures
            r@ == runtime_diag(message@, span),
    {
        Diagnostic::new(Phase::Runtime, message, span)
    }

    /// Render the diagnostic against the source it points into:
    ///
    /// ```text
    /// parse error: expected ':' after condition
    ///  --> line 3, col 8
    ///   |
    /// 3 |     if ready
    ///   |        ^^^^^
    /// ```
    ///
    /// A span that crosses lines is underlined on its first line only.
    pub fn render(&self, src: &str) -> (r: String)
        ensures
            r@ == rendered(self@, src@),
    {
        let line_no: usize = if self.span.line < 1 {
            1
        } else {
            self.span.line
        };
        let col_no: usize = if self.span.col < 1 {
            1
        } else {
            self.span.col
        };
        let line_text = line_of(&chars_of(src), line_no - 1);
        let gutter = count_text(line_no);
        let pad = repeat_char(' ', gutter.as_str().unicode_len());
        let start_col: usize = col_no - 1;
        let underline = count_underlined(&line_text, start_col, self.span);
        let mut out = String::new();
        assert(out@ + self.phase.label_text() =~= self.phase.label_text());
        out.append(self.phase.label());
        out.append(": ");
        out.append(self.message.as_str());
        out.append("\n");
        out.append(" --> line ");
        out.append(gutter.as_str());
        out.append(", col ");
        out.append(count_text(col_no).as_str());
        out.append("\n");
        out.append(pad.as_str());
        out.append(" |\n");
        out.append(gutter.as_str());
        out.append(" | ");
        out.append(text_of(&line_text).as_str());
        out.append("\n");
        out.append(pad.as_str());
        out.append(" | ");
        out.append(repeat_char(' ', start_col).as_str());
        out.append(repeat_char('^', underline).as_str());
        out.append("\n");
        out
    }
}

/// How many columns of a line a span underlines.
fn count_underlined(line: &Vec<char>, start_col: usize, span: Span) -> (r: usize)
    requires
        start_col == at_least_one(span.col) - 1,
    ensures
        r == underline_width(span, line@),
{
    let mut left: usize = if span.end > span.start {
        span.end - span.start
    } else {
        0
    };
    let mut count: usize = 0;
    let mut i: usize = start_col;
    while i < line.len() && left > 0
        invariant
            start_col <= i,
            count == i - start_col,
            count + chars_covered(line@, i as nat, left as int) == chars_covered(
                line@,
                start_col as nat,
                span.end - span.start,
            ),
        decreases line.len() - i,
    {
        let bytes = len_utf8(line[i]);
        assert(left < bytes ==> chars_covered(line@, (i + 1) as nat, left - bytes) == 0);
        left = if left > bytes {
            left - bytes
        } else {
            0
        };
        count = count + 1;
        i = i + 1;
    }
    if count < 1 {
        1
    } else {
        count
    }
}

/// Render diagnostics against the source, with a blank line between them.
pub fn render_all(diags: &Vec<Diagnostic>, src: &str) -> (r: String)
    ensures
        r@ == joined(renderings(diagnostics_view(diags@), src@), "\n"@),
{
    let mut parts: Vec<String> = Vec::new();
    let mut i: usize = 0;
    let ghost all = renderings(diagnostics_view(diags@), src@);
    while i < diags.len()
        invariant
            i <= diags.len(),
            all == renderings(diagnostics_view(diags@), src@),
            texts(parts@) == all.take(i as int),
        decreases diags.len() - i,
    {
        let ghost before = parts@;
        parts.push(diags[i].render(src));
        proof {
            assert(all.take(i as int).len() == before.len());
            assert forall|j: int| 0 <= j < parts@.len() implies (#[trigger] parts@[j])@
                == all[j] by {
                if j < i {
                    assert(texts(before)[j] == all.take(i as int)[j]);
                }
            }
        }
        i = i + 1;
        assert(texts(parts@) =~= all.take(i as int));
    }
    assert(all.take(i as int) =~= all);
    join(&parts, "\n")
}

} // verus!
