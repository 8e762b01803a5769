//! Lexing: source text to tokens, with the layout tokens of the off-side rule
//! and with the expressions inside strings lexed in turn.

use crate::error::{lex_diag, Diagnostic, DiagnosticView};
use crate::integer::{all_digits, digits_value, from_text};
use crate::text::{cat3, chars_of, len_utf8, same_text, text_of, utf8_len};
use crate::token::{
    kind_view, lemma_parts_push, lemma_tokens_push, opt_text, parts_view, token_view, tokens_view,
    KindView, PartView, Span, StrPart, Token, TokenKind, TokenView,
};
use vstd::prelude::*;
use vstd::string::*;

verus! {

broadcast use {lemma_tokens_push, lemma_parts_push};

// ---------------------------------------------------------------------------
// Characters
// ---------------------------------------------------------------------------

/// Whether a character is alphabetic, as `char::is_alphabetic` tells it.
pub uninterp spec fn alphabetic(c: char) -> bool;

/// Whether a character is numeric, as `char::is_numeric` tells it.
pub uninterp spec fn numeric(c: char) -> bool;

/// `char::is_alphabetic`: whether Unicode counts the character as alphabetic.
#[verifier::external_body]
fn char_is_alphabetic(c: char) -> (r: bool)
    ensures
        r == alphabetic(c),
{
    c.is_alphabetic()
}

/// `char::is_numeric`: whether Unicode counts the character as numeric.
#[verifier::external_body]
fn char_is_numeric(c: char) -> (r: bool)
    ensures
        r == numeric(c),
{
    c.is_numeric()
}

pub open spec fn is_ascii(c: char) -> bool {
    (c as int) < 0x80
}

/// Whether a character is a letter: `A` to `Z`, `a` to `z`, and beyond ASCII what
/// Unicode counts as alphabetic.
pub open spec fn is_letter(c: char) -> bool {
    if is_ascii(c) {
        'a' <= c <= 'z' || 'A' <= c <= 'Z'
    } else {
        alphabetic(c)
    }
}

/// Whether a name can start with the character.
pub open spec fn starts_name(c: char) -> bool {
    c == '_' || is_letter(c)
}

/// Whether a name can go on with the character.
pub open spec fn continues_name(c: char) -> bool {
    c == '_' || is_letter(c) || (if is_ascii(c) {
        is_digit(c)
    } else {
        numeric(c)
    })
}

fn letter(c: char) -> (r: bool)
    ensures
        r == is_letter(c),
{
    if '\u{80}' > c {
        ('a' <= c && c <= 'z') || ('A' <= c && c <= 'Z')
    } else {
        char_is_alphabetic(c)
    }
}

pub fn is_id_start(c: char) -> (r: bool)
    ensures
        r == starts_name(c),
{
    c == '_' || letter(c)
}

pub fn is_id_continue(c: char) -> (r: bool)
    ensures
        r == continues_name(c),
{
    c == '_' || letter(c) || (if '\u{80}' > c {
        digit(c)
    } else {
        char_is_numeric(c)
    })
}

pub open spec fn is_digit(c: char) -> bool {
    '0' <= c <= '9'
}

fn digit(c: char) -> (r: bool)
    ensures
        r == is_digit(c),
{
    '0' <= c && c <= '9'
}

/// Positions stop at the largest number; no source is that long.
pub open spec fn capped(a: usize, b: usize) -> usize {
    if a + b <= usize::MAX {
        (a + b) as usize
    } else {
        usize::MAX
    }
}

fn cap_sum(a: usize, b: usize) -> (r: usize)
    ensures
        r == capped(a, b),
{
    if a <= usize::MAX - b {
        a + b
    } else {
        usize::MAX
    }
}

/// The keyword that a word is.
pub open spec fn keyword_of(text: Seq<char>) -> Option<TokenKind> {
    if text == "fn"@ {
        Some(TokenKind::Fn)
    } else if text == "val"@ {
        Some(TokenKind::Val)
    } else if text == "struct"@ {
        Some(TokenKind::Struct)
    } else if text == "enum"@ {
        Some(TokenKind::Enum)
    } else if text == "impl"@ {
        Some(TokenKind::Impl)
    } else if text == "trait"@ {
        Some(TokenKind::Trait)
    } else if text == "return"@ {
        Some(TokenKind::Return)
    } else if text == "if"@ {
        Some(TokenKind::If)
    } else if text == "elif"@ {
        Some(TokenKind::Elif)
    } else if text == "else"@ {
        Some(TokenKind::Else)
    } else if text == "match"@ {
        Some(TokenKind::Match)
    } else if text == "while"@ {
        Some(TokenKind::While)
    } else if text == "for"@ {
        Some(TokenKind::For)
    } else if text == "in"@ {
        Some(TokenKind::In)
    } else if text == "break"@ {
        Some(TokenKind::Break)
    } else if text == "continue"@ {
        Some(TokenKind::Continue)
    } else if text == "and"@ {
        Some(TokenKind::And)
    } else if text == "or"@ {
        Some(TokenKind::Or)
    } else if text == "not"@ {
        Some(TokenKind::Not)
    } else if text == "is"@ {
        Some(TokenKind::Is)
    } else if text == "true"@ {
        Some(TokenKind::True)
    } else if text == "false"@ {
        Some(TokenKind::False)
    } else if text == "null"@ {
        Some(TokenKind::Null)
    } else if text == "self"@ {
        Some(TokenKind::SelfKw)
    } else if text == "try"@ {
        Some(TokenKind::Try)
    } else {
        None
    }
}

/// The keyword that a word is; other words are names.
pub fn keyword_kind(text: &str) -> (r: Option<TokenKind>)
    ensures
        r == keyword_of(text@),
{
    if same_text(text, "fn") {
        Some(TokenKind::Fn)
    } else if same_text(text, "val") {
        Some(TokenKind::Val)
    } else if same_text(text, "struct") {
        Some(TokenKind::Struct)
    } else if same_text(text, "enum") {
        Some(TokenKind::Enum)
    } else if same_text(text, "impl") {
        Some(TokenKind::Impl)
    } else if same_text(text, "trait") {
        Some(TokenKind::Trait)
    } else if same_text(text, "return") {
        Some(TokenKind::Return)
    } else if same_text(text, "if") {
        Some(TokenKind::If)
    } else if same_text(text, "elif") {
        Some(TokenKind::Elif)
    } else if same_text(text, "else") {
        Some(TokenKind::Else)
    } else if same_text(text, "match") {
        Some(TokenKind::Match)
    } else if same_text(text, "while") {
        Some(TokenKind::While)
    } else if same_text(text, "for") {
        Some(TokenKind::For)
    } else if same_text(text, "in") {
        Some(TokenKind::In)
    } else if same_text(text, "break") {
        Some(TokenKind::Break)
    } else if same_text(text, "continue") {
        Some(TokenKind::Continue)
    } else if same_text(text, "and") {
        Some(TokenKind::And)
    } else if same_text(text, "or") {
        Some(TokenKind::Or)
    } else if same_text(text, "not") {
        Some(TokenKind::Not)
    } else if same_text(text, "is") {
        Some(TokenKind::Is)
    } else if same_text(text, "true") {
        Some(TokenKind::True)
    } else if same_text(text, "false") {
        Some(TokenKind::False)
    } else if same_text(text, "null") {
        Some(TokenKind::Null)
    } else if same_text(text, "self") {
        Some(TokenKind::SelfKw)
    } else if same_text(text, "try") {
        Some(TokenKind::Try)
    } else {
        None
    }
}

/// Whether a kind of token stands for layout. Such tokens carry no doc comment.
pub open spec fn layout_kind(k: KindView) -> bool {
    ||| k == KindView::Plain(TokenKind::Newline)
    ||| k == KindView::Plain(TokenKind::Indent)
    ||| k == KindView::Plain(TokenKind::Dedent)
    ||| k == KindView::Plain(TokenKind::Eof)
}

/// Whether a kind of token stands for layout.
pub fn is_layout(kind: &TokenKind) -> (r: bool)
    ensures
        r == layout_kind(kind@),
{
    match kind {
        TokenKind::Newline => true,
        TokenKind::Indent => true,
        TokenKind::Dedent => true,
        TokenKind::Eof => true,
        _ => false,
    }
}

// ---------------------------------------------------------------------------
// The state of a lexer, and the steps that it takes
// ---------------------------------------------------------------------------

/// How far a lexer is. `i` counts the characters behind it; `at` says where in
/// the whole program the next one stands.
#[verifier::ext_equal]
pub struct Lexing {
    pub i: nat,
    pub at: Mark,
    /// The indentations of the open blocks.
    pub indents: Seq<usize>,
    /// How many brackets are open.
    pub depth: usize,
    /// Inside a string there is no layout.
    pub inline: bool,
    /// The doc comment directly above what comes next.
    pub doc: Option<Seq<char>>,
    pub out: Seq<TokenView>,
}

/// A place in a program.
#[derive(Debug, Clone, Copy)]
pub struct Mark {
    pub pos: usize,
    pub line: usize,
    pub col: usize,
}

impl Mark {
    /// The place behind a character that stands here.
    pub open spec fn behind(self, c: char) -> Mark {
        Mark {
            pos: capped(self.pos, utf8_len(c)),
            line: if c == '\n' {
                capped(self.line, 1)
            } else {
                self.line
            },
            col: if c == '\n' {
                1
            } else {
                capped(self.col, 1)
            },
        }
    }
}

/// A character moves the place on, never back.
pub broadcast proof fn lemma_behind(m: Mark, c: char)
    ensures
        m.pos <= (#[trigger] m.behind(c)).pos,
{
}

pub open spec fn starting(pos: usize, line: usize, col: usize, inline: bool) -> Lexing {
    Lexing {
        i: 0,
        at: Mark { pos, line, col },
        indents: seq![0usize],
        depth: 0,
        inline,
        doc: None,
        out: Seq::empty(),
    }
}

/// The character `n` places ahead.
pub open spec fn ahead(src: Seq<char>, l: Lexing, n: nat) -> Option<char> {
    if l.i + n < src.len() {
        Some(src[(l.i + n) as int])
    } else {
        None
    }
}

impl Lexing {
    pub open spec fn mark(self) -> Mark {
        self.at
    }

    /// An empty span at the current place.
    pub open spec fn here(self) -> Span {
        Span { start: self.at.pos, end: self.at.pos, line: self.at.line, col: self.at.col }
    }

    /// The span from a mark to the current place.
    pub open spec fn since(self, m: Mark) -> Span {
        Span { start: m.pos, end: self.at.pos, line: m.line, col: m.col }
    }

    /// One character further.
    pub open spec fn bumped(self, src: Seq<char>) -> Lexing {
        if self.i < src.len() {
            Lexing { i: self.i + 1, at: self.at.behind(src[self.i as int]), ..self }
        } else {
            self
        }
    }

    pub open spec fn bumped_by(self, src: Seq<char>, n: nat) -> Lexing
        decreases n,
    {
        if n == 0 {
            self
        } else {
            self.bumped(src).bumped_by(src, (n - 1) as nat)
        }
    }

    /// One more token. The doc comment goes to the first token that is no layout.
    pub open spec fn pushed(self, kind: KindView, span: Span) -> Lexing {
        if layout_kind(kind) {
            Lexing { out: self.out.push(TokenView { kind, span, doc: None }), ..self }
        } else {
            Lexing { out: self.out.push(TokenView { kind, span, doc: self.doc }), doc: None, ..self }
        }
    }

    pub open spec fn without_doc(self) -> Lexing {
        Lexing { doc: None, ..self }
    }

    /// The indentation of the innermost block.
    pub open spec fn indent(self) -> usize {
        if self.indents.len() > 0 {
            self.indents.last()
        } else {
            0
        }
    }
}

/// Whether `l1` is further on in the source than `l`, as every step that passes a
/// character is.
pub open spec fn onward(src: Seq<char>, l: Lexing, l1: Lexing) -> bool {
    l.i < l1.i <= src.len()
}

/// Up to the end of the line, which stays.
pub open spec fn past_comment(src: Seq<char>, l: Lexing) -> Lexing
    decreases src.len() - l.i,
{
    if l.i >= src.len() || src[l.i as int] == '\n' {
        l
    } else {
        past_comment(src, l.bumped(src))
    }
}

/// The rest of a doc comment's line behind `text`, and the place behind it.
pub open spec fn doc_line(src: Seq<char>, l: Lexing, text: Seq<char>) -> (Seq<char>, Lexing)
    decreases src.len() - l.i,
{
    if l.i >= src.len() || src[l.i as int] == '\n' || (src[l.i as int] == '\r' && ahead(src, l, 1)
        == Some('\n')) {
        (text, l)
    } else {
        doc_line(src, l.bumped(src), text.push(src[l.i as int]))
    }
}

/// A line that is only a comment. `##` adds a line to the doc comment; a plain
/// comment detaches it from what follows.
pub open spec fn past_comment_line(src: Seq<char>, l: Lexing) -> Lexing {
    if l.inline || ahead(src, l, 1) != Some('#') {
        past_comment(src, l).without_doc()
    } else {
        let l1 = l.bumped(src).bumped(src);
        let l2 = if ahead(src, l1, 0) == Some(' ') {
            l1.bumped(src)
        } else {
            l1
        };
        let (text, l3) = doc_line(src, l2, Seq::empty());
        let whole = match l3.doc {
            Some(before) => before + seq!['\n'] + text,
            None => text,
        };
        Lexing { doc: Some(whole), ..l3 }
    }
}

/// The start of a line. `None`: the line is blank or a comment, and passed.
/// Otherwise its indentation.
pub open spec fn indented(src: Seq<char>, l: Lexing, width: usize) -> Result<
    (Option<usize>, Lexing),
    DiagnosticView,
>
    decreases src.len() - l.i,
{
    if l.i >= src.len() {
        Ok((None, l.without_doc()))
    } else {
        let c = src[l.i as int];
        if c == ' ' {
            indented(src, l.bumped(src), capped(width, 1))
        } else if c == '\t' {
            Err(
                lex_diag(
                    "tab in leading whitespace is not allowed (use 4 spaces per indent level)"@,
                    l.here(),
                ),
            )
        } else if c == '\r' {
            indented(src, l.bumped(src), width)
        } else if c == '\n' {
            Ok((None, l.bumped(src).without_doc()))
        } else if c == '#' {
            let l1 = past_comment_line(src, l);
            Ok(
                (
                    None,
                    if ahead(src, l1, 0) == Some('\n') {
                        l1.bumped(src)
                    } else {
                        l1
                    },
                ),
            )
        } else {
            Ok((Some(width), l))
        }
    }
}

/// Blocks deeper than `width` closed.
pub open spec fn dedented(l: Lexing, width: usize) -> Lexing
    decreases l.indents.len(),
{
    if l.indents.len() > 0 && l.indents.last() > width {
        dedented(
            (Lexing { indents: l.indents.drop_last(), ..l }).pushed(
                KindView::Plain(TokenKind::Dedent),
                l.here(),
            ),
            width,
        )
    } else {
        l
    }
}

/// A line with this indentation: a deeper one opens a block; a shallower one
/// closes blocks, and must then be at the level of one that is open.
pub open spec fn laid_out(l: Lexing, width: usize) -> Result<Lexing, DiagnosticView> {
    if width > l.indent() {
        Ok(
            (Lexing { indents: l.indents.push(width), ..l }).pushed(
                KindView::Plain(TokenKind::Indent),
                l.here(),
            ),
        )
    } else if width < l.indent() {
        let l1 = dedented(l, width);
        if l1.indent() != width {
            Err(
                lex_diag(
                    "inconsistent indentation: does not match any enclosing block level"@,
                    l1.here(),
                ),
            )
        } else {
            Ok(l1)
        }
    } else {
        Ok(l)
    }
}

/// Past blanks, comments and line ends, inside brackets.
pub open spec fn past_blanks(src: Seq<char>, l: Lexing) -> Lexing
    decreases src.len() - l.i,
{
    if l.i >= src.len() {
        l
    } else {
        let c = src[l.i as int];
        if c == ' ' || c == '\t' || c == '\r' || c == '\n' || c == '#' {
            // A comment ends before its line does, so its first character is
            // passed here and the rest of it by `past_comment`.
            if c == '#' {
                let l1 = past_comment(src, l.bumped(src));
                if onward(src, l, l1) {
                    past_blanks(src, l1)
                } else {
                    l1
                }
            } else {
                past_blanks(src, l.bumped(src))
            }
        } else {
            l
        }
    }
}

/// Past the characters that a name goes on with.
pub open spec fn past_name(src: Seq<char>, l: Lexing) -> Lexing
    decreases src.len() - l.i,
{
    if l.i < src.len() && continues_name(src[l.i as int]) {
        past_name(src, l.bumped(src))
    } else {
        l
    }
}

/// A name or a keyword.
pub open spec fn name_lexed(src: Seq<char>, l: Lexing) -> Lexing {
    let l1 = past_name(src, l);
    let text = src.subrange(l.i as int, l1.i as int);
    let kind = match keyword_of(text) {
        Some(k) => KindView::Plain(k),
        None => KindView::Name(text),
    };
    l1.pushed(kind, l1.since(l.mark()))
}

/// Past a run of digits and `_`; whether the last of them is a `_`.
pub open spec fn past_digits(src: Seq<char>, l: Lexing, sep: bool) -> (Lexing, bool)
    decreases src.len() - l.i,
{
    if l.i < src.len() && (is_digit(src[l.i as int]) || src[l.i as int] == '_') {
        past_digits(src, l.bumped(src), src[l.i as int] == '_')
    } else {
        (l, sep)
    }
}

/// A run of digits, which must not end in a `_`.
pub open spec fn digits_lexed(src: Seq<char>, l: Lexing, m: Mark) -> Result<
    Lexing,
    DiagnosticView,
> {
    let (l1, sep) = past_digits(src, l, false);
    if sep {
        Err(
            lex_diag(
                "digit separator `_` may not be trailing or adjacent to `.`"@,
                l1.since(m),
            ),
        )
    } else {
        Ok(l1)
    }
}

/// The characters that are no `_`.
pub open spec fn without_seps(text: Seq<char>) -> Seq<char>
    decreases text.len(),
{
    if text.len() == 0 {
        text
    } else if text.last() == '_' {
        without_seps(text.drop_last())
    } else {
        without_seps(text.drop_last()).push(text.last())
    }
}

/// A number. A point belongs to it only where a digit follows.
pub open spec fn number_lexed(src: Seq<char>, l: Lexing) -> Result<Lexing, DiagnosticView> {
    let m = l.mark();
    match digits_lexed(src, l, m) {
        Err(d) => Err(d),
        Ok(l1) => if ahead(src, l1, 0) == Some('.') && (ahead(src, l1, 1) matches Some(d)
            && is_digit(d)) {
            match digits_lexed(src, l1.bumped(src), m) {
                Err(d) => Err(d),
                Ok(l2) => {
                    let raw = src.subrange(l.i as int, l2.i as int);
                    Ok(l2.pushed(KindView::Float(without_seps(raw)), l2.since(m)))
                },
            }
        } else {
            let raw = src.subrange(l.i as int, l1.i as int);
            let digits = without_seps(raw);
            if all_digits(digits) && digits.len() > 0 {
                Ok(l1.pushed(KindView::Int(digits_value(digits) as int), l1.since(m)))
            } else {
                Err(lex_diag("invalid integer literal `"@ + raw + "`"@, l1.since(m)))
            }
        },
    }
}

/// What an operator is: how many characters, which token, and what it does to
/// the number of open brackets.
pub struct Operator {
    pub len: nat,
    pub kind: TokenKind,
    pub opens: bool,
    pub closes: bool,
}

pub open spec fn operator(len: nat, kind: TokenKind) -> Option<Operator> {
    Some(Operator { len, kind, opens: false, closes: false })
}

/// The operator that starts with `c`, the longest that fits; `c1` and `c2` come
/// after it.
pub open spec fn operator_at(c: char, c1: Option<char>, c2: Option<char>) -> Option<Operator> {
    if c == '=' {
        if c1 == Some('=') {
            operator(2, TokenKind::EqEq)
        } else {
            operator(1, TokenKind::Eq)
        }
    } else if c == '!' && c1 == Some('=') {
        operator(2, TokenKind::NotEq)
    } else if c == '<' {
        if c1 == Some('=') {
            operator(2, TokenKind::LtEq)
        } else {
            operator(1, TokenKind::Lt)
        }
    } else if c == '>' {
        if c1 == Some('=') {
            operator(2, TokenKind::GtEq)
        } else {
            operator(1, TokenKind::Gt)
        }
    } else if c == '+' {
        operator(1, TokenKind::Plus)
    } else if c == '-' {
        if c1 == Some('>') {
            operator(2, TokenKind::Arrow)
        } else {
            operator(1, TokenKind::Minus)
        }
    } else if c == '*' {
        if c1 == Some('*') {
            operator(2, TokenKind::StarStar)
        } else {
            operator(1, TokenKind::Star)
        }
    } else if c == '/' {
        operator(1, TokenKind::Slash)
    } else if c == '%' {
        operator(1, TokenKind::Percent)
    } else if c == '.' {
        if c1 == Some('.') {
            if c2 == Some('=') {
                operator(3, TokenKind::DotDotEq)
            } else {
                operator(2, TokenKind::DotDot)
            }
        } else {
            operator(1, TokenKind::Dot)
        }
    } else if c == ':' {
        operator(1, TokenKind::Colon)
    } else if c == ',' {
        operator(1, TokenKind::Comma)
    } else if c == '?' {
        if c1 == Some('.') {
            operator(2, TokenKind::QuestionDot)
        } else {
            operator(1, TokenKind::Question)
        }
    } else if c == '(' {
        Some(Operator { len: 1, kind: TokenKind::LParen, opens: true, closes: false })
    } else if c == ')' {
        Some(Operator { len: 1, kind: TokenKind::RParen, opens: false, closes: true })
    } else if c == '[' {
        Some(Operator { len: 1, kind: TokenKind::LBracket, opens: true, closes: false })
    } else if c == ']' {
        Some(Operator { len: 1, kind: TokenKind::RBracket, opens: false, closes: true })
    } else if c == '{' {
        Some(Operator { len: 1, kind: TokenKind::LBrace, opens: true, closes: false })
    } else if c == '}' {
        Some(Operator { len: 1, kind: TokenKind::RBrace, opens: false, closes: true })
    } else {
        None
    }
}

/// The number of open brackets behind an operator.
pub open spec fn depth_after(depth: usize, op: Operator) -> usize {
    if op.opens {
        capped(depth, 1)
    } else if op.closes && depth > 0 {
        (depth - 1) as usize
    } else {
        depth
    }
}

/// An operator.
pub open spec fn operator_lexed(src: Seq<char>, l: Lexing) -> Result<Lexing, DiagnosticView> {
    let m = l.mark();
    let c = src[l.i as int];
    match operator_at(c, ahead(src, l, 1), ahead(src, l, 2)) {
        Some(op) => {
            let l1 = (Lexing { depth: depth_after(l.depth, op), ..l }).bumped_by(src, op.len);
            Ok(l1.pushed(KindView::Plain(op.kind), l1.since(m)))
        },
        None => {
            let end = Span {
                start: m.pos,
                end: capped(m.pos, utf8_len(c)),
                line: m.line,
                col: m.col,
            };
            Err(
                if c == '!' {
                    lex_diag("unexpected `!` (did you mean `!=` or `not`?)"@, end)
                } else {
                    lex_diag("unexpected character `"@ + seq![c] + "`"@, end)
                },
            )
        },
    }
}

/// Past the rest of a string inside an interpolation.
pub open spec fn past_nested(src: Seq<char>, l: Lexing, m: Mark) -> Result<Lexing, DiagnosticView>
    decreases src.len() - l.i,
{
    if l.i >= src.len() || src[l.i as int] == '\n' {
        Err(lex_diag("unterminated string inside interpolation"@, l.since(m)))
    } else if src[l.i as int] == '\\' {
        let l1 = l.bumped(src);
        if l1.i < src.len() {
            past_nested(src, l1.bumped(src), m)
        } else {
            past_nested(src, l1, m)
        }
    } else if src[l.i as int] == '"' {
        Ok(l.bumped(src))
    } else {
        past_nested(src, l.bumped(src), m)
    }
}

/// Up to the `}` that closes an interpolation; `depth` brackets are open in it.
pub open spec fn to_close(src: Seq<char>, l: Lexing, m: Mark, depth: usize) -> Result<
    Lexing,
    DiagnosticView,
>
    decreases src.len() - l.i,
{
    if l.i >= src.len() {
        Err(
            lex_diag(
                "unterminated interpolation: missing `}` before end of string"@,
                l.since(m),
            ),
        )
    } else {
        let c = src[l.i as int];
        if c == '\n' {
            Err(
                lex_diag(
                    "unterminated interpolation (Adder strings are single-line)"@,
                    l.since(m),
                ),
            )
        } else if c == '}' && depth == 0 {
            Ok(l)
        } else if c == '}' || c == ')' || c == ']' {
            to_close(
                src,
                l.bumped(src),
                m,
                if depth > 0 {
                    (depth - 1) as usize
                } else {
                    0
                },
            )
        } else if c == '{' || c == '(' || c == '[' {
            to_close(src, l.bumped(src), m, capped(depth, 1))
        } else if c == '"' {
            match past_nested(src, l.bumped(src), m) {
                Err(d) => Err(d),
                Ok(l1) => if onward(src, l, l1) {
                    to_close(src, l1, m, depth)
                } else {
                    Ok(l1)
                },
            }
        } else {
            to_close(src, l.bumped(src), m, depth)
        }
    }
}

/// An interpolation, from its `{`: the tokens inside it, and the place behind
/// its `}`.
pub open spec fn interpolation_lexed(src: Seq<char>, l: Lexing, m: Mark) -> Result<
    (Seq<TokenView>, Lexing),
    DiagnosticView,
>
    decreases src.len(), src.len() - l.i, 0nat,
{
    let l1 = l.bumped(src);
    match to_close(src, l1, m, 0) {
        Err(d) => Err(d),
        Ok(l2) => if onward(src, l, l1) && l1.i <= l2.i <= src.len() {
            match lines_lexed(
                src.subrange(l1.i as int, l2.i as int),
                starting(l1.at.pos, l1.at.line, l1.at.col, true),
                false,
            ) {
                Err(d) => Err(d),
                Ok(inner) => Ok((inner.out, l2.bumped(src))),
            }
        } else {
            Ok((Seq::empty(), l2))
        },
    }
}

/// The character that an escape stands for.
pub open spec fn escaped(c: char) -> Option<char> {
    if c == '"' {
        Some('"')
    } else if c == '\\' {
        Some('\\')
    } else if c == 'n' {
        Some('\n')
    } else if c == 't' {
        Some('\t')
    } else if c == 'r' {
        Some('\r')
    } else if c == '0' {
        Some('\0')
    } else if c == '{' {
        Some('{')
    } else if c == '}' {
        Some('}')
    } else {
        None
    }
}

/// The parts of a string with its pending text flushed.
pub open spec fn flushed(parts: Seq<PartView>, text: Seq<char>) -> Seq<PartView> {
    if text.len() > 0 {
        parts.push(PartView::Text(text))
    } else {
        parts
    }
}

/// The rest of a string up to its closing quote: its parts, behind `parts` and
/// the pending `text`, and the place behind the quote.
pub open spec fn string_rest(
    src: Seq<char>,
    l: Lexing,
    m: Mark,
    parts: Seq<PartView>,
    text: Seq<char>,
) -> Result<(Seq<PartView>, Lexing), DiagnosticView>
    decreases src.len(), src.len() - l.i, 1nat,
{
    if l.i >= src.len() {
        Err(lex_diag("unterminated string literal"@, l.since(m)))
    } else {
        let c = src[l.i as int];
        let next = ahead(src, l, 1);
        if c == '\n' {
            Err(
                lex_diag(
                    "unterminated string literal (Adder strings are single-line)"@,
                    l.since(m),
                ),
            )
        } else if c == '"' {
            Ok((flushed(parts, text), l.bumped(src)))
        } else if c == '\\' {
            let l1 = l.bumped(src);
            match next {
                None => Err(
                    lex_diag("unterminated string literal (trailing backslash)"@, l1.since(m)),
                ),
                Some(e) => match escaped(e) {
                    Some(r) => string_rest(src, l1.bumped(src), m, parts, text.push(r)),
                    None => Err(
                        lex_diag(
                            "invalid string escape `\\"@ + seq![e] + "`"@,
                            Span {
                                start: l.at.pos,
                                end: capped(l1.at.pos, utf8_len(e)),
                                line: l.at.line,
                                col: l.at.col,
                            },
                        ),
                    ),
                },
            }
        } else if c == '{' {
            if next == Some('{') {
                string_rest(src, l.bumped(src).bumped(src), m, parts, text.push('{'))
            } else {
                match interpolation_lexed(src, l, m) {
                    Err(d) => Err(d),
                    Ok((tokens, l1)) => if onward(src, l, l1) {
                        string_rest(
                            src,
                            l1,
                            m,
                            flushed(parts, text).push(PartView::Interp(tokens)),
                            Seq::empty(),
                        )
                    } else {
                        Ok((parts, l1))
                    },
                }
            }
        } else if c == '}' {
            if next == Some('}') {
                string_rest(src, l.bumped(src).bumped(src), m, parts, text.push('}'))
            } else {
                Err(
                    lex_diag(
                        "unexpected `}` in string (use `}}` for a literal brace)"@,
                        l.here(),
                    ),
                )
            }
        } else {
            string_rest(src, l.bumped(src), m, parts, text.push(c))
        }
    }
}

/// A token.
pub open spec fn token_lexed(src: Seq<char>, l: Lexing) -> Result<Lexing, DiagnosticView>
    decreases src.len(), src.len() - l.i, 2nat,
{
    let c = src[l.i as int];
    if starts_name(c) {
        Ok(name_lexed(src, l))
    } else if is_digit(c) {
        number_lexed(src, l)
    } else if c == '"' {
        let m = l.mark();
        match string_rest(src, l.bumped(src), m, Seq::empty(), Seq::empty()) {
            Err(d) => Err(d),
            Ok((parts, l1)) => Ok(l1.pushed(KindView::Str(parts), l1.since(m))),
        }
    } else {
        operator_lexed(src, l)
    }
}

/// The rest of a logical line, which goes on while brackets are open. `produced`:
/// whether it has a token.
pub open spec fn line_lexed(src: Seq<char>, l: Lexing, produced: bool) -> Result<
    (bool, Lexing),
    DiagnosticView,
>
    decreases src.len(), src.len() - l.i, 3nat,
{
    if l.i >= src.len() {
        Ok((produced, l))
    } else {
        let c = src[l.i as int];
        if c == '\n' {
            let l1 = l.bumped(src);
            if l1.depth == 0 {
                Ok(
                    (
                        produced,
                        if produced {
                            l1.pushed(KindView::Plain(TokenKind::Newline), l1.here())
                        } else {
                            l1
                        },
                    ),
                )
            } else {
                let l2 = past_blanks(src, l1);
                if onward(src, l, l2) {
                    line_lexed(src, l2, produced)
                } else {
                    Ok((produced, l2))
                }
            }
        } else if c == '\r' || c == ' ' || c == '\t' {
            line_lexed(src, l.bumped(src), produced)
        } else if c == '#' {
            let l1 = past_comment(src, l.bumped(src));
            if onward(src, l, l1) {
                line_lexed(src, l1, produced)
            } else {
                Ok((produced, l1))
            }
        } else {
            match token_lexed(src, l) {
                Err(d) => Err(d),
                Ok(l1) => if onward(src, l, l1) {
                    line_lexed(src, l1, true)
                } else {
                    Ok((true, l1))
                },
            }
        }
    }
}

/// The end of the source: the line's `Newline`, a `Dedent` for each open block,
/// `Eof`. Inside a string only `Eof`.
pub open spec fn finished(l: Lexing, produced: bool) -> Lexing {
    let l1 = if l.inline {
        l
    } else {
        blocks_closed(
            if produced && !(l.out.len() > 0 && l.out.last().kind == KindView::Plain(
                TokenKind::Newline,
            )) {
                l.pushed(KindView::Plain(TokenKind::Newline), l.here())
            } else {
                l
            },
        )
    };
    l1.pushed(KindView::Plain(TokenKind::Eof), l1.here())
}

/// All blocks but the outermost closed.
pub open spec fn blocks_closed(l: Lexing) -> Lexing
    decreases l.indents.len(),
{
    if l.indents.len() > 1 {
        blocks_closed(
            (Lexing { indents: l.indents.drop_last(), ..l }).pushed(
                KindView::Plain(TokenKind::Dedent),
                l.here(),
            ),
        )
    } else {
        l
    }
}

/// The rest of the source, line by line. `produced`: whether a line so far has a
/// token.
pub open spec fn lines_lexed(src: Seq<char>, l: Lexing, produced: bool) -> Result<
    Lexing,
    DiagnosticView,
>
    decreases src.len(), src.len() - l.i, 4nat,
{
    let started: Result<(bool, Lexing), DiagnosticView> = if l.depth == 0 && !l.inline {
        match indented(src, l, 0) {
            Err(d) => Err(d),
            Ok((None, l1)) => Ok((false, l1)),
            Ok((Some(width), l1)) => match laid_out(l1, width) {
                Err(d) => Err(d),
                Ok(l2) => Ok((true, l2)),
            },
        }
    } else {
        Ok((true, l))
    };
    match started {
        Err(d) => Err(d),
        Ok((false, l1)) => if l1.i >= src.len() {
            Ok(finished(l1, produced))
        } else if onward(src, l, l1) {
            lines_lexed(src, l1, produced)
        } else {
            Ok(l1)
        },
        Ok((true, l1)) => if l1.i != l.i && !onward(src, l, l1) {
            Ok(l1)
        } else {
            match line_lexed(src, l1, false) {
                Err(d) => Err(d),
                Ok((content, l2)) => if l2.i >= src.len() {
                    Ok(finished(l2, produced || content))
                } else if onward(src, l, l2) {
                    lines_lexed(src, l2, produced || content)
                } else {
                    Ok(l2)
                },
            }
        },
    }
}

/// The tokens of a source text, or the first error in it.
pub open spec fn lexed(src: Seq<char>) -> Result<Seq<TokenView>, DiagnosticView> {
    match lines_lexed(src, starting(0, 1, 1, false), false) {
        Ok(l) => Ok(l.out),
        Err(d) => Err(d),
    }
}


// ---------------------------------------------------------------------------
// The lexer
// ---------------------------------------------------------------------------

/// A cursor over the characters of a source, and the tokens so far.
pub struct Lexer {
    src: Vec<char>,
    i: usize,
    pos: usize,
    line: usize,
    col: usize,
    indents: Vec<usize>,
    bracket_depth: usize,
    inline: bool,
    pending_doc: Option<String>,
    out: Vec<Token>,
}

/// How a line starts.
pub enum IndentLine {
    /// The line was blank or a comment, and is passed.
    Blank,
    /// The indentation of a line with tokens.
    Content(usize),
}

impl View for Lexer {
    type V = Lexing;

    closed spec fn view(&self) -> Lexing {
        Lexing {
            i: self.i as nat,
            at: Mark { pos: self.pos, line: self.line, col: self.col },
            indents: self.indents@,
            depth: self.bracket_depth,
            inline: self.inline,
            doc: opt_text(self.pending_doc),
            out: tokens_view(self.out@),
        }
    }
}

/// What lexing a part gave.
pub open spec fn lexing_is(
    r: Result<(), Diagnostic>,
    after: Lexing,
    want: Result<Lexing, DiagnosticView>,
) -> bool {
    match r {
        Ok(_) => want == Ok::<Lexing, DiagnosticView>(after),
        Err(d) => want == Err::<Lexing, DiagnosticView>(d@),
    }
}

impl Lexer {
    /// The characters of the source.
    pub closed spec fn source(&self) -> Seq<char> {
        self.src@
    }

    /// The cursor is inside the source or at its end.
    pub closed spec fn inside(&self) -> bool {
        self.i <= self.src@.len()
    }

    /// A lexer over characters that start at the given place of the program.
    pub fn new(src: Vec<char>, base: usize, line: usize, col: usize) -> (r: Self)
        ensures
            r.source() == src@,
            r@ == starting(base, line, col, false),
            r.inside(),
    {
        let mut indents: Vec<usize> = Vec::new();
        indents.push(0);
        let r = Lexer {
            src,
            i: 0,
            pos: base,
            line,
            col,
            indents,
            bracket_depth: 0,
            inline: false,
            pending_doc: None,
            out: Vec::new(),
        };
        assert(r@.out =~= Seq::<TokenView>::empty());
        assert(r@.indents =~= seq![0usize]);
        r
    }

    /// A lexer for the inside of an interpolation, where there is no layout.
    pub fn new_inline(src: Vec<char>, base: usize, line: usize, col: usize) -> (r: Self)
        ensures
            r.source() == src@,
            r@ == starting(base, line, col, true),
            r.inside(),
    {
        let mut l = Lexer::new(src, base, line, col);
        l.inline = true;
        l
    }

    fn peek(&self) -> (r: Option<char>)
        requires
            self.inside(),
        ensures
            r == ahead(self.source(), self@, 0),
            r is Some <==> self.i < self.src@.len(),
            r matches Some(c) ==> c == self.src@[self.i as int],
    {
        self.peek_n(0)
    }

    fn peek_n(&self, n: usize) -> (r: Option<char>)
        requires
            self.inside(),
        ensures
            r == ahead(self.source(), self@, n as nat),
    {
        if n < self.src.len() - self.i {
            Some(self.src[self.i + n])
        } else {
            None
        }
    }

    fn bump(&mut self)
        requires
            old(self).inside(),
        ensures
            final(self).src == old(self).src,
            final(self).inside(),
            final(self)@ == old(self)@.bumped(old(self).source()),
            final(self).i == (if old(self).i < old(self).src@.len() {
                old(self).i + 1
            } else {
                old(self).i as int
            }),
    {
        if self.i < self.src.len() {
            let c = self.src[self.i];
            self.i = self.i + 1;
            self.pos = cap_sum(self.pos, len_utf8(c));
            if c == '\n' {
                self.line = cap_sum(self.line, 1);
                self.col = 1;
            } else {
                self.col = cap_sum(self.col, 1);
            }
        }
    }

    fn mark(&self) -> (r: Mark)
        ensures
            r == self@.mark(),
    {
        Mark { pos: self.pos, line: self.line, col: self.col }
    }

    /// An empty span at the cursor.
    fn here(&self) -> (r: Span)
        ensures
            r == self@.here(),
    {
        Span::new(self.pos, self.pos, self.line, self.col)
    }

    /// The span from a mark to the cursor.
    fn since(&self, m: Mark) -> (r: Span)
        ensures
            r == self@.since(m),
    {
        Span::new(m.pos, self.pos, m.line, m.col)
    }

    fn push(&mut self, kind: TokenKind, span: Span)
        ensures
            final(self).src == old(self).src,
            final(self).i == old(self).i,
            final(self)@ == old(self)@.pushed(kind@, span),
    {
        let mut doc: Option<String> = None;
        if !is_layout(&kind) {
            std::mem::swap(&mut doc, &mut self.pending_doc);
        }
        self.out.push(Token::with_doc(kind, span, doc));
    }

    /// The characters between two places of the source.
    fn slice(&self, from: usize, to: usize) -> (r: Vec<char>)
        requires
            from <= to <= self.src@.len(),
        ensures
            r@ == self.src@.subrange(from as int, to as int),
    {
        let mut out: Vec<char> = Vec::new();
        let mut k: usize = from;
        while k < to
            invariant
                from <= k <= to <= self.src@.len(),
                out@ == self.src@.subrange(from as int, k as int),
            decreases to - k,
        {
            out.push(self.src[k]);
            k = k + 1;
        }
        out
    }

    fn consume_comment(&mut self)
        requires
            old(self).inside(),
        ensures
            final(self).src == old(self).src,
            final(self).inside(),
            final(self).i >= old(self).i,
            final(self)@ == past_comment(old(self).source(), old(self)@),
    {
        while self.i < self.src.len() && self.src[self.i] != '\n'
            invariant
                self.inside(),
                self.src == old(self).src,
                self.i >= old(self).i,
                past_comment(self.source(), self@) == past_comment(
                    old(self).source(),
                    old(self)@,
                ),
            decreases self.src@.len() - self.i,
        {
            self.bump();
        }
    }

    /// Pass a line that is only a comment.
    fn consume_doc_or_comment(&mut self)
        requires
            old(self).inside(),
            old(self).i < old(self).src@.len(),
            old(self).src@[old(self).i as int] == '#',
        ensures
            final(self).src == old(self).src,
            final(self).inside(),
            final(self).i > old(self).i,
            final(self)@ == past_comment_line(old(self).source(), old(self)@),
    {
        if self.inline || self.peek_n(1) != Some('#') {
            assert(past_comment(self.source(), self@) == past_comment(
                self.source(),
                self@.bumped(self.source()),
            ));
            self.bump();
            self.consume_comment();
            self.pending_doc = None;
            return;
        }
        self.bump();
        self.bump();
        if self.peek() == Some(' ') {
            self.bump();
        }
        let mut text: Vec<char> = Vec::new();
        let ghost from = self@;
        let mut done = false;
        while !done && self.i < self.src.len() && self.src[self.i] != '\n'
            invariant
                self.inside(),
                self.src == old(self).src,
                self.i > old(self).i,
                !done ==> doc_line(self.source(), self@, text@) == doc_line(
                    old(self).source(),
                    from,
                    Seq::empty(),
                ),
                done ==> doc_line(old(self).source(), from, Seq::empty()) == (text@, self@),
            decreases self.src@.len() - self.i, (if done { 0nat } else { 1nat }),
        {
            let c = self.src[self.i];
            if c == '\r' && self.peek_n(1) == Some('\n') {
                done = true;
            } else {
                text.push(c);
                self.bump();
            }
        }
        let line = text_of(&text);
        let mut before: Option<String> = None;
        std::mem::swap(&mut before, &mut self.pending_doc);
        self.pending_doc = match before {
            Some(b) => {
                let mut nl: Vec<char> = Vec::new();
                nl.push('\n');
                assert(nl@ =~= seq!['\n']);
                Some(cat3(b.as_str(), text_of(&nl).as_str(), line.as_str()))
            },
            None => Some(line),
        };
    }

    /// Measure the start of a line.
    fn measure_indent(&mut self) -> (r: Result<IndentLine, Diagnostic>)
        requires
            old(self).inside(),
        ensures
            final(self).src == old(self).src,
            final(self).inside(),
            final(self).i >= old(self).i,
            match r {
                Err(d) => indented(old(self).source(), old(self)@, 0) == Err::<
                    (Option<usize>, Lexing),
                    DiagnosticView,
                >(d@),
                Ok(IndentLine::Blank) => indented(old(self).source(), old(self)@, 0) == Ok::<
                    (Option<usize>, Lexing),
                    DiagnosticView,
                >((None, final(self)@)) && (final(self).i > old(self).i || final(self).i
                    >= final(self).src@.len()),
                Ok(IndentLine::Content(w)) => indented(old(self).source(), old(self)@, 0) == Ok::<
                    (Option<usize>, Lexing),
                    DiagnosticView,
                >((Some(w), final(self)@)) && final(self).i < final(self).src@.len(),
            },
    {
        let mut width: usize = 0;
        while self.i < self.src.len()
            invariant
                self.inside(),
                self.src == old(self).src,
                self.i >= old(self).i,
                indented(self.source(), self@, width) == indented(
                    old(self).source(),
                    old(self)@,
                    0,
                ),
            decreases self.src@.len() - self.i,
        {
            let c = self.src[self.i];
            if c == ' ' {
                self.bump();
                width = cap_sum(width, 1);
            } else if c == '\t' {
                return Err(
                    Diagnostic::lex(
                        "tab in leading whitespace is not allowed (use 4 spaces per indent level)".to_owned(),
                        self.here(),
                    ),
                );
            } else if c == '\r' {
                self.bump();
            } else if c == '\n' {
                self.bump();
                self.pending_doc = None;
                return Ok(IndentLine::Blank);
            } else if c == '#' {
                self.consume_doc_or_comment();
                if self.peek() == Some('\n') {
                    self.bump();
                }
                return Ok(IndentLine::Blank);
            } else {
                return Ok(IndentLine::Content(width));
            }
        }
        self.pending_doc = None;
        Ok(IndentLine::Blank)
    }

    fn top_indent(&self) -> (r: usize)
        ensures
            r == self@.indent(),
    {
        if self.indents.len() > 0 {
            self.indents[self.indents.len() - 1]
        } else {
            0
        }
    }

    /// Open or close blocks for a line with this indentation.
    fn apply_indentation(&mut self, width: usize) -> (r: Result<(), Diagnostic>)
        ensures
            final(self).src == old(self).src,
            final(self).i == old(self).i,
            lexing_is(r, final(self)@, laid_out(old(self)@, width)),
    {
        let current = self.top_indent();
        if width > current {
            self.indents.push(width);
            self.push(TokenKind::Indent, self.here());
        } else if width < current {
            while self.indents.len() > 0 && self.indents[self.indents.len() - 1] > width
                invariant
                    self.src == old(self).src,
                    self.i == old(self).i,
                    dedented(self@, width) == dedented(old(self)@, width),
                decreases self.indents@.len(),
            {
                self.pop_block();
            }
            if self.top_indent() != width {
                return Err(
                    Diagnostic::lex(
                        "inconsistent indentation: does not match any enclosing block level".to_owned(),
                        self.here(),
                    ),
                );
            }
        }
        Ok(())
    }

    /// Close the innermost block.
    fn pop_block(&mut self)
        requires
            old(self).indents@.len() > 0,
        ensures
            final(self).src == old(self).src,
            final(self).i == old(self).i,
            final(self).indents@ == old(self).indents@.drop_last(),
            final(self)@ == (Lexing {
                indents: old(self)@.indents.drop_last(),
                ..old(self)@
            }).pushed(KindView::Plain(TokenKind::Dedent), old(self)@.here()),
    {
        let ghost was = self@;
        self.indents.pop();
        assert(self@ =~= (Lexing { indents: was.indents.drop_last(), ..was }));
        self.push(TokenKind::Dedent, self.here());
    }

    fn skip_inline_ws_and_comments_across_lines(&mut self)
        requires
            old(self).inside(),
        ensures
            final(self).src == old(self).src,
            final(self).inside(),
            final(self).i >= old(self).i,
            final(self)@ == past_blanks(old(self).source(), old(self)@),
    {
        while self.i < self.src.len() && (self.src[self.i] == ' ' || self.src[self.i] == '\t'
            || self.src[self.i] == '\r' || self.src[self.i] == '\n' || self.src[self.i] == '#')
            invariant
                self.inside(),
                self.src == old(self).src,
                self.i >= old(self).i,
                past_blanks(self.source(), self@) == past_blanks(old(self).source(), old(self)@),
            decreases self.src@.len() - self.i,
        {
            let comment = self.src[self.i] == '#';
            self.bump();
            if comment {
                self.consume_comment();
            }
        }
    }

    /// Lex a name or a keyword.
    fn lex_name_or_keyword(&mut self)
        requires
            old(self).inside(),
            old(self).i < old(self).src@.len(),
            starts_name(old(self).src@[old(self).i as int]),
        ensures
            final(self).src == old(self).src,
            final(self).inside(),
            final(self).i > old(self).i,
            final(self)@ == name_lexed(old(self).source(), old(self)@),
    {
        let m = self.mark();
        let from = self.i;
        while self.i < self.src.len() && is_id_continue(self.src[self.i])
            invariant
                self.inside(),
                self.src == old(self).src,
                self.i >= from,
                from == old(self).i,
                self.i == from ==> from < self.src@.len() && starts_name(
                    self.src@[from as int],
                ),
                past_name(self.source(), self@) == past_name(old(self).source(), old(self)@),
            decreases self.src@.len() - self.i,
        {
            self.bump();
        }
        let text = text_of(&self.slice(from, self.i));
        let kind = match keyword_kind(text.as_str()) {
            Some(k) => {
                proof {
                    lemma_keyword_plain(text@);
                }
                k
            },
            None => TokenKind::Name(text),
        };
        let span = self.since(m);
        self.push(kind, span);
    }

    /// Pass a run of digits, which must not end in a `_`.
    fn consume_digit_run(&mut self, m: Mark) -> (r: Result<(), Diagnostic>)
        requires
            old(self).inside(),
        ensures
            final(self).src == old(self).src,
            final(self).inside(),
            final(self).i >= old(self).i,
            old(self).i < old(self).src@.len() && is_digit(old(self).src@[old(self).i as int])
                ==> final(self).i > old(self).i,
            lexing_is(r, final(self)@, digits_lexed(old(self).source(), old(self)@, m)),
    {
        let mut sep = false;
        let ghost first = self.i < self.src@.len() && is_digit(self.src@[self.i as int]);
        while self.i < self.src.len() && (digit(self.src[self.i]) || self.src[self.i] == '_')
            invariant
                self.inside(),
                self.src == old(self).src,
                self.i >= old(self).i,
                first == (old(self).i < old(self).src@.len() && is_digit(
                    old(self).src@[old(self).i as int],
                )),
                past_digits(self.source(), self@, sep) == past_digits(
                    old(self).source(),
                    old(self)@,
                    false,
                ),
            decreases self.src@.len() - self.i,
        {
            sep = self.src[self.i] == '_';
            self.bump();
        }
        if sep {
            return Err(
                Diagnostic::lex(
                    "digit separator `_` may not be trailing or adjacent to `.`".to_owned(),
                    self.since(m),
                ),
            );
        }
        Ok(())
    }

    /// Lex a number.
    fn lex_number(&mut self) -> (r: Result<(), Diagnostic>)
        requires
            old(self).inside(),
            old(self).i < old(self).src@.len(),
            is_digit(old(self).src@[old(self).i as int]),
        ensures
            final(self).src == old(self).src,
            final(self).inside(),
            final(self).i > old(self).i,
            lexing_is(r, final(self)@, number_lexed(old(self).source(), old(self)@)),
    {
        let m = self.mark();
        let from = self.i;
        self.consume_digit_run(m)?;
        let float = self.peek() == Some('.') && match self.peek_n(1) {
            Some(d) => digit(d),
            None => false,
        };
        if float {
            self.bump();
            self.consume_digit_run(m)?;
        }
        let raw = self.slice(from, self.i);
        let cleaned = drop_seps(&raw);
        let span = self.since(m);
        if float {
            self.push(TokenKind::Float(text_of(&cleaned)), span);
            return Ok(());
        }
        if cleaned.len() > 0 && only_digits(&cleaned) {
            let text = text_of(&cleaned);
            if let Some(n) = from_text(text.as_str()) {
                self.push(TokenKind::Int(n), span);
                return Ok(());
            }
        }
        Err(
            Diagnostic::lex(
                cat3("invalid integer literal `", text_of(&raw).as_str(), "`"),
                span,
            ),
        )
    }

    /// Lex an operator.
    fn lex_operator(&mut self) -> (r: Result<(), Diagnostic>)
        requires
            old(self).inside(),
            old(self).i < old(self).src@.len(),
        ensures
            final(self).src == old(self).src,
            final(self).inside(),
            final(self).i >= old(self).i,
            r is Ok ==> final(self).i > old(self).i,
            r is Err ==> final(self)@ == old(self)@,
            lexing_is(r, final(self)@, operator_lexed(old(self).source(), old(self)@)),
    {
        let m = self.mark();
        let c = self.src[self.i];
        match find_operator(c, self.peek_n(1), self.peek_n(2)) {
            Some((len, kind, opens, closes)) => {
                if opens {
                    self.bracket_depth = cap_sum(self.bracket_depth, 1);
                } else if closes && self.bracket_depth > 0 {
                    self.bracket_depth = self.bracket_depth - 1;
                }
                let ghost from = self@;
                let mut left: usize = len;
                while left > 0
                    invariant
                        self.inside(),
                        self.src == old(self).src,
                        left <= len,
                        self.i >= old(self).i,
                        left < len ==> self.i > old(self).i,
                        old(self).i < old(self).src@.len(),
                        self@.bumped_by(self.source(), left as nat) == from.bumped_by(
                            self.source(),
                            len as nat,
                        ),
                    decreases left,
                {
                    self.bump();
                    left = left - 1;
                }
                let span = self.since(m);
                self.push(kind, span);
                Ok(())
            },
            None => {
                let span = Span::new(m.pos, cap_sum(m.pos, len_utf8(c)), m.line, m.col);
                if c == '!' {
                    return Err(
                        Diagnostic::lex(
                            "unexpected `!` (did you mean `!=` or `not`?)".to_owned(),
                            span,
                        ),
                    );
                }
                Err(Diagnostic::lex(cat3("unexpected character `", char_text(c).as_str(), "`"), span))
            },
        }
    }

    /// Pass the rest of a string inside an interpolation.
    fn skip_nested_string(&mut self, m: Mark) -> (r: Result<(), Diagnostic>)
        requires
            old(self).inside(),
        ensures
            final(self).src == old(self).src,
            final(self).inside(),
            final(self).i >= old(self).i,
            lexing_is(r, final(self)@, past_nested(old(self).source(), old(self)@, m)),
    {
        while self.i < self.src.len() && self.src[self.i] != '\n'
            invariant
                self.inside(),
                self.src == old(self).src,
                self.i >= old(self).i,
                past_nested(self.source(), self@, m) == past_nested(
                    old(self).source(),
                    old(self)@,
                    m,
                ),
            decreases self.src@.len() - self.i,
        {
            let c = self.src[self.i];
            self.bump();
            if c == '\\' {
                if self.i < self.src.len() {
                    self.bump();
                }
            } else if c == '"' {
                return Ok(());
            }
        }
        Err(
            Diagnostic::lex(
                "unterminated string inside interpolation".to_owned(),
                self.since(m),
            ),
        )
    }

    /// Go to the `}` that closes an interpolation.
    fn find_close(&mut self, m: Mark) -> (r: Result<(), Diagnostic>)
        requires
            old(self).inside(),
        ensures
            final(self).src == old(self).src,
            final(self).inside(),
            final(self).i >= old(self).i,
            r is Ok ==> final(self).i < final(self).src@.len(),
            lexing_is(r, final(self)@, to_close(old(self).source(), old(self)@, m, 0)),
    {
        let mut depth: usize = 0;
        while self.i < self.src.len()
            invariant
                self.inside(),
                self.src == old(self).src,
                self.i >= old(self).i,
                to_close(self.source(), self@, m, depth) == to_close(
                    old(self).source(),
                    old(self)@,
                    m,
                    0,
                ),
            decreases self.src@.len() - self.i,
        {
            let c = self.src[self.i];
            if c == '\n' {
                return Err(
                    Diagnostic::lex(
                        "unterminated interpolation (Adder strings are single-line)".to_owned(),
                        self.since(m),
                    ),
                );
            } else if c == '}' && depth == 0 {
                return Ok(());
            } else if c == '}' || c == ')' || c == ']' {
                if depth > 0 {
                    depth = depth - 1;
                }
                self.bump();
            } else if c == '{' || c == '(' || c == '[' {
                depth = cap_sum(depth, 1);
                self.bump();
            } else if c == '"' {
                self.bump();
                self.skip_nested_string(m)?;
            } else {
                self.bump();
            }
        }
        Err(
            Diagnostic::lex(
                "unterminated interpolation: missing `}` before end of string".to_owned(),
                self.since(m),
            ),
        )
    }

    /// Lex an interpolation: the tokens inside it.
    fn lex_interpolation(&mut self, m: Mark) -> (r: Result<Vec<Token>, Diagnostic>)
        requires
            old(self).inside(),
            old(self).i < old(self).src@.len(),
        ensures
            final(self).src == old(self).src,
            final(self).inside(),
            final(self).i > old(self).i,
            match r {
                Ok(ts) => interpolation_lexed(old(self).source(), old(self)@, m) == Ok::<
                    (Seq<TokenView>, Lexing),
                    DiagnosticView,
                >((tokens_view(ts@), final(self)@)),
                Err(d) => interpolation_lexed(old(self).source(), old(self)@, m) == Err::<
                    (Seq<TokenView>, Lexing),
                    DiagnosticView,
                >(d@),
            },
        decreases old(self).source().len(), 0nat,
    {
        self.bump();
        let inner = self.mark();
        let from = self.i;
        self.find_close(m)?;
        let chars = self.slice(from, self.i);
        self.bump();
        let mut sub = Lexer::new_inline(chars, inner.pos, inner.line, inner.col);
        sub.run_top_level()
    }

    /// Lex the rest of a string up to its closing quote: its parts.
    fn lex_string(&mut self, m: Mark) -> (r: Result<Vec<StrPart>, Diagnostic>)
        requires
            old(self).inside(),
        ensures
            final(self).src == old(self).src,
            final(self).inside(),
            final(self).i >= old(self).i,
            match r {
                Ok(parts) => string_rest(
                    old(self).source(),
                    old(self)@,
                    m,
                    Seq::empty(),
                    Seq::empty(),
                ) == Ok::<(Seq<PartView>, Lexing), DiagnosticView>(
                    (parts_view(parts@), final(self)@),
                ),
                Err(d) => string_rest(
                    old(self).source(),
                    old(self)@,
                    m,
                    Seq::empty(),
                    Seq::empty(),
                ) == Err::<(Seq<PartView>, Lexing), DiagnosticView>(d@),
            },
        decreases old(self).source().len(), 1nat,
    {
        let mut parts: Vec<StrPart> = Vec::new();
        let mut text: Vec<char> = Vec::new();
        assert(parts_view(parts@) =~= Seq::<PartView>::empty());
        while self.i < self.src.len() && self.src[self.i] != '"'
            invariant
                self.inside(),
                self.src == old(self).src,
                self.i >= old(self).i,
                string_rest(self.source(), self@, m, parts_view(parts@), text@) == string_rest(
                    old(self).source(),
                    old(self)@,
                    m,
                    Seq::empty(),
                    Seq::empty(),
                ),
            decreases self.src@.len() - self.i,
        {
            let c = self.src[self.i];
            if c == '\n' {
                return Err(
                    Diagnostic::lex(
                        "unterminated string literal (Adder strings are single-line)".to_owned(),
                        self.since(m),
                    ),
                );
            } else if c == '\\' {
                let esc = self.mark();
                self.bump();
                let e = match self.peek() {
                    Some(e) => e,
                    None => {
                        return Err(
                            Diagnostic::lex(
                                "unterminated string literal (trailing backslash)".to_owned(),
                                self.since(m),
                            ),
                        );
                    },
                };
                match unescape(e) {
                    Some(resolved) => {
                        self.bump();
                        text.push(resolved);
                    },
                    None => {
                        return Err(
                            Diagnostic::lex(
                                cat3("invalid string escape `\\", char_text(e).as_str(), "`"),
                                Span::new(
                                    esc.pos,
                                    cap_sum(self.pos, len_utf8(e)),
                                    esc.line,
                                    esc.col,
                                ),
                            ),
                        );
                    },
                }
            } else if c == '{' {
                if self.peek_n(1) == Some('{') {
                    self.bump();
                    self.bump();
                    text.push('{');
                } else {
                    let tokens = self.lex_interpolation(m)?;
                    if text.len() > 0 {
                        parts.push(StrPart::Text(text_of(&text)));
                    }
                    parts.push(StrPart::Interp(tokens));
                    text = Vec::new();
                }
            } else if c == '}' {
                if self.peek_n(1) == Some('}') {
                    self.bump();
                    self.bump();
                    text.push('}');
                } else {
                    return Err(
                        Diagnostic::lex(
                            "unexpected `}` in string (use `}}` for a literal brace)".to_owned(),
                            self.here(),
                        ),
                    );
                }
            } else {
                self.bump();
                text.push(c);
            }
        }
        if self.i >= self.src.len() {
            return Err(
                Diagnostic::lex("unterminated string literal".to_owned(), self.since(m)),
            );
        }
        self.bump();
        if text.len() > 0 {
            parts.push(StrPart::Text(text_of(&text)));
        }
        Ok(parts)
    }

    /// Lex a token.
    fn lex_token(&mut self) -> (r: Result<(), Diagnostic>)
        requires
            old(self).inside(),
            old(self).i < old(self).src@.len(),
        ensures
            final(self).src == old(self).src,
            final(self).inside(),
            final(self).i >= old(self).i,
            r is Ok ==> final(self).i > old(self).i,
            lexing_is(r, final(self)@, token_lexed(old(self).source(), old(self)@)),
        decreases old(self).source().len(), 2nat,
    {
        let c = self.src[self.i];
        if is_id_start(c) {
            self.lex_name_or_keyword();
            return Ok(());
        }
        if digit(c) {
            return self.lex_number();
        }
        if c == '"' {
            let m = self.mark();
            self.bump();
            let parts = self.lex_string(m)?;
            let span = self.since(m);
            self.push(TokenKind::Str(parts), span);
            return Ok(());
        }
        self.lex_operator()
    }

    /// Lex the rest of a logical line; whether it has a token.
    fn lex_logical_line(&mut self) -> (r: Result<bool, Diagnostic>)
        requires
            old(self).inside(),
        ensures
            final(self).src == old(self).src,
            final(self).inside(),
            final(self).i >= old(self).i,
            r is Ok && old(self).i < old(self).src@.len() ==> final(self).i > old(self).i,
            match r {
                Ok(b) => line_lexed(old(self).source(), old(self)@, false) == Ok::<
                    (bool, Lexing),
                    DiagnosticView,
                >((b, final(self)@)),
                Err(d) => line_lexed(old(self).source(), old(self)@, false) == Err::<
                    (bool, Lexing),
                    DiagnosticView,
                >(d@),
            },
        decreases old(self).source().len(), 3nat,
    {
        let mut produced = false;
        while self.i < self.src.len()
            invariant
                self.inside(),
                self.src == old(self).src,
                self.i >= old(self).i,
                line_lexed(self.source(), self@, produced) == line_lexed(
                    old(self).source(),
                    old(self)@,
                    false,
                ),
            decreases self.src@.len() - self.i,
        {
            let c = self.src[self.i];
            if c == '\n' {
                self.bump();
                if self.bracket_depth == 0 {
                    if produced {
                        self.push(TokenKind::Newline, self.here());
                    }
                    return Ok(produced);
                }
                self.skip_inline_ws_and_comments_across_lines();
            } else if c == '\r' || c == ' ' || c == '\t' {
                self.bump();
            } else if c == '#' {
                self.bump();
                self.consume_comment();
            } else {
                self.lex_token()?;
                produced = true;
            }
        }
        Ok(produced)
    }

    /// Whether the last token is a `Newline`.
    fn ends_in_newline(&self) -> (r: bool)
        ensures
            r == (self@.out.len() > 0 && self@.out.last().kind == KindView::Plain(
                TokenKind::Newline,
            )),
    {
        if self.out.len() > 0 {
            assert(self@.out.last() == token_view(self.out@.last()));
            match &self.out[self.out.len() - 1].kind {
                TokenKind::Newline => true,
                _ => false,
            }
        } else {
            false
        }
    }

    /// Lex the rest of the source.
    pub fn run_top_level(&mut self) -> (r: Result<Vec<Token>, Diagnostic>)
        requires
            old(self).inside(),
        ensures
            match r {
                Ok(ts) => lines_lexed(old(self).source(), old(self)@, false) matches Ok(l) && l.out
                    == tokens_view(ts@),
                Err(d) => lines_lexed(old(self).source(), old(self)@, false) == Err::<
                    Lexing,
                    DiagnosticView,
                >(d@),
            },
        decreases old(self).source().len(), 4nat,
    {
        let mut produced = false;
        let mut more = true;
        while more
            invariant
                self.inside(),
                self.src == old(self).src,
                more ==> lines_lexed(self.source(), self@, produced) == lines_lexed(
                    old(self).source(),
                    old(self)@,
                    false,
                ),
                !more ==> lines_lexed(old(self).source(), old(self)@, false) == Ok::<
                    Lexing,
                    DiagnosticView,
                >(finished(self@, produced)),
            decreases self.src@.len() - self.i, (if more { 1nat } else { 0nat }),
        {
            let mut content_line = true;
            let ghost from = self@;
            if self.bracket_depth == 0 && !self.inline {
                match self.measure_indent()? {
                    IndentLine::Blank => {
                        content_line = false;
                    },
                    IndentLine::Content(width) => {
                        self.apply_indentation(width)?;
                    },
                }
            }
            if content_line {
                let content = self.lex_logical_line()?;
                if content {
                    produced = true;
                }
            }
            if self.i >= self.src.len() {
                more = false;
            }
        }
        if !self.inline {
            if produced && !self.ends_in_newline() {
                self.push(TokenKind::Newline, self.here());
            }
            let ghost open = self@;
            while self.indents.len() > 1
                invariant
                    self.src == old(self).src,
                    blocks_closed(self@) == blocks_closed(open),
                decreases self.indents@.len(),
            {
                self.pop_block();
            }
        }
        self.push(TokenKind::Eof, self.here());
        let mut out: Vec<Token> = Vec::new();
        std::mem::swap(&mut out, &mut self.out);
        Ok(out)
    }
}

proof fn lemma_keyword_plain(text: Seq<char>)
    ensures
        keyword_of(text) matches Some(k) ==> kind_view(k) == KindView::Plain(k),
{
}

/// The text of one character.
fn char_text(c: char) -> (r: String)
    ensures
        r@ == seq![c],
{
    let mut v: Vec<char> = Vec::new();
    v.push(c);
    assert(v@ =~= seq![c]);
    text_of(&v)
}

/// The characters that are no `_`.
fn drop_seps(text: &Vec<char>) -> (r: Vec<char>)
    ensures
        r@ == without_seps(text@),
{
    let mut out: Vec<char> = Vec::new();
    let mut k: usize = 0;
    while k < text.len()
        invariant
            k <= text.len(),
            out@ == without_seps(text@.take(k as int)),
        decreases text.len() - k,
    {
        let ghost now = text@.take(k + 1);
        assert(now.drop_last() =~= text@.take(k as int));
        if text[k] != '_' {
            out.push(text[k]);
        }
        k = k + 1;
    }
    assert(text@.take(k as int) =~= text@);
    out
}

/// Whether every character is a digit.
fn only_digits(text: &Vec<char>) -> (r: bool)
    ensures
        r == all_digits(text@),
{
    let mut k: usize = 0;
    while k < text.len()
        invariant
            k <= text.len(),
            forall|j: int| 0 <= j < k ==> '0' <= #[trigger] text@[j] <= '9',
        decreases text.len() - k,
    {
        if !digit(text[k]) {
            return false;
        }
        k = k + 1;
    }
    true
}

/// The character that an escape stands for.
fn unescape(c: char) -> (r: Option<char>)
    ensures
        r == escaped(c),
{
    match c {
        '"' => Some('"'),
        '\\' => Some('\\'),
        'n' => Some('\n'),
        't' => Some('\t'),
        'r' => Some('\r'),
        '0' => Some('\0'),
        '{' => Some('{'),
        '}' => Some('}'),
        _ => None,
    }
}

/// The operator that starts with `c`, the longest that fits: its length, its
/// token, and whether it opens or closes a bracket.
fn find_operator(c: char, c1: Option<char>, c2: Option<char>) -> (r: Option<
    (usize, TokenKind, bool, bool),
>)
    ensures
        match r {
            Some((len, kind, opens, closes)) => len > 0 && operator_at(c, c1, c2) == Some(
                Operator { len: len as nat, kind, opens, closes },
            ) && kind_view(kind) == KindView::Plain(kind),
            None => operator_at(c, c1, c2) is None,
        },
{
    match c {
        '=' => if c1 == Some('=') {
            Some((2, TokenKind::EqEq, false, false))
        } else {
            Some((1, TokenKind::Eq, false, false))
        },
        '!' => if c1 == Some('=') {
            Some((2, TokenKind::NotEq, false, false))
        } else {
            None
        },
        '<' => if c1 == Some('=') {
            Some((2, TokenKind::LtEq, false, false))
        } else {
            Some((1, TokenKind::Lt, false, false))
        },
        '>' => if c1 == Some('=') {
            Some((2, TokenKind::GtEq, false, false))
        } else {
            Some((1, TokenKind::Gt, false, false))
        },
        '+' => Some((1, TokenKind::Plus, false, false)),
        '-' => if c1 == Some('>') {
            Some((2, TokenKind::Arrow, false, false))
        } else {
            Some((1, TokenKind::Minus, false, false))
        },
        '*' => if c1 == Some('*') {
            Some((2, TokenKind::StarStar, false, false))
        } else {
            Some((1, TokenKind::Star, false, false))
        },
        '/' => Some((1, TokenKind::Slash, false, false)),
        '%' => Some((1, TokenKind::Percent, false, false)),
        '.' => if c1 == Some('.') {
            if c2 == Some('=') {
                Some((3, TokenKind::DotDotEq, false, false))
            } else {
                Some((2, TokenKind::DotDot, false, false))
            }
        } else {
            Some((1, TokenKind::Dot, false, false))
        },
        ':' => Some((1, TokenKind::Colon, false, false)),
        ',' => Some((1, TokenKind::Comma, false, false)),
        '?' => if c1 == Some('.') {
            Some((2, TokenKind::QuestionDot, false, false))
        } else {
            Some((1, TokenKind::Question, false, false))
        },
        '(' => Some((1, TokenKind::LParen, true, false)),
        ')' => Some((1, TokenKind::RParen, false, true)),
        '[' => Some((1, TokenKind::LBracket, true, false)),
        ']' => Some((1, TokenKind::RBracket, false, true)),
        '{' => Some((1, TokenKind::LBrace, true, false)),
        '}' => Some((1, TokenKind::RBrace, false, true)),
        _ => None,
    }
}

/// The tokens of a source text, or the first error in it.
pub fn lex(src: &str) -> (r: Result<Vec<Token>, Diagnostic>)
    ensures
        match r {
            Ok(ts) => lexed(src@) == Ok::<Seq<TokenView>, DiagnosticView>(tokens_view(ts@)),
            Err(d) => lexed(src@) == Err::<Seq<TokenView>, DiagnosticView>(d@),
        },
{
    let mut lexer = Lexer::new(chars_of(src), 0, 1, 1);
    lexer.run_top_level()
}

} // verus!
