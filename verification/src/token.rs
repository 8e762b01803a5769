//! Tokens and source positions: what the lexer hands to a parser.

use crate::integer::Integer;
use vstd::prelude::*;

verus! {

/// A source position: the byte range `[start, end)`, and the line and column of
/// its start, both counted from one, columns in characters.
#[derive(Debug, Clone, Copy, PartialEq, Eq, Structural)]
pub struct Span {
    pub start: usize,
    pub end: usize,
    pub line: usize,
    pub col: usize,
}

impl Span {
    #[verifier::allow_in_spec]
    pub fn new(start: usize, end: usize, line: usize, col: usize) -> (r: Self)
        returns
            (Span { start, end, line, col }),
    {
        Span { start, end, line, col }
    }

    /// A span for nodes that stand for no source text.
    #[verifier::allow_in_spec]
    pub fn dummy() -> (r: Self)
        returns
            (Span { start: 0, end: 0, line: 0, col: 0 }),
    {
        Span { start: 0, end: 0, line: 0, col: 0 }
    }
}

/// One part of a string literal.
#[derive(Debug, PartialEq)]
pub enum StrPart {
    /// Literal text, escapes resolved.
    Text(String),
    /// The tokens of an interpolated expression, ending in `Eof`.
    Interp(Vec<Token>),
}

/// What a token is.
#[derive(Debug, PartialEq)]
pub enum TokenKind {
    Int(Integer),
    /// The digits and the point of a float literal, separators dropped.
    Float(String),
    Str(Vec<StrPart>),
    Name(String),
    // Keywords.
    Fn,
    Val,
    Struct,
    Enum,
    Impl,
    Trait,
    Return,
    If,
    Elif,
    Else,
    Match,
    While,
    For,
    In,
    Break,
    Continue,
    And,
    Or,
    Not,
    Is,
    True,
    False,
    Null,
    SelfKw,
    Try,
    // Operators and punctuation.
    EqEq,
    NotEq,
    LtEq,
    GtEq,
    Lt,
    Gt,
    Arrow,
    StarStar,
    DotDot,
    DotDotEq,
    Dot,
    Plus,
    Minus,
    Star,
    Slash,
    Percent,
    Eq,
    Colon,
    Comma,
    Question,
    QuestionDot,
    LParen,
    RParen,
    LBracket,
    RBracket,
    LBrace,
    RBrace,
    // Layout.
    Newline,
    Indent,
    Dedent,
    Eof,
}

/// A token, where it stands, and the doc comment directly above it.
#[derive(Debug, PartialEq)]
pub struct Token {
    pub kind: TokenKind,
    pub span: Span,
    pub doc: Option<String>,
}

/// What a `TokenKind` says: the payload of those that carry one, and the kind
/// itself of the others.
pub enum KindView {
    Int(int),
    Float(Seq<char>),
    Str(Seq<PartView>),
    Name(Seq<char>),
    Plain(TokenKind),
}

/// What a `StrPart` says.
pub enum PartView {
    Text(Seq<char>),
    Interp(Seq<TokenView>),
}

/// What a `Token` says.
pub struct TokenView {
    pub kind: KindView,
    pub span: Span,
    pub doc: Option<Seq<char>>,
}

/// The characters of an optional text.
pub open spec fn opt_text(s: Option<String>) -> Option<Seq<char>> {
    match s {
        Some(t) => Some(t@),
        None => None,
    }
}

pub open spec fn kind_view(k: TokenKind) -> KindView
    decreases k,
{
    match k {
        TokenKind::Int(n) => KindView::Int(n@),
        TokenKind::Float(t) => KindView::Float(t@),
        TokenKind::Str(parts) => KindView::Str(parts_view(parts@)),
        TokenKind::Name(t) => KindView::Name(t@),
        other => KindView::Plain(other),
    }
}

pub open spec fn parts_view(parts: Seq<StrPart>) -> Seq<PartView>
    decreases parts,
{
    Seq::new(
        parts.len(),
        |i: int|
            if 0 <= i < parts.len() {
                part_view(parts[i])
            } else {
                arbitrary()
            },
    )
}

pub open spec fn part_view(p: StrPart) -> PartView
    decreases p,
{
    match p {
        StrPart::Text(t) => PartView::Text(t@),
        StrPart::Interp(tokens) => PartView::Interp(tokens_view(tokens@)),
    }
}

pub open spec fn tokens_view(tokens: Seq<Token>) -> Seq<TokenView>
    decreases tokens,
{
    Seq::new(
        tokens.len(),
        |i: int|
            if 0 <= i < tokens.len() {
                token_view(tokens[i])
            } else {
                arbitrary()
            },
    )
}

pub open spec fn token_view(t: Token) -> TokenView
    decreases t,
{
    TokenView { kind: kind_view(t.kind), span: t.span, doc: opt_text(t.doc) }
}

/// Pushing a token pushes what it says.
pub broadcast proof fn lemma_tokens_push(ts: Seq<Token>, t: Token)
    ensures
        #[trigger] tokens_view(ts.push(t)) == tokens_view(ts).push(token_view(t)),
{
    assert(tokens_view(ts.push(t)) =~= tokens_view(ts).push(token_view(t)));
}

/// Pushing a part pushes what it says.
pub broadcast proof fn lemma_parts_push(ps: Seq<StrPart>, p: StrPart)
    ensures
        #[trigger] parts_view(ps.push(p)) == parts_view(ps).push(part_view(p)),
{
    assert(parts_view(ps.push(p)) =~= parts_view(ps).push(part_view(p)));
}

impl View for TokenKind {
    type V = KindView;

    open spec fn view(&self) -> KindView {
        kind_view(*self)
    }
}

impl View for Token {
    type V = TokenView;

    open spec fn view(&self) -> TokenView {
        token_view(*self)
    }
}

impl Token {
    /// A token with the doc comment that stands directly above it.
    pub fn with_doc(kind: TokenKind, span: Span, doc: Option<String>) -> (r: Self)
        ensures
            r@ == (TokenView { kind: kind@, span, doc: opt_text(doc) }),
    {
        Token { kind, span, doc }
    }
}

} // verus!
