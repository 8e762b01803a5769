//! Laws of tokens: which characters are which token.

use crate::error::DiagnosticView;
use crate::integer::{all_digits, digits_value};
use crate::lexer::{
    ahead, continues_name, doc_line, escaped, indented, interpolation_lexed, is_digit, keyword_of,
    layout_kind, line_lexed, lines_lexed, name_lexed, number_lexed, operator_at, operator_lexed,
    past_comment_line, past_digits, past_name, starting, starts_name, string_rest, to_close,
    token_lexed, without_seps, Lexing, Mark,
};
use crate::token::{KindView, PartView, Span, TokenKind, TokenView};
use vstd::prelude::*;
use vstd::string::*;

verus! {

// ---------------------------------------------------------------------------
// Keywords
// ---------------------------------------------------------------------------

/// How a keyword is written; empty for any other kind of token.
pub open spec fn word_of(k: TokenKind) -> Seq<char> {
    match k {
        TokenKind::Fn => "fn"@,
        TokenKind::Val => "val"@,
        TokenKind::Struct => "struct"@,
        TokenKind::Enum => "enum"@,
        TokenKind::Impl => "impl"@,
        TokenKind::Trait => "trait"@,
        TokenKind::Return => "return"@,
        TokenKind::If => "if"@,
        TokenKind::Elif => "elif"@,
        TokenKind::Else => "else"@,
        TokenKind::Match => "match"@,
        TokenKind::While => "while"@,
        TokenKind::For => "for"@,
        TokenKind::In => "in"@,
        TokenKind::Break => "break"@,
        TokenKind::Continue => "continue"@,
        TokenKind::And => "and"@,
        TokenKind::Or => "or"@,
        TokenKind::Not => "not"@,
        TokenKind::Is => "is"@,
        TokenKind::True => "true"@,
        TokenKind::False => "false"@,
        TokenKind::Null => "null"@,
        TokenKind::SelfKw => "self"@,
        TokenKind::Try => "try"@,
        _ => Seq::empty(),
    }
}

/// The keywords, letter by letter.
proof fn keyword_letters()
    ensures
        "fn"@.len() == 2,
        "fn"@[0] == 'f' && "fn"@[1] == 'n',
        "val"@.len() == 3,
        "val"@[0] == 'v' && "val"@[1] == 'a' && "val"@[2] == 'l',
        "struct"@.len() == 6,
        "struct"@[0] == 's' && "struct"@[1] == 't' && "struct"@[2] == 'r' && "struct"@[3] == 'u'
            && "struct"@[4] == 'c' && "struct"@[5] == 't',
        "enum"@.len() == 4,
        "enum"@[0] == 'e' && "enum"@[1] == 'n' && "enum"@[2] == 'u' && "enum"@[3] == 'm',
        "impl"@.len() == 4,
        "impl"@[0] == 'i' && "impl"@[1] == 'm' && "impl"@[2] == 'p' && "impl"@[3] == 'l',
        "trait"@.len() == 5,
        "trait"@[0] == 't' && "trait"@[1] == 'r' && "trait"@[2] == 'a' && "trait"@[3] == 'i'
            && "trait"@[4] == 't',
        "return"@.len() == 6,
        "return"@[0] == 'r' && "return"@[1] == 'e' && "return"@[2] == 't' && "return"@[3] == 'u'
            && "return"@[4] == 'r' && "return"@[5] == 'n',
        "if"@.len() == 2,
        "if"@[0] == 'i' && "if"@[1] == 'f',
        "elif"@.len() == 4,
        "elif"@[0] == 'e' && "elif"@[1] == 'l' && "elif"@[2] == 'i' && "elif"@[3] == 'f',
        "else"@.len() == 4,
        "else"@[0] == 'e' && "else"@[1] == 'l' && "else"@[2] == 's' && "else"@[3] == 'e',
        "match"@.len() == 5,
        "match"@[0] == 'm' && "match"@[1] == 'a' && "match"@[2] == 't' && "match"@[3] == 'c'
            && "match"@[4] == 'h',
        "while"@.len() == 5,
        "while"@[0] == 'w' && "while"@[1] == 'h' && "while"@[2] == 'i' && "while"@[3] == 'l'
            && "while"@[4] == 'e',
        "for"@.len() == 3,
        "for"@[0] == 'f' && "for"@[1] == 'o' && "for"@[2] == 'r',
        "in"@.len() == 2,
        "in"@[0] == 'i' && "in"@[1] == 'n',
        "break"@.len() == 5,
        "break"@[0] == 'b' && "break"@[1] == 'r' && "break"@[2] == 'e' && "break"@[3] == 'a'
            && "break"@[4] == 'k',
        "continue"@.len() == 8,
        "continue"@[0] == 'c' && "continue"@[1] == 'o' && "continue"@[2] == 'n'
            && "continue"@[3] == 't' && "continue"@[4] == 'i' && "continue"@[5] == 'n'
            && "continue"@[6] == 'u' && "continue"@[7] == 'e',
        "and"@.len() == 3,
        "and"@[0] == 'a' && "and"@[1] == 'n' && "and"@[2] == 'd',
        "or"@.len() == 2,
        "or"@[0] == 'o' && "or"@[1] == 'r',
        "not"@.len() == 3,
        "not"@[0] == 'n' && "not"@[1] == 'o' && "not"@[2] == 't',
        "is"@.len() == 2,
        "is"@[0] == 'i' && "is"@[1] == 's',
        "true"@.len() == 4,
        "true"@[0] == 't' && "true"@[1] == 'r' && "true"@[2] == 'u' && "true"@[3] == 'e',
        "false"@.len() == 5,
        "false"@[0] == 'f' && "false"@[1] == 'a' && "false"@[2] == 'l' && "false"@[3] == 's'
            && "false"@[4] == 'e',
        "null"@.len() == 4,
        "null"@[0] == 'n' && "null"@[1] == 'u' && "null"@[2] == 'l' && "null"@[3] == 'l',
        "self"@.len() == 4,
        "self"@[0] == 's' && "self"@[1] == 'e' && "self"@[2] == 'l' && "self"@[3] == 'f',
        "try"@.len() == 3,
        "try"@[0] == 't' && "try"@[1] == 'r' && "try"@[2] == 'y',
{
    reveal_strlit("fn");
    reveal_strlit("val");
    reveal_strlit("struct");
    reveal_strlit("enum");
    reveal_strlit("impl");
    reveal_strlit("trait");
    reveal_strlit("return");
    reveal_strlit("if");
    reveal_strlit("elif");
    reveal_strlit("else");
    reveal_strlit("match");
    reveal_strlit("while");
    reveal_strlit("for");
    reveal_strlit("in");
    reveal_strlit("break");
    reveal_strlit("continue");
    reveal_strlit("and");
    reveal_strlit("or");
    reveal_strlit("not");
    reveal_strlit("is");
    reveal_strlit("true");
    reveal_strlit("false");
    reveal_strlit("null");
    reveal_strlit("self");
    reveal_strlit("try");
}

/// A word is a keyword just if it is how that keyword is written; every other word is a
/// name.
pub proof fn law_keywords(text: Seq<char>, k: TokenKind)
    ensures
        keyword_of(text) == Some(k) <==> text.len() > 0 && word_of(k) == text,
{
    keyword_letters();
}

proof fn name_ends(src: Seq<char>, l: Lexing, e: nat)
    requires
        l.i <= e <= src.len(),
        forall|j: int| l.i <= j < e ==> continues_name(#[trigger] src[j]),
        e < src.len() ==> !continues_name(src[e as int]),
    ensures
        past_name(src, l).i == e,
        past_name(src, l) == (Lexing { i: e, at: past_name(src, l).at, ..l }),
    decreases e - l.i,
{
    if l.i < e {
        assert(continues_name(src[l.i as int]));
        name_ends(src, l.bumped(src), e);
    }
}

/// A word, up to the first character that no name goes on with, is one token: its
/// keyword, or else a name that is the word.
pub proof fn law_words(src: Seq<char>, l: Lexing, e: nat)
    requires
        l.i < e <= src.len(),
        starts_name(src[l.i as int]),
        forall|j: int| l.i <= j < e ==> continues_name(#[trigger] src[j]),
        e < src.len() ==> !continues_name(src[e as int]),
    ensures
        ({
            let text = src.subrange(l.i as int, e as int);
            token_lexed(src, l) matches Ok(l1) && l1.i == e && l1.out.len() == l.out.len() + 1
                && l1.out.drop_last() == l.out && l1.out.last().kind == (match keyword_of(text) {
                Some(k) => KindView::Plain(k),
                None => KindView::Name(text),
            })
        }),
{
    name_ends(src, l, e);
    let l1 = name_lexed(src, l);
    assert(l1.out.drop_last() =~= l.out);
}

// ---------------------------------------------------------------------------
// Operators
// ---------------------------------------------------------------------------

/// How an operator is written; empty for any other kind of token.
pub open spec fn sign_of(k: TokenKind) -> Seq<char> {
    match k {
        TokenKind::EqEq => seq!['=', '='],
        TokenKind::NotEq => seq!['!', '='],
        TokenKind::LtEq => seq!['<', '='],
        TokenKind::GtEq => seq!['>', '='],
        TokenKind::Lt => seq!['<'],
        TokenKind::Gt => seq!['>'],
        TokenKind::Arrow => seq!['-', '>'],
        TokenKind::StarStar => seq!['*', '*'],
        TokenKind::DotDot => seq!['.', '.'],
        TokenKind::DotDotEq => seq!['.', '.', '='],
        TokenKind::Dot => seq!['.'],
        TokenKind::Plus => seq!['+'],
        TokenKind::Minus => seq!['-'],
        TokenKind::Star => seq!['*'],
        TokenKind::Slash => seq!['/'],
        TokenKind::Percent => seq!['%'],
        TokenKind::Eq => seq!['='],
        TokenKind::Colon => seq![':'],
        TokenKind::Comma => seq![','],
        TokenKind::Question => seq!['?'],
        TokenKind::QuestionDot => seq!['?', '.'],
        TokenKind::LParen => seq!['('],
        TokenKind::RParen => seq![')'],
        TokenKind::LBracket => seq!['['],
        TokenKind::RBracket => seq![']'],
        TokenKind::LBrace => seq!['{'],
        TokenKind::RBrace => seq!['}'],
        _ => Seq::empty(),
    }
}

/// Whether the next characters are how an operator is written.
pub open spec fn comes_next(k: TokenKind, c: char, c1: Option<char>, c2: Option<char>) -> bool {
    let s = sign_of(k);
    &&& s.len() >= 1
    &&& s[0] == c
    &&& s.len() >= 2 ==> c1 == Some(s[1])
    &&& s.len() >= 3 ==> c2 == Some(s[2])
}

/// The operator is the longest whose signs come next; there is none just if none comes
/// next. The opening brackets open, the closing ones close, and no other does.
pub proof fn law_longest_operator(c: char, c1: Option<char>, c2: Option<char>, k: TokenKind)
    ensures
        match operator_at(c, c1, c2) {
            Some(op) => {
                &&& comes_next(op.kind, c, c1, c2)
                &&& op.len == sign_of(op.kind).len()
                &&& comes_next(k, c, c1, c2) ==> sign_of(k).len() <= op.len
                &&& op.opens <==> op.kind == TokenKind::LParen || op.kind == TokenKind::LBracket
                    || op.kind == TokenKind::LBrace
                &&& op.closes <==> op.kind == TokenKind::RParen || op.kind == TokenKind::RBracket
                    || op.kind == TokenKind::RBrace
            },
            None => !comes_next(k, c, c1, c2),
        },
{
}

/// An operator token takes just its signs.
pub proof fn law_operators(src: Seq<char>, l: Lexing)
    requires
        l.i < src.len(),
    ensures
        match operator_at(src[l.i as int], ahead(src, l, 1), ahead(src, l, 2)) {
            Some(op) => operator_lexed(src, l) matches Ok(l1) && l1.i == l.i + op.len
                && l1.out.len() == l.out.len() + 1 && l1.out.last().kind == KindView::Plain(op.kind),
            None => operator_lexed(src, l) is Err,
        },
{
    if let Some(op) = operator_at(src[l.i as int], ahead(src, l, 1), ahead(src, l, 2)) {
        let a = Lexing { depth: crate::lexer::depth_after(l.depth, op), ..l };
        bumps(src, a, op.len);
    }
}

proof fn bumps(src: Seq<char>, l: Lexing, n: nat)
    requires
        l.i + n <= src.len(),
    ensures
        l.bumped_by(src, n).i == l.i + n,
        l.bumped_by(src, n).out == l.out,
    decreases n,
{
    if n > 0 {
        bumps(src, l.bumped(src), (n - 1) as nat);
    }
}

// ---------------------------------------------------------------------------
// Integers
// ---------------------------------------------------------------------------

proof fn digits_end(src: Seq<char>, l: Lexing, sep: bool, e: nat)
    requires
        l.i <= e <= src.len(),
        forall|j: int| l.i <= j < e ==> is_digit(#[trigger] src[j]),
        e < src.len() ==> !is_digit(src[e as int]) && src[e as int] != '_',
    ensures
        past_digits(src, l, sep).0.i == e,
        past_digits(src, l, sep).0.out == l.out,
        l.i < e ==> !past_digits(src, l, sep).1,
    decreases e - l.i,
{
    if l.i < e {
        assert(is_digit(src[l.i as int]));
        digits_end(src, l.bumped(src), false, e);
        if l.i + 1 == e {
            let b = l.bumped(src);
            assert(past_digits(src, b, false) == (b, false));
        }
    }
}

proof fn no_seps(text: Seq<char>)
    requires
        all_digits(text),
    ensures
        without_seps(text) == text,
    decreases text.len(),
{
    if text.len() > 0 {
        let front = text.drop_last();
        assert(all_digits(front)) by {
            assert forall|i: int| 0 <= i < front.len() implies '0' <= #[trigger] front[i] <= '9' by {
                assert(front[i] == text[i]);
            }
        }
        no_seps(front);
        assert('0' <= text[text.len() - 1] <= '9');
        assert(front.push(text.last()) =~= text);
    }
}

/// A run of digits that no digit, `_` or decimal point with a digit follows is one
/// token: the integer that the digits write.
pub proof fn law_integers(src: Seq<char>, l: Lexing, e: nat)
    requires
        l.i < e <= src.len(),
        forall|j: int| l.i <= j < e ==> is_digit(#[trigger] src[j]),
        e < src.len() ==> !is_digit(src[e as int]) && src[e as int] != '_',
        !(e + 1 < src.len() && src[e as int] == '.' && is_digit(src[(e + 1) as int])),
    ensures
        ({
            let text = src.subrange(l.i as int, e as int);
            number_lexed(src, l) matches Ok(l1) && l1.i == e && l1.out.len() == l.out.len() + 1
                && l1.out.last().kind == KindView::Int(digits_value(text) as int)
        }),
{
    let text = src.subrange(l.i as int, e as int);
    digits_end(src, l, false, e);
    assert(all_digits(text)) by {
        assert forall|i: int| 0 <= i < text.len() implies '0' <= #[trigger] text[i] <= '9' by {
            assert(is_digit(src[l.i + i]));
        }
    }
    no_seps(text);
}

// ---------------------------------------------------------------------------
// Separators, floats and escapes
// ---------------------------------------------------------------------------

/// A `_` in a number stands for nothing.
pub proof fn law_separators(front: Seq<char>, back: Seq<char>)
    ensures
        without_seps(front + seq!['_'] + back) == without_seps(front) + without_seps(back),
        without_seps(front + back) == without_seps(front) + without_seps(back),
        !without_seps(front).contains('_'),
    decreases back.len(),
{
    seps_gone(front);
    seps_of_both(front, back);
    seps_of_both(front + seq!['_'], back);
    assert((front + seq!['_']).drop_last() =~= front);
}

proof fn seps_gone(text: Seq<char>)
    ensures
        !without_seps(text).contains('_'),
    decreases text.len(),
{
    if text.len() > 0 {
        seps_gone(text.drop_last());
        let less = without_seps(text.drop_last());
        if text.last() != '_' && less.push(text.last()).contains('_') {
            let all = less.push(text.last());
            let i = choose|i: int| 0 <= i < all.len() && all[i] == '_';
            assert(less[i] == '_');
        }
    }
}

proof fn seps_of_both(front: Seq<char>, back: Seq<char>)
    ensures
        without_seps(front + back) == without_seps(front) + without_seps(back),
    decreases back.len(),
{
    if back.len() > 0 {
        assert((front + back).drop_last() =~= front + back.drop_last());
        assert((front + back).last() == back.last());
        seps_of_both(front, back.drop_last());
        assert(without_seps(front + back) =~= without_seps(front) + without_seps(back));
    } else {
        assert(front + back =~= front);
        assert(without_seps(front) + without_seps(back) =~= without_seps(front));
    }
}

proof fn plain_digits(src: Seq<char>, a: nat, b: nat)
    requires
        a <= b <= src.len(),
        forall|j: int| a <= j < b ==> is_digit(#[trigger] src[j]),
    ensures
        without_seps(src.subrange(a as int, b as int)) == src.subrange(a as int, b as int),
{
    let text = src.subrange(a as int, b as int);
    assert(all_digits(text)) by {
        assert forall|i: int| 0 <= i < text.len() implies '0' <= #[trigger] text[i] <= '9' by {
            assert(is_digit(src[a + i]));
        }
    }
    no_seps(text);
}

/// Digits, a point and digits are one token: a float that keeps them all.
pub proof fn law_floats(src: Seq<char>, l: Lexing, p: nat, e: nat)
    requires
        l.i < p,
        p + 1 < e <= src.len(),
        forall|j: int| l.i <= j < p ==> is_digit(#[trigger] src[j]),
        src[p as int] == '.',
        forall|j: int| p < j < e ==> is_digit(#[trigger] src[j]),
        e < src.len() ==> !is_digit(src[e as int]) && src[e as int] != '_',
    ensures
        number_lexed(src, l) matches Ok(l1) && l1.i == e && l1.out.len() == l.out.len() + 1
            && l1.out.last().kind == KindView::Float(src.subrange(l.i as int, e as int)),
{
    digits_end(src, l, false, p);
    let a = past_digits(src, l, false).0;
    let b = a.bumped(src);
    assert(is_digit(src[(p + 1) as int]));
    digits_end(src, b, false, e);
    let front = src.subrange(l.i as int, p as int);
    let point = seq!['.'];
    let back = src.subrange((p + 1) as int, e as int);
    plain_digits(src, l.i, p);
    plain_digits(src, p + 1, e);
    assert(src.subrange(l.i as int, e as int) =~= front + point + back);
    seps_of_both(front + point, back);
    assert((front + point).drop_last() =~= front);
    assert(without_seps(front + point) =~= front + point);
}

/// A number that ends in `_`, or has one before its point, is an error.
pub proof fn law_trailing_separator(src: Seq<char>, l: Lexing)
    requires
        past_digits(src, l, false).1,
    ensures
        number_lexed(src, l) is Err,
{
}

/// The escapes of strings, and what each stands for; no other character is one.
pub proof fn law_escapes(c: char)
    ensures
        escaped('n') == Some('\n'),
        escaped('t') == Some('\t'),
        escaped('r') == Some('\r'),
        escaped('0') == Some('\0'),
        escaped('\\') == Some('\\'),
        escaped('"') == Some('"'),
        escaped('{') == Some('{'),
        escaped('}') == Some('}'),
        escaped(c) is Some ==> c == 'n' || c == 't' || c == 'r' || c == '0' || c == '\\' || c
            == '"' || c == '{' || c == '}',
{
}

/// An escape in a string adds the character that it stands for, and the string goes on
/// behind it; what is no escape is an error. So is a line end or the end of the
/// source before the closing quote, and a `}` by itself.
pub proof fn law_string_steps(
    src: Seq<char>,
    l: Lexing,
    m: Mark,
    parts: Seq<PartView>,
    text: Seq<char>,
)
    ensures
        l.i >= src.len() ==> string_rest(src, l, m, parts, text) is Err,
        l.i < src.len() && src[l.i as int] == '\n' ==> string_rest(src, l, m, parts, text) is Err,
        l.i + 1 < src.len() && src[l.i as int] == '\\' ==> match escaped(
            src[(l.i + 1) as int],
        ) {
            Some(c) => string_rest(src, l, m, parts, text) == string_rest(
                src,
                l.bumped(src).bumped(src),
                m,
                parts,
                text.push(c),
            ),
            None => string_rest(src, l, m, parts, text) is Err,
        },
        l.i < src.len() && src[l.i as int] == '}' && !(l.i + 1 < src.len() && src[(l.i + 1) as int]
            == '}') ==> string_rest(src, l, m, parts, text) is Err,
{
}

/// An interpolation in a string ends the text before it and is a part by itself: the
/// tokens that its characters, up to the `}` that closes it, lex to, as they would
/// by themselves at that place. Then the string goes on.
pub proof fn law_interpolation(
    src: Seq<char>,
    l: Lexing,
    m: Mark,
    parts: Seq<PartView>,
    text: Seq<char>,
    close: Lexing,
    inner: Lexing,
)
    requires
        l.i + 1 < src.len(),
        src[l.i as int] == '{',
        src[(l.i + 1) as int] != '{',
        to_close(src, l.bumped(src), m, 0) == Ok::<Lexing, DiagnosticView>(close),
        l.i < close.i < src.len(),
        lines_lexed(
            src.subrange((l.i + 1) as int, close.i as int),
            starting(
                l.bumped(src).at.pos,
                l.bumped(src).at.line,
                l.bumped(src).at.col,
                true,
            ),
            false,
        ) == Ok::<Lexing, DiagnosticView>(inner),
    ensures
        string_rest(src, l, m, parts, text) == string_rest(
            src,
            close.bumped(src),
            m,
            (if text.len() > 0 {
                parts.push(PartView::Text(text))
            } else {
                parts
            }).push(PartView::Interp(inner.out)),
            Seq::empty(),
        ),
{
    let got = interpolation_lexed(src, l, m);
    assert(got == Ok::<(Seq<TokenView>, Lexing), DiagnosticView>((inner.out, close.bumped(src))));
}

// ---------------------------------------------------------------------------
// Doc comments
// ---------------------------------------------------------------------------

/// A doc comment goes to the next token that is no layout, and to no other.
pub proof fn law_doc_goes_to_next_token(l: Lexing, kind: KindView, span: Span)
    ensures
        ({
            let l1 = l.pushed(kind, span);
            let t = l1.out.last();
            &&& l1.out.len() == l.out.len() + 1
            &&& t.kind == kind
            &&& t.span == span
            &&& layout_kind(kind) ==> t.doc is None && l1.doc == l.doc
            &&& !layout_kind(kind) ==> t.doc == l.doc && l1.doc is None
        }),
{
}

proof fn doc_text(src: Seq<char>, l: Lexing, text: Seq<char>, e: nat)
    requires
        l.i <= e <= src.len(),
        forall|j: int| l.i <= j < e ==> #[trigger] src[j] != '\n' && src[j] != '\r',
        e < src.len() ==> src[e as int] == '\n',
    ensures
        doc_line(src, l, text).0 == text + src.subrange(l.i as int, e as int),
        doc_line(src, l, text).1.i == e,
        doc_line(src, l, text).1.doc == l.doc,
    decreases e - l.i,
{
    if l.i < e {
        let c = src[l.i as int];
        assert(c != '\n' && c != '\r');
        doc_text(src, l.bumped(src), text.push(c), e);
        assert(text.push(c) + src.subrange((l.i + 1) as int, e as int) =~= text + src.subrange(
            l.i as int,
            e as int,
        ));
    } else {
        assert(text + src.subrange(l.i as int, e as int) =~= text);
    }
}

/// A line `## text` adds its text to the doc comment above, behind a line break if there
/// is one; a plain comment line drops it.
pub proof fn law_doc_lines(src: Seq<char>, l: Lexing, e: nat)
    requires
        !l.inline,
        l.i + 2 < e <= src.len(),
        src[l.i as int] == '#',
        forall|j: int| l.i <= j < e ==> #[trigger] src[j] != '\n' && src[j] != '\r',
        e < src.len() ==> src[e as int] == '\n',
    ensures
        ({
            let after = past_comment_line(src, l);
            let from: int = if src[(l.i + 2) as int] == ' ' {
                (l.i + 3) as int
            } else {
                (l.i + 2) as int
            };
            let text = src.subrange(from, e as int);
            &&& src[(l.i + 1) as int] == '#' ==> after.i == e && after.doc == Some(
                match l.doc {
                    Some(above) => above + seq!['\n'] + text,
                    None => text,
                },
            )
            &&& src[(l.i + 1) as int] != '#' ==> after.doc is None
        }),
{
    let l1 = l.bumped(src).bumped(src);
    let l2 = if ahead(src, l1, 0) == Some(' ') {
        l1.bumped(src)
    } else {
        l1
    };
    doc_text(src, l2, Seq::empty(), e);
    let text = src.subrange(l2.i as int, e as int);
    assert(Seq::<char>::empty() + text =~= text);
}

// ---------------------------------------------------------------------------
// Lines
// ---------------------------------------------------------------------------

/// How a line goes on: blanks are passed, a comment up to the end of its line, and any
/// other character starts a token, behind which the line goes on.
pub proof fn law_line_steps(src: Seq<char>, l: Lexing, produced: bool)
    requires
        l.i < src.len(),
    ensures
        ({
            let c = src[l.i as int];
            let all = line_lexed(src, l, produced);
            &&& c == ' ' || c == '\t' || c == '\r' ==> all == line_lexed(
                src,
                l.bumped(src),
                produced,
            )
            &&& c != ' ' && c != '\t' && c != '\r' && c != '\n' && c != '#' ==> match token_lexed(
                src,
                l,
            ) {
                Err(d) => all == Err::<(bool, Lexing), DiagnosticView>(d),
                Ok(l1) => l.i < l1.i <= src.len() ==> all == line_lexed(src, l1, true),
            }
            &&& c == '\n' && l.depth == 0 && produced ==> (all matches Ok((_, l1)) && l1.i == l.i
                + 1 && l1.out.len() == l.out.len() + 1 && l1.out.last().kind == KindView::Plain(
                TokenKind::Newline,
            ))
            &&& c == '\n' && l.depth == 0 && !produced ==> (all matches Ok((_, l1)) && l1.i == l.i
                + 1 && l1.out == l.out)
        }),
{
}

/// A tab in the blanks at the start of a line is an error.
pub proof fn law_tab_in_indentation(src: Seq<char>, l: Lexing, width: usize, t: nat)
    requires
        l.i <= t < src.len(),
        forall|j: int| l.i <= j < t ==> #[trigger] src[j] == ' ',
        src[t as int] == '\t',
    ensures
        indented(src, l, width) is Err,
    decreases t - l.i,
{
    if l.i < t {
        assert(src[l.i as int] == ' ');
        law_tab_in_indentation(src, l.bumped(src), crate::lexer::capped(width, 1), t);
    }
}

/// A line's indentation is the number of blanks before its first character.
pub proof fn law_indentation_width(src: Seq<char>, l: Lexing, width: usize, t: nat)
    requires
        l.i <= t < src.len(),
        forall|j: int| l.i <= j < t ==> #[trigger] src[j] == ' ',
        src[t as int] != ' ',
        src[t as int] != '\t',
        src[t as int] != '\r',
        src[t as int] != '\n',
        src[t as int] != '#',
        width + (t - l.i) <= usize::MAX,
    ensures
        indented(src, l, width) matches Ok((Some(n), l1)) && n == width + (t - l.i) && l1.i == t,
    decreases t - l.i,
{
    if l.i < t {
        assert(src[l.i as int] == ' ');
        law_indentation_width(src, l.bumped(src), (width + 1) as usize, t);
    }
}

} // verus!
