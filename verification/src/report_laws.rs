//! Laws of what is shown to the user: the line that a diagnostic points at, and the
//! list of documented declarations.

use crate::ast::{Stmt, StmtKind};
use crate::docs::{
    entry, fields_listed, led, methods_listed, sigs_listed, stmt_listed, stmts_listed,
    variants_listed,
};
use crate::error::{
    chars_covered, line_end, nth_line, rendered, underline_width, DiagnosticView, Phase,
};
use crate::interp::written_lines;
use crate::text::{decimal, repeated, utf8_len};
use crate::token::{opt_text, Span};
use vstd::prelude::*;
use vstd::string::*;

verus! {

// ---------------------------------------------------------------------------
// Lines
// ---------------------------------------------------------------------------

/// Whether a text has no line end in it.
pub open spec fn one_line(s: Seq<char>) -> bool {
    forall|i: int| 0 <= i < s.len() ==> #[trigger] s[i] != '\n'
}

/// Lines, each with its line end, one behind the other.
pub open spec fn with_ends(lines: Seq<Seq<char>>) -> Seq<char>
    decreases lines.len(),
{
    if lines.len() == 0 {
        Seq::empty()
    } else {
        lines[0] + seq!['\n'] + with_ends(lines.skip(1))
    }
}

proof fn end_is(src: Seq<char>, from: nat, i: nat, e: nat)
    requires
        from <= i <= e <= src.len(),
        forall|j: int| from <= j < e ==> #[trigger] src[j] != '\n',
        e < src.len() ==> src[e as int] == '\n',
    ensures
        line_end(src, i) == e,
    decreases e - i,
{
    if i < e {
        assert(src[i as int] != '\n');
        end_is(src, from, i + 1, e);
    }
}

proof fn nth_is(
    src: Seq<char>,
    from: nat,
    lines: Seq<Seq<char>>,
    last: Seq<char>,
    n: nat,
)
    requires
        from <= src.len(),
        src.skip(from as int) == with_ends(lines) + last,
        forall|i: int| 0 <= i < lines.len() ==> one_line(#[trigger] lines[i]),
        one_line(last),
        n <= lines.len(),
    ensures
        nth_line(src, from, n) == (if n < lines.len() {
            if lines[n as int].len() > 0 && lines[n as int].last() == '\r' {
                lines[n as int].drop_last()
            } else {
                lines[n as int]
            }
        } else {
            last
        }),
    decreases lines.len(),
{
    let rest = src.skip(from as int);
    if lines.len() == 0 {
        assert(with_ends(lines) + last =~= last);
        if from < src.len() {
            assert forall|j: int| from <= j < src.len() implies #[trigger] src[j] != '\n' by {
                assert(rest[j - from] == last[j - from]);
            }
            end_is(src, from, from, src.len());
            assert(src.subrange(from as int, src.len() as int) =~= last);
        } else {
            assert(last =~= Seq::<char>::empty());
        }
    } else {
        let first = lines[0];
        let tail = with_ends(lines.skip(1)) + last;
        let e = from + first.len();
        assert(with_ends(lines) + last =~= first + seq!['\n'] + tail);
        assert(one_line(lines[0]));
        assert forall|j: int| from <= j < e implies #[trigger] src[j] != '\n' by {
            assert(rest[j - from] == first[j - from]);
        }
        assert(rest[first.len() as int] == '\n');
        assert(src[e as int] == '\n');
        end_is(src, from, from, e);
        assert(src.subrange(from as int, e as int) =~= first) by {
            assert forall|j: int| 0 <= j < first.len() implies src[from + j] == first[j] by {
                assert(rest[j] == first[j]);
            }
        }
        if n == 0 {
            if first.len() > 0 {
                assert(src[e - 1] == first.last());
                assert(src.subrange(from as int, e - 1) =~= first.drop_last());
            }
        } else {
            assert(src.skip((e + 1) as int) =~= tail) by {
                assert forall|j: int| 0 <= j < tail.len() implies src.skip((e + 1) as int)[j]
                    == tail[j] by {
                    assert(rest[first.len() + 1 + j] == tail[j]);
                }
                assert(rest.len() == first.len() + 1 + tail.len());
            }
            let more = lines.skip(1);
            assert forall|i: int| 0 <= i < more.len() implies one_line(#[trigger] more[i]) by {
                assert(more[i] == lines[i + 1]);
            }
            nth_is(src, e + 1, more, last, (n - 1) as nat);
            if n < lines.len() {
                assert(more[n - 1] == lines[n as int]);
            }
        }
    }
}

/// The line that is shown for a number is that line of the source, without its line end
/// and without a carriage return before it.
pub proof fn law_line_is_shown(lines: Seq<Seq<char>>, last: Seq<char>, n: nat)
    requires
        forall|i: int| 0 <= i < lines.len() ==> one_line(#[trigger] lines[i]),
        one_line(last),
        n <= lines.len(),
    ensures
        nth_line(with_ends(lines) + last, 0, n) == (if n < lines.len() {
            if lines[n as int].len() > 0 && lines[n as int].last() == '\r' {
                lines[n as int].drop_last()
            } else {
                lines[n as int]
            }
        } else {
            last
        }),
{
    let src = with_ends(lines) + last;
    assert(src.skip(0) =~= src);
    nth_is(src, 0, lines, last, n);
}

/// How many bytes so many characters of a line take, from a place on.
pub open spec fn bytes_of(line: Seq<char>, from: nat, n: nat) -> nat
    decreases n,
{
    if n == 0 {
        0
    } else {
        bytes_of(line, from, (n - 1) as nat) + utf8_len(line[from + n - 1]) as nat
    }
}

proof fn bytes_first(line: Seq<char>, from: nat, n: nat)
    requires
        n > 0,
    ensures
        bytes_of(line, from, n) == utf8_len(line[from as int]) + bytes_of(
            line,
            from + 1,
            (n - 1) as nat,
        ),
    decreases n,
{
    if n > 1 {
        bytes_first(line, from, (n - 1) as nat);
        assert(line[from + n - 1] == line[from + 1 + (n - 1) - 1]);
    } else {
        assert(bytes_of(line, from, 0) == 0);
        assert(bytes_of(line, from + 1, 0) == 0);
    }
}

proof fn covered_is(line: Seq<char>, from: nat, n: nat)
    requires
        from + n <= line.len(),
    ensures
        chars_covered(line, from, bytes_of(line, from, n) as int) == n,
    decreases n,
{
    if n > 0 {
        bytes_first(line, from, n);
        covered_is(line, from + 1, (n - 1) as nat);
    }
}

/// A span over some characters of a line is underlined with as many carets as it has
/// characters, whatever bytes they take; one that is empty, with one.
pub proof fn law_underline(span: Span, line: Seq<char>, n: nat)
    requires
        span.col >= 1,
        span.col - 1 + n <= line.len(),
        span.start <= span.end,
        span.end - span.start == bytes_of(line, (span.col - 1) as nat, n),
    ensures
        underline_width(span, line) == (if n == 0 {
            1
        } else {
            n
        }),
{
    covered_is(line, (span.col - 1) as nat, n);
}

// ---------------------------------------------------------------------------
// Documentation
// ---------------------------------------------------------------------------

/// One declaration, or one member of it: its name behind its doc comment.
pub ghost struct Item {
    pub member: bool,
    pub doc: Option<Seq<char>>,
    pub what: Seq<char>,
}

/// The text of an item: members are indented.
pub open spec fn item_text(i: Item) -> Seq<char> {
    entry(
        if i.member {
            "    "@
        } else {
            Seq::empty()
        },
        i.doc,
        i.what,
    )
}

/// Items one behind the other.
pub open spec fn items_text(items: Seq<Item>) -> Seq<char>
    decreases items.len(),
{
    if items.len() == 0 {
        Seq::empty()
    } else {
        items_text(items.drop_last()) + item_text(items.last())
    }
}

/// What a statement declares: itself, and then its members in order.
pub open spec fn items_of(s: Stmt) -> Seq<Item> {
    match s.kind {
        StmtKind::Fn(f) => seq![
            Item { member: false, doc: opt_text(f.doc), what: "fn "@ + f.name@ },
        ],
        StmtKind::Struct(d) => seq![
            Item { member: false, doc: opt_text(d.doc), what: "struct "@ + d.name@ },
        ] + Seq::new(
            d.fields@.len(),
            |i: int|
                Item { member: true, doc: opt_text(d.fields@[i].doc), what: d.fields@[i].name@ },
        ),
        StmtKind::Enum(d) => seq![
            Item { member: false, doc: opt_text(d.doc), what: "enum "@ + d.name@ },
        ] + Seq::new(
            d.variants@.len(),
            |i: int|
                Item {
                    member: true,
                    doc: opt_text(d.variants@[i].doc),
                    what: d.variants@[i].name@,
                },
        ),
        StmtKind::Trait(d) => seq![
            Item { member: false, doc: opt_text(d.doc), what: "trait "@ + d.name@ },
        ] + Seq::new(
            d.required@.len(),
            |i: int|
                Item {
                    member: true,
                    doc: opt_text(d.required@[i].doc),
                    what: "fn "@ + d.required@[i].name@,
                },
        ) + Seq::new(
            d.defaults@.len(),
            |i: int|
                Item {
                    member: true,
                    doc: opt_text(d.defaults@[i].doc),
                    what: "fn "@ + d.defaults@[i].name@,
                },
        ),
        StmtKind::Impl(d) => seq![
            Item {
                member: false,
                doc: None,
                what: match d.trait_name {
                    Some(t) => "impl "@ + t@ + " for "@ + d.for_type@,
                    None => "impl "@ + d.for_type@,
                },
            },
        ] + Seq::new(
            d.methods@.len(),
            |i: int|
                Item {
                    member: true,
                    doc: opt_text(d.methods@[i].doc),
                    what: "fn "@ + d.methods@[i].name@,
                },
        ),
        _ => Seq::empty(),
    }
}

/// What the first `k` statements declare, in order.
pub open spec fn items_of_all(stmts: Seq<Stmt>, k: nat) -> Seq<Item>
    decreases k,
{
    if k == 0 {
        Seq::empty()
    } else {
        items_of_all(stmts, (k - 1) as nat) + items_of(stmts[k - 1])
    }
}

proof fn text_of_both(a: Seq<Item>, b: Seq<Item>)
    ensures
        items_text(a + b) == items_text(a) + items_text(b),
    decreases b.len(),
{
    if b.len() > 0 {
        assert((a + b).drop_last() =~= a + b.drop_last());
        text_of_both(a, b.drop_last());
        assert(items_text(a + b) =~= items_text(a) + items_text(b));
    } else {
        assert(a + b =~= a);
        assert(items_text(a) + items_text(b) =~= items_text(a));
    }
}

/// One item more behind others.
proof fn text_of_next(items: Seq<Item>, k: int)
    requires
        0 <= k < items.len(),
    ensures
        items_text(items.take(k + 1)) == items_text(items.take(k)) + item_text(items[k]),
{
    assert(items.take(k + 1).drop_last() =~= items.take(k));
}

proof fn to_field(s: Stmt, members: Seq<Item>, i: nat, so_far: Seq<char>)
    requires
        s.kind is Struct,
        members == Seq::new(
            s.kind->Struct_0.fields@.len(),
            |i: int|
                Item {
                    member: true,
                    doc: opt_text(s.kind->Struct_0.fields@[i].doc),
                    what: s.kind->Struct_0.fields@[i].name@,
                },
        ),
        i <= members.len(),
    ensures
        fields_listed(s.kind->Struct_0.fields@, i, so_far + items_text(members.take(i as int)))
            == so_far + items_text(members),
    decreases members.len() - i,
{
    if i < members.len() {
        text_of_next(members, i as int);
        assert(so_far + items_text(members.take(i as int)) + item_text(members[i as int]) =~= so_far
            + items_text(members.take((i + 1) as int)));
        to_field(s, members, i + 1, so_far);
    } else {
        assert(members.take(i as int) =~= members);
    }
}

proof fn to_variant(s: Stmt, members: Seq<Item>, i: nat, so_far: Seq<char>)
    requires
        s.kind is Enum,
        members == Seq::new(
            s.kind->Enum_0.variants@.len(),
            |i: int|
                Item {
                    member: true,
                    doc: opt_text(s.kind->Enum_0.variants@[i].doc),
                    what: s.kind->Enum_0.variants@[i].name@,
                },
        ),
        i <= members.len(),
    ensures
        variants_listed(s.kind->Enum_0.variants@, i, so_far + items_text(members.take(i as int)))
            == so_far + items_text(members),
    decreases members.len() - i,
{
    if i < members.len() {
        text_of_next(members, i as int);
        assert(so_far + items_text(members.take(i as int)) + item_text(members[i as int]) =~= so_far
            + items_text(members.take((i + 1) as int)));
        to_variant(s, members, i + 1, so_far);
    } else {
        assert(members.take(i as int) =~= members);
    }
}

proof fn to_sig(s: Stmt, members: Seq<Item>, i: nat, so_far: Seq<char>)
    requires
        s.kind is Trait,
        members == Seq::new(
            s.kind->Trait_0.required@.len(),
            |i: int|
                Item {
                    member: true,
                    doc: opt_text(s.kind->Trait_0.required@[i].doc),
                    what: "fn "@ + s.kind->Trait_0.required@[i].name@,
                },
        ),
        i <= members.len(),
    ensures
        sigs_listed(s.kind->Trait_0.required@, i, so_far + items_text(members.take(i as int)))
            == so_far + items_text(members),
    decreases members.len() - i,
{
    if i < members.len() {
        text_of_next(members, i as int);
        assert(so_far + items_text(members.take(i as int)) + item_text(members[i as int]) =~= so_far
            + items_text(members.take((i + 1) as int)));
        to_sig(s, members, i + 1, so_far);
    } else {
        assert(members.take(i as int) =~= members);
    }
}

proof fn to_method(
    ms: Seq<std::rc::Rc<crate::ast::FnDecl>>,
    members: Seq<Item>,
    i: nat,
    so_far: Seq<char>,
)
    requires
        members == Seq::new(
            ms.len(),
            |i: int| Item { member: true, doc: opt_text(ms[i].doc), what: "fn "@ + ms[i].name@ },
        ),
        i <= members.len(),
    ensures
        methods_listed(ms, i, so_far + items_text(members.take(i as int))) == so_far + items_text(
            members,
        ),
    decreases members.len() - i,
{
    if i < members.len() {
        text_of_next(members, i as int);
        assert(so_far + items_text(members.take(i as int)) + item_text(members[i as int]) =~= so_far
            + items_text(members.take((i + 1) as int)));
        to_method(ms, members, i + 1, so_far);
    } else {
        assert(members.take(i as int) =~= members);
    }
}

proof fn none_text(so_far: Seq<char>, members: Seq<Item>)
    ensures
        so_far + items_text(members.take(0)) == so_far,
{
    assert(members.take(0).len() == 0);
    assert(so_far + items_text(members.take(0)) =~= so_far);
}

proof fn one_text(head: Item)
    ensures
        items_text(seq![head]) == item_text(head),
{
    let one = seq![head];
    assert(one.drop_last().len() == 0);
    assert(items_text(one.drop_last()) == Seq::<char>::empty());
    assert(one.last() == head);
    assert(Seq::<char>::empty() + item_text(head) =~= item_text(head));
}

proof fn stmt_text(s: Stmt, so_far: Seq<char>)
    ensures
        stmt_listed(s, so_far) == so_far + items_text(items_of(s)),
{
    let items = items_of(s);
    if items.len() > 0 {
        let head = items[0];
        let members = items.skip(1);
        assert(items =~= seq![head] + members);
        one_text(head);
        text_of_both(seq![head], members);
        let first = so_far + item_text(head);
        assert(first + items_text(members) =~= so_far + items_text(items));
        match s.kind {
            StmtKind::Fn(f) => {
                assert(members.len() == 0);
                assert(items_text(members) =~= Seq::<char>::empty());
            },
            StmtKind::Struct(d) => {
                assert(members =~= Seq::new(
                    d.fields@.len(),
                    |i: int|
                        Item {
                            member: true,
                            doc: opt_text(d.fields@[i].doc),
                            what: d.fields@[i].name@,
                        },
                ));
                none_text(first, members);
                to_field(s, members, 0, first);
            },
            StmtKind::Enum(d) => {
                assert(members =~= Seq::new(
                    d.variants@.len(),
                    |i: int|
                        Item {
                            member: true,
                            doc: opt_text(d.variants@[i].doc),
                            what: d.variants@[i].name@,
                        },
                ));
                none_text(first, members);
                to_variant(s, members, 0, first);
            },
            StmtKind::Trait(d) => {
                let sigs = Seq::new(
                    d.required@.len(),
                    |i: int|
                        Item {
                            member: true,
                            doc: opt_text(d.required@[i].doc),
                            what: "fn "@ + d.required@[i].name@,
                        },
                );
                let ms = Seq::new(
                    d.defaults@.len(),
                    |i: int|
                        Item {
                            member: true,
                            doc: opt_text(d.defaults@[i].doc),
                            what: "fn "@ + d.defaults@[i].name@,
                        },
                );
                assert(members =~= sigs + ms);
                text_of_both(sigs, ms);
                none_text(first, sigs);
                to_sig(s, sigs, 0, first);
                let second = first + items_text(sigs);
                none_text(second, ms);
                to_method(d.defaults@, ms, 0, second);
                assert(second + items_text(ms) =~= first + items_text(members));
            },
            StmtKind::Impl(d) => {
                assert(members =~= Seq::new(
                    d.methods@.len(),
                    |i: int|
                        Item {
                            member: true,
                            doc: opt_text(d.methods@[i].doc),
                            what: "fn "@ + d.methods@[i].name@,
                        },
                ));
                none_text(first, members);
                to_method(d.methods@, members, 0, first);
            },
            _ => {},
        }
    } else {
        assert(so_far + items_text(items) =~= so_far);
    }
}

proof fn to_stmt(stmts: Seq<Stmt>, i: nat)
    requires
        i <= stmts.len(),
    ensures
        stmts_listed(stmts, i, items_text(items_of_all(stmts, i))) == items_text(
            items_of_all(stmts, stmts.len()),
        ),
    decreases stmts.len() - i,
{
    if i < stmts.len() {
        let so_far = items_text(items_of_all(stmts, i));
        stmt_text(stmts[i as int], so_far);
        text_of_both(items_of_all(stmts, i), items_of(stmts[i as int]));
        to_stmt(stmts, i + 1);
    }
}

/// The documentation of a program lists every declaration at its top level, in order,
/// each with its doc comment and followed by its members with theirs: fields,
/// variants, required methods and methods. Other statements are not listed.
pub proof fn law_documentation_lists_all(stmts: Seq<Stmt>)
    ensures
        stmts_listed(stmts, 0, Seq::empty()) == items_text(items_of_all(stmts, stmts.len())),
{
    to_stmt(stmts, 0);
}

/// An item with a doc comment has each line of the comment behind `## `, above its own
/// line; one without is just its own line.
pub proof fn law_doc_comment_lines(indent: Seq<char>, text: Seq<char>, what: Seq<char>)
    requires
        one_line(text),
    ensures
        entry(indent, None, what) == indent + what + "\n"@,
        entry(indent, Some(text), what) == indent + "## "@ + text + "\n"@ + indent + what + "\n"@,
{
    led_is(text, indent + "## "@, text.len());
    assert(text.take(text.len() as int) =~= text);
    assert(Seq::<char>::empty() + indent =~= indent);
}

proof fn led_is(text: Seq<char>, lead: Seq<char>, n: nat)
    requires
        one_line(text),
        n <= text.len(),
    ensures
        led(text, lead, n) == text.take(n as int),
    decreases n,
{
    if n > 0 {
        led_is(text, lead, (n - 1) as nat);
        assert(text[n - 1] != '\n');
        assert(text.take(n as int) =~= text.take(n - 1).push(text[n - 1]));
    } else {
        assert(text.take(0) =~= Seq::<char>::empty());
    }
}

// ---------------------------------------------------------------------------
// Rendering
// ---------------------------------------------------------------------------

/// How a diagnostic is rendered: its phase and message; where it stands; and, behind a
/// margin as wide as the line's number, that line with carets under the span.
pub proof fn law_rendering(d: DiagnosticView, src: Seq<char>)
    requires
        d.span.line >= 1,
        d.span.col >= 1,
    ensures
        ({
            let number = decimal(d.span.line as nat);
            let margin = repeated(' ', number.len());
            let line = nth_line(src, 0, (d.span.line - 1) as nat);
            rendered(d, src) == phase_words(d.phase) + ": "@ + d.message + "\n"@ + " --> line "@
                + number + ", col "@ + decimal(d.span.col as nat) + "\n"@ + margin + " |\n"@ + number
                + " | "@ + line + "\n"@ + margin + " | "@ + repeated(
                ' ',
                (d.span.col - 1) as nat,
            ) + repeated('^', underline_width(d.span, line)) + "\n"@
        }),
{
}

/// The words for a phase.
pub open spec fn phase_words(p: Phase) -> Seq<char> {
    match p {
        Phase::Lex => "lex error"@,
        Phase::Parse => "parse error"@,
        Phase::Check => "check error"@,
        Phase::Runtime => "runtime error"@,
    }
}

/// So many of a character are just that.
pub proof fn law_repeated(c: char, n: nat)
    ensures
        repeated(c, n).len() == n,
        forall|i: int| 0 <= i < n ==> #[trigger] repeated(c, n)[i] == c,
{
}

/// What was printed is written line by line, in order, each with its line end.
pub proof fn law_output(lines: Seq<(Seq<char>, Span)>, n: nat)
    requires
        n < lines.len(),
    ensures
        written_lines(lines, 0) == Seq::<char>::empty(),
        written_lines(lines, n + 1) == written_lines(lines, n) + lines[n as int].0 + "\n"@,
{
}

} // verus!
