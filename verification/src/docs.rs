//! Documentation: the declarations of a program with their `##` comments.

use crate::ast::{
    EnumDecl, FieldDecl, FnDecl, ImplDecl, Program, Stmt, StmtKind, StructDecl, TraitSig,
    VariantDecl,
};
use crate::text::{cat2, cat3, chars_of, text_of};
use crate::token::opt_text;
use std::rc::Rc;
use vstd::prelude::*;
use vstd::string::*;

verus! {

/// The first `n` characters of a text, with `lead` behind every line break.
pub open spec fn led(text: Seq<char>, lead: Seq<char>, n: nat) -> Seq<char>
    decreases n,
{
    if n == 0 || n > text.len() {
        Seq::empty()
    } else if text[n - 1] == '\n' {
        led(text, lead, (n - 1) as nat) + "\n"@ + lead
    } else {
        led(text, lead, (n - 1) as nat).push(text[n - 1])
    }
}

/// A declaration: the lines of its comment behind `##`, then what is declared.
pub open spec fn entry(indent: Seq<char>, doc: Option<Seq<char>>, what: Seq<char>) -> Seq<char> {
    (match doc {
        Some(text) => indent + "## "@ + led(text, indent + "## "@, text.len()) + "\n"@,
        None => Seq::empty(),
    }) + indent + what + "\n"@
}

/// How far the members of a declaration are indented.
pub open spec fn deep() -> Seq<char> {
    "    "@
}

/// `so_far`, and then the fields from place `i` on.
pub open spec fn fields_listed(fields: Seq<FieldDecl>, i: nat, so_far: Seq<char>) -> Seq<char>
    decreases fields.len() - i,
{
    if i >= fields.len() {
        so_far
    } else {
        let f = fields[i as int];
        fields_listed(fields, i + 1, so_far + entry(deep(), opt_text(f.doc), f.name@))
    }
}

/// `so_far`, and then the variants from place `i` on.
pub open spec fn variants_listed(vs: Seq<VariantDecl>, i: nat, so_far: Seq<char>) -> Seq<char>
    decreases vs.len() - i,
{
    if i >= vs.len() {
        so_far
    } else {
        let v = vs[i as int];
        variants_listed(vs, i + 1, so_far + entry(deep(), opt_text(v.doc), v.name@))
    }
}

/// `so_far`, and then the required methods from place `i` on.
pub open spec fn sigs_listed(sigs: Seq<TraitSig>, i: nat, so_far: Seq<char>) -> Seq<char>
    decreases sigs.len() - i,
{
    if i >= sigs.len() {
        so_far
    } else {
        let s = sigs[i as int];
        sigs_listed(sigs, i + 1, so_far + entry(deep(), opt_text(s.doc), "fn "@ + s.name@))
    }
}

/// `so_far`, and then the methods from place `i` on.
pub open spec fn methods_listed(ms: Seq<Rc<FnDecl>>, i: nat, so_far: Seq<char>) -> Seq<char>
    decreases ms.len() - i,
{
    if i >= ms.len() {
        so_far
    } else {
        let m = ms[i as int];
        methods_listed(ms, i + 1, so_far + entry(deep(), opt_text(m.doc), "fn "@ + m.name@))
    }
}

/// What an impl is for.
pub open spec fn impl_header(d: ImplDecl) -> Seq<char> {
    match d.trait_name {
        Some(t) => "impl "@ + t@ + " for "@ + d.for_type@,
        None => "impl "@ + d.for_type@,
    }
}

/// `so_far`, and then a statement, if it declares something.
pub open spec fn stmt_listed(s: Stmt, so_far: Seq<char>) -> Seq<char> {
    match s.kind {
        StmtKind::Fn(f) => so_far + entry(Seq::empty(), opt_text(f.doc), "fn "@ + f.name@),
        StmtKind::Struct(d) => fields_listed(
            d.fields@,
            0,
            so_far + entry(Seq::empty(), opt_text(d.doc), "struct "@ + d.name@),
        ),
        StmtKind::Enum(d) => variants_listed(
            d.variants@,
            0,
            so_far + entry(Seq::empty(), opt_text(d.doc), "enum "@ + d.name@),
        ),
        StmtKind::Trait(d) => methods_listed(
            d.defaults@,
            0,
            sigs_listed(
                d.required@,
                0,
                so_far + entry(Seq::empty(), opt_text(d.doc), "trait "@ + d.name@),
            ),
        ),
        StmtKind::Impl(d) => methods_listed(
            d.methods@,
            0,
            so_far + entry(Seq::empty(), None, impl_header(d)),
        ),
        _ => so_far,
    }
}

/// `so_far`, and then the declarations among the statements from place `i` on.
pub open spec fn stmts_listed(stmts: Seq<Stmt>, i: nat, so_far: Seq<char>) -> Seq<char>
    decreases stmts.len() - i,
{
    if i >= stmts.len() {
        so_far
    } else {
        stmts_listed(stmts, i + 1, stmt_listed(stmts[i as int], so_far))
    }
}

fn push_chars(out: &mut Vec<char>, cs: &Vec<char>)
    ensures
        final(out)@ == old(out)@ + cs@,
{
    let mut i: usize = 0;
    while i < cs.len()
        invariant
            i <= cs.len(),
            out@ == old(out)@ + cs@.take(i as int),
        decreases cs.len() - i,
    {
        out.push(cs[i]);
        i = i + 1;
        assert(cs@.take(i as int) =~= cs@.take(i - 1).push(cs@[i - 1]));
        assert(out@ =~= old(out)@ + cs@.take(i as int));
    }
    assert(cs@.take(i as int) =~= cs@);
}

fn led_text(text: &str, lead: &str) -> (r: String)
    ensures
        r@ == led(text@, lead@, text@.len()),
{
    let cs = chars_of(text);
    let lead_chars = chars_of(lead);
    let mut out: Vec<char> = Vec::new();
    let mut i: usize = 0;
    proof {
        reveal_strlit("\n");
    }
    assert("\n"@ =~= seq!['\n']);
    while i < cs.len()
        invariant
            i <= cs.len(),
            cs@ == text@,
            lead_chars@ == lead@,
            "\n"@ == seq!['\n'],
            out@ == led(text@, lead@, i as nat),
        decreases cs.len() - i,
    {
        let ghost before = out@;
        out.push(cs[i]);
        if cs[i] == '\n' {
            assert(out@ =~= before + "\n"@);
            push_chars(&mut out, &lead_chars);
        }
        i = i + 1;
    }
    text_of(&out)
}

fn add_entry(out: &mut String, indent: &str, doc: &Option<String>, what: &str)
    ensures
        final(out)@ == old(out)@ + entry(indent@, opt_text(*doc), what@),
{
    let ghost before = out@;
    if let Some(text) = doc {
        let lead = cat2(indent, "## ");
        out.append(lead.as_str());
        out.append(led_text(text.as_str(), lead.as_str()).as_str());
        out.append("\n");
    }
    out.append(indent);
    out.append(what);
    out.append("\n");
    assert(out@ =~= before + entry(indent@, opt_text(*doc), what@));
}

fn add_methods(out: &mut String, ms: &Vec<Rc<FnDecl>>)
    ensures
        final(out)@ == methods_listed(ms@, 0, old(out)@),
{
    let mut i: usize = 0;
    while i < ms.len()
        invariant
            i <= ms.len(),
            methods_listed(ms@, i as nat, out@) == methods_listed(ms@, 0, old(out)@),
        decreases ms.len() - i,
    {
        add_entry(out, "    ", &ms[i].doc, cat2("fn ", ms[i].name.as_str()).as_str());
        i = i + 1;
    }
}

fn add_sigs(out: &mut String, sigs: &Vec<TraitSig>)
    ensures
        final(out)@ == sigs_listed(sigs@, 0, old(out)@),
{
    let mut i: usize = 0;
    while i < sigs.len()
        invariant
            i <= sigs.len(),
            sigs_listed(sigs@, i as nat, out@) == sigs_listed(sigs@, 0, old(out)@),
        decreases sigs.len() - i,
    {
        add_entry(out, "    ", &sigs[i].doc, cat2("fn ", sigs[i].name.as_str()).as_str());
        i = i + 1;
    }
}

fn add_struct(out: &mut String, d: &StructDecl)
    ensures
        final(out)@ == fields_listed(
            d.fields@,
            0,
            old(out)@ + entry(Seq::empty(), opt_text(d.doc), "struct "@ + d.name@),
        ),
{
    proof {
        reveal_strlit("");
    }
    assert(""@ =~= Seq::<char>::empty());
    add_entry(out, "", &d.doc, cat2("struct ", d.name.as_str()).as_str());
    let ghost first = out@;
    let mut i: usize = 0;
    while i < d.fields.len()
        invariant
            i <= d.fields.len(),
            fields_listed(d.fields@, i as nat, out@) == fields_listed(d.fields@, 0, first),
        decreases d.fields.len() - i,
    {
        add_entry(out, "    ", &d.fields[i].doc, d.fields[i].name.as_str());
        i = i + 1;
    }
}

fn add_enum(out: &mut String, d: &EnumDecl)
    ensures
        final(out)@ == variants_listed(
            d.variants@,
            0,
            old(out)@ + entry(Seq::empty(), opt_text(d.doc), "enum "@ + d.name@),
        ),
{
    proof {
        reveal_strlit("");
    }
    assert(""@ =~= Seq::<char>::empty());
    add_entry(out, "", &d.doc, cat2("enum ", d.name.as_str()).as_str());
    let ghost first = out@;
    let mut i: usize = 0;
    while i < d.variants.len()
        invariant
            i <= d.variants.len(),
            variants_listed(d.variants@, i as nat, out@) == variants_listed(
                d.variants@,
                0,
                first,
            ),
        decreases d.variants.len() - i,
    {
        add_entry(out, "    ", &d.variants[i].doc, d.variants[i].name.as_str());
        i = i + 1;
    }
}

fn add_stmt(out: &mut String, s: &Stmt)
    ensures
        final(out)@ == stmt_listed(*s, old(out)@),
{
    proof {
        reveal_strlit("");
    }
    assert(""@ =~= Seq::<char>::empty());
    match &s.kind {
        StmtKind::Fn(f) => add_entry(out, "", &f.doc, cat2("fn ", f.name.as_str()).as_str()),
        StmtKind::Struct(d) => add_struct(out, d),
        StmtKind::Enum(d) => add_enum(out, d),
        StmtKind::Trait(d) => {
            add_entry(out, "", &d.doc, cat2("trait ", d.name.as_str()).as_str());
            add_sigs(out, &d.required);
            add_methods(out, &d.defaults);
        },
        StmtKind::Impl(d) => {
            let header = match &d.trait_name {
                Some(t) => cat2(
                    cat3("impl ", t.as_str(), " for ").as_str(),
                    d.for_type.as_str(),
                ),
                None => cat2("impl ", d.for_type.as_str()),
            };
            add_entry(out, "", &None, header.as_str());
            add_methods(out, &d.methods);
        },
        _ => {},
    }
}

/// The top-level declarations of a program in order, with their members and
/// their doc comments.
pub fn documentation(program: &Program) -> (r: String)
    ensures
        r@ == stmts_listed(program.stmts@, 0, Seq::empty()),
{
    let mut out = String::new();
    let mut i: usize = 0;
    while i < program.stmts.len()
        invariant
            i <= program.stmts.len(),
            stmts_listed(program.stmts@, i as nat, out@) == stmts_listed(
                program.stmts@,
                0,
                Seq::empty(),
            ),
        decreases program.stmts.len() - i,
    {
        add_stmt(&mut out, &program.stmts[i]);
        i = i + 1;
    }
    out
}

} // verus!
