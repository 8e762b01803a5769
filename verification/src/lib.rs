//! Adder, a small language that reads like Python and has enums, pattern
//! matching and nullable types.
//!
//! A program goes through four stages:
//!
//! ```text
//!   source --lex--> tokens --parse--> program --check--> program --run--> output
//! ```
//!
//! | Stage | Entry point |
//! | ----- | ----------- |
//! | lex   | `lexer::lex` |
//! | parse | given by the host, from tokens to a program |
//! | check | `checks::check`: match exhaustiveness and null narrowing |
//! | run   | `interp::run`: the tree-walker, and what is enforced at run time |

pub mod text;
pub mod name_map;
pub mod token;
pub mod integer;
pub mod error;
pub mod ast;
pub mod interp;
pub mod lexer;
pub mod source_places;
pub mod lexer_laws;
pub mod comment_laws;
pub mod string_laws;
pub mod token_laws;
pub mod checks;
pub mod docs;
pub mod report_laws;

use ast::Program;
use checks::null_laws::law_reports_are_checks;
use checks::{check, reported};
use error::{diagnostics_view, Diagnostic, DiagnosticView, Phase};
use interp::float::{Answers, FloatTable, Question, QuestionView};
use interp::heap::{lines_view, Line};
use interp::replay::{law_more_fuel_and_answers, law_printed_first, law_run_ends_fair};
use interp::value::{Halt, Stop};
use interp::{program_run, run};
use lexer::{lex, lexed};
use token::{tokens_view, Span, Token};
use vstd::prelude::*;

verus! {

/// How a program ended.
#[derive(Debug)]
pub enum Finish {
    Done,
    /// What a stage reported.
    Failed(Vec<Diagnostic>),
    /// The host has to answer this about floats, and start again.
    Ask(Question),
    /// The budget is used up: the host may start again with a larger one.
    Budget,
}

/// What a `Finish` says.
pub enum FinishView {
    Done,
    Failed(Seq<DiagnosticView>),
    Ask(QuestionView),
    Budget,
}

impl View for Finish {
    type V = FinishView;

    open spec fn view(&self) -> FinishView {
        match self {
            Finish::Done => FinishView::Done,
            Finish::Failed(ds) => FinishView::Failed(diagnostics_view(ds@)),
            Finish::Ask(q) => FinishView::Ask(q@),
            Finish::Budget => FinishView::Budget,
        }
    }
}

/// What became of a source text: how it ended, and what it printed until then.
#[derive(Debug)]
pub struct Report {
    pub finish: Finish,
    pub lines: Vec<Line>,
    /// The answers that it was given.
    pub floats: FloatTable,
}

/// What a `Report` says.
pub type ReportView = (FinishView, Seq<(Seq<char>, Span)>);

impl View for Report {
    type V = ReportView;

    open spec fn view(&self) -> ReportView {
        (self.finish@, lines_view(self.lines@))
    }
}

/// A stage before the run that reported these; nothing was printed.
pub open spec fn refused(ds: Seq<DiagnosticView>) -> ReportView {
    (FinishView::Failed(ds), Seq::empty())
}

/// How a run that ended so is reported.
pub open spec fn finish_of(ended: Result<(), Halt>) -> FinishView {
    match ended {
        Ok(_) => FinishView::Done,
        Err(Halt::Error(d)) => FinishView::Failed(seq![d]),
        Err(Halt::Ask(q)) => FinishView::Ask(q),
        Err(Halt::Budget) => FinishView::Budget,
    }
}

/// What becomes of a program that was parsed: the checks, then the run.
pub open spec fn program_report(program: Program, ans: Answers, fuel: nat) -> ReportView {
    let ds = reported(program.stmts@);
    if ds.len() > 0 {
        refused(ds)
    } else {
        let out = program_run(program.stmts@, ans, fuel);
        (finish_of(out.0), out.1.out)
    }
}

/// What becomes of what the parse stage gave.
pub open spec fn parse_report(
    parsed: Result<Program, Vec<Diagnostic>>,
    ans: Answers,
    fuel: nat,
) -> ReportView {
    match parsed {
        Ok(program) => program_report(program, ans, fuel),
        Err(ds) => refused(diagnostics_view(ds@)),
    }
}

fn report_of(finish: Finish, floats: FloatTable) -> (r: Report)
    ensures
        r.floats@ == floats@,
        r@.0 == finish@,
        r@.1 == Seq::<(Seq<char>, Span)>::empty(),
{
    let r = Report { finish, lines: Vec::new(), floats };
    assert(r@.1 =~= Seq::empty());
    r
}

fn report_one(d: Diagnostic) -> (r: Finish)
    ensures
        r@ == FinishView::Failed(seq![d@]),
{
    let mut ds: Vec<Diagnostic> = Vec::new();
    ds.push(d);
    assert(diagnostics_view(ds@) =~= seq![d@]);
    Finish::Failed(ds)
}

/// Check and run what the parse stage gave.
pub fn run_parsed(
    parsed: Result<Program, Vec<Diagnostic>>,
    floats: FloatTable,
    fuel: u64,
) -> (r: Report)
    ensures
        r.floats@ == floats@,
        r@ == parse_report(parsed, floats@, fuel as nat),
{
    let program = match parsed {
        Ok(p) => p,
        Err(ds) => {
            return report_of(Finish::Failed(ds), floats);
        },
    };
    if let Err(ds) = check(&program) {
        assert(diagnostics_view(ds@).len() == ds@.len());
        return report_of(Finish::Failed(ds), floats);
    }
    let done = run(&program, floats, fuel);
    let finish = match done.ended {
        Ok(_) => Finish::Done,
        Err(Stop::Error(d)) => report_one(d),
        Err(Stop::Ask(q)) => Finish::Ask(q),
        Err(Stop::Budget) => Finish::Budget,
    };
    Report { finish, lines: done.lines, floats: done.floats }
}

/// Take a source text through all four stages. The first stage that reports
/// something ends it.
pub fn run_source<P: Fn(&Vec<Token>) -> Result<Program, Vec<Diagnostic>>>(
    src: &str,
    parse: P,
    floats: FloatTable,
    fuel: u64,
) -> (r: Report)
    requires
        forall|tokens: &Vec<Token>| call_requires(parse, (tokens,)),
    ensures
        r.floats@ == floats@,
        match lexed(src@) {
            Err(d) => r@ == refused(seq![d]),
            Ok(ts) => exists|tokens: &Vec<Token>, parsed: Result<Program, Vec<Diagnostic>>|
                tokens_view(tokens@) == ts && #[trigger] call_ensures(parse, (tokens,), parsed)
                    && r@ == parse_report(parsed, floats@, fuel as nat),
        },
{
    match lex(src) {
        Ok(tokens) => {
            let parsed = parse(&tokens);
            run_parsed(parsed, floats, fuel)
        },
        Err(d) => report_of(report_one(d), floats),
    }
}

/// What a program fails with comes from one stage: from the checks, which then
/// printed nothing, or it is the one error that ended the run.
pub proof fn law_one_stage_reports(program: Program, ans: Answers, fuel: nat)
    ensures
        program_report(program, ans, fuel).0 matches FinishView::Failed(ds) ==> {
            &&& ds.len() > 0
            &&& ds[0].phase == Phase::Check ==> program_report(program, ans, fuel).1.len() == 0
                && forall|i: int| 0 <= i < ds.len() ==> (#[trigger] ds[i]).phase == Phase::Check
            &&& ds[0].phase != Phase::Check ==> ds.len() == 1 && ds[0].phase == Phase::Runtime
        },
{
    law_reports_are_checks(program.stmts@);
    law_run_ends_fair(program.stmts@, ans, fuel);
}

/// A report that is done or failed is the same with more answers and a larger
/// budget.
pub proof fn law_report_is_final(
    program: Program,
    ans: Answers,
    fuel: nat,
    ans2: Answers,
    fuel2: nat,
)
    requires
        ans.within(ans2),
        fuel <= fuel2,
        program_report(program, ans, fuel).0 is Done || program_report(
            program,
            ans,
            fuel,
        ).0 is Failed,
    ensures
        program_report(program, ans2, fuel2) == program_report(program, ans, fuel),
{
    if reported(program.stmts@).len() == 0 {
        law_more_fuel_and_answers(program.stmts@, ans, fuel, ans2, fuel2);
    }
}

/// The lines of a report, also of one that stopped, are the first lines of every
/// report with more answers and a larger budget.
pub proof fn law_lines_come_first(
    program: Program,
    ans: Answers,
    fuel: nat,
    ans2: Answers,
    fuel2: nat,
)
    requires
        ans.within(ans2),
        fuel <= fuel2,
    ensures
        program_report(program, ans, fuel).1.is_prefix_of(program_report(program, ans2, fuel2).1),
{
    if reported(program.stmts@).len() == 0 {
        law_printed_first(program.stmts@, ans, fuel, ans2, fuel2);
    } else {
        assert(Seq::<(Seq<char>, Span)>::empty().take(0) =~= Seq::empty());
    }
}

/// The checks decide whether a program runs: if they report anything, that is the
/// report and nothing is printed; if not, the program runs, and the report is how
/// the run ended and what it printed.
pub proof fn law_checks_decide(program: Program, ans: Answers, fuel: nat)
    ensures
        ({
            let report = program_report(program, ans, fuel);
            let ds = reported(program.stmts@);
            let out = program_run(program.stmts@, ans, fuel);
            &&& ds.len() > 0 ==> report == (
                FinishView::Failed(ds),
                Seq::<(Seq<char>, Span)>::empty(),
            )
            &&& ds.len() == 0 ==> report.1 == out.1.out && match out.0 {
                Ok(_) => report.0 is Done,
                Err(Halt::Error(d)) => report.0 == FinishView::Failed(seq![d]),
                Err(Halt::Ask(q)) => report.0 == FinishView::Ask(q),
                Err(Halt::Budget) => report.0 is Budget,
            }
        }),
{
}

/// What the parse stage refuses is reported as it is, and nothing is printed; what it
/// gives is checked and run.
pub proof fn law_parse_decides(
    parsed: Result<Program, Vec<Diagnostic>>,
    ans: Answers,
    fuel: nat,
)
    ensures
        match parsed {
            Err(ds) => parse_report(parsed, ans, fuel) == (
                FinishView::Failed(diagnostics_view(ds@)),
                Seq::<(Seq<char>, Span)>::empty(),
            ),
            Ok(program) => parse_report(parsed, ans, fuel) == program_report(program, ans, fuel),
        },
{
}

} // verus!
