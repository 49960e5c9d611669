//! The commands step by step: each takes what came of the last step, says what is printed and
//! what is done next, and keeps what it needs for the step after.
use vstd::prelude::*;
use vstd::string::*;

use crate::cli::support::{
    covered_bytes, every_action_is_reported, fail_if_actions_failed, failed_count, failed_text,
    outcome_lines, result_line, result_lines, successes_are_covered,
};
use crate::command::outcome_view;
use crate::model::ActionResult;
use crate::text::{push_text, texts};

pub mod analyze;
pub mod clean;
pub mod purge;
pub mod uninstall;
pub mod update;

verus! {

/// What is printed as JSON.
#[derive(Debug, Clone, Copy, PartialEq, Eq, Structural)]
pub enum Json {
    /// What was found.
    Report,
    /// What was found and what was done, which may be nothing.
    Results,
}

/// What is done next.
#[derive(Debug, PartialEq, Eq)]
pub enum Next {
    /// Find out what there is.
    Look,
    /// Let the user choose; nothing is chosen beforehand.
    Choose { prompt: String, labels: Vec<String> },
    /// Find out which files the names on the command line stand for.
    Resolve,
    /// Ask the package manager what an uninstall would remove.
    Preview,
    /// Ask the user; the answer is no beforehand.
    Confirm(String),
    /// Carry out what was selected.
    Execute { dry_run: bool },
    /// Replace the program.
    Install,
    /// The command is over. What was done is recorded under `record`.
    Finish { record: Option<String>, json: Option<Json>, outcome: Result<(), String> },
    /// What came does not belong to this step.
    Ignore,
}

pub enum NextView {
    Look,
    Choose { prompt: Seq<char>, labels: Seq<Seq<char>> },
    Resolve,
    Preview,
    Confirm(Seq<char>),
    Execute { dry_run: bool },
    Install,
    Finish { record: Option<Seq<char>>, json: Option<Json>, outcome: Result<(), Seq<char>> },
    Ignore,
}

impl View for Next {
    type V = NextView;

    open spec fn view(&self) -> NextView {
        match self {
            Next::Look => NextView::Look,
            Next::Choose { prompt, labels } => NextView::Choose {
                prompt: prompt@,
                labels: texts(labels@),
            },
            Next::Resolve => NextView::Resolve,
            Next::Preview => NextView::Preview,
            Next::Confirm(prompt) => NextView::Confirm(prompt@),
            Next::Execute { dry_run } => NextView::Execute { dry_run: *dry_run },
            Next::Install => NextView::Install,
            Next::Finish { record, json, outcome } => NextView::Finish {
                record: match record {
                    Some(name) => Some(name@),
                    None => None,
                },
                json: *json,
                outcome: outcome_view(*outcome),
            },
            Next::Ignore => NextView::Ignore,
        }
    }
}

/// A step: what is printed, and what is done next.
#[derive(Debug, PartialEq, Eq)]
pub struct Step {
    pub lines: Vec<String>,
    pub next: Next,
}

pub struct StepView {
    pub lines: Seq<Seq<char>>,
    pub next: NextView,
}

impl View for Step {
    type V = StepView;

    open spec fn view(&self) -> StepView {
        StepView { lines: texts(self.lines@), next: self.next@ }
    }
}

pub fn no_lines() -> (r: Vec<String>)
    ensures
        texts(r@) == Seq::<Seq<char>>::empty(),
{
    let r: Vec<String> = Vec::new();
    proof {
        assert(texts(r@) =~= Seq::<Seq<char>>::empty());
    }
    r
}

/// A step that prints nothing.
pub open spec fn quiet(next: NextView) -> StepView {
    StepView { lines: seq![], next }
}

pub fn quiet_step(next: Next) -> (r: Step)
    ensures
        r@ == quiet(next@),
{
    Step { lines: no_lines(), next }
}

/// The end of a command that was refused, or that failed.
pub open spec fn refused(message: Seq<char>) -> StepView {
    quiet(NextView::Finish { record: None, json: None, outcome: Err(message) })
}

pub fn refuse(message: String) -> (r: Step)
    ensures
        r@ == refused(message@),
{
    quiet_step(Next::Finish { record: None, json: None, outcome: Err(message) })
}

/// The end of a command that did nothing: some lines, or a report as JSON.
pub open spec fn ended(lines: Seq<Seq<char>>, json: Option<Json>) -> StepView {
    StepView { lines, next: NextView::Finish { record: None, json, outcome: Ok(()) } }
}

pub fn end(lines: Vec<String>, json: Option<Json>) -> (r: Step)
    ensures
        r@ == ended(texts(lines@), json),
{
    Step { lines, next: Next::Finish { record: None, json, outcome: Ok(()) } }
}

/// The end of a command that did nothing, with one line.
pub open spec fn ended_with(line: Seq<char>) -> StepView {
    ended(seq![line], None)
}

pub fn end_with(line: &str) -> (r: Step)
    ensures
        r@ == ended_with(line@),
{
    let mut lines: Vec<String> = Vec::new();
    push_text(&mut lines, line.to_owned());
    proof {
        assert(texts(lines@) =~= seq![line@]);
    }
    end(lines, None)
}

/// Whether a command that carried out some actions succeeds: every one of them did.
pub open spec fn actions_outcome(results: Seq<ActionResult>) -> Result<(), Seq<char>> {
    if failed_count(results) > 0 {
        Err(failed_text(failed_count(results)))
    } else {
        Ok(())
    }
}

/// The end of a command that carried out some actions: they are recorded and reported.
pub open spec fn carried_out(
    json: bool,
    record: Seq<char>,
    results: Seq<ActionResult>,
    closing: Seq<Seq<char>>,
) -> StepView {
    StepView {
        lines: if json {
            seq![]
        } else {
            outcome_lines(results) + closing
        },
        next: NextView::Finish {
            record: Some(record),
            json: if json {
                Some(Json::Results)
            } else {
                None
            },
            outcome: actions_outcome(results),
        },
    }
}

pub fn carry_out(
    json: bool,
    record: &str,
    results: &Vec<ActionResult>,
    closing: Vec<String>,
) -> (r: Step)
    requires
        !json ==> covered_bytes(results@) <= u64::MAX,
    ensures
        r@ == carried_out(json, record@, results@, texts(closing@)),
{
    let outcome = fail_if_actions_failed(results);
    if json {
        return quiet_step(
            Next::Finish { record: Some(record.to_owned()), json: Some(Json::Results), outcome },
        );
    }
    let mut lines = result_lines(results);
    let ghost before = lines@;
    let mut closing = closing;
    let ghost added = closing@;
    lines.append(&mut closing);
    proof {
        assert(texts(lines@) =~= texts(before) + texts(added));
    }
    Step { lines, next: Next::Finish { record: Some(record.to_owned()), json: None, outcome } }
}

// ---------------------------------------------------------------------------------------
// Laws
// ---------------------------------------------------------------------------------------


/// What was done is recorded under the name of its command and reported: the command succeeds
/// exactly where every action did, and every action has its line, unless JSON was asked for.
pub proof fn actions_are_recorded_and_reported(
    json: bool,
    record: Seq<char>,
    results: Seq<ActionResult>,
    closing: Seq<Seq<char>>,
)
    ensures
        match carried_out(json, record, results, closing).next {
            NextView::Finish { record: name, json: kind, outcome } => {
                &&& name == Some(record)
                &&& outcome is Ok <==> forall|i: int|
                    0 <= i < results.len() ==> (#[trigger] results[i]).success
                &&& json <==> kind == Some(Json::Results)
            },
            _ => false,
        },
        !json ==> forall|i: int|
            0 <= i < results.len() ==> carried_out(json, record, results, closing).lines.contains(
                result_line(#[trigger] results[i]),
            ),
        !json ==> forall|i: int|
            0 <= i < closing.len() ==> carried_out(json, record, results, closing).lines.contains(
                #[trigger] closing[i],
            ),
{
    successes_are_covered(results);
    let lines = outcome_lines(results);
    assert forall|i: int| 0 <= i < results.len() implies (lines + closing).contains(
        result_line(#[trigger] results[i]),
    ) by {
        every_action_is_reported(results, i);
        assert((lines + closing)[i + 1] == lines[i + 1]);
    }
    assert forall|i: int| 0 <= i < closing.len() implies (lines + closing).contains(
        #[trigger] closing[i],
    ) by {
        assert((lines + closing)[lines.len() + i] == closing[i]);
    }
}

/// A command that is refused says why, records nothing and fails.
pub proof fn refusal_says_why(message: Seq<char>)
    ensures
        refused(message).next == (NextView::Finish {
            record: None,
            json: None,
            outcome: Err(message),
        }),
{
}

} // verus!
