//! What each command does with a catalog, and what it shows.

use crate::catalog::{
    Catalog, CatalogError, CatalogErrorModel, ExecutionPlan, TaskDefinition, TaskModel,
};
use crate::cli::{Command, RequestModel};
use crate::failure::{Failure, FailureModel};
use crate::planning;
use crate::runner;
use crate::runner::{OutcomeModel, RunSummary, SummaryModel};
use crate::text;
use crate::text::{concat2, concat3, decimal, Text};
use vstd::prelude::*;

verus! {

/// A task in the listing.
pub open spec fn listed(task: TaskModel) -> Text {
    task.id + " - "@ + task.label + if task.dangerous {
        " [dangerous]"@
    } else {
        ""@
    }
}

/// A task in a plan.
pub open spec fn planned(task: TaskModel) -> Text {
    task.id + " - "@ + task.label
}

/// The listing of tasks.
pub fn list_lines(tasks: &Vec<TaskDefinition>) -> (res: Vec<String>)
    ensures
        res.deep_view() == tasks.deep_view().map_values(|task: TaskModel| listed(task)),
{
    let ghost wanted = tasks.deep_view().map_values(|task: TaskModel| listed(task));
    let mut res: Vec<String> = Vec::new();
    let mut i: usize = 0;
    while i < tasks.len()
        invariant
            i <= tasks.len(),
            wanted == tasks.deep_view().map_values(|task: TaskModel| listed(task)),
            res.deep_view() =~= wanted.take(i as int),
        decreases tasks.len() - i,
    {
        let task = &tasks[i];
        let mut line = concat3(task.id.as_str(), " - ", task.label.as_str());
        line.append(
            if task.dangerous {
                " [dangerous]"
            } else {
                ""
            },
        );
        let ghost before = res.deep_view();
        res.push(line);
        assert(res.deep_view() =~= before.push(wanted[i as int]));
        i += 1;
    }
    assert(wanted.take(wanted.len() as int) =~= wanted);
    res
}

/// The listing of a plan.
pub fn plan_lines(plan: &ExecutionPlan) -> (res: Vec<String>)
    ensures
        res.deep_view() == plan@.map_values(|task: TaskModel| planned(task)),
{
    let ghost wanted = plan@.map_values(|task: TaskModel| planned(task));
    let mut res: Vec<String> = Vec::new();
    let mut i: usize = 0;
    while i < plan.tasks.len()
        invariant
            i <= plan.tasks.len(),
            wanted == plan@.map_values(|task: TaskModel| planned(task)),
            res.deep_view() =~= wanted.take(i as int),
        decreases plan.tasks.len() - i,
    {
        let task = &plan.tasks[i];
        let ghost before = res.deep_view();
        res.push(concat3(task.id.as_str(), " - ", task.label.as_str()));
        assert(res.deep_view() =~= before.push(wanted[i as int]));
        i += 1;
    }
    assert(wanted.take(wanted.len() as int) =~= wanted);
    res
}

/// What is left to do for a command.
#[derive(Debug, PartialEq, Eq)]
pub enum Action {
    /// Show these lines.
    Show(Vec<String>),
    /// Run this plan on the terminal.
    Execute(ExecutionPlan),
    /// Open the cockpit.
    OpenCockpit,
}

/// The content of an [`Action`].
#[verifier::ext_equal]
pub enum ActionModel {
    Show(Seq<Text>),
    Execute(Seq<TaskModel>),
    OpenCockpit,
}

impl View for Action {
    type V = ActionModel;

    open spec fn view(&self) -> ActionModel {
        match self {
            Action::Show(lines) => ActionModel::Show(lines.deep_view()),
            Action::Execute(plan) => ActionModel::Execute(plan@),
            Action::OpenCockpit => ActionModel::OpenCockpit,
        }
    }
}

/// What is left to do for a command with the tasks of a catalog, or why its
/// plan cannot be made.
pub open spec fn action_of(tasks: Seq<TaskModel>, command: RequestModel) -> Result<
    ActionModel,
    CatalogErrorModel,
> {
    match command {
        RequestModel::List => Ok(
            ActionModel::Show(tasks.map_values(|task: TaskModel| listed(task))),
        ),
        RequestModel::Plan { all, tasks: requested } => match planning::plan_outcome(
            tasks,
            all,
            requested,
        ) {
            Ok(plan) => Ok(ActionModel::Show(plan.map_values(|task: TaskModel| planned(task)))),
            Err(error) => Err(error),
        },
        RequestModel::Run { all, tasks: requested } => match planning::plan_outcome(
            tasks,
            all,
            requested,
        ) {
            Ok(plan) => Ok(ActionModel::Execute(plan)),
            Err(error) => Err(error),
        },
        RequestModel::Tui => Ok(ActionModel::OpenCockpit),
    }
}

/// An action, or why there is none, as content.
pub open spec fn action_result(res: Result<Action, CatalogError>) -> Result<
    ActionModel,
    CatalogErrorModel,
> {
    match res {
        Ok(action) => Ok(action@),
        Err(error) => Err(error@),
    }
}

/// What is left to do for a command.
pub fn action_for(catalog: &Catalog, command: &Command) -> (res: Result<Action, CatalogError>)
    ensures
        action_result(res) == action_of(catalog@, command@),
{
    match command {
        Command::List => Ok(Action::Show(list_lines(catalog.tasks()))),
        Command::Plan { all, tasks } => match catalog.plan(*all, tasks) {
            Ok(plan) => Ok(Action::Show(plan_lines(&plan))),
            Err(error) => Err(error),
        },
        Command::Run { all, tasks } => match catalog.plan(*all, tasks) {
            Ok(plan) => Ok(Action::Execute(plan)),
            Err(error) => Err(error),
        },
        Command::Tui => Ok(Action::OpenCockpit),
    }
}

/// The line that shows an outcome.
pub open spec fn outcome_line(outcome: OutcomeModel) -> Text {
    "- "@ + outcome.label + ": "@ + runner::status_label(outcome.status)
}

/// The line that shows the counts of a summary.
pub open spec fn counts_line(summary: SummaryModel) -> Text {
    "Summary: "@ + text::decimal_text(summary.ok_count) + " OK, "@ + text::decimal_text(
        summary.warn_count,
    ) + " WARN, "@ + text::decimal_text(summary.fail_count) + " FAIL"@
}

/// The lines that show a summary.
pub open spec fn summary_text(summary: SummaryModel) -> Seq<Text> {
    seq![""@, counts_line(summary)] + summary.outcomes.map_values(
        |outcome: OutcomeModel| outcome_line(outcome),
    )
}

/// The lines that show a summary.
pub fn summary_lines(summary: &RunSummary) -> (res: Vec<String>)
    ensures
        res.deep_view() == summary_text(summary@),
{
    let mut counts = concat2("Summary: ", decimal(summary.ok_count as u64).as_str());
    counts.append(" OK, ");
    counts.append(decimal(summary.warn_count as u64).as_str());
    counts.append(" WARN, ");
    counts.append(decimal(summary.fail_count as u64).as_str());
    counts.append(" FAIL");
    let mut res: Vec<String> = Vec::new();
    res.push("".to_owned());
    res.push(counts);
    let ghost first = seq![""@, counts_line(summary@)];
    let ghost wanted = summary@.outcomes.map_values(|outcome: OutcomeModel| outcome_line(outcome));
    assert(res.deep_view() =~= first);
    let mut i: usize = 0;
    while i < summary.outcomes.len()
        invariant
            i <= summary.outcomes.len(),
            first.len() == 2,
            wanted == summary@.outcomes.map_values(
                |outcome: OutcomeModel| outcome_line(outcome),
            ),
            res.deep_view() =~= first + wanted.take(i as int),
        decreases summary.outcomes.len() - i,
    {
        let outcome = &summary.outcomes[i];
        let mut line = concat2("- ", outcome.label.as_str());
        line.append(": ");
        line.append(outcome.status.label());
        let ghost before = res.deep_view();
        res.push(line);
        assert(res.deep_view() =~= before.push(wanted[i as int]));
        i += 1;
    }
    assert(wanted.take(wanted.len() as int) =~= wanted);
    res
}

/// Whether a run counts as a success: it does unless a task failed.
pub open spec fn verdict_of(summary: SummaryModel) -> Result<(), FailureModel> {
    if summary.fail_count != 0 {
        Err(FailureModel { context: "one or more tasks failed"@, cause: None })
    } else {
        Ok(())
    }
}

/// A verdict, as content.
pub open spec fn verdict_result(res: Result<(), Failure>) -> Result<(), FailureModel> {
    match res {
        Ok(()) => Ok(()),
        Err(failure) => Err(failure@),
    }
}

/// Whether a run counts as a success: it does unless a task failed.
pub fn run_verdict(summary: &RunSummary) -> (res: Result<(), Failure>)
    ensures
        verdict_result(res) == verdict_of(summary@),
        res is Err <==> summary.fail_count > 0,
{
    if summary.fail_count != 0 {
        Err(Failure { context: "one or more tasks failed".to_owned(), cause: None })
    } else {
        Ok(())
    }
}

} // verus!
