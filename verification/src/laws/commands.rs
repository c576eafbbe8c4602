//! What the commands do, from the command line to what is shown.

use crate::app;
use crate::app::ActionModel;
use crate::catalog::{CatalogErrorModel, TaskModel};
use crate::cli;
use crate::cli::{CliModel, RequestModel};
use crate::failure::FailureModel;
use crate::planning;
use crate::runner;
use crate::runner::{OutcomeModel, OutcomeStatus, SummaryModel};
use crate::text;
use crate::text::Text;
use crate::workspace;
use crate::workspace::CandidateModel;
use vstd::prelude::*;

verus! {

/// The listing has a line for each task of the catalog in order: its id, a dash and its
/// label, and a mark exactly where it is dangerous.
pub proof fn listings_show_every_task(tasks: Seq<TaskModel>)
    ensures
        app::action_of(tasks, RequestModel::List) matches Ok(ActionModel::Show(lines))
            && lines.len() == tasks.len() && forall|i: int|
            #![trigger lines[i]]
            0 <= i < tasks.len() ==> (tasks[i].dangerous ==> lines[i] == tasks[i].id + " - "@
                + tasks[i].label + " [dangerous]"@) && (!tasks[i].dangerous ==> lines[i]
                == tasks[i].id + " - "@ + tasks[i].label),
{
    reveal_strlit("");
    assert forall|i: int| 0 <= i < tasks.len() && !tasks[i].dangerous implies app::listed(
        #[trigger] tasks[i],
    ) == tasks[i].id + " - "@ + tasks[i].label by {
        assert(tasks[i].id + " - "@ + tasks[i].label + ""@ =~= tasks[i].id + " - "@
            + tasks[i].label);
    }
}

/// Showing a plan and running it concern the same tasks in the same order: the one shows
/// a line for each with its id and label, the other executes them. Both are refused for
/// the same reason.
pub proof fn plans_are_shown_as_they_are_run(
    tasks: Seq<TaskModel>,
    all: bool,
    requested: Seq<Text>,
)
    ensures
        match planning::plan_outcome(tasks, all, requested) {
            Ok(plan) => {
                &&& app::action_of(tasks, RequestModel::Run { all, tasks: requested }) == Ok::<
                    ActionModel,
                    CatalogErrorModel,
                >(ActionModel::Execute(plan))
                &&& app::action_of(tasks, RequestModel::Plan { all, tasks: requested }) matches Ok(
                    ActionModel::Show(lines),
                ) && lines.len() == plan.len() && forall|i: int|
                    0 <= i < plan.len() ==> #[trigger] lines[i] == plan[i].id + " - "@
                        + plan[i].label
            },
            Err(error) => {
                &&& app::action_of(tasks, RequestModel::Run { all, tasks: requested }) == Err::<
                    ActionModel,
                    CatalogErrorModel,
                >(error)
                &&& app::action_of(tasks, RequestModel::Plan { all, tasks: requested }) == Err::<
                    ActionModel,
                    CatalogErrorModel,
                >(error)
            },
        },
{
}

/// Whatever the catalog holds, the cockpit can be opened.
pub proof fn the_cockpit_opens_on_any_catalog(tasks: Seq<TaskModel>)
    ensures
        app::action_of(tasks, RequestModel::Tui) == Ok::<ActionModel, CatalogErrorModel>(
            ActionModel::OpenCockpit,
        ),
{
}

/// After an empty line a summary gives the three counts, and then for each outcome in
/// order its label and how it ended.
pub proof fn summaries_show_every_outcome(summary: SummaryModel)
    ensures
        ({
            let lines = app::summary_text(summary);
            &&& lines.len() == summary.outcomes.len() + 2
            &&& lines[0] == ""@
            &&& lines[1] == "Summary: "@ + text::decimal_text(summary.ok_count) + " OK, "@
                + text::decimal_text(summary.warn_count) + " WARN, "@ + text::decimal_text(
                summary.fail_count,
            ) + " FAIL"@
            &&& forall|i: int|
                0 <= i < summary.outcomes.len() ==> lines[i + 2] == "- "@ + (
                #[trigger] summary.outcomes[i]).label + ": "@ + match summary.outcomes[i].status {
                    OutcomeStatus::Success => "OK"@,
                    OutcomeStatus::Warn => "WARN"@,
                    OutcomeStatus::Fail => "FAIL"@,
                }
        }),
{
}

/// A run is a failure exactly where at least one of its tasks failed, whatever became of
/// the others.
pub proof fn runs_fail_exactly_where_a_task_failed(
    outcomes: Seq<OutcomeModel>,
    summary: SummaryModel,
)
    ensures
        app::verdict_of(runner::summary_of(outcomes)) is Err <==> exists|i: int|
            0 <= i < outcomes.len() && (#[trigger] outcomes[i]).status == OutcomeStatus::Fail,
        app::verdict_of(summary) is Err <==> summary.fail_count > 0,
        app::verdict_of(summary) matches Err(failure) ==> failure == (FailureModel {
            context: "one or more tasks failed"@,
            cause: None,
        }),
{
    crate::laws::runs::summaries_count_what_happened(outcomes);
}

/// The command that is given is what is done. Without one the cockpit is opened where
/// somebody is at the terminal, and else the tasks that are selected by default are run.
pub proof fn requests_follow_the_command_line(cli: CliModel, interactive: bool)
    ensures
        cli.command matches Some(command) ==> cli::request_of(cli, interactive) == command,
        cli.command is None && interactive ==> cli::request_of(cli, interactive)
            == RequestModel::Tui,
        cli.command is None && !interactive ==> (cli::request_of(cli, interactive) matches
            RequestModel::Run { all, tasks } && !all && tasks.len() == 0),
{
}

/// The directory at position `k` is the first one with a tasks directory in it.
pub open spec fn is_first_suitable(candidates: Seq<CandidateModel>, k: int) -> bool {
    &&& 0 <= k < candidates.len()
    &&& candidates[k].has_tasks
    &&& forall|i: int| 0 <= i < k ==> !(#[trigger] candidates[i]).has_tasks
}

proof fn lemma_first_suitable(candidates: Seq<CandidateModel>)
    ensures
        forall|k: int| #[trigger]
            is_first_suitable(candidates, k) ==> workspace::first_root(candidates) == Some(
                candidates[k].path,
            ),
        (forall|i: int| 0 <= i < candidates.len() ==> !(#[trigger] candidates[i]).has_tasks)
            ==> workspace::first_root(candidates) is None,
    decreases candidates.len(),
{
    if candidates.len() > 0 {
        let rest = candidates.drop_first();
        assert forall|i: int| 0 <= i < rest.len() implies #[trigger] rest[i] == candidates[i
            + 1] by {}
        lemma_first_suitable(rest);
        assert forall|k: int| #[trigger] is_first_suitable(candidates, k) implies
            workspace::first_root(candidates) == Some(candidates[k].path) by {
            if k > 0 {
                assert(!candidates[0].has_tasks);
                assert(is_first_suitable(rest, k - 1));
            }
        }
    }
}

/// A directory that is asked for is taken if it has a tasks directory, wherever one is.
/// Else it is named in the failure, and no other is looked for.
pub proof fn the_root_is_the_one_that_is_asked_for(
    root: CandidateModel,
    current: Result<Seq<CandidateModel>, FailureModel>,
    executable: Result<Seq<CandidateModel>, FailureModel>,
)
    ensures
        root.has_tasks ==> workspace::located_root(Some(root), current, executable) == Ok::<
            Text,
            FailureModel,
        >(root.path),
        !root.has_tasks ==> workspace::located_root(Some(root), current, executable) == Err::<
            Text,
            FailureModel,
        >(
            FailureModel {
                context: root.path + " does not contain a tasks directory"@,
                cause: None,
            },
        ),
{
}

/// Where no directory is asked for, the root is the first suitable one from the current
/// directory upwards. Only where there is none, it is the first suitable one from the
/// executable upwards, and only where there is none either, that is the failure.
pub proof fn the_root_is_the_first_suitable_directory(
    near: Seq<CandidateModel>,
    far: Seq<CandidateModel>,
    executable: Result<Seq<CandidateModel>, FailureModel>,
    failure: FailureModel,
    k: int,
)
    ensures
        workspace::located_root(None, Err(failure), executable) == Err::<Text, FailureModel>(
            failure,
        ),
        is_first_suitable(near, k) ==> workspace::located_root(None, Ok(near), executable) == Ok::<
            Text,
            FailureModel,
        >(near[k].path),
        (forall|i: int| 0 <= i < near.len() ==> !(#[trigger] near[i]).has_tasks) ==> {
            &&& workspace::located_root(None, Ok(near), Err(failure)) == Err::<Text, FailureModel>(
                failure,
            )
            &&& is_first_suitable(far, k) ==> workspace::located_root(None, Ok(near), Ok(far))
                == Ok::<Text, FailureModel>(far[k].path)
            &&& (forall|i: int| 0 <= i < far.len() ==> !(#[trigger] far[i]).has_tasks)
                ==> workspace::located_root(None, Ok(near), Ok(far)) == Err::<Text, FailureModel>(
                FailureModel {
                    context: "could not locate a project root containing a tasks directory"@,
                    cause: None,
                },
            )
        },
{
    lemma_first_suitable(near);
    lemma_first_suitable(far);
}

} // verus!
