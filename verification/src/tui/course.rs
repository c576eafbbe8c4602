//! What holds over any course of operations on the cockpit.

use crate::catalog;
use crate::catalog::TaskModel;
use crate::failure::FailureModel;
use crate::persistence;
use crate::persistence::PersistedModel;
use crate::planning;
use crate::runner;
use crate::runner::{EventModel, ReportModel, RunOptions, StreamKind, SummaryModel};
use crate::text::Text;
use crate::tui::items;
use crate::tui::items::{ItemModel, Screen};
use crate::tui::model;
use crate::tui::model::{AppModel, CompletedModel};
use vstd::prelude::*;

verus! {

/// An operation that may change the state of the cockpit, with what it is given.
#[verifier::ext_equal]
pub enum Operation {
    MoveNext,
    MovePrevious,
    ToggleCurrent,
    SelectAll,
    ClearSelection,
    ToggleDryRun,
    ToggleVerbose,
    ToggleBrewCleanup,
    ToggleNpmAudit,
    CycleProfileNext,
    CycleProfilePrevious,
    CycleScopeFilter,
    ToggleSelectedCategoryFilter,
    ToggleSelectedTagFilter,
    ClearFilters,
    PrepareRun,
    RerunFailed,
    RerunLastProfile,
    ConfirmRun,
    CancelConfirmation,
    ResetAfterSummary,
    HandleRunnerEvent(EventModel),
    FinishRun(Result<SummaryModel, FailureModel>),
    RecordRun(CompletedModel),
    ApplyPreflight(Text, Result<ReportModel, FailureModel>),
    SetStatusMessage(Text),
    NoteSaved(Result<(), Text>),
}

impl AppModel {
    /// The state after an operation.
    pub open spec fn perform(self, operation: Operation) -> AppModel {
        match operation {
            Operation::MoveNext => self.move_next(),
            Operation::MovePrevious => self.move_previous(),
            Operation::ToggleCurrent => self.toggle_current(),
            Operation::SelectAll => self.select_every(true),
            Operation::ClearSelection => self.select_every(false),
            Operation::ToggleDryRun => self.toggle_dry_run(),
            Operation::ToggleVerbose => self.toggle_verbose(),
            Operation::ToggleBrewCleanup => self.toggle_brew_cleanup(),
            Operation::ToggleNpmAudit => self.toggle_npm_audit(),
            Operation::CycleProfileNext => self.cycle_profile_next(),
            Operation::CycleProfilePrevious => self.cycle_profile_previous(),
            Operation::CycleScopeFilter => self.cycle_scope_filter(),
            Operation::ToggleSelectedCategoryFilter => self.toggle_selected_category_filter(),
            Operation::ToggleSelectedTagFilter => self.toggle_selected_tag_filter().0,
            Operation::ClearFilters => self.clear_filters(),
            Operation::PrepareRun => self.prepare_run().0,
            Operation::RerunFailed => self.rerun_failed().0,
            Operation::RerunLastProfile => self.rerun_last_profile().0,
            Operation::ConfirmRun => self.confirm_run().0,
            Operation::CancelConfirmation => self.cancel_confirmation(),
            Operation::ResetAfterSummary => self.reset_after_summary(),
            Operation::HandleRunnerEvent(event) => self.handle_runner_event(event),
            Operation::FinishRun(result) => self.finish_run(result),
            Operation::RecordRun(run) => self.record_run(run),
            Operation::ApplyPreflight(task_id, report) => self.apply_preflight(task_id, report),
            Operation::SetStatusMessage(message) => AppModel { status: Some(message), ..self },
            Operation::NoteSaved(result) => self.saved(result),
        }
    }

    /// The state after a course of operations.
    pub open spec fn perform_all(self, course: Seq<Operation>) -> AppModel
        decreases course.len(),
    {
        if course.len() == 0 {
            self
        } else {
            self.perform_all(course.drop_last()).perform(course.last())
        }
    }

    /// The ids of the tasks that an operation is to start, if it is one that
    /// starts tasks.
    pub open spec fn called_for(self, operation: Operation) -> Option<Seq<Text>> {
        match operation {
            Operation::PrepareRun => Some(model::selected_ids(self.items)),
            Operation::RerunFailed => Some(
                match self.summary {
                    Some(summary) => model::failed_ids(summary.outcomes),
                    None => Seq::empty(),
                },
            ),
            Operation::RerunLastProfile => Some(
                match self.last_profile_id {
                    Some(id) => match model::find_profile(self.profiles(), id, 0) {
                        Some(i) => model::selected_ids(
                            model::with_selection(
                                self.items,
                                self.profiles()[i as int].selected_tasks,
                            ),
                        ),
                        None => Seq::empty(),
                    },
                    None => Seq::empty(),
                },
            ),
            _ => None,
        }
    }

    /// The plan that awaits confirmation after an operation, where `awaited` did
    /// before it: the one that was to be started, if it holds a dangerous task,
    /// or else `awaited`, unless it was confirmed or cancelled, another plan was
    /// started, or a run came to its end.
    pub open spec fn awaited_after(
        self,
        awaited: Option<Seq<TaskModel>>,
        operation: Operation,
    ) -> Option<Seq<TaskModel>> {
        match self.called_for(operation) {
            Some(ids) => if ids.len() == 0 {
                awaited
            } else {
                match planning::plan_outcome(self.catalog, false, ids) {
                    Ok(plan) => if model::is_dangerous(plan) {
                        Some(plan)
                    } else {
                        None
                    },
                    Err(_) => awaited,
                }
            },
            None => match operation {
                Operation::ConfirmRun => None,
                Operation::CancelConfirmation => None,
                Operation::ResetAfterSummary => None,
                Operation::FinishRun(_) => None,
                Operation::RecordRun(_) => None,
                _ => awaited,
            },
        }
    }

    /// The plan that awaits confirmation after a course of operations.
    pub open spec fn awaiting(self, course: Seq<Operation>) -> Option<Seq<TaskModel>>
        decreases course.len(),
    {
        if course.len() == 0 {
            None
        } else {
            self.perform_all(course.drop_last()).awaited_after(
                self.awaiting(course.drop_last()),
                course.last(),
            )
        }
    }
}

proof fn lemma_selection_changes_fit(m: AppModel, all: Seq<ItemModel>)
    requires
        model::parts_fit(m),
        all.len() == m.items.len(),
        forall|i: int|
            0 <= i < all.len() ==> (#[trigger] all[i]) == (ItemModel {
                selected: all[i].selected,
                ..m.items[i]
            }),
    ensures
        model::parts_fit(AppModel { items: all, ..m }),
{
    let changed = AppModel { items: all, ..m };
    assert forall|i: int| 0 <= i < all.len() implies items::shows(
        #[trigger] changed.items[i],
        changed.catalog[i],
    ) by {
        assert(items::shows(m.items[i], m.catalog[i]));
        assert(all[i] == (ItemModel { selected: all[i].selected, ..m.items[i] }));
    }
}

proof fn lemma_edits_fit(m: AppModel, selected: bool, options: RunOptions)
    requires
        model::app_wf(m),
    ensures
        model::app_wf(m.toggle_current()),
        model::app_wf(m.select_every(selected)),
        model::app_wf(m.set_options(options)),
{
    if m.screen == Screen::Select {
        match m.selected_visible_task() {
            Some(item) => {
                let all = m.items.update(
                    m.cursor as int,
                    ItemModel { selected: !item.selected, ..item },
                );
                lemma_selection_changes_fit(m, all);
                model::lemma_edited_fits(AppModel { items: all, ..m });
            },
            None => {},
        }
        let all = model::all_selected(m.items, selected);
        lemma_selection_changes_fit(m, all);
        model::lemma_edited_fits(AppModel { items: all, ..m });
        model::lemma_edited_fits(AppModel { options, ..m });
    }
}

proof fn lemma_starts_fit(m: AppModel)
    requires
        model::app_wf(m),
    ensures
        model::app_wf(m.prepare_run().0),
        model::app_wf(m.rerun_failed().0),
        model::app_wf(m.rerun_last_profile().0),
        model::app_wf(m.confirm_run().0),
{
    let quiet = AppModel { status: None, ..m };
    model::lemma_launch_fits(quiet, model::selected_ids(m.items));
    match m.summary {
        Some(summary) => {
            model::lemma_launch_fits(quiet, model::failed_ids(summary.outcomes));
        },
        None => {},
    }
    match m.last_profile_id {
        Some(id) => {
            model::lemma_find_profile(m.profiles(), id, 0);
            match model::find_profile(m.profiles(), id, 0) {
                Some(i) => {
                    model::lemma_with_profile_fits(quiet, i);
                    let chosen = AppModel { status: None, ..quiet.with_profile(i) };
                    model::lemma_launch_fits(chosen, model::selected_ids(chosen.items));
                },
                None => {},
            }
        },
        None => {},
    }
    model::lemma_begin_run_fits(m);
}

proof fn lemma_filters_fit(m: AppModel)
    requires
        model::app_wf(m),
    ensures
        model::app_wf(m.cycle_scope_filter()),
        model::app_wf(m.toggle_selected_category_filter()),
        model::app_wf(m.toggle_selected_tag_filter().0),
        model::app_wf(m.clear_filters()),
{
    model::lemma_settled_fits(AppModel { scope: items::scope_after(m.scope), ..m });
    model::lemma_settled_fits(AppModel { category: None, ..m });
    model::lemma_settled_fits(AppModel { tag: None, ..m });
    match m.selected_visible_task() {
        Some(item) => {
            model::lemma_settled_fits(AppModel { category: Some(item.category), ..m });
            if item.tags.len() > 0 {
                model::lemma_settled_fits(AppModel { tag: Some(item.tags[0]), ..m });
            }
        },
        None => {},
    }
    model::lemma_settled_fits(
        AppModel { scope: items::ScopeFilter::All, category: None, tag: None, ..m },
    );
}

proof fn lemma_events_fit(m: AppModel, event: EventModel)
    requires
        model::app_wf(m),
    ensures
        model::app_wf(m.handle_runner_event(event)),
{
    match event {
        EventModel::TaskStarted { task_id, label } => {
            let all = model::with_state(m.items, task_id, items::TaskState::Running);
            model::lemma_items_fit(m, all);
            lemma_log_fits(AppModel { items: all, ..m }, "==> "@ + label);
        },
        EventModel::TaskFinished { task_id, label, status } => {
            let all = model::with_state(m.items, task_id, items::state_after(status));
            model::lemma_items_fit(m, all);
            lemma_log_fits(
                AppModel { items: all, ..m },
                label + " finished: "@ + runner::status_label(status),
            );
        },
        EventModel::OutputLine { task_id, stream, line } => {
            lemma_log_fits(
                m,
                "["@ + task_id + ":"@ + (match stream {
                    StreamKind::Stdout => "out"@,
                    StreamKind::Stderr => "err"@,
                }) + "] "@ + line,
            );
        },
    }
}

proof fn lemma_log_fits(m: AppModel, line: Text)
    requires
        model::app_wf(m),
    ensures
        model::app_wf(m.log(line)),
{
}

proof fn lemma_finish_fits(m: AppModel, result: Result<SummaryModel, FailureModel>)
    requires
        model::app_wf(m),
    ensures
        model::app_wf(m.finish_run(result)),
{
    match result {
        Ok(_) => {},
        Err(failure) => {
            lemma_log_fits(
                AppModel {
                    screen: Screen::Summary,
                    status: Some("Run failed: "@ + failure.full_message()),
                    summary: None,
                    ..m
                },
                "fatal: "@ + failure.full_message(),
            );
        },
    }
}

proof fn lemma_record_fits(m: AppModel, run: CompletedModel)
    requires
        model::app_wf(m),
    ensures
        model::app_wf(m.record_run(run)),
{
    let remembered = AppModel { last_profile_id: Some(run.profile_id), ..m };
    match run.result {
        Ok(summary) => {
            let longer = m.history.push(
                persistence::history_of(
                    run.started_at_unix_secs,
                    run.duration_ms,
                    run.profile_id,
                    run.selected_tasks,
                    summary,
                ),
            );
            persistence::trimming_keeps_the_latest_runs(longer);
            lemma_finish_fits(
                AppModel { history: persistence::trimmed(longer), dirty: true, ..remembered },
                Ok(summary),
            );
        },
        Err(reason) => {
            lemma_finish_fits(remembered, Err(model::refusal(reason)));
        },
    }
}

proof fn lemma_preflight_fits(
    m: AppModel,
    task_id: Text,
    report: Result<ReportModel, FailureModel>,
)
    requires
        model::app_wf(m),
    ensures
        model::app_wf(m.apply_preflight(task_id, report)),
{
    let all = model::with_report(m.items, task_id, report);
    model::lemma_items_fit(m, all);
    model::lemma_settled_fits(AppModel { items: all, ..m });
}

proof fn lemma_perform_fits(m: AppModel, operation: Operation)
    requires
        model::app_wf(m),
    ensures
        model::app_wf(m.perform(operation)),
{
    match operation {
        Operation::MoveNext => {
            model::lemma_moves_fit(m);
        },
        Operation::MovePrevious => {
            model::lemma_moves_fit(m);
        },
        Operation::ToggleCurrent => {
            lemma_edits_fit(m, true, m.options);
        },
        Operation::SelectAll => {
            lemma_edits_fit(m, true, m.options);
        },
        Operation::ClearSelection => {
            lemma_edits_fit(m, false, m.options);
        },
        Operation::ToggleDryRun => {
            lemma_edits_fit(m, true, RunOptions { dry_run: !m.options.dry_run, ..m.options });
        },
        Operation::ToggleVerbose => {
            lemma_edits_fit(m, true, RunOptions { verbose: !m.options.verbose, ..m.options });
        },
        Operation::ToggleBrewCleanup => {
            lemma_edits_fit(
                m,
                true,
                RunOptions { brew_cleanup: !m.options.brew_cleanup, ..m.options },
            );
        },
        Operation::ToggleNpmAudit => {
            lemma_edits_fit(m, true, RunOptions { npm_audit: !m.options.npm_audit, ..m.options });
        },
        Operation::CycleProfileNext => {
            model::lemma_with_profile_fits(m, 0);
            if m.active + 1 < m.profiles().len() {
                model::lemma_with_profile_fits(m, m.active + 1);
            }
        },
        Operation::CycleProfilePrevious => {
            model::lemma_with_profile_fits(m, (m.profiles().len() - 1) as nat);
            if m.active > 0 {
                model::lemma_with_profile_fits(m, (m.active - 1) as nat);
            }
        },
        Operation::CycleScopeFilter => {
            lemma_filters_fit(m);
        },
        Operation::ToggleSelectedCategoryFilter => {
            lemma_filters_fit(m);
        },
        Operation::ToggleSelectedTagFilter => {
            lemma_filters_fit(m);
        },
        Operation::ClearFilters => {
            lemma_filters_fit(m);
        },
        Operation::PrepareRun => {
            lemma_starts_fit(m);
        },
        Operation::RerunFailed => {
            lemma_starts_fit(m);
        },
        Operation::RerunLastProfile => {
            lemma_starts_fit(m);
        },
        Operation::ConfirmRun => {
            lemma_starts_fit(m);
        },
        Operation::HandleRunnerEvent(event) => {
            lemma_events_fit(m, event);
        },
        Operation::FinishRun(result) => {
            lemma_finish_fits(m, result);
        },
        Operation::RecordRun(run) => {
            lemma_record_fits(m, run);
        },
        Operation::ApplyPreflight(task_id, report) => {
            lemma_preflight_fits(m, task_id, report);
        },
        Operation::ResetAfterSummary => {
            model::lemma_items_fit(m, model::all_pending(m.items));
        },
        _ => {},
    }
}

/// Whatever is done with the cockpit, its parts fit together, what is selected is
/// the active profile, and the cursor is on a visible task wherever there is one.
pub proof fn every_state_fits(
    tasks: Seq<TaskModel>,
    options: RunOptions,
    persisted: PersistedModel,
    course: Seq<Operation>,
)
    requires
        catalog::catalog_wf(tasks),
    ensures
        model::app_wf(model::opened(tasks, options, persisted).perform_all(course)),
    decreases course.len(),
{
    let start = model::opened(tasks, options, persisted);
    if course.len() == 0 {
        model::lemma_opened_fits(tasks, options, persisted);
    } else {
        every_state_fits(tasks, options, persisted, course.drop_last());
        lemma_perform_fits(start.perform_all(course.drop_last()), course.last());
    }
}

/// The state asks for confirmation of this plan, or of none.
spec fn asks_for(m: AppModel, plan: Option<Seq<TaskModel>>) -> bool {
    match plan {
        Some(tasks) => m.screen == Screen::ConfirmDangerous && m.pending == Some(tasks)
            && model::is_dangerous(tasks),
        None => m.screen != Screen::ConfirmDangerous,
    }
}

/// Both states ask for confirmation of the same plan.
spec fn asks_alike(a: AppModel, b: AppModel) -> bool {
    a.screen == b.screen && a.pending == b.pending
}

proof fn lemma_edits_ask_alike(m: AppModel)
    ensures
        asks_alike(m, m.move_next()),
        asks_alike(m, m.move_previous()),
        asks_alike(m, m.toggle_current()),
        asks_alike(m, m.select_every(true)),
        asks_alike(m, m.select_every(false)),
        asks_alike(m, m.toggle_dry_run()),
        asks_alike(m, m.toggle_verbose()),
        asks_alike(m, m.toggle_brew_cleanup()),
        asks_alike(m, m.toggle_npm_audit()),
        asks_alike(m, m.cycle_profile_next()),
        asks_alike(m, m.cycle_profile_previous()),
{
}

proof fn lemma_filters_ask_alike(m: AppModel)
    ensures
        asks_alike(m, m.cycle_scope_filter()),
        asks_alike(m, m.toggle_selected_category_filter()),
        asks_alike(m, m.toggle_selected_tag_filter().0),
        asks_alike(m, m.clear_filters()),
{
}

proof fn lemma_starts_ask(m: AppModel, awaited: Option<Seq<TaskModel>>, operation: Operation)
    requires
        asks_for(m, awaited),
        m.called_for(operation) is Some,
    ensures
        asks_for(m.perform(operation), m.awaited_after(awaited, operation)),
{
}

proof fn lemma_ends_ask(m: AppModel, awaited: Option<Seq<TaskModel>>)
    requires
        asks_for(m, awaited),
    ensures
        asks_for(m.confirm_run().0, None),
        asks_for(m.cancel_confirmation(), None),
        asks_for(m.reset_after_summary(), None),
        forall|result: Result<SummaryModel, FailureModel>|
            asks_for(#[trigger] m.finish_run(result), None),
        forall|run: CompletedModel| asks_for(#[trigger] m.record_run(run), None),
{
}

proof fn lemma_asks_for(m: AppModel, awaited: Option<Seq<TaskModel>>, operation: Operation)
    requires
        asks_for(m, awaited),
    ensures
        asks_for(m.perform(operation), m.awaited_after(awaited, operation)),
{
    match operation {
        Operation::MoveNext => {
            lemma_edits_ask_alike(m);
        },
        Operation::MovePrevious => {
            lemma_edits_ask_alike(m);
        },
        Operation::ToggleCurrent => {
            lemma_edits_ask_alike(m);
        },
        Operation::SelectAll => {
            lemma_edits_ask_alike(m);
        },
        Operation::ClearSelection => {
            lemma_edits_ask_alike(m);
        },
        Operation::ToggleDryRun => {
            lemma_edits_ask_alike(m);
        },
        Operation::ToggleVerbose => {
            lemma_edits_ask_alike(m);
        },
        Operation::ToggleBrewCleanup => {
            lemma_edits_ask_alike(m);
        },
        Operation::ToggleNpmAudit => {
            lemma_edits_ask_alike(m);
        },
        Operation::CycleProfileNext => {
            lemma_edits_ask_alike(m);
        },
        Operation::CycleProfilePrevious => {
            lemma_edits_ask_alike(m);
        },
        Operation::CycleScopeFilter => {
            lemma_filters_ask_alike(m);
        },
        Operation::ToggleSelectedCategoryFilter => {
            lemma_filters_ask_alike(m);
        },
        Operation::ToggleSelectedTagFilter => {
            lemma_filters_ask_alike(m);
        },
        Operation::ClearFilters => {
            lemma_filters_ask_alike(m);
        },
        Operation::PrepareRun => {
            lemma_starts_ask(m, awaited, operation);
        },
        Operation::RerunFailed => {
            lemma_starts_ask(m, awaited, operation);
        },
        Operation::RerunLastProfile => {
            lemma_starts_ask(m, awaited, operation);
        },
        Operation::ConfirmRun => {
            lemma_ends_ask(m, awaited);
        },
        Operation::CancelConfirmation => {
            lemma_ends_ask(m, awaited);
        },
        Operation::ResetAfterSummary => {
            lemma_ends_ask(m, awaited);
        },
        Operation::FinishRun(_) => {
            lemma_ends_ask(m, awaited);
        },
        Operation::RecordRun(_) => {
            lemma_ends_ask(m, awaited);
        },
        Operation::HandleRunnerEvent(event) => {
            assert(asks_alike(m, m.handle_runner_event(event)));
        },
        Operation::ApplyPreflight(task_id, report) => {
            assert(asks_alike(m, m.apply_preflight(task_id, report)));
        },
        Operation::SetStatusMessage(_) => {},
        Operation::NoteSaved(_) => {},
    }
}

proof fn lemma_awaiting(m: AppModel, course: Seq<Operation>)
    requires
        m.screen != Screen::ConfirmDangerous,
    ensures
        asks_for(m.perform_all(course), m.awaiting(course)),
    decreases course.len(),
{
    if course.len() > 0 {
        lemma_awaiting(m, course.drop_last());
        lemma_asks_for(
            m.perform_all(course.drop_last()),
            m.awaiting(course.drop_last()),
            course.last(),
        );
    }
}

/// Over any course of operations, a confirmation hands out exactly the plan that
/// awaits it, which holds a dangerous task. It hands it out once: the run has
/// begun, and a second confirmation hands out nothing. Where nothing awaits
/// confirmation, confirming changes nothing.
pub proof fn a_confirmation_hands_out_the_plan_that_awaits_it(
    tasks: Seq<TaskModel>,
    options: RunOptions,
    persisted: PersistedModel,
    course: Seq<Operation>,
)
    ensures
        ({
            let start = model::opened(tasks, options, persisted);
            let state = start.perform_all(course);
            let (after, plan) = state.confirm_run();
            &&& plan == start.awaiting(course)
            &&& plan is Some <==> state.screen == Screen::ConfirmDangerous
            &&& plan matches Some(tasks) ==> model::is_dangerous(tasks) && after
                == state.begin_run() && after.confirm_run() == (after, None::<Seq<TaskModel>>)
            &&& plan is None ==> after == state
        }),
{
    lemma_awaiting(model::opened(tasks, options, persisted), course);
}

} // verus!
