//! What the cockpit's state is and how every operation changes it.

use crate::catalog;
use crate::catalog::TaskModel;
use crate::failure::FailureModel;
use crate::persistence;
use crate::persistence::{HistoryModel, PersistedModel, SelectionModel, MAX_HISTORY_ENTRIES};
use crate::planning;
use crate::profiles;
use crate::profiles::ProfileModel;
use crate::runner;
use crate::runner::{
    EventModel, OutcomeModel, OutcomeStatus, ReportModel, RunOptions, StreamKind, SummaryModel,
};
use crate::text::Text;
use crate::tui::items;
use crate::tui::items::{ItemModel, Screen, ScopeFilter, TaskState};
use vstd::prelude::*;

verus! {

/// How many lines of activity are kept.
pub const MAX_LOG_LINES: usize = 200;

/// The state of the cockpit. The active profile is a position in the list that
/// starts with the user's own profile and goes on with the standard ones.
#[verifier::ext_equal]
pub struct AppModel {
    pub catalog: Seq<TaskModel>,
    pub items: Seq<ItemModel>,
    pub cursor: nat,
    pub screen: Screen,
    pub options: RunOptions,
    pub logs: Seq<Text>,
    pub summary: Option<SummaryModel>,
    pub status: Option<Text>,
    pub pending: Option<Seq<TaskModel>>,
    pub custom: SelectionModel,
    pub active: nat,
    pub history: Seq<HistoryModel>,
    pub last_profile_id: Option<Text>,
    pub scope: ScopeFilter,
    pub category: Option<Text>,
    pub tag: Option<Text>,
    pub dirty: bool,
}

/// A run that is over.
#[verifier::ext_equal]
pub struct CompletedModel {
    pub started_at_unix_secs: u64,
    pub duration_ms: u64,
    pub profile_id: Text,
    pub selected_tasks: Seq<Text>,
    pub result: Result<SummaryModel, Text>,
}

/// What starting a run gives: the plan to run, nothing where it has to be
/// confirmed first, or why there is no plan.
pub type LaunchModel = Result<Option<Seq<TaskModel>>, FailureModel>;

/// A failure with nothing behind it.
pub open spec fn refusal(context: Text) -> FailureModel {
    FailureModel { context, cause: None }
}

/// The ids of the selected items, in order.
pub open spec fn selected_ids(all: Seq<ItemModel>) -> Seq<Text>
    decreases all.len(),
{
    if all.len() == 0 {
        Seq::empty()
    } else {
        let before = selected_ids(all.drop_last());
        if all.last().selected {
            before.push(all.last().id)
        } else {
            before
        }
    }
}

/// The ids of the tasks that are selected by default, in order.
pub open spec fn default_ids(tasks: Seq<TaskModel>) -> Seq<Text>
    decreases tasks.len(),
{
    if tasks.len() == 0 {
        Seq::empty()
    } else {
        let before = default_ids(tasks.drop_last());
        if tasks.last().default_selected {
            before.push(tasks.last().id)
        } else {
            before
        }
    }
}

/// The ids of the tasks that failed, in order.
pub open spec fn failed_ids(outcomes: Seq<OutcomeModel>) -> Seq<Text>
    decreases outcomes.len(),
{
    if outcomes.len() == 0 {
        Seq::empty()
    } else {
        let before = failed_ids(outcomes.drop_last());
        if outcomes.last().status == OutcomeStatus::Fail {
            before.push(outcomes.last().id)
        } else {
            before
        }
    }
}

/// The items with exactly the listed ones selected.
pub open spec fn with_selection(all: Seq<ItemModel>, ids: Seq<Text>) -> Seq<ItemModel> {
    all.map_values(|item: ItemModel| ItemModel { selected: ids.contains(item.id), ..item })
}

/// The items with all of them selected, or none.
pub open spec fn all_selected(all: Seq<ItemModel>, selected: bool) -> Seq<ItemModel> {
    all.map_values(|item: ItemModel| ItemModel { selected, ..item })
}

/// The items before a run.
pub open spec fn all_pending(all: Seq<ItemModel>) -> Seq<ItemModel> {
    all.map_values(|item: ItemModel| ItemModel { state: TaskState::Pending, ..item })
}

/// The items with this state for the one with this id.
pub open spec fn with_state(all: Seq<ItemModel>, id: Text, state: TaskState) -> Seq<ItemModel> {
    all.map_values(
        |item: ItemModel|
            if item.id == id {
                ItemModel { state, ..item }
            } else {
                item
            },
    )
}

/// The items with this report for the one with this id.
pub open spec fn with_report(
    all: Seq<ItemModel>,
    id: Text,
    report: Result<ReportModel, FailureModel>,
) -> Seq<ItemModel> {
    all.map_values(
        |item: ItemModel|
            if item.id == id {
                items::inspected(item, report)
            } else {
                item
            },
    )
}

/// The latest lines, as many as are kept.
pub open spec fn capped(lines: Seq<Text>) -> Seq<Text> {
    if lines.len() > MAX_LOG_LINES {
        lines.skip(lines.len() - MAX_LOG_LINES)
    } else {
        lines
    }
}

/// Some task of the plan is dangerous.
pub open spec fn is_dangerous(plan: Seq<TaskModel>) -> bool {
    exists|i: int| 0 <= i < plan.len() && (#[trigger] plan[i]).dangerous
}

/// The first position from `from` on with a profile of this id.
pub open spec fn find_profile(list: Seq<ProfileModel>, id: Text, from: nat) -> Option<nat>
    decreases list.len() - from,
{
    if from >= list.len() {
        None
    } else if list[from as int].id == id {
        Some(from)
    } else {
        find_profile(list, id, from + 1)
    }
}

/// Flags that are on in either.
pub open spec fn merged_options(a: RunOptions, b: RunOptions) -> RunOptions {
    RunOptions {
        dry_run: a.dry_run || b.dry_run,
        verbose: a.verbose || b.verbose,
        brew_cleanup: a.brew_cleanup || b.brew_cleanup,
        npm_audit: a.npm_audit || b.npm_audit,
    }
}

/// All profiles, the user's own first.
pub open spec fn profile_list(custom: SelectionModel) -> Seq<ProfileModel> {
    seq![profiles::custom_profile(custom.selected_tasks, custom.options)]
        + profiles::standard_profiles()
}

/// The user's own selection: the saved one, or the default where none was saved.
pub open spec fn initial_custom(tasks: Seq<TaskModel>, saved: SelectionModel) -> SelectionModel {
    SelectionModel {
        selected_tasks: if saved.selected_tasks.len() == 0 {
            default_ids(tasks)
        } else {
            saved.selected_tasks
        },
        options: saved.options,
    }
}

/// The position of the profile that was active, or of the user's own where that
/// profile is unknown.
pub open spec fn initial_active(custom: SelectionModel, id: Text) -> nat {
    match find_profile(profile_list(custom), id, 0) {
        Some(i) => i,
        None => 0,
    }
}

/// The cockpit as it opens on a catalog: with the saved profile, the flags of
/// the profile and of the command line, and the saved history.
pub open spec fn opened(
    tasks: Seq<TaskModel>,
    options: RunOptions,
    persisted: PersistedModel,
) -> AppModel {
    let custom = initial_custom(tasks, persisted.custom_profile);
    let active = initial_active(custom, persisted.active_profile_id);
    let profile = profile_list(custom)[active as int];
    let history = persistence::trimmed(persisted.history);
    AppModel {
        catalog: tasks,
        items: with_selection(
            tasks.map_values(|task: TaskModel| items::item_of(task)),
            profile.selected_tasks,
        ),
        cursor: 0,
        screen: Screen::Select,
        options: merged_options(options, profile.options),
        logs: Seq::empty(),
        summary: None,
        status: None,
        pending: None,
        custom,
        active,
        history,
        last_profile_id: if history.len() > 0 {
            Some(history.last().profile_id)
        } else {
            None
        },
        scope: ScopeFilter::All,
        category: None,
        tag: None,
        dirty: false,
    }
}

/// The parts of a state fit together, whatever is selected.
pub open spec fn parts_fit(m: AppModel) -> bool {
    &&& catalog::catalog_wf(m.catalog)
    &&& m.items.len() == m.catalog.len()
    &&& forall|i: int|
        0 <= i < m.items.len() ==> items::shows(#[trigger] m.items[i], m.catalog[i])
    &&& m.cursor < m.items.len() || m.cursor == 0 && m.items.len() == 0
    &&& m.logs.len() <= MAX_LOG_LINES
    &&& m.history.len() <= MAX_HISTORY_ENTRIES
    &&& m.active < profile_list(m.custom).len()
    &&& m.screen == Screen::ConfirmDangerous ==> m.pending is Some
}

/// The selected tasks are those of the active profile.
pub open spec fn selection_fits(m: AppModel) -> bool {
    forall|i: int|
        0 <= i < m.items.len() ==> (#[trigger] m.items[i]).selected
            == m.active_profile().selected_tasks.contains(m.items[i].id)
}

/// The cursor is on a task that passes the filters, wherever there is one.
pub open spec fn cursor_fits(m: AppModel) -> bool {
    forall|i: int|
        0 <= i < m.items.len() && items::passes(#[trigger] m.items[i], m.scope, m.category, m.tag)
            ==> items::passes(m.items[m.cursor as int], m.scope, m.category, m.tag)
}

/// What holds of every state of the cockpit: its parts fit together, the selected
/// tasks are those of the active profile, and the cursor is on a visible task
/// wherever there is one.
pub open spec fn app_wf(m: AppModel) -> bool {
    &&& parts_fit(m)
    &&& selection_fits(m)
    &&& cursor_fits(m)
}

impl AppModel {
    /// All profiles, the user's own first.
    pub open spec fn profiles(self) -> Seq<ProfileModel> {
        profile_list(self.custom)
    }

    /// The active profile.
    pub open spec fn active_profile(self) -> ProfileModel {
        self.profiles()[self.active as int]
    }

    /// The item at position `i` passes the filters.
    pub open spec fn visible(self, i: int) -> bool {
        items::passes(self.items[i], self.scope, self.category, self.tag)
    }

    /// The first visible position from `from` on.
    pub open spec fn seek(self, from: int) -> Option<int>
        decreases self.items.len() - from,
    {
        if from < 0 || from >= self.items.len() {
            None
        } else if self.visible(from) {
            Some(from)
        } else {
            self.seek(from + 1)
        }
    }

    /// The last visible position up to `from`.
    pub open spec fn seek_back(self, from: int) -> Option<int>
        decreases from + 1,
    {
        if from < 0 || from >= self.items.len() {
            None
        } else if self.visible(from) {
            Some(from)
        } else {
            self.seek_back(from - 1)
        }
    }

    /// Puts the cursor on a visible task, if there is one.
    pub open spec fn settled(self) -> AppModel {
        if self.cursor < self.items.len() && self.visible(self.cursor as int) {
            self
        } else {
            match self.seek(0) {
                Some(i) => AppModel { cursor: i as nat, ..self },
                None => self,
            }
        }
    }

    /// The task under the cursor, if it is visible.
    pub open spec fn selected_visible_task(self) -> Option<ItemModel> {
        if self.cursor < self.items.len() && self.visible(self.cursor as int) {
            Some(self.items[self.cursor as int])
        } else {
            None
        }
    }

    /// The cursor on the next visible task, from the last on to the first.
    pub open spec fn move_next(self) -> AppModel {
        match self.seek(self.cursor as int + 1) {
            Some(i) => AppModel { cursor: i as nat, ..self },
            None => match self.seek(0) {
                Some(i) => AppModel { cursor: i as nat, ..self },
                None => self,
            },
        }
    }

    /// The cursor on the previous visible task, from the first on to the last.
    pub open spec fn move_previous(self) -> AppModel {
        match self.seek_back(self.cursor - 1) {
            Some(i) => AppModel { cursor: i as nat, ..self },
            None => match self.seek_back(self.items.len() - 1) {
                Some(i) => AppModel { cursor: i as nat, ..self },
                None => self,
            },
        }
    }

    /// Makes what is selected now the user's own profile, and that the active
    /// one.
    pub open spec fn edited(self) -> AppModel {
        AppModel {
            custom: SelectionModel {
                selected_tasks: selected_ids(self.items),
                options: self.options,
            },
            active: 0,
            dirty: true,
            ..self
        }.settled()
    }

    /// Switches the task under the cursor on or off.
    pub open spec fn toggle_current(self) -> AppModel {
        if self.screen != Screen::Select {
            self
        } else {
            match self.selected_visible_task() {
                Some(item) => AppModel {
                    items: self.items.update(
                        self.cursor as int,
                        ItemModel { selected: !item.selected, ..item },
                    ),
                    ..self
                }.edited(),
                None => self,
            }
        }
    }

    /// Selects all tasks or none.
    pub open spec fn select_every(self, selected: bool) -> AppModel {
        if self.screen != Screen::Select {
            self
        } else {
            AppModel { items: all_selected(self.items, selected), ..self }.edited()
        }
    }

    /// Sets the runtime flags.
    pub open spec fn set_options(self, options: RunOptions) -> AppModel {
        if self.screen != Screen::Select {
            self
        } else {
            AppModel { options, ..self }.edited()
        }
    }

    pub open spec fn toggle_dry_run(self) -> AppModel {
        self.set_options(RunOptions { dry_run: !self.options.dry_run, ..self.options })
    }

    pub open spec fn toggle_verbose(self) -> AppModel {
        self.set_options(RunOptions { verbose: !self.options.verbose, ..self.options })
    }

    pub open spec fn toggle_brew_cleanup(self) -> AppModel {
        self.set_options(RunOptions { brew_cleanup: !self.options.brew_cleanup, ..self.options })
    }

    pub open spec fn toggle_npm_audit(self) -> AppModel {
        self.set_options(RunOptions { npm_audit: !self.options.npm_audit, ..self.options })
    }

    /// Makes the profile at position `i` the active one: its tasks are selected
    /// and its flags set.
    pub open spec fn with_profile(self, i: nat) -> AppModel {
        let profile = self.profiles()[i as int];
        AppModel {
            active: i,
            items: with_selection(self.items, profile.selected_tasks),
            options: profile.options,
            dirty: true,
            ..self
        }.settled()
    }

    pub open spec fn cycle_profile_next(self) -> AppModel {
        if self.screen != Screen::Select {
            self
        } else if self.active + 1 < self.profiles().len() {
            self.with_profile(self.active + 1)
        } else {
            self.with_profile(0)
        }
    }

    pub open spec fn cycle_profile_previous(self) -> AppModel {
        if self.screen != Screen::Select {
            self
        } else if self.active > 0 {
            self.with_profile((self.active - 1) as nat)
        } else {
            self.with_profile((self.profiles().len() - 1) as nat)
        }
    }

    pub open spec fn cycle_scope_filter(self) -> AppModel {
        AppModel { scope: items::scope_after(self.scope), ..self }.settled()
    }

    /// Limits the list to the category of the task under the cursor, or lifts
    /// that limit.
    pub open spec fn toggle_selected_category_filter(self) -> AppModel {
        AppModel {
            category: match self.category {
                Some(_) => None,
                None => match self.selected_visible_task() {
                    Some(item) => Some(item.category),
                    None => None,
                },
            },
            ..self
        }.settled()
    }

    /// Limits the list to the first tag of the task under the cursor, or lifts
    /// that limit.
    pub open spec fn toggle_selected_tag_filter(self) -> (AppModel, Result<(), FailureModel>) {
        match self.tag {
            Some(_) => (AppModel { tag: None, ..self }.settled(), Ok(())),
            None => match self.selected_visible_task() {
                Some(item) if item.tags.len() > 0 => (
                    AppModel { tag: Some(item.tags[0]), ..self }.settled(),
                    Ok(()),
                ),
                _ => (self, Err(refusal("selected task has no tags"@))),
            },
        }
    }

    pub open spec fn clear_filters(self) -> AppModel {
        AppModel { scope: ScopeFilter::All, category: None, tag: None, ..self }.settled()
    }

    /// The filters in words.
    pub open spec fn filter_summary(self) -> Text {
        items::scope_label(self.scope) + (match self.category {
            Some(category) => ", category "@ + category,
            None => Seq::empty(),
        }) + (match self.tag {
            Some(tag) => ", tag "@ + tag,
            None => Seq::empty(),
        })
    }

    /// Turns to running.
    pub open spec fn begin_run(self) -> AppModel {
        AppModel {
            logs: Seq::empty(),
            summary: None,
            pending: None,
            screen: Screen::Running,
            status: Some("Running selected tasks..."@),
            items: all_pending(self.items),
            ..self
        }
    }

    /// Starts a plan, or asks for confirmation where it holds dangerous tasks.
    pub open spec fn launch(self, ids: Seq<Text>) -> (AppModel, LaunchModel) {
        match planning::plan_outcome(self.catalog, false, ids) {
            Err(error) => (self, Err(refusal(error.message()))),
            Ok(plan) => if is_dangerous(plan) {
                (
                    AppModel {
                        pending: Some(plan),
                        screen: Screen::ConfirmDangerous,
                        status: Some(
                            "Dangerous tasks selected. Press y to continue or n to cancel."@,
                        ),
                        ..self
                    },
                    Ok(None),
                )
            } else {
                (self.begin_run(), Ok(Some(plan)))
            },
        }
    }

    /// Starts the selected tasks.
    pub open spec fn prepare_run(self) -> (AppModel, LaunchModel) {
        let quiet = AppModel { status: None, ..self };
        let ids = selected_ids(self.items);
        if ids.len() == 0 {
            (quiet, Err(refusal("select at least one task"@)))
        } else {
            quiet.launch(ids)
        }
    }

    /// Starts the tasks that failed in the latest run.
    pub open spec fn rerun_failed(self) -> (AppModel, LaunchModel) {
        let quiet = AppModel { status: None, ..self };
        let ids = match self.summary {
            Some(summary) => failed_ids(summary.outcomes),
            None => Seq::empty(),
        };
        if ids.len() == 0 {
            (quiet, Err(refusal("no failed tasks to rerun"@)))
        } else {
            quiet.launch(ids)
        }
    }

    /// Starts the tasks of the profile that was run last.
    pub open spec fn rerun_last_profile(self) -> (AppModel, LaunchModel) {
        let quiet = AppModel { status: None, ..self };
        match self.last_profile_id {
            None => (quiet, Err(refusal("no profile has been run yet"@))),
            Some(id) => match find_profile(self.profiles(), id, 0) {
                None => (quiet, Err(refusal("unknown profile "@ + id))),
                Some(i) => quiet.with_profile(i).prepare_run(),
            },
        }
    }

    /// Starts the plan that awaits confirmation.
    pub open spec fn confirm_run(self) -> (AppModel, Option<Seq<TaskModel>>) {
        if self.screen != Screen::ConfirmDangerous {
            (self, None)
        } else {
            match self.pending {
                Some(plan) => (self.begin_run(), Some(plan)),
                None => (self, None),
            }
        }
    }

    /// Drops the plan that awaits confirmation.
    pub open spec fn cancel_confirmation(self) -> AppModel {
        if self.screen != Screen::ConfirmDangerous {
            self
        } else {
            AppModel {
                pending: None,
                screen: Screen::Select,
                status: Some("Run cancelled."@),
                ..self
            }
        }
    }

    /// Goes back from a summary to the selection.
    pub open spec fn reset_after_summary(self) -> AppModel {
        AppModel {
            screen: Screen::Select,
            summary: None,
            status: None,
            logs: Seq::empty(),
            items: all_pending(self.items),
            ..self
        }
    }

    /// Adds a line of activity and forgets the oldest beyond
    /// [`MAX_LOG_LINES`].
    pub open spec fn log(self, line: Text) -> AppModel {
        AppModel { logs: capped(self.logs.push(line)), ..self }
    }

    /// Takes note of an event of the current run.
    pub open spec fn handle_runner_event(self, event: EventModel) -> AppModel {
        match event {
            EventModel::TaskStarted { task_id, label } => AppModel {
                items: with_state(self.items, task_id, TaskState::Running),
                ..self
            }.log("==> "@ + label),
            EventModel::OutputLine { task_id, stream, line } => self.log(
                "["@ + task_id + ":"@ + (match stream {
                    StreamKind::Stdout => "out"@,
                    StreamKind::Stderr => "err"@,
                }) + "] "@ + line,
            ),
            EventModel::TaskFinished { task_id, label, status } => AppModel {
                items: with_state(self.items, task_id, items::state_after(status)),
                ..self
            }.log(label + " finished: "@ + runner::status_label(status)),
        }
    }

    /// Shows how the current run ended.
    pub open spec fn finish_run(self, result: Result<SummaryModel, FailureModel>) -> AppModel {
        match result {
            Ok(summary) => AppModel {
                screen: Screen::Summary,
                status: Some("Run complete."@),
                summary: Some(summary),
                ..self
            },
            Err(failure) => AppModel {
                screen: Screen::Summary,
                status: Some("Run failed: "@ + failure.full_message()),
                summary: None,
                ..self
            }.log("fatal: "@ + failure.full_message()),
        }
    }

    /// Remembers a run that is over and shows how it ended. Only a run with a
    /// summary enters the history.
    pub open spec fn record_run(self, run: CompletedModel) -> AppModel {
        let remembered = AppModel { last_profile_id: Some(run.profile_id), ..self };
        match run.result {
            Ok(summary) => AppModel {
                history: persistence::trimmed(
                    self.history.push(
                        persistence::history_of(
                            run.started_at_unix_secs,
                            run.duration_ms,
                            run.profile_id,
                            run.selected_tasks,
                            summary,
                        ),
                    ),
                ),
                dirty: true,
                ..remembered
            }.finish_run(Ok(summary)),
            Err(reason) => remembered.finish_run(Err(refusal(reason))),
        }
    }

    /// Takes note of what the preflight check of a task found.
    pub open spec fn apply_preflight(
        self,
        task_id: Text,
        report: Result<ReportModel, FailureModel>,
    ) -> AppModel {
        AppModel { items: with_report(self.items, task_id, report), ..self }.settled()
    }

    /// What there is to save.
    pub open spec fn snapshot(self) -> PersistedModel {
        PersistedModel {
            version: 1,
            active_profile_id: self.active_profile().id,
            custom_profile: self.custom,
            history: self.history,
        }
    }

    /// The outcome of saving the snapshot.
    pub open spec fn saved(self, result: Result<(), Text>) -> AppModel {
        match result {
            Ok(()) => AppModel { dirty: false, ..self },
            Err(reason) => AppModel { status: Some("State save failed: "@ + reason), ..self },
        }
    }
}

/// The dangerous tasks of a plan, each with its label and its warning.
pub open spec fn danger_messages(plan: Seq<TaskModel>) -> Seq<(Text, Text)>
    decreases plan.len(),
{
    if plan.len() == 0 {
        Seq::empty()
    } else {
        let before = danger_messages(plan.drop_last());
        let task = plan.last();
        if task.dangerous {
            before.push(
                (
                    task.label,
                    match task.danger_message {
                        Some(message) => message,
                        None => "Marked as dangerous."@,
                    },
                ),
            )
        } else {
            before
        }
    }
}

/// A row of the task list: the name of a category, or the task at a position.
#[verifier::ext_equal]
pub enum EntryModel {
    Header(Text),
    Task(nat),
}

impl AppModel {
    /// The categories of the visible tasks below position `count`, in order of
    /// first appearance.
    pub open spec fn categories(self, count: nat) -> Seq<Text>
        decreases count,
    {
        if count == 0 {
            Seq::empty()
        } else {
            let before = self.categories((count - 1) as nat);
            let category = self.items[count - 1].category;
            if self.visible(count - 1) && !before.contains(category) {
                before.push(category)
            } else {
                before
            }
        }
    }

    /// The visible tasks of a category below position `count`.
    pub open spec fn rows_in(self, category: Text, count: nat) -> Seq<EntryModel>
        decreases count,
    {
        if count == 0 {
            Seq::empty()
        } else {
            let before = self.rows_in(category, (count - 1) as nat);
            if self.visible(count - 1) && self.items[count - 1].category == category {
                before.push(EntryModel::Task((count - 1) as nat))
            } else {
                before
            }
        }
    }

    /// The rows for these categories.
    pub open spec fn rows(self, categories: Seq<Text>) -> Seq<EntryModel>
        decreases categories.len(),
    {
        if categories.len() == 0 {
            Seq::empty()
        } else {
            self.rows(categories.drop_last()).push(EntryModel::Header(categories.last()))
                + self.rows_in(categories.last(), self.items.len())
        }
    }

    /// The rows of the task list: the visible tasks under their categories.
    pub open spec fn entries(self) -> Seq<EntryModel> {
        self.rows(self.categories(self.items.len()))
    }

    /// The first row from `from` on that shows the task under the cursor.
    pub open spec fn cursor_row(self, from: nat) -> Option<nat>
        decreases self.entries().len() - from,
    {
        if from >= self.entries().len() {
            None
        } else if self.entries()[from as int] == EntryModel::Task(self.cursor) {
            Some(from)
        } else {
            self.cursor_row(from + 1)
        }
    }
}

pub proof fn lemma_seek(m: AppModel, from: int)
    requires
        0 <= from,
    ensures
        match m.seek(from) {
            Some(i) => from <= i < m.items.len() && m.visible(i) && forall|j: int|
                from <= j < i ==> !#[trigger] m.visible(j),
            None => forall|j: int| from <= j < m.items.len() ==> !#[trigger] m.visible(j),
        },
    decreases m.items.len() - from,
{
    if from < m.items.len() && !m.visible(from) {
        lemma_seek(m, from + 1);
    }
}

pub proof fn lemma_seek_back(m: AppModel, from: int)
    requires
        from < m.items.len(),
    ensures
        match m.seek_back(from) {
            Some(i) => 0 <= i <= from && m.visible(i) && forall|j: int|
                i < j <= from ==> !#[trigger] m.visible(j),
            None => forall|j: int| 0 <= j <= from ==> !#[trigger] m.visible(j),
        },
    decreases from + 1,
{
    if from >= 0 && !m.visible(from) {
        lemma_seek_back(m, from - 1);
    }
}

pub proof fn lemma_settled_fits(m: AppModel)
    requires
        parts_fit(m),
    ensures
        parts_fit(m.settled()),
        cursor_fits(m.settled()),
        selection_fits(m) ==> app_wf(m.settled()),
{
    lemma_seek(m, 0);
    let settled = m.settled();
    assert forall|i: int|
        0 <= i < settled.items.len() && items::passes(
            #[trigger] settled.items[i],
            settled.scope,
            settled.category,
            settled.tag,
        ) implies items::passes(
        settled.items[settled.cursor as int],
        settled.scope,
        settled.category,
        settled.tag,
    ) by {
        assert(m.visible(i));
    }
}

pub proof fn lemma_moves_fit(m: AppModel)
    requires
        app_wf(m),
    ensures
        app_wf(m.move_next()),
        app_wf(m.move_previous()),
{
    lemma_seek(m, 0);
    lemma_seek(m, m.cursor as int + 1);
    lemma_seek_back(m, m.cursor - 1);
    lemma_seek_back(m, m.items.len() - 1);
}

pub proof fn lemma_selected_ids(all: Seq<ItemModel>, id: Text)
    ensures
        selected_ids(all).contains(id) <==> exists|i: int|
            0 <= i < all.len() && (#[trigger] all[i]).selected && all[i].id == id,
    decreases all.len(),
{
    if all.len() > 0 {
        let init = all.drop_last();
        let before = selected_ids(init);
        let now = selected_ids(all);
        lemma_selected_ids(init, id);
        if now.contains(id) {
            let k = choose|k: int| 0 <= k < now.len() && now[k] == id;
            if k < before.len() {
                assert(before[k] == id);
                let i = choose|i: int|
                    0 <= i < init.len() && (#[trigger] init[i]).selected && init[i].id == id;
                assert(all[i] == init[i]);
            } else {
                assert(all[all.len() - 1].selected && all[all.len() - 1].id == id);
            }
        }
        if exists|i: int| 0 <= i < all.len() && (#[trigger] all[i]).selected && all[i].id == id {
            let i = choose|i: int|
                0 <= i < all.len() && (#[trigger] all[i]).selected && all[i].id == id;
            if i < all.len() - 1 {
                assert(init[i] == all[i]);
                let k = choose|k: int| 0 <= k < before.len() && before[k] == id;
                assert(now[k] == id);
            } else {
                assert(now.last() == id);
            }
        }
    }
}

pub proof fn lemma_item_ids_distinct(m: AppModel, i: int, j: int)
    requires
        parts_fit(m),
        0 <= i < m.items.len(),
        0 <= j < m.items.len(),
        m.items[i].id == m.items[j].id,
    ensures
        i == j,
{
    assert(items::shows(m.items[i], m.catalog[i]));
    assert(items::shows(m.items[j], m.catalog[j]));
    catalog::lemma_ids_distinct(m.catalog, i, j);
}

/// Editing makes the selection that of the active profile.
pub proof fn lemma_edited_fits(m: AppModel)
    requires
        parts_fit(m),
    ensures
        app_wf(m.edited()),
{
    let ids = selected_ids(m.items);
    let changed = AppModel {
        custom: SelectionModel { selected_tasks: ids, options: m.options },
        active: 0,
        dirty: true,
        ..m
    };
    assert forall|i: int| 0 <= i < changed.items.len() implies (#[trigger] changed.items[i]).selected
        == changed.active_profile().selected_tasks.contains(changed.items[i].id) by {
        lemma_selected_ids(m.items, m.items[i].id);
        if ids.contains(m.items[i].id) {
            let j = choose|j: int|
                0 <= j < m.items.len() && (#[trigger] m.items[j]).selected && m.items[j].id
                    == m.items[i].id;
            lemma_item_ids_distinct(m, i, j);
        }
    }
    lemma_settled_fits(changed);
}

pub proof fn lemma_with_profile_fits(m: AppModel, i: nat)
    requires
        parts_fit(m),
        i < m.profiles().len(),
    ensures
        app_wf(m.with_profile(i)),
{
    let profile = m.profiles()[i as int];
    let changed = AppModel {
        active: i,
        items: with_selection(m.items, profile.selected_tasks),
        options: profile.options,
        dirty: true,
        ..m
    };
    assert forall|k: int| 0 <= k < changed.items.len() implies items::shows(
        #[trigger] changed.items[k],
        changed.catalog[k],
    ) by {
        assert(items::shows(m.items[k], m.catalog[k]));
    }
    lemma_settled_fits(changed);
}

pub proof fn lemma_find_profile(list: Seq<ProfileModel>, id: Text, from: nat)
    ensures
        find_profile(list, id, from) matches Some(i) ==> from <= i < list.len() && list[i as int].id
            == id,
    decreases list.len() - from,
{
    if from < list.len() && list[from as int].id != id {
        lemma_find_profile(list, id, from + 1);
    }
}

pub proof fn lemma_opened_fits(
    tasks: Seq<TaskModel>,
    options: RunOptions,
    persisted: PersistedModel,
)
    requires
        catalog::catalog_wf(tasks),
    ensures
        app_wf(opened(tasks, options, persisted)),
{
    let custom = initial_custom(tasks, persisted.custom_profile);
    lemma_find_profile(profile_list(custom), persisted.active_profile_id, 0);
    persistence::trimming_keeps_the_latest_runs(persisted.history);
}

/// Items that only changed in their state or report still fit, and so does the
/// cursor where no task became available or ceased to be.
pub proof fn lemma_items_fit(m: AppModel, all: Seq<ItemModel>)
    requires
        app_wf(m),
        all.len() == m.items.len(),
        forall|i: int|
            0 <= i < all.len() ==> (#[trigger] all[i]) == (ItemModel {
                state: all[i].state,
                availability: all[i].availability,
                preflight_messages: all[i].preflight_messages,
                ..m.items[i]
            }),
    ensures
        parts_fit(AppModel { items: all, ..m }),
        selection_fits(AppModel { items: all, ..m }),
        (forall|i: int|
            0 <= i < all.len() ==> (#[trigger] all[i]).availability == m.items[i].availability)
            ==> app_wf(AppModel { items: all, ..m }),
{
    let changed = AppModel { items: all, ..m };
    assert forall|i: int| 0 <= i < all.len() implies items::shows(
        #[trigger] changed.items[i],
        changed.catalog[i],
    ) && changed.items[i].selected == changed.active_profile().selected_tasks.contains(
        changed.items[i].id,
    ) by {
        assert(items::shows(m.items[i], m.catalog[i]));
        assert(all[i].selected == m.items[i].selected);
    }
    if forall|i: int|
        0 <= i < all.len() ==> (#[trigger] all[i]).availability == m.items[i].availability {
        assert forall|i: int|
            0 <= i < all.len() && items::passes(#[trigger] all[i], m.scope, m.category, m.tag) implies
            items::passes(all[m.cursor as int], m.scope, m.category, m.tag) by {
            assert(items::passes(m.items[i], m.scope, m.category, m.tag));
            assert(all[m.cursor as int].availability == m.items[m.cursor as int].availability);
        }
    }
}

pub proof fn lemma_begin_run_fits(m: AppModel)
    requires
        app_wf(m),
    ensures
        app_wf(m.begin_run()),
{
    lemma_items_fit(m, all_pending(m.items));
}

pub proof fn lemma_launch_fits(m: AppModel, ids: Seq<Text>)
    requires
        app_wf(m),
    ensures
        app_wf(m.launch(ids).0),
{
    lemma_begin_run_fits(m);
}

} // verus!
