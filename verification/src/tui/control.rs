//! What keys do, and how the cockpit opens, runs plans and saves itself.

use crate::catalog::{Catalog, ExecutionPlan, TaskModel};
use crate::failure::{Failure, FailureModel};
use crate::paths;
use crate::paths::{join_path, PathStyle};
use crate::persistence;
use crate::persistence::{PersistedModel, PersistedState, PersistenceStore};
use crate::runner::{RunOptions, RunSummary, SummaryModel};
use crate::text::{concat2, Text};
use crate::tui::items::{Screen, TaskState};
use crate::tui::model;
use crate::tui::model::{AppModel, CompletedModel, LaunchModel};
use crate::tui::state;
use crate::tui::state::{AppState, CompletedRun};
use vstd::prelude::*;

verus! {

/// A key on the keyboard.
#[derive(Debug, Clone, Copy, PartialEq, Eq, Structural)]
pub enum Key {
    Char(char),
    Up,
    Down,
    Enter,
    Esc,
    Tab,
    BackTab,
    Other,
}

/// What is left to do after a key.
#[derive(Debug, PartialEq, Eq)]
pub enum KeyAction {
    Continue,
    Quit,
    /// Run this plan and record how it went.
    Run(ExecutionPlan),
}

/// The content of a [`KeyAction`].
#[verifier::ext_equal]
pub enum KeyActionModel {
    Continue,
    Quit,
    Run(Seq<TaskModel>),
}

impl View for KeyAction {
    type V = KeyActionModel;

    open spec fn view(&self) -> KeyActionModel {
        match self {
            KeyAction::Continue => KeyActionModel::Continue,
            KeyAction::Quit => KeyActionModel::Quit,
            KeyAction::Run(plan) => KeyActionModel::Run(plan@),
        }
    }
}

/// A state with a message.
pub open spec fn with_message(m: AppModel, message: Text) -> AppModel {
    AppModel { status: Some(message), ..m }
}

/// What is left to do after starting a run: a plan is run, and a refusal is
/// shown.
pub open spec fn started(launched: (AppModel, LaunchModel)) -> (AppModel, KeyActionModel) {
    match launched.1 {
        Ok(Some(plan)) => (launched.0, KeyActionModel::Run(plan)),
        Ok(None) => (launched.0, KeyActionModel::Continue),
        Err(failure) => (with_message(launched.0, failure.context), KeyActionModel::Continue),
    }
}

/// What a key does on the selection screen.
pub open spec fn select_key(m: AppModel, key: Key, shift: bool) -> (AppModel, KeyActionModel) {
    let on = KeyActionModel::Continue;
    if key == Key::Char('q') {
        (m, KeyActionModel::Quit)
    } else if key == Key::Down || key == Key::Char('j') {
        (m.move_next(), on)
    } else if key == Key::Up || key == Key::Char('k') {
        (m.move_previous(), on)
    } else if key == Key::Char(' ') {
        (m.toggle_current(), on)
    } else if key == Key::Char('a') {
        (m.select_every(true), on)
    } else if key == Key::Char('x') {
        (m.select_every(false), on)
    } else if key == Key::Char('d') {
        (m.toggle_dry_run(), on)
    } else if key == Key::Char('v') {
        (m.toggle_verbose(), on)
    } else if key == Key::Char('c') {
        (m.toggle_brew_cleanup(), on)
    } else if key == Key::Char('u') {
        (m.toggle_npm_audit(), on)
    } else if key == Key::Char('p') || key == Key::Tab {
        (m.cycle_profile_next(), on)
    } else if key == Key::BackTab || key == Key::Char('P') && shift {
        (m.cycle_profile_previous(), on)
    } else if key == Key::Char('f') {
        (m.cycle_scope_filter(), on)
    } else if key == Key::Char('g') {
        (m.toggle_selected_category_filter(), on)
    } else if key == Key::Char('t') {
        let (after, result) = m.toggle_selected_tag_filter();
        match result {
            Ok(()) => (after, on),
            Err(failure) => (with_message(after, failure.context), on),
        }
    } else if key == Key::Char('z') {
        (m.clear_filters(), on)
    } else if key == Key::Enter {
        started(m.prepare_run())
    } else {
        (m, on)
    }
}

/// What a key does while a run awaits confirmation.
pub open spec fn confirm_key(m: AppModel, key: Key) -> (AppModel, KeyActionModel) {
    if key == Key::Char('y') {
        let (after, plan) = m.confirm_run();
        match plan {
            Some(plan) => (after, KeyActionModel::Run(plan)),
            None => (after, KeyActionModel::Continue),
        }
    } else if key == Key::Char('n') || key == Key::Esc {
        (m.cancel_confirmation(), KeyActionModel::Continue)
    } else {
        (m, KeyActionModel::Continue)
    }
}

/// What a key does during a run.
pub open spec fn running_key(m: AppModel, key: Key) -> (AppModel, KeyActionModel) {
    if key == Key::Char('q') || key == Key::Esc {
        (with_message(m, "Wait for the current run to finish."@), KeyActionModel::Continue)
    } else {
        (m, KeyActionModel::Continue)
    }
}

/// What a key does on the summary screen.
pub open spec fn summary_key(m: AppModel, key: Key) -> (AppModel, KeyActionModel) {
    if key == Key::Char('q') {
        (m, KeyActionModel::Quit)
    } else if key == Key::Enter {
        (m.reset_after_summary(), KeyActionModel::Continue)
    } else if key == Key::Char('r') {
        started(m.rerun_failed())
    } else if key == Key::Char('l') {
        started(m.rerun_last_profile())
    } else {
        (m, KeyActionModel::Continue)
    }
}

/// What a key does.
pub open spec fn key_outcome(m: AppModel, key: Key, shift: bool) -> (AppModel, KeyActionModel) {
    match m.screen {
        Screen::Select => select_key(m, key, shift),
        Screen::ConfirmDangerous => confirm_key(m, key),
        Screen::Running => running_key(m, key),
        Screen::Summary => summary_key(m, key),
    }
}

fn finish_launch(
    state: &mut AppState,
    launched: Result<Option<ExecutionPlan>, Failure>,
) -> (res: KeyAction)
    requires
        model::app_wf(old(state)@),
    ensures
        (final(state)@, res@) == started((old(state)@, state::launch_result(launched))),
        model::app_wf(final(state)@),
{
    match launched {
        Ok(Some(plan)) => KeyAction::Run(plan),
        Ok(None) => KeyAction::Continue,
        Err(failure) => {
            state.set_status_message(failure.message());
            KeyAction::Continue
        },
    }
}

fn handle_select_key(state: &mut AppState, key: Key, shift: bool) -> (res: KeyAction)
    requires
        model::app_wf(old(state)@),
    ensures
        (final(state)@, res@) == select_key(old(state)@, key, shift),
        model::app_wf(final(state)@),
{
    if key == Key::Char('q') {
        return KeyAction::Quit;
    }
    if key == Key::Down || key == Key::Char('j') {
        state.move_next();
    } else if key == Key::Up || key == Key::Char('k') {
        state.move_previous();
    } else if key == Key::Char(' ') {
        state.toggle_current();
    } else if key == Key::Char('a') {
        state.select_all();
    } else if key == Key::Char('x') {
        state.clear_selection();
    } else if key == Key::Char('d') {
        state.toggle_dry_run();
    } else if key == Key::Char('v') {
        state.toggle_verbose();
    } else if key == Key::Char('c') {
        state.toggle_brew_cleanup();
    } else if key == Key::Char('u') {
        state.toggle_npm_audit();
    } else if key == Key::Char('p') || key == Key::Tab {
        state.cycle_profile_next();
    } else if key == Key::BackTab || (key == Key::Char('P') && shift) {
        state.cycle_profile_previous();
    } else if key == Key::Char('f') {
        state.cycle_scope_filter();
    } else if key == Key::Char('g') {
        state.toggle_selected_category_filter();
    } else if key == Key::Char('t') {
        match state.toggle_selected_tag_filter() {
            Ok(()) => {},
            Err(failure) => {
                state.set_status_message(failure.message());
            },
        }
    } else if key == Key::Char('z') {
        state.clear_filters();
    } else if key == Key::Enter {
        let launched = state.prepare_run();
        return finish_launch(state, launched);
    }
    KeyAction::Continue
}

/// Does what a key asks for, and says what is left to do. `shift` tells whether
/// the shift key is held.
pub fn handle_key(state: &mut AppState, key: Key, shift: bool) -> (res: KeyAction)
    requires
        model::app_wf(old(state)@),
    ensures
        (final(state)@, res@) == key_outcome(old(state)@, key, shift),
        model::app_wf(final(state)@),
{
    match state.screen() {
        Screen::Select => handle_select_key(state, key, shift),
        Screen::ConfirmDangerous => {
            if key == Key::Char('y') {
                match state.confirm_run() {
                    Some(plan) => KeyAction::Run(plan),
                    None => KeyAction::Continue,
                }
            } else if key == Key::Char('n') || key == Key::Esc {
                state.cancel_confirmation();
                KeyAction::Continue
            } else {
                KeyAction::Continue
            }
        },
        Screen::Running => {
            if key == Key::Char('q') || key == Key::Esc {
                state.set_status_message("Wait for the current run to finish.".to_owned());
            }
            KeyAction::Continue
        },
        Screen::Summary => {
            if key == Key::Char('q') {
                KeyAction::Quit
            } else if key == Key::Enter {
                state.reset_after_summary();
                KeyAction::Continue
            } else if key == Key::Char('r') {
                let launched = state.rerun_failed();
                finish_launch(state, launched)
            } else if key == Key::Char('l') {
                let launched = state.rerun_last_profile();
                finish_launch(state, launched)
            } else {
                KeyAction::Continue
            }
        },
    }
}

/// Whatever key is pressed, a plan with dangerous tasks is run only where it
/// awaited confirmation and the confirmation key was pressed.
pub proof fn no_key_but_the_confirmation_runs_dangerous_tasks(m: AppModel, key: Key, shift: bool)
    ensures
        key_outcome(m, key, shift).1 matches KeyActionModel::Run(plan) ==> {
            ||| !model::is_dangerous(plan)
            ||| m.screen == Screen::ConfirmDangerous && key == Key::Char('y') && m.pending == Some(
                plan,
            )
        },
{
}

/// The cockpit is left only from the selection and the summary screen, never
/// during a run or while one awaits confirmation.
pub proof fn the_cockpit_is_not_left_during_a_run(m: AppModel, key: Key, shift: bool)
    ensures
        key_outcome(m, key, shift).1 is Quit ==> key == Key::Char('q') && (m.screen
            == Screen::Select || m.screen == Screen::Summary) && key_outcome(m, key, shift).0 == m,
{
}

/// The state of a run that has just begun: nothing is shown of an earlier one,
/// and every task is pending.
pub open spec fn just_begun(m: AppModel) -> bool {
    &&& m.screen == Screen::Running
    &&& m.pending is None
    &&& m.summary is None
    &&& m.logs.len() == 0
    &&& forall|i: int|
        0 <= i < m.items.len() ==> (#[trigger] m.items[i]).state == TaskState::Pending
}

proof fn lemma_launch_begins(m: AppModel, ids: Seq<Text>)
    ensures
        m.launch(ids).1 matches Ok(Some(plan)) ==> just_begun(m.launch(ids).0),
{
}

proof fn lemma_preparing_begins(m: AppModel)
    ensures
        m.prepare_run().1 matches Ok(Some(plan)) ==> just_begun(m.prepare_run().0),
{
    lemma_launch_begins(AppModel { status: None, ..m }, model::selected_ids(m.items));
}

/// A key that starts a run leads to the running screen with every task pending.
pub proof fn runs_begin_on_the_running_screen(m: AppModel, key: Key, shift: bool)
    ensures
        key_outcome(m, key, shift).1 is Run ==> just_begun(key_outcome(m, key, shift).0),
{
    let quiet = AppModel { status: None, ..m };
    match m.screen {
        Screen::Select => {
            lemma_preparing_begins(m);
        },
        Screen::ConfirmDangerous => {},
        Screen::Running => {},
        Screen::Summary => {
            match m.summary {
                Some(summary) => {
                    lemma_launch_begins(quiet, model::failed_ids(summary.outcomes));
                },
                None => {},
            }
            match m.last_profile_id {
                Some(id) => match model::find_profile(m.profiles(), id, 0) {
                    Some(i) => {
                        lemma_preparing_begins(quiet.with_profile(i));
                    },
                    None => {},
                },
                None => {},
            }
        },
    }
}

/// What a run was started with.
#[derive(Debug, PartialEq, Eq)]
pub struct RunTicket {
    pub selected_tasks: Vec<String>,
    pub profile_id: String,
    pub options: RunOptions,
}

/// The content of a [`RunTicket`].
#[verifier::ext_equal]
pub struct TicketModel {
    pub selected_tasks: Seq<Text>,
    pub profile_id: Text,
    pub options: RunOptions,
}

impl View for RunTicket {
    type V = TicketModel;

    open spec fn view(&self) -> TicketModel {
        TicketModel {
            selected_tasks: self.selected_tasks.deep_view(),
            profile_id: self.profile_id@,
            options: self.options,
        }
    }
}

/// What a run of `plan` is started with: its tasks in order, and the profile and
/// the flags of the moment.
pub open spec fn ticket_of(m: AppModel, plan: Seq<TaskModel>) -> TicketModel {
    TicketModel {
        selected_tasks: plan.map_values(|task: TaskModel| task.id),
        profile_id: m.active_profile().id,
        options: m.options,
    }
}

/// What a run of `plan` is started with.
pub fn ticket_for(state: &AppState, plan: &ExecutionPlan) -> (res: RunTicket)
    requires
        model::app_wf(state@),
    ensures
        res@ == ticket_of(state@, plan@),
{
    let ghost wanted = plan@.map_values(|task: TaskModel| task.id);
    let mut selected_tasks: Vec<String> = Vec::new();
    let mut i: usize = 0;
    while i < plan.tasks.len()
        invariant
            i <= plan.tasks.len(),
            wanted == plan@.map_values(|task: TaskModel| task.id),
            selected_tasks.deep_view() =~= wanted.take(i as int),
        decreases plan.tasks.len() - i,
    {
        let ghost before = selected_tasks.deep_view();
        selected_tasks.push(plan.tasks[i].id.clone());
        assert(selected_tasks.deep_view() =~= before.push(wanted[i as int]));
        i += 1;
    }
    assert(wanted.take(wanted.len() as int) =~= wanted);
    RunTicket { selected_tasks, profile_id: state.active_profile_id(), options: state.options() }
}

/// A run's result, as content.
pub open spec fn run_view(result: Result<RunSummary, Failure>) -> Result<SummaryModel, Text> {
    match result {
        Ok(summary) => Ok(summary@),
        Err(failure) => Err(failure@.context),
    }
}

impl RunTicket {
    /// The run that was started with this, now that it is over.
    pub fn complete(
        self,
        started_at_unix_secs: u64,
        duration_ms: u64,
        result: Result<RunSummary, Failure>,
    ) -> (res: CompletedRun)
        ensures
            res@ == (CompletedModel {
                started_at_unix_secs,
                duration_ms,
                profile_id: self@.profile_id,
                selected_tasks: self@.selected_tasks,
                result: run_view(result),
            }),
    {
        CompletedRun {
            started_at_unix_secs,
            duration_ms,
            profile_id: self.profile_id,
            selected_tasks: self.selected_tasks,
            result: match result {
                Ok(summary) => Ok(summary),
                Err(failure) => Err(failure.message()),
            },
        }
    }
}

/// The lines that are shown when the terminal is handed to a run.
pub open spec fn handover_text() -> Seq<Text> {
    seq![
        "upgrade-cockpit released the terminal for task output."@,
        "The summary screen will return when the run finishes."@,
        ""@,
    ]
}

/// The lines that are shown when the terminal is handed to a run.
pub fn handover_lines() -> (res: Vec<String>)
    ensures
        res.deep_view() == handover_text(),
{
    let mut res: Vec<String> = Vec::new();
    res.push("upgrade-cockpit released the terminal for task output.".to_owned());
    res.push("The summary screen will return when the run finishes.".to_owned());
    res.push("".to_owned());
    assert(res.deep_view() =~= handover_text());
    res
}

/// The cockpit as it opens: with what was saved, or anew with a message where
/// that could not be loaded.
pub open spec fn opened_with(
    tasks: Seq<TaskModel>,
    options: RunOptions,
    stored: Result<PersistedModel, FailureModel>,
) -> AppModel {
    match stored {
        Ok(persisted) => model::opened(tasks, options, persisted),
        Err(failure) => with_message(
            model::opened(tasks, options, persistence::initial_state()),
            "State load failed: "@ + failure.context,
        ),
    }
}

/// The cockpit as it opens.
pub fn open_cockpit(
    catalog: Catalog,
    options: RunOptions,
    stored: Result<PersistedState, Failure>,
) -> (res: AppState)
    ensures
        res@ == opened_with(catalog@, options, persistence::load_result(stored)),
        model::app_wf(res@),
{
    match stored {
        Ok(persisted) => AppState::restore(catalog, options, persisted),
        Err(failure) => {
            let mut state = AppState::new(catalog, options);
            let message = failure.message();
            state.set_status_message(concat2("State load failed: ", message.as_str()));
            state
        },
    }
}

/// What there is to save: nothing unless something has changed.
pub fn unsaved(state: &AppState) -> (res: Option<PersistedState>)
    requires
        model::app_wf(state@),
    ensures
        match res {
            Some(snapshot) => state@.dirty && snapshot@ == state@.snapshot(),
            None => !state@.dirty,
        },
{
    if state.is_dirty() {
        Some(state.snapshot())
    } else {
        None
    }
}

/// Where the store below a root directory is.
pub open spec fn store_path(style: PathStyle, root: Text) -> Text {
    paths::joined_path(
        style,
        paths::joined_path(style, root, ".upgrade-cockpit"@),
        "state.toml"@,
    )
}

/// The store below a root directory.
pub fn store_for_root(style: PathStyle, root: &str) -> (res: PersistenceStore)
    ensures
        res@ == store_path(style, root@),
{
    let dir = join_path(style, root, ".upgrade-cockpit");
    PersistenceStore::new(join_path(style, dir.as_str(), "state.toml"))
}

/// The store below a root directory is in the directory for it there. Under
/// Windows this leaves out roots whose prefix goes on with the names that follow,
/// such as a server without a share.
pub proof fn the_store_is_in_a_directory_of_its_root(style: PathStyle, root: Text)
    requires
        style == PathStyle::Windows ==> {
            let prefix = paths::prefix_of(style, root);
            &&& paths::prefix_of(style, paths::joined_path(style, root, ".upgrade-cockpit"@))
                == prefix
            &&& paths::prefix_of(style, store_path(style, root)) == prefix
        },
    ensures
        paths::parent_of(style, store_path(style, root)) == Some(
            paths::joined_path(style, root, ".upgrade-cockpit"@),
        ),
{
    reveal_strlit(".upgrade-cockpit");
    reveal_strlit("state.toml");
    assert(".upgrade-cockpit"@.len() == 16);
    assert("state.toml"@.len() == 10);
    assert(seq!['.', '.'].len() == 2);
    paths::a_file_below_a_root_is_in_its_directory(
        style,
        root,
        ".upgrade-cockpit"@,
        "state.toml"@,
    );
}

} // verus!
