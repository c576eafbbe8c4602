//! What each key does, and how the cockpit opens and runs plans.

use crate::catalog::TaskModel;
use crate::failure::{Failure, FailureModel};
use crate::paths;
use crate::paths::PathStyle;
use crate::persistence;
use crate::persistence::PersistedModel;
use crate::runner::{RunOptions, RunSummary};
use crate::text::Text;
use crate::tui::control;
use crate::tui::control::{Key, KeyActionModel};
use crate::tui::items::Screen;
use crate::tui::model;
use crate::tui::model::{AppModel, LaunchModel};
use vstd::prelude::*;

verus! {

/// A key leads from `m` to `after`, and nothing is left to do.
pub open spec fn leads(m: AppModel, key: Key, after: AppModel) -> bool {
    &&& control::key_outcome(m, key, false) == (after, KeyActionModel::Continue)
    &&& control::key_outcome(m, key, true) == (after, KeyActionModel::Continue)
}

/// On the selection screen the arrow keys and `j` and `k` move the cursor, the space bar
/// switches the task under it, `a` selects all tasks and `x` none.
pub proof fn keys_choose_tasks(m: AppModel)
    requires
        m.screen == Screen::Select,
    ensures
        leads(m, Key::Down, m.move_next()),
        leads(m, Key::Char('j'), m.move_next()),
        leads(m, Key::Up, m.move_previous()),
        leads(m, Key::Char('k'), m.move_previous()),
        leads(m, Key::Char(' '), m.toggle_current()),
        leads(m, Key::Char('a'), m.select_every(true)),
        leads(m, Key::Char('x'), m.select_every(false)),
{
}

/// On the selection screen `d`, `v`, `c` and `u` switch the four flags.
pub proof fn keys_switch_flags(m: AppModel)
    requires
        m.screen == Screen::Select,
    ensures
        leads(m, Key::Char('d'), m.toggle_dry_run()),
        leads(m, Key::Char('v'), m.toggle_verbose()),
        leads(m, Key::Char('c'), m.toggle_brew_cleanup()),
        leads(m, Key::Char('u'), m.toggle_npm_audit()),
{
}

/// On the selection screen `p` and the tabulator take the next profile; the tabulator
/// backwards and a capital `P` take the previous one.
pub proof fn keys_take_profiles(m: AppModel)
    requires
        m.screen == Screen::Select,
    ensures
        leads(m, Key::Char('p'), m.cycle_profile_next()),
        leads(m, Key::Tab, m.cycle_profile_next()),
        leads(m, Key::BackTab, m.cycle_profile_previous()),
        control::key_outcome(m, Key::Char('P'), true) == (
            m.cycle_profile_previous(),
            KeyActionModel::Continue,
        ),
        control::key_outcome(m, Key::Char('P'), false) == (m, KeyActionModel::Continue),
{
}

/// On the selection screen `f` goes through the scopes, `g` limits the list to a category,
/// `t` to a tag, with a message where that is refused, and `z` lifts all limits.
pub proof fn keys_filter_the_list(m: AppModel)
    requires
        m.screen == Screen::Select,
    ensures
        leads(m, Key::Char('f'), m.cycle_scope_filter()),
        leads(m, Key::Char('g'), m.toggle_selected_category_filter()),
        leads(m, Key::Char('z'), m.clear_filters()),
        ({
            let (after, result) = m.toggle_selected_tag_filter();
            &&& result is Ok ==> leads(m, Key::Char('t'), after)
            &&& result matches Err(failure) ==> leads(
                m,
                Key::Char('t'),
                AppModel { status: Some(failure.context), ..after },
            )
        }),
{
}

/// A key starts a run as `launched` says: a plan is run, and a refusal is shown.
pub open spec fn starts(m: AppModel, key: Key, launched: (AppModel, LaunchModel)) -> bool {
    forall|shift: bool|
        #![trigger control::key_outcome(m, key, shift)]
        {
            let (after, action) = control::key_outcome(m, key, shift);
            match launched.1 {
                Ok(Some(plan)) => after == launched.0 && action == KeyActionModel::Run(plan),
                Ok(None) => after == launched.0 && action == KeyActionModel::Continue,
                Err(failure) => after == (AppModel { status: Some(failure.context), ..launched.0 })
                    && action == KeyActionModel::Continue,
            }
        }
}

/// The enter key runs what is selected. On the summary screen `r` runs again what failed
/// and `l` the last profile, and the enter key goes back to the selection.
pub proof fn keys_start_runs(m: AppModel)
    ensures
        m.screen == Screen::Select ==> starts(m, Key::Enter, m.prepare_run()),
        m.screen == Screen::Summary ==> starts(m, Key::Char('r'), m.rerun_failed()),
        m.screen == Screen::Summary ==> starts(m, Key::Char('l'), m.rerun_last_profile()),
        m.screen == Screen::Summary ==> leads(m, Key::Enter, m.reset_after_summary()),
{
}

/// While a plan awaits confirmation, `y` runs it and `n` and the escape key drop it.
pub proof fn keys_confirm_runs(m: AppModel, shift: bool)
    requires
        m.screen == Screen::ConfirmDangerous,
    ensures
        m.pending matches Some(plan) ==> control::key_outcome(m, Key::Char('y'), shift) == (
            m.confirm_run().0,
            KeyActionModel::Run(plan),
        ),
        m.pending is None ==> control::key_outcome(m, Key::Char('y'), shift) == (
            m,
            KeyActionModel::Continue,
        ),
        leads(m, Key::Char('n'), m.cancel_confirmation()),
        leads(m, Key::Esc, m.cancel_confirmation()),
{
}

/// `q` leaves the cockpit from the selection and from the summary. During a run `q` and the
/// escape key only ask for patience.
pub proof fn keys_leave_the_cockpit(m: AppModel, shift: bool)
    ensures
        m.screen == Screen::Select || m.screen == Screen::Summary ==> control::key_outcome(
            m,
            Key::Char('q'),
            shift,
        ) == (m, KeyActionModel::Quit),
        m.screen == Screen::Running ==> leads(
            m,
            Key::Char('q'),
            AppModel { status: Some("Wait for the current run to finish."@), ..m },
        ) && leads(
            m,
            Key::Esc,
            AppModel { status: Some("Wait for the current run to finish."@), ..m },
        ),
{
}

/// Every other key changes nothing.
pub proof fn other_keys_do_nothing(m: AppModel, key: Key, shift: bool)
    requires
        m.screen == Screen::Select ==> key is Other || key is Esc || (key matches Key::Char(c)
            && c != 'q' && c != 'j' && c != 'k' && c != ' ' && c != 'a' && c != 'x' && c != 'd' && c
            != 'v' && c != 'c' && c != 'u' && c != 'p' && c != 'P' && c != 'f' && c != 'g' && c
            != 't' && c != 'z'),
        m.screen == Screen::ConfirmDangerous ==> key != Key::Char('y') && key != Key::Char('n')
            && key != Key::Esc,
        m.screen == Screen::Running ==> key != Key::Char('q') && key != Key::Esc,
        m.screen == Screen::Summary ==> key != Key::Char('q') && key != Key::Enter && key
            != Key::Char('r') && key != Key::Char('l'),
    ensures
        control::key_outcome(m, key, shift) == (m, KeyActionModel::Continue),
{
}

/// A run is started with the ids of its tasks in order, the id of the active profile and
/// the flags of the moment.
pub proof fn runs_are_started_with_what_is_set(m: AppModel, plan: Seq<TaskModel>)
    ensures
        ({
            let ticket = control::ticket_of(m, plan);
            &&& ticket.profile_id == m.profiles()[m.active as int].id
            &&& ticket.options == m.options
            &&& ticket.selected_tasks.len() == plan.len()
            &&& forall|i: int|
                0 <= i < plan.len() ==> #[trigger] ticket.selected_tasks[i] == plan[i].id
        }),
{
}

/// A run that is over is remembered with its summary, or with what failed, without the
/// cause.
pub proof fn runs_are_over_with_a_summary_or_a_failure(summary: RunSummary, failure: Failure)
    ensures
        control::run_view(Ok(summary)) matches Ok(content) && content == summary@,
        control::run_view(Err(failure)) matches Err(reason) && reason == failure.context@,
{
}

/// The terminal is handed over with two lines and an empty one.
pub proof fn the_terminal_is_handed_over_with_words()
    ensures
        control::handover_text().len() == 3,
        control::handover_text()[0] == "upgrade-cockpit released the terminal for task output."@,
        control::handover_text()[1] == "The summary screen will return when the run finishes."@,
        control::handover_text()[2] == ""@,
{
}

/// A state that was loaded is what the cockpit opens with. Where it could not be loaded,
/// the cockpit opens anew and says so.
pub proof fn the_cockpit_opens_in_any_case(
    tasks: Seq<TaskModel>,
    options: RunOptions,
    saved: PersistedModel,
    failure: FailureModel,
)
    ensures
        control::opened_with(tasks, options, Ok(saved)) == model::opened(tasks, options, saved),
        control::opened_with(tasks, options, Err(failure)) == (AppModel {
            status: Some("State load failed: "@ + failure.context),
            ..model::opened(tasks, options, persistence::initial_state())
        }),
{
}

/// The store below a root is the file `state.toml` in the directory `.upgrade-cockpit`.
pub proof fn the_store_has_its_place_below_the_root(style: PathStyle, root: Text)
    ensures
        control::store_path(style, root) == paths::joined_path(
            style,
            paths::joined_path(style, root, ".upgrade-cockpit"@),
            "state.toml"@,
        ),
{
}

} // verus!
