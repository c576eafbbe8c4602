//! What holds of the cockpit across its operations.

use crate::catalog;
use crate::catalog::{CatalogErrorModel, TaskModel};
use crate::failure::FailureModel;
use crate::persistence;
use crate::persistence::SelectionModel;
use crate::planning;
use crate::profiles;
use crate::profiles::ProfileModel;
use crate::runner;
use crate::runner::{EventModel, OutcomeStatus, RunOptions, SurroundingsModel};
use crate::schedule;
use crate::session;
use crate::session::{InputModel, RunModel};
use crate::text::Text;
use crate::tui::items;
use crate::tui::items::{AvailabilityState, ItemModel, Screen, ScopeFilter};
use crate::tui::model;
use crate::tui::model::{AppModel, CompletedModel, EntryModel, LaunchModel};
use vstd::prelude::*;

verus! {

/// What came of starting a run from state `m` is safe: a plan that is handed out
/// holds no dangerous task and the run has begun, and one that holds a dangerous
/// task waits, and is handed out by a confirmation and by nothing else.
pub open spec fn launched_safely(m: AppModel, launched: (AppModel, LaunchModel)) -> bool {
    let after = launched.0;
    match launched.1 {
        Ok(Some(plan)) => !model::is_dangerous(plan) && after.screen == Screen::Running,
        Ok(None) => {
            &&& after.screen == Screen::ConfirmDangerous
            &&& after.pending matches Some(plan) && model::is_dangerous(plan)
            &&& after.confirm_run().1 == after.pending
            &&& after.cancel_confirmation().confirm_run().1 is None
        },
        Err(_) => after.screen == m.screen && after.pending == m.pending,
    }
}

/// Dangerous tasks are never started without a confirmation, however the run is
/// started.
pub proof fn dangerous_tasks_wait_for_confirmation(m: AppModel)
    ensures
        launched_safely(m, m.prepare_run()),
        launched_safely(m, m.rerun_failed()),
        launched_safely(m, m.rerun_last_profile()),
{
}

/// A plan that awaits confirmation names at least one danger to the user.
pub proof fn every_confirmation_names_a_danger(plan: Seq<TaskModel>)
    requires
        model::is_dangerous(plan),
    ensures
        model::danger_messages(plan).len() > 0,
    decreases plan.len(),
{
    let i = choose|i: int| 0 <= i < plan.len() && (#[trigger] plan[i]).dangerous;
    if i < plan.len() - 1 {
        assert(plan.drop_last()[i].dangerous);
        every_confirmation_names_a_danger(plan.drop_last());
    } else {
        assert(plan.last() == plan[i]);
    }
}

/// What a run of the selection runs, at once or after confirmation, is the
/// selected tasks and everything that they depend on. It fails only where
/// nothing is selected or a task that is called for depends on itself.
pub proof fn what_is_selected_is_what_runs(m: AppModel)
    requires
        model::app_wf(m),
    ensures
        ({
            let ids = model::selected_ids(m.items);
            let (after, launched) = m.prepare_run();
            let planned = planning::plan_outcome(m.catalog, false, ids);
            match launched {
                Ok(Some(plan)) => ids.len() > 0 && planned == Ok::<
                    Seq<TaskModel>,
                    CatalogErrorModel,
                >(plan),
                Ok(None) => ids.len() > 0 && planned == Ok::<Seq<TaskModel>, CatalogErrorModel>(
                    after.pending->0,
                ),
                Err(_) => ids.len() == 0 || (planned matches Err(error)
                    && error is DependencyCycle),
            }
        }),
{
    let ids = model::selected_ids(m.items);
    planning::plan_fails_exactly_on_unknown_ids_and_cycles(m.catalog, false, ids);
    assert forall|id: Text| ids.contains(id) implies catalog::has_id(m.catalog, id) by {
        model::lemma_selected_ids(m.items, id);
        let i = choose|i: int|
            0 <= i < m.items.len() && (#[trigger] m.items[i]).selected && m.items[i].id == id;
        assert(items::shows(m.items[i], m.catalog[i]));
        assert(m.catalog[i].id == id);
    }
}

/// Every selected task is in the plan that a run of the selection makes.
pub proof fn every_selected_task_is_planned(m: AppModel, i: int)
    requires
        model::app_wf(m),
        0 <= i < m.items.len(),
        m.items[i].selected,
    ensures
        planning::plan_outcome(m.catalog, false, model::selected_ids(m.items)) matches Ok(plan)
            ==> plan.contains(m.catalog[i]),
{
    let ids = model::selected_ids(m.items);
    model::lemma_selected_ids(m.items, m.items[i].id);
    assert(items::shows(m.items[i], m.catalog[i]));
    assert(ids.contains(m.catalog[i].id));
    assert(ids.len() > 0);
    planning::plan_holds_exactly_what_is_called_for(m.catalog, false, ids, i);
    let g = planning::graph_of(m.catalog);
    assert(schedule::connects(g, seq![i], i, i));
    assert(schedule::needs(g, i, i));
    assert(planning::asked_for(m.catalog, false, ids, i));
}

/// A plan that was cancelled is gone, and nothing else has changed.
pub proof fn cancelling_drops_the_plan(m: AppModel)
    requires
        m.screen == Screen::ConfirmDangerous,
    ensures
        ({
            let after = m.cancel_confirmation();
            &&& after.pending is None
            &&& after.screen == Screen::Select
            &&& after.items == m.items
            &&& after.options == m.options
            &&& after.confirm_run() == (after, None::<Seq<TaskModel>>)
        }),
{
}

/// Without filters the cursor goes through all tasks in order and round.
pub proof fn moves_go_through_all_tasks_without_filters(m: AppModel)
    requires
        model::app_wf(m),
        m.scope == ScopeFilter::All,
        m.category is None,
        m.tag is None,
        m.items.len() > 0,
    ensures
        m.move_next().cursor == (m.cursor + 1) % m.items.len(),
        m.move_previous().cursor == if m.cursor == 0 {
            m.items.len() - 1
        } else {
            m.cursor - 1
        },
{
    let n = m.items.len() as int;
    let c = m.cursor as int;
    assert forall|i: int| 0 <= i < n implies #[trigger] m.visible(i) by {}
    assert(m.visible(0));
    assert(m.visible(n - 1));
    if c + 1 < n {
        assert(m.visible(c + 1));
        vstd::arithmetic::div_mod::lemma_small_mod((c + 1) as nat, n as nat);
    } else {
        vstd::arithmetic::div_mod::lemma_mod_self_0(n);
    }
    if c > 0 {
        assert(m.visible(c - 1));
    }
}

/// Moves change nothing but the cursor, and leave it on a visible task wherever
/// there is one.
pub proof fn moves_stay_on_visible_tasks(m: AppModel, i: int)
    requires
        model::app_wf(m),
        0 <= i < m.items.len(),
        m.visible(i),
    ensures
        m.move_next() == (AppModel { cursor: m.move_next().cursor, ..m }),
        m.move_previous() == (AppModel { cursor: m.move_previous().cursor, ..m }),
        m.visible(m.move_next().cursor as int),
        m.visible(m.move_previous().cursor as int),
{
    model::lemma_seek(m, 0);
    model::lemma_seek(m, m.cursor as int + 1);
    model::lemma_seek_back(m, m.cursor - 1);
    model::lemma_seek_back(m, m.items.len() - 1);
}

/// A move is undone by the opposite move.
pub proof fn moving_there_and_back_changes_nothing(m: AppModel)
    requires
        model::app_wf(m),
    ensures
        m.move_next().move_previous() == m,
        m.move_previous().move_next() == m,
{
    let c = m.cursor as int;
    let n = m.items.len() as int;
    let there = m.move_next();
    let back = m.move_previous();
    model::lemma_seek(m, 0);
    model::lemma_seek(m, c + 1);
    model::lemma_seek_back(m, c - 1);
    model::lemma_seek_back(m, n - 1);
    let t = there.cursor as int;
    let b = back.cursor as int;
    lemma_same_visibility(m, there);
    lemma_same_visibility(m, back);
    if c < n && m.visible(c) {
        model::lemma_seek_back(there, t - 1);
        model::lemma_seek_back(there, n - 1);
        model::lemma_seek(back, b + 1);
        model::lemma_seek(back, 0);
        assert(there.visible(c));
        assert(back.visible(c));
        assert(there.move_previous() =~= m);
        assert(back.move_next() =~= m);
    } else {
        assert forall|i: int| 0 <= i < n implies !#[trigger] m.visible(i) by {
            assert(!items::passes(m.items[i], m.scope, m.category, m.tag));
        }
    }
}

proof fn lemma_same_visibility(m: AppModel, other: AppModel)
    requires
        other == (AppModel { cursor: other.cursor, ..m }),
    ensures
        forall|i: int| #[trigger] other.visible(i) == m.visible(i),
{
}

/// Filters limit what is shown: they change neither the selection nor the flags,
/// the profile or what there is to save.
pub proof fn filters_only_change_what_is_shown(m: AppModel)
    ensures
        same_selection(m, m.cycle_scope_filter()),
        same_selection(m, m.toggle_selected_category_filter()),
        same_selection(m, m.toggle_selected_tag_filter().0),
        same_selection(m, m.clear_filters()),
{
}

/// Two states with the same selection, flags and profile, and the same to save.
pub open spec fn same_selection(a: AppModel, b: AppModel) -> bool {
    &&& a.items == b.items
    &&& a.options == b.options
    &&& a.active == b.active
    &&& a.custom == b.custom
    &&& a.dirty == b.dirty
    &&& a.snapshot() == b.snapshot()
}

/// Once the filters are cleared every task is shown.
pub proof fn clearing_filters_shows_every_task(m: AppModel, i: int)
    requires
        0 <= i < m.items.len(),
    ensures
        m.clear_filters().visible(i),
{
}

/// Four steps through the scopes lead back to the first.
pub proof fn scopes_cycle(scope: ScopeFilter)
    ensures
        items::scope_after(items::scope_after(items::scope_after(items::scope_after(scope))))
            == scope,
{
}

/// Outside the selection screen the selection, the flags and the profile are
/// locked.
pub proof fn the_selection_is_locked_outside_its_screen(m: AppModel)
    requires
        m.screen != Screen::Select,
    ensures
        m.toggle_current() == m,
        m.select_every(true) == m,
        m.select_every(false) == m,
        m.toggle_dry_run() == m,
        m.toggle_verbose() == m,
        m.toggle_brew_cleanup() == m,
        m.toggle_npm_audit() == m,
        m.cycle_profile_next() == m,
        m.cycle_profile_previous() == m,
{
}

/// The state with these flags, and with them and what is selected as the user's
/// own profile, which is the active one and is to be saved.
pub open spec fn with_flags(m: AppModel, options: RunOptions) -> AppModel {
    AppModel {
        options,
        custom: SelectionModel { selected_tasks: model::selected_ids(m.items), options },
        active: 0,
        dirty: true,
        ..m
    }
}

proof fn lemma_setting_flags(m: AppModel, options: RunOptions)
    requires
        model::app_wf(m),
        m.screen == Screen::Select,
    ensures
        m.set_options(options) == with_flags(m, options),
        model::app_wf(with_flags(m, options)),
{
    let changed = AppModel { options, ..m };
    model::lemma_edited_fits(changed);
    let target = with_flags(m, options);
    assert(changed.edited() == target.settled());
    if !(target.cursor < target.items.len() && target.visible(target.cursor as int)) {
        model::lemma_seek(target, 0);
        assert forall|i: int| 0 <= i < m.items.len() implies !#[trigger] target.visible(i) by {
            assert(!items::passes(m.items[i], m.scope, m.category, m.tag));
        }
    }
}

/// Switching a flag changes that flag and makes the outcome the user's own
/// profile. Tasks, cursor, filters, messages and history stay as they were.
pub proof fn switching_a_flag_changes_that_flag_alone(m: AppModel)
    requires
        model::app_wf(m),
        m.screen == Screen::Select,
    ensures
        m.toggle_dry_run() == with_flags(
            m,
            RunOptions { dry_run: !m.options.dry_run, ..m.options },
        ),
        m.toggle_verbose() == with_flags(
            m,
            RunOptions { verbose: !m.options.verbose, ..m.options },
        ),
        m.toggle_brew_cleanup() == with_flags(
            m,
            RunOptions { brew_cleanup: !m.options.brew_cleanup, ..m.options },
        ),
        m.toggle_npm_audit() == with_flags(
            m,
            RunOptions { npm_audit: !m.options.npm_audit, ..m.options },
        ),
{
    lemma_setting_flags(m, RunOptions { dry_run: !m.options.dry_run, ..m.options });
    lemma_setting_flags(m, RunOptions { verbose: !m.options.verbose, ..m.options });
    lemma_setting_flags(m, RunOptions { brew_cleanup: !m.options.brew_cleanup, ..m.options });
    lemma_setting_flags(m, RunOptions { npm_audit: !m.options.npm_audit, ..m.options });
}

/// Switching a flag twice restores the state, but that what is selected and the
/// flags are now the user's own profile. Where they already were, the state is
/// the same in every respect.
pub proof fn switching_a_flag_twice_restores_the_state(m: AppModel)
    requires
        model::app_wf(m),
    ensures
        ({
            let restored = if m.screen == Screen::Select {
                with_flags(m, m.options)
            } else {
                m
            };
            &&& m.toggle_dry_run().toggle_dry_run() == restored
            &&& m.toggle_verbose().toggle_verbose() == restored
            &&& m.toggle_brew_cleanup().toggle_brew_cleanup() == restored
            &&& m.toggle_npm_audit().toggle_npm_audit() == restored
            &&& restored.options == m.options
            &&& m.active == 0 && m.dirty && m.custom == (SelectionModel {
                selected_tasks: model::selected_ids(m.items),
                options: m.options,
            }) ==> restored == m
        }),
{
    if m.screen == Screen::Select {
        lemma_flags_there_and_back(
            m,
            RunOptions { dry_run: !m.options.dry_run, ..m.options },
        );
        lemma_flags_there_and_back(
            m,
            RunOptions { verbose: !m.options.verbose, ..m.options },
        );
        lemma_flags_there_and_back(
            m,
            RunOptions { brew_cleanup: !m.options.brew_cleanup, ..m.options },
        );
        lemma_flags_there_and_back(
            m,
            RunOptions { npm_audit: !m.options.npm_audit, ..m.options },
        );
    }
}

proof fn lemma_flags_there_and_back(m: AppModel, options: RunOptions)
    requires
        model::app_wf(m),
        m.screen == Screen::Select,
    ensures
        m.set_options(options) == with_flags(m, options),
        m.set_options(options).set_options(m.options) == with_flags(m, m.options),
{
    lemma_setting_flags(m, options);
    lemma_setting_flags(with_flags(m, options), m.options);
}

/// Switching a task twice restores the state, but that what is selected and the
/// flags are now the user's own profile. Left out is a list that is limited to
/// selected tasks, which a task that is switched off leaves.
pub proof fn switching_a_task_twice_restores_the_state(m: AppModel)
    requires
        model::app_wf(m),
        m.scope != ScopeFilter::Selected,
    ensures
        m.toggle_current().toggle_current() == if m.screen == Screen::Select
            && m.selected_visible_task() is Some {
            with_flags(m, m.options)
        } else {
            m
        },
{
    if m.screen == Screen::Select {
        match m.selected_visible_task() {
            Some(item) => {
                let once = m.toggle_current();
                assert(once.visible(m.cursor as int));
                assert(once.cursor == m.cursor);
                let twice = once.items.update(
                    m.cursor as int,
                    ItemModel { selected: item.selected, ..once.items[m.cursor as int] },
                );
                assert(twice =~= m.items);
                assert(once.toggle_current() =~= with_flags(m, m.options));
            },
            None => {},
        }
    }
}

/// Whatever was selected before, selecting all selects every task and clearing
/// selects none.
pub proof fn selecting_all_and_none(m: AppModel, i: int)
    requires
        m.screen == Screen::Select,
        0 <= i < m.items.len(),
    ensures
        m.select_every(true).items[i].selected,
        !m.select_every(false).items[i].selected,
        m.select_every(false).prepare_run().1 == Err::<Option<Seq<TaskModel>>, FailureModel>(
            model::refusal("select at least one task"@),
        ),
{
    let cleared = m.select_every(false);
    assert(model::selected_ids(cleared.items).len() == 0) by {
        if model::selected_ids(cleared.items).len() > 0 {
            let id = model::selected_ids(cleared.items)[0];
            model::lemma_selected_ids(cleared.items, id);
            assert(model::selected_ids(cleared.items).contains(id));
        }
    }
}

/// Selecting all tasks leaves the cursor on the visible task where it was.
pub proof fn selecting_all_leaves_the_cursor(m: AppModel)
    requires
        m.selected_visible_task() is Some,
    ensures
        m.select_every(true).cursor == m.cursor,
        m.select_every(true).selected_visible_task() is Some,
{
    if m.screen == Screen::Select {
        let changed = AppModel { items: model::all_selected(m.items, true), ..m };
        assert(changed.items[m.cursor as int] == (ItemModel {
            selected: true,
            ..m.items[m.cursor as int]
        }));
        assert(changed.edited().visible(m.cursor as int));
    }
}

/// Going to the next profile and back, or through all profiles once, leads to
/// the profile where one started.
pub proof fn profiles_cycle(m: AppModel)
    requires
        model::app_wf(m),
        m.screen == Screen::Select,
    ensures
        m.cycle_profile_next().cycle_profile_previous().active == m.active,
        m.cycle_profile_previous().cycle_profile_next().active == m.active,
        m.cycle_profile_next().cycle_profile_next().cycle_profile_next().cycle_profile_next()
            .cycle_profile_next().active == m.active,
{
    let count = m.profiles().len();
    assert(count == 5);
}

/// Whatever is edited ends up in the user's own profile, which becomes the
/// active one and is to be saved.
pub proof fn edits_go_to_the_custom_profile(m: AppModel)
    requires
        model::parts_fit(m),
    ensures
        ({
            let after = m.edited();
            &&& after.active_profile() == profiles::custom_profile(
                model::selected_ids(m.items),
                m.options,
            )
            &&& after.dirty
            &&& after.items == m.items
        }),
{
}

/// Switching to a profile selects exactly its tasks among those there are, and
/// takes over its flags.
pub proof fn profiles_bring_their_selection_and_flags(m: AppModel, profile: nat, i: int)
    requires
        model::parts_fit(m),
        profile < m.profiles().len(),
        0 <= i < m.items.len(),
    ensures
        ({
            let after = m.with_profile(profile);
            &&& after.active_profile() == m.profiles()[profile as int]
            &&& after.options == m.profiles()[profile as int].options
            &&& after.items[i].id == m.items[i].id
            &&& after.items[i].selected <==> m.profiles()[profile as int].selected_tasks.contains(
                m.items[i].id,
            )
        }),
{
}

/// The availability that is shown of a task is what becomes of it in a run that
/// finds the same: an available task is executed, and the others get a warning
/// or a failure without being executed.
pub proof fn shown_availability_is_what_a_run_does(
    run: RunModel,
    item: ItemModel,
    around: SurroundingsModel,
)
    requires
        session::run_wf(run),
        run.phase is Checking,
        items::shows(item, run.current()),
    ensures
        ({
            let report = runner::preflight_outcome(run.current(), around);
            let shown = items::inspected(item, report).availability;
            let after = run.resume(InputModel::Found(around)).0;
            let settled = |status: OutcomeStatus|
                after.outcomes == run.outcomes.push(session::outcome_of(run.current(), status));
            &&& shown == AvailabilityState::Available <==> after.phase is Executing
            &&& shown == AvailabilityState::WarnUnavailable <==> settled(OutcomeStatus::Warn)
            &&& shown == AvailabilityState::FailUnavailable <==> settled(OutcomeStatus::Fail)
                || after.phase is Aborted
        }),
{
    let after = run.resume(InputModel::Found(around)).0;
    let warned = run.outcomes.push(session::outcome_of(run.current(), OutcomeStatus::Warn));
    let failed = run.outcomes.push(session::outcome_of(run.current(), OutcomeStatus::Fail));
    assert(warned.last().status != failed.last().status);
    assert(warned.len() == run.outcomes.len() + 1);
}

proof fn lemma_profile_found(m: AppModel, from: nat)
    requires
        from <= m.active < m.profiles().len(),
    ensures
        model::find_profile(m.profiles(), m.active_profile().id, from) == Some(m.active),
    decreases m.active - from,
{
    if from < m.active {
        profiles::profile_ids_are_distinct(m.custom.selected_tasks, m.custom.options);
        let ids = m.profiles().map_values(|profile: ProfileModel| profile.id);
        assert(ids[from as int] == m.profiles()[from as int].id);
        assert(ids[m.active as int] == m.active_profile().id);
        lemma_profile_found(m, from + 1);
    }
}

/// A cockpit that is opened with what another saved has the same profiles, the
/// same active one, the same selection and the same history, and the flags of
/// that profile. (An empty selection of one's own counts as none saved.)
pub proof fn reopening_restores_what_was_saved(m: AppModel)
    requires
        model::app_wf(m),
        m.custom.selected_tasks.len() > 0,
    ensures
        ({
            let again = model::opened(m.catalog, runner::no_options(), m.snapshot());
            &&& again.custom == m.custom
            &&& again.active == m.active
            &&& again.history == m.history
            &&& again.options == m.active_profile().options
            &&& again.items.len() == m.items.len()
            &&& forall|i: int|
                0 <= i < m.items.len() ==> (#[trigger] again.items[i]).selected
                    == m.items[i].selected
            &&& again.snapshot() == m.snapshot()
        }),
{
    let again = model::opened(m.catalog, runner::no_options(), m.snapshot());
    lemma_profile_found(m, 0);
    assert(again.custom == m.custom);
    assert forall|i: int| 0 <= i < m.items.len() implies (#[trigger] again.items[i]).selected
        == m.items[i].selected by {
        assert(items::shows(m.items[i], m.catalog[i]));
        assert(again.items[i].id == m.catalog[i].id);
    }
}

proof fn lemma_default_ids(tasks: Seq<TaskModel>, id: Text)
    ensures
        model::default_ids(tasks).contains(id) <==> exists|i: int|
            0 <= i < tasks.len() && (#[trigger] tasks[i]).default_selected && tasks[i].id == id,
    decreases tasks.len(),
{
    if tasks.len() > 0 {
        let init = tasks.drop_last();
        let before = model::default_ids(init);
        let now = model::default_ids(tasks);
        lemma_default_ids(init, id);
        if now.contains(id) {
            let k = choose|k: int| 0 <= k < now.len() && now[k] == id;
            if k < before.len() {
                assert(before[k] == id);
                let i = choose|i: int|
                    0 <= i < init.len() && (#[trigger] init[i]).default_selected && init[i].id
                        == id;
                assert(tasks[i] == init[i]);
            } else {
                assert(tasks[tasks.len() - 1].default_selected && tasks[tasks.len() - 1].id == id);
            }
        }
        if exists|i: int|
            0 <= i < tasks.len() && (#[trigger] tasks[i]).default_selected && tasks[i].id == id {
            let i = choose|i: int|
                0 <= i < tasks.len() && (#[trigger] tasks[i]).default_selected && tasks[i].id
                    == id;
            if i < tasks.len() - 1 {
                assert(init[i] == tasks[i]);
                let k = choose|k: int| 0 <= k < before.len() && before[k] == id;
                assert(now[k] == id);
            } else {
                assert(now.last() == id);
            }
        }
    }
}

/// A new cockpit shows the tasks of the catalog in order with those selected
/// that are selected by default, and has the flags of the command line.
pub proof fn a_new_cockpit_starts_with_the_defaults(tasks: Seq<TaskModel>, options: RunOptions)
    requires
        catalog::catalog_wf(tasks),
    ensures
        ({
            let m = model::opened(tasks, options, persistence::initial_state());
            &&& m.items == tasks.map_values(|task: TaskModel| items::item_of(task))
            &&& m.options == options
            &&& m.screen == Screen::Select
            &&& m.cursor == 0
            &&& m.logs.len() == 0
            &&& m.summary is None
            &&& m.status is None
            &&& m.pending is None
            &&& m.active_profile().id == profiles::CUSTOM_PROFILE_ID@
            &&& !m.dirty
        }),
{
    let m = model::opened(tasks, options, persistence::initial_state());
    let fresh = tasks.map_values(|task: TaskModel| items::item_of(task));
    let ids = model::default_ids(tasks);
    assert(m.custom.selected_tasks == ids);
    assert(m.active == 0);
    assert forall|i: int| 0 <= i < tasks.len() implies m.items[i] == fresh[i] by {
        lemma_default_ids(tasks, tasks[i].id);
        if ids.contains(tasks[i].id) {
            let j = choose|j: int|
                0 <= j < tasks.len() && (#[trigger] tasks[j]).default_selected && tasks[j].id
                    == tasks[i].id;
            catalog::lemma_ids_distinct(tasks, i, j);
        }
    }
    assert(m.items =~= fresh);
}

/// An event of a task changes the state of that task alone; only the latest
/// lines of activity are kept, and the event is the latest.
pub proof fn events_change_their_task_alone(m: AppModel, event: EventModel, i: int)
    requires
        model::app_wf(m),
        0 <= i < m.items.len(),
    ensures
        ({
            let after = m.handle_runner_event(event);
            &&& after.logs.len() > 0
            &&& after.logs.len() <= model::MAX_LOG_LINES
            &&& after.logs.drop_last().is_suffix_of(m.logs)
            &&& after.items.len() == m.items.len()
            &&& after.items[i] == (ItemModel { state: after.items[i].state, ..m.items[i] })
            &&& match event {
                EventModel::TaskStarted { task_id, label } => after.items[i].state
                    == if m.items[i].id == task_id {
                    items::TaskState::Running
                } else {
                    m.items[i].state
                },
                EventModel::OutputLine { task_id, stream, line } => after.items[i].state
                    == m.items[i].state,
                EventModel::TaskFinished { task_id, label, status } => after.items[i].state
                    == if m.items[i].id == task_id {
                    items::state_after(status)
                } else {
                    m.items[i].state
                },
            }
        }),
{
    let after = m.handle_runner_event(event);
    let added = after.logs.last();
    assert(after.logs == model::capped(m.logs.push(added)));
}

/// A run with a summary becomes the latest entry of the history; one without
/// leaves the history as it was. Either way the summary screen follows.
pub proof fn runs_are_remembered(m: AppModel, run: CompletedModel)
    ensures
        ({
            let after = m.record_run(run);
            &&& after.screen == Screen::Summary
            &&& after.last_profile_id == Some(run.profile_id)
            &&& match run.result {
                Ok(summary) => {
                    &&& after.history.len() > 0
                    &&& after.history.last() == persistence::history_of(
                        run.started_at_unix_secs,
                        run.duration_ms,
                        run.profile_id,
                        run.selected_tasks,
                        summary,
                    )
                    &&& after.history.drop_last().is_suffix_of(m.history)
                    &&& after.summary == Some(summary)
                    &&& after.dirty
                },
                Err(_) => after.history == m.history && after.summary is None,
            }
        }),
{
}

proof fn lemma_failed_ids(outcomes: Seq<runner::OutcomeModel>, id: Text)
    ensures
        model::failed_ids(outcomes).contains(id) <==> exists|i: int|
            0 <= i < outcomes.len() && (#[trigger] outcomes[i]).status == OutcomeStatus::Fail
                && outcomes[i].id == id,
    decreases outcomes.len(),
{
    if outcomes.len() > 0 {
        let init = outcomes.drop_last();
        let before = model::failed_ids(init);
        let now = model::failed_ids(outcomes);
        lemma_failed_ids(init, id);
        if now.contains(id) {
            let k = choose|k: int| 0 <= k < now.len() && now[k] == id;
            if k < before.len() {
                assert(before[k] == id);
                let i = choose|i: int|
                    0 <= i < init.len() && (#[trigger] init[i]).status == OutcomeStatus::Fail
                        && init[i].id == id;
                assert(outcomes[i] == init[i]);
            } else {
                let last = outcomes.len() - 1;
                assert(outcomes[last].status == OutcomeStatus::Fail && outcomes[last].id == id);
            }
        }
        if exists|i: int|
            0 <= i < outcomes.len() && (#[trigger] outcomes[i]).status == OutcomeStatus::Fail
                && outcomes[i].id == id {
            let i = choose|i: int|
                0 <= i < outcomes.len() && (#[trigger] outcomes[i]).status == OutcomeStatus::Fail
                    && outcomes[i].id == id;
            if i < outcomes.len() - 1 {
                assert(init[i] == outcomes[i]);
                let k = choose|k: int| 0 <= k < before.len() && before[k] == id;
                assert(now[k] == id);
            } else {
                assert(now.last() == id);
            }
        }
    }
}

/// Rerunning what failed starts a plan with every task that failed; where none
/// did, it is refused and starts nothing.
pub proof fn rerunning_takes_every_failed_task(m: AppModel, x: int)
    requires
        model::app_wf(m),
        0 <= x < m.catalog.len(),
    ensures
        ({
            let (after, launched) = m.rerun_failed();
            let failed = m.summary matches Some(summary) && exists|i: int|
                0 <= i < summary.outcomes.len() && (#[trigger] summary.outcomes[i]).status
                    == OutcomeStatus::Fail && summary.outcomes[i].id == m.catalog[x].id;
            &&& failed ==> match launched {
                Ok(Some(plan)) => plan.contains(m.catalog[x]),
                Ok(None) => after.pending->0.contains(m.catalog[x]),
                Err(_) => true,
            }
            &&& (m.summary matches Some(summary) ==> forall|i: int|
                0 <= i < summary.outcomes.len() ==> (#[trigger] summary.outcomes[i]).status
                    != OutcomeStatus::Fail) ==> (after, launched) == (
                AppModel { status: None, ..m },
                Err::<Option<Seq<TaskModel>>, FailureModel>(
                    model::refusal("no failed tasks to rerun"@),
                ),
            )
        }),
{
    match m.summary {
        Some(summary) => {
            let ids = model::failed_ids(summary.outcomes);
            if ids.len() > 0 {
                lemma_failed_ids(summary.outcomes, ids[0]);
                assert(ids.contains(ids[0]));
            }
            let id = m.catalog[x].id;
            lemma_failed_ids(summary.outcomes, id);
            if ids.contains(id) {
                planning::plan_holds_exactly_what_is_called_for(m.catalog, false, ids, x);
                let g = planning::graph_of(m.catalog);
                assert(schedule::connects(g, seq![x], x, x));
                assert(schedule::needs(g, x, x));
                assert(planning::asked_for(m.catalog, false, ids, x));
            }
        },
        None => {},
    }
}

proof fn lemma_rows_in(m: AppModel, category: Text, count: nat, i: nat)
    ensures
        m.rows_in(category, count).contains(EntryModel::Task(i)) <==> i < count && m.visible(
            i as int,
        ) && m.items[i as int].category == category,
        forall|k: int|
            0 <= k < m.rows_in(category, count).len() ==> (#[trigger] m.rows_in(
                category,
                count,
            )[k]) is Task,
    decreases count,
{
    if count > 0 {
        let before = m.rows_in(category, (count - 1) as nat);
        let now = m.rows_in(category, count);
        lemma_rows_in(m, category, (count - 1) as nat, i);
        assert forall|k: int| 0 <= k < now.len() implies (#[trigger] now[k]) is Task by {
            if k < before.len() {
                assert(now[k] == before[k]);
            }
        }
        if now.contains(EntryModel::Task(i)) {
            let k = choose|k: int| 0 <= k < now.len() && now[k] == EntryModel::Task(i);
            if k < before.len() {
                assert(before[k] == EntryModel::Task(i));
            }
        }
        if before.contains(EntryModel::Task(i)) {
            let k = choose|k: int| 0 <= k < before.len() && before[k] == EntryModel::Task(i);
            assert(now[k] == EntryModel::Task(i));
        }
        if i == count - 1 && m.visible(i as int) && m.items[i as int].category == category {
            assert(now.last() == EntryModel::Task(i));
        }
    }
}

proof fn lemma_categories(m: AppModel, count: nat, i: int)
    requires
        0 <= i < count,
        m.visible(i),
    ensures
        m.categories(count).contains(m.items[i].category),
    decreases count,
{
    let before = m.categories((count - 1) as nat);
    let now = m.categories(count);
    if i < count - 1 {
        lemma_categories(m, (count - 1) as nat, i);
        let k = choose|k: int| 0 <= k < before.len() && before[k] == m.items[i].category;
        assert(now[k] == m.items[i].category);
    } else if !before.contains(m.items[i].category) {
        assert(now.last() == m.items[i].category);
    }
}

proof fn lemma_rows(m: AppModel, categories: Seq<Text>, i: nat)
    ensures
        m.rows(categories).contains(EntryModel::Task(i)) <==> i < m.items.len() && m.visible(
            i as int,
        ) && categories.contains(m.items[i as int].category),
    decreases categories.len(),
{
    let entry = EntryModel::Task(i);
    let n = m.items.len();
    if categories.len() > 0 {
        let init = categories.drop_last();
        let last = categories.last();
        let first = m.rows(init).push(EntryModel::Header(last));
        let second = m.rows_in(last, n);
        let all = m.rows(categories);
        lemma_rows(m, init, i);
        lemma_rows_in(m, last, n, i);
        if all.contains(entry) {
            let k = choose|k: int| 0 <= k < all.len() && all[k] == entry;
            if k < m.rows(init).len() {
                assert(m.rows(init)[k] == entry);
                assert(m.rows(init).contains(entry));
                let c = choose|c: int|
                    0 <= c < init.len() && init[c] == m.items[i as int].category;
                assert(categories[c] == m.items[i as int].category);
            } else {
                assert(k >= first.len());
                assert(second[k - first.len()] == entry);
                assert(categories[categories.len() - 1] == m.items[i as int].category);
            }
        }
        if i < n && m.visible(i as int) && categories.contains(m.items[i as int].category) {
            let c = choose|c: int|
                0 <= c < categories.len() && categories[c] == m.items[i as int].category;
            if c < init.len() {
                assert(init[c] == m.items[i as int].category);
                let k = choose|k: int| 0 <= k < m.rows(init).len() && m.rows(init)[k] == entry;
                assert(all[k] == entry);
            } else {
                let k = choose|k: int| 0 <= k < second.len() && second[k] == entry;
                assert(all[first.len() + k] == entry);
            }
        }
    }
}

/// The task list shows exactly the tasks that pass the filters.
pub proof fn the_list_shows_exactly_the_visible_tasks(m: AppModel, i: nat)
    ensures
        m.entries().contains(EntryModel::Task(i)) <==> i < m.items.len() && m.visible(i as int),
{
    lemma_rows(m, m.categories(m.items.len()), i);
    if i < m.items.len() && m.visible(i as int) {
        lemma_categories(m, m.items.len(), i as int);
    }
}

proof fn lemma_cursor_row(m: AppModel, from: nat)
    ensures
        match m.cursor_row(from) {
            Some(row) => from <= row < m.entries().len() && m.entries()[row as int]
                == EntryModel::Task(m.cursor),
            None => forall|row: int|
                from <= row < m.entries().len() ==> (#[trigger] m.entries()[row])
                    != EntryModel::Task(m.cursor),
        },
    decreases m.entries().len() - from,
{
    if from < m.entries().len() && m.entries()[from as int] != EntryModel::Task(m.cursor) {
        lemma_cursor_row(m, from + 1);
    }
}

/// The task list highlights the task under the cursor exactly when it is
/// visible.
pub proof fn the_cursor_is_shown_exactly_when_visible(m: AppModel)
    ensures
        m.cursor_row(0) is Some <==> m.selected_visible_task() is Some,
        m.cursor_row(0) matches Some(row) ==> m.entries()[row as int] == EntryModel::Task(m.cursor),
{
    lemma_cursor_row(m, 0);
    the_list_shows_exactly_the_visible_tasks(m, m.cursor);
    if m.selected_visible_task() is Some {
        let row = choose|row: int|
            0 <= row < m.entries().len() && m.entries()[row] == EntryModel::Task(m.cursor);
        assert(m.entries()[row] == EntryModel::Task(m.cursor));
    }
}

} // verus!
