//! What the operations of the cockpit do to its state.

use crate::catalog::TaskModel;
use crate::failure::FailureModel;
use crate::laws::cockpit;
use crate::persistence;
use crate::persistence::{PersistedModel, SelectionModel};
use crate::planning;
use crate::profiles::ProfileModel;
use crate::runner::{OutcomeModel, OutcomeStatus, ReportModel, RunOptions, SummaryModel};
use crate::text::Text;
use crate::tui::items;
use crate::tui::items::{ItemModel, ScopeFilter, Screen, TaskState};
use crate::tui::model;
use crate::tui::model::{AppModel, CompletedModel, LaunchModel};
use vstd::prelude::*;

verus! {

/// What is selected and the flags of `after` are its own profile, which is active and is
/// to be saved.
pub open spec fn is_own_choice(after: AppModel) -> bool {
    &&& after.custom.selected_tasks == after.items.filter(
        |item: ItemModel| item.selected,
    ).map_values(|item: ItemModel| item.id)
    &&& after.custom.options == after.options
    &&& after.active == 0
    &&& after.dirty
}

proof fn lemma_edited(m: AppModel)
    ensures
        is_own_choice(m.edited()),
        cockpit::comes_to_rest(m.edited(), m.cursor),
        m.edited() == (AppModel {
            custom: m.edited().custom,
            active: 0,
            dirty: true,
            cursor: m.edited().cursor,
            ..m
        }),
{
    let changed = AppModel {
        custom: SelectionModel {
            selected_tasks: model::selected_ids(m.items),
            options: m.options,
        },
        active: 0,
        dirty: true,
        ..m
    };
    cockpit::lemma_settled_rests(changed);
    cockpit::ids_are_gathered_in_order(m.items, Seq::empty(), Seq::empty());
}

/// Switching the task under the cursor changes whether that task is selected, and no other
/// task. The outcome is the own profile. Messages, filters and history stay.
pub proof fn switching_a_task_changes_it_alone(m: AppModel)
    requires
        m.screen == Screen::Select,
        cockpit::is_shown(m, m.cursor as int),
    ensures
        ({
            let after = m.toggle_current();
            let c = m.cursor as int;
            &&& after == (AppModel {
                items: after.items,
                custom: after.custom,
                active: 0,
                dirty: true,
                cursor: after.cursor,
                ..m
            })
            &&& is_own_choice(after)
            &&& cockpit::comes_to_rest(after, m.cursor)
            &&& after.items.len() == m.items.len()
            &&& after.items[c] == (ItemModel { selected: !m.items[c].selected, ..m.items[c] })
            &&& forall|i: int|
                0 <= i < m.items.len() && i != c ==> #[trigger] after.items[i] == m.items[i]
        }),
{
    cockpit::the_task_under_the_cursor_is_chosen(m);
    let c = m.cursor as int;
    let item = m.items[c];
    lemma_edited(
        AppModel {
            items: m.items.update(c, ItemModel { selected: !item.selected, ..item }),
            ..m
        },
    );
}

/// Where the task under the cursor is not shown, or on another screen, switching changes
/// nothing.
pub proof fn switching_needs_a_shown_task(m: AppModel)
    requires
        m.screen != Screen::Select || !cockpit::is_shown(m, m.cursor as int),
    ensures
        m.toggle_current() == m,
{
    cockpit::the_task_under_the_cursor_is_chosen(m);
}

/// On the selection screen every task is selected, or none is; nothing else of a task
/// changes. The outcome is the own profile. On another screen nothing changes.
pub proof fn selecting_every_task_changes_nothing_else(m: AppModel, selected: bool)
    ensures
        m.screen != Screen::Select ==> m.select_every(selected) == m,
        m.screen == Screen::Select ==> {
            let after = m.select_every(selected);
            &&& after == (AppModel {
                items: after.items,
                custom: after.custom,
                active: 0,
                dirty: true,
                cursor: after.cursor,
                ..m
            })
            &&& is_own_choice(after)
            &&& cockpit::comes_to_rest(after, m.cursor)
            &&& after.items.len() == m.items.len()
            &&& forall|i: int|
                0 <= i < m.items.len() ==> #[trigger] after.items[i] == (ItemModel {
                    selected,
                    ..m.items[i]
                })
        },
{
    lemma_edited(AppModel { items: model::all_selected(m.items, selected), ..m });
}

/// `after` is `m` with other flags, which are the own profile now.
pub open spec fn differs_in_flags(m: AppModel, after: AppModel) -> bool {
    &&& after == (AppModel {
        options: after.options,
        custom: after.custom,
        active: 0,
        dirty: true,
        cursor: after.cursor,
        ..m
    })
    &&& is_own_choice(after)
    &&& cockpit::comes_to_rest(after, m.cursor)
}

/// On the selection screen a flag is switched, and no other flag. The outcome is the own
/// profile. On another screen nothing changes.
pub proof fn switching_a_flag_switches_it(m: AppModel)
    ensures
        m.screen == Screen::Select ==> {
            let o = m.options;
            let dry = m.toggle_dry_run();
            let verbose = m.toggle_verbose();
            let brew = m.toggle_brew_cleanup();
            let npm = m.toggle_npm_audit();
            &&& differs_in_flags(m, dry) && dry.options == (RunOptions {
                dry_run: !o.dry_run,
                verbose: o.verbose,
                brew_cleanup: o.brew_cleanup,
                npm_audit: o.npm_audit,
            })
            &&& differs_in_flags(m, verbose) && verbose.options == (RunOptions {
                dry_run: o.dry_run,
                verbose: !o.verbose,
                brew_cleanup: o.brew_cleanup,
                npm_audit: o.npm_audit,
            })
            &&& differs_in_flags(m, brew) && brew.options == (RunOptions {
                dry_run: o.dry_run,
                verbose: o.verbose,
                brew_cleanup: !o.brew_cleanup,
                npm_audit: o.npm_audit,
            })
            &&& differs_in_flags(m, npm) && npm.options == (RunOptions {
                dry_run: o.dry_run,
                verbose: o.verbose,
                brew_cleanup: o.brew_cleanup,
                npm_audit: !o.npm_audit,
            })
        },
        m.screen != Screen::Select ==> m.toggle_dry_run() == m && m.toggle_verbose() == m
            && m.toggle_brew_cleanup() == m && m.toggle_npm_audit() == m,
{
    let o = m.options;
    lemma_edited(AppModel { options: RunOptions { dry_run: !o.dry_run, ..o }, ..m });
    lemma_edited(AppModel { options: RunOptions { verbose: !o.verbose, ..o }, ..m });
    lemma_edited(AppModel { options: RunOptions { brew_cleanup: !o.brew_cleanup, ..o }, ..m });
    lemma_edited(AppModel { options: RunOptions { npm_audit: !o.npm_audit, ..o }, ..m });
}

/// `after` is `m` with the profile at position `i` active: exactly its tasks are selected
/// and its flags are set. It is to be saved.
pub open spec fn has_taken_profile(m: AppModel, i: int, after: AppModel) -> bool {
    let profile = m.profiles()[i];
    &&& after == (AppModel {
        active: i as nat,
        items: after.items,
        options: profile.options,
        dirty: true,
        cursor: after.cursor,
        ..m
    })
    &&& cockpit::comes_to_rest(after, m.cursor)
    &&& after.items.len() == m.items.len()
    &&& forall|k: int|
        0 <= k < m.items.len() ==> #[trigger] after.items[k] == (ItemModel {
            selected: after.items[k].selected,
            ..m.items[k]
        }) && (after.items[k].selected <==> exists|t: int|
            0 <= t < profile.selected_tasks.len() && #[trigger] profile.selected_tasks[t]
                == m.items[k].id)
}

proof fn lemma_with_profile(m: AppModel, i: nat)
    ensures
        has_taken_profile(m, i as int, m.with_profile(i)),
{
    let profile = m.profiles()[i as int];
    let changed = AppModel {
        active: i,
        items: model::with_selection(m.items, profile.selected_tasks),
        options: profile.options,
        dirty: true,
        ..m
    };
    cockpit::lemma_settled_rests(changed);
    let after = m.with_profile(i);
    assert forall|k: int| 0 <= k < m.items.len() implies #[trigger] after.items[k] == (ItemModel {
        selected: after.items[k].selected,
        ..m.items[k]
    }) && (after.items[k].selected <==> exists|t: int|
        0 <= t < profile.selected_tasks.len() && #[trigger] profile.selected_tasks[t]
            == m.items[k].id) by {
        let ids = profile.selected_tasks;
        if ids.contains(m.items[k].id) {
            let t = choose|t: int| 0 <= t < ids.len() && ids[t] == m.items[k].id;
            assert(profile.selected_tasks[t] == m.items[k].id);
        }
    }
}

/// On the selection screen the profile after the active one is taken, and after the last
/// the first; or the one before, and before the first the last. On another screen nothing
/// changes.
pub proof fn profiles_are_taken_in_turn(m: AppModel)
    requires
        m.active < 5,
    ensures
        m.screen == Screen::Select && m.active < 4 ==> has_taken_profile(
            m,
            m.active as int + 1,
            m.cycle_profile_next(),
        ),
        m.screen == Screen::Select && m.active == 4 ==> has_taken_profile(
            m,
            0,
            m.cycle_profile_next(),
        ),
        m.screen == Screen::Select && m.active > 0 ==> has_taken_profile(
            m,
            m.active - 1,
            m.cycle_profile_previous(),
        ),
        m.screen == Screen::Select && m.active == 0 ==> has_taken_profile(
            m,
            4,
            m.cycle_profile_previous(),
        ),
        m.screen != Screen::Select ==> m.cycle_profile_next() == m && m.cycle_profile_previous()
            == m,
{
    cockpit::profiles_are_offered_in_order(m);
    lemma_with_profile(m, m.active + 1);
    lemma_with_profile(m, 0);
    lemma_with_profile(m, 4);
    if m.active > 0 {
        lemma_with_profile(m, (m.active - 1) as nat);
    }
}

/// `after` is `m` with these filters.
pub open spec fn differs_in_filters(
    m: AppModel,
    after: AppModel,
    scope: ScopeFilter,
    category: Option<Text>,
    tag: Option<Text>,
) -> bool {
    &&& after == (AppModel { scope, category, tag, cursor: after.cursor, ..m })
    &&& cockpit::comes_to_rest(after, m.cursor)
}

proof fn lemma_filtered(
    m: AppModel,
    scope: ScopeFilter,
    category: Option<Text>,
    tag: Option<Text>,
)
    ensures
        differs_in_filters(
            m,
            (AppModel { scope, category, tag, ..m }).settled(),
            scope,
            category,
            tag,
        ),
{
    cockpit::lemma_settled_rests(AppModel { scope, category, tag, ..m });
}

/// The scope goes on from all tasks to the selected, the dangerous and the available ones,
/// and back to all. The other filters stay, and clearing lifts all of them.
pub proof fn scopes_are_gone_through(m: AppModel)
    ensures
        m.scope == ScopeFilter::All ==> differs_in_filters(
            m,
            m.cycle_scope_filter(),
            ScopeFilter::Selected,
            m.category,
            m.tag,
        ),
        m.scope == ScopeFilter::Selected ==> differs_in_filters(
            m,
            m.cycle_scope_filter(),
            ScopeFilter::Dangerous,
            m.category,
            m.tag,
        ),
        m.scope == ScopeFilter::Dangerous ==> differs_in_filters(
            m,
            m.cycle_scope_filter(),
            ScopeFilter::Available,
            m.category,
            m.tag,
        ),
        m.scope == ScopeFilter::Available ==> differs_in_filters(
            m,
            m.cycle_scope_filter(),
            ScopeFilter::All,
            m.category,
            m.tag,
        ),
        differs_in_filters(m, m.clear_filters(), ScopeFilter::All, None, None),
{
    lemma_filtered(m, items::scope_after(m.scope), m.category, m.tag);
    lemma_filtered(m, ScopeFilter::All, None, None);
}

/// A limit to a category is lifted. Without one the list is limited to the category of the
/// task under the cursor, if that is shown.
pub proof fn categories_are_limited_to_that_of_the_task(m: AppModel)
    ensures
        m.category is Some ==> differs_in_filters(
            m,
            m.toggle_selected_category_filter(),
            m.scope,
            None,
            m.tag,
        ),
        m.category is None && cockpit::is_shown(m, m.cursor as int) ==> differs_in_filters(
            m,
            m.toggle_selected_category_filter(),
            m.scope,
            Some(m.items[m.cursor as int].category),
            m.tag,
        ),
        m.category is None && !cockpit::is_shown(m, m.cursor as int) ==> differs_in_filters(
            m,
            m.toggle_selected_category_filter(),
            m.scope,
            None,
            m.tag,
        ),
{
    cockpit::the_task_under_the_cursor_is_chosen(m);
    lemma_filtered(m, m.scope, None, m.tag);
    lemma_filtered(m, m.scope, Some(m.items[m.cursor as int].category), m.tag);
}

/// A limit to a tag is lifted. Without one the list is limited to the first tag of the task
/// under the cursor. Where that is not shown or has no tag, this is refused and nothing
/// changes.
pub proof fn tags_are_limited_to_the_first_of_the_task(m: AppModel)
    ensures
        ({
            let (after, result) = m.toggle_selected_tag_filter();
            let tagged = cockpit::is_shown(m, m.cursor as int)
                && m.items[m.cursor as int].tags.len() > 0;
            &&& m.tag is Some ==> result is Ok && differs_in_filters(
                m,
                after,
                m.scope,
                m.category,
                None,
            )
            &&& m.tag is None && tagged ==> result is Ok && differs_in_filters(
                m,
                after,
                m.scope,
                m.category,
                Some(m.items[m.cursor as int].tags[0]),
            )
            &&& m.tag is None && !tagged ==> after == m && result == Err::<(), FailureModel>(
                FailureModel { context: "selected task has no tags"@, cause: None },
            )
        }),
{
    cockpit::the_task_under_the_cursor_is_chosen(m);
    lemma_filtered(m, m.scope, m.category, None);
    lemma_filtered(m, m.scope, m.category, Some(m.items[m.cursor as int].tags[0]));
}

/// The filters are told by the name of the scope and, if there are any, the category and
/// the tag.
pub proof fn filters_are_told_in_words(m: AppModel)
    ensures
        ({
            let scope = match m.scope {
                ScopeFilter::All => "all"@,
                ScopeFilter::Selected => "selected"@,
                ScopeFilter::Dangerous => "dangerous"@,
                ScopeFilter::Available => "available"@,
            };
            &&& m.category is None && m.tag is None ==> m.filter_summary() == scope
            &&& m.category is Some && m.tag is None ==> m.filter_summary() == scope
                + ", category "@ + m.category->0
            &&& m.category is None && m.tag is Some ==> m.filter_summary() == scope + ", tag "@
                + m.tag->0
            &&& m.category is Some && m.tag is Some ==> m.filter_summary() == scope
                + ", category "@ + m.category->0 + ", tag "@ + m.tag->0
        }),
{
    let scope = items::scope_label(m.scope);
    let none = Seq::<char>::empty();
    assert(scope + none =~= scope);
    if m.category is Some {
        assert(scope + (", category "@ + m.category->0) =~= scope + ", category "@
            + m.category->0);
        let more = scope + ", category "@ + m.category->0;
        assert(more + none =~= more);
        if m.tag is Some {
            assert(more + (", tag "@ + m.tag->0) =~= more + ", tag "@ + m.tag->0);
        }
    } else if m.tag is Some {
        assert(scope + (", tag "@ + m.tag->0) =~= scope + ", tag "@ + m.tag->0);
    }
}

/// `after` is `m` on the running screen: nothing is left of an earlier run, every task is
/// pending and nothing else of a task has changed.
pub open spec fn has_begun(m: AppModel, after: AppModel) -> bool {
    &&& after == (AppModel {
        logs: Seq::empty(),
        summary: None,
        pending: None,
        screen: Screen::Running,
        status: Some("Running selected tasks..."@),
        items: after.items,
        ..m
    })
    &&& after.items.len() == m.items.len()
    &&& forall|i: int|
        0 <= i < m.items.len() ==> #[trigger] after.items[i] == (ItemModel {
            state: TaskState::Pending,
            ..m.items[i]
        })
}

/// What came of starting the tasks with these ids from `m`: without a dangerous task their
/// plan is run at once; with one it waits for confirmation; and where there is no plan the
/// reason is given and nothing has changed but for the message that is gone.
pub open spec fn is_launched(
    m: AppModel,
    ids: Seq<Text>,
    launched: (AppModel, LaunchModel),
) -> bool {
    match planning::plan_outcome(m.catalog, false, ids) {
        Err(error) => {
            &&& launched.0 == (AppModel { status: None, ..m })
            &&& launched.1 == Err::<Option<Seq<TaskModel>>, FailureModel>(
                FailureModel { context: error.message(), cause: None },
            )
        },
        Ok(plan) => {
            &&& (exists|i: int| 0 <= i < plan.len() && (#[trigger] plan[i]).dangerous) ==> {
                &&& launched.0 == (AppModel {
                    pending: Some(plan),
                    screen: Screen::ConfirmDangerous,
                    status: Some("Dangerous tasks selected. Press y to continue or n to cancel."@),
                    ..m
                })
                &&& launched.1 == Ok::<Option<Seq<TaskModel>>, FailureModel>(None)
            }
            &&& (forall|i: int| 0 <= i < plan.len() ==> !(#[trigger] plan[i]).dangerous) ==> {
                &&& has_begun(m, launched.0)
                &&& launched.1 == Ok::<Option<Seq<TaskModel>>, FailureModel>(Some(plan))
            }
        },
    }
}

/// A run of the selection starts the selected tasks, in order. Where none is selected this
/// is refused.
pub proof fn running_starts_what_is_selected(m: AppModel)
    ensures
        ({
            let ids = m.items.filter(|item: ItemModel| item.selected).map_values(
                |item: ItemModel| item.id,
            );
            &&& ids.len() > 0 ==> is_launched(m, ids, m.prepare_run())
            &&& ids.len() == 0 ==> m.prepare_run() == (
                AppModel { status: None, ..m },
                Err::<Option<Seq<TaskModel>>, FailureModel>(
                    FailureModel { context: "select at least one task"@, cause: None },
                ),
            )
        }),
{
    cockpit::ids_are_gathered_in_order(m.items, Seq::empty(), Seq::empty());
}

/// A rerun starts the tasks that failed in the latest run, in order. Where none did, or
/// there was no run, this is refused.
pub proof fn rerunning_starts_what_failed(m: AppModel)
    ensures
        m.summary matches Some(summary) ==> {
            let ids = summary.outcomes.filter(
                |outcome: OutcomeModel|
                    outcome.status == OutcomeStatus::Fail,
            ).map_values(|outcome: OutcomeModel| outcome.id);
            &&& ids.len() > 0 ==> is_launched(m, ids, m.rerun_failed())
            &&& ids.len() == 0 ==> m.rerun_failed() == (
                AppModel { status: None, ..m },
                Err::<Option<Seq<TaskModel>>, FailureModel>(
                    FailureModel { context: "no failed tasks to rerun"@, cause: None },
                ),
            )
        },
        m.summary is None ==> m.rerun_failed() == (
            AppModel { status: None, ..m },
            Err::<Option<Seq<TaskModel>>, FailureModel>(
                FailureModel { context: "no failed tasks to rerun"@, cause: None },
            ),
        ),
{
    match m.summary {
        Some(summary) => {
            cockpit::ids_are_gathered_in_order(Seq::empty(), Seq::empty(), summary.outcomes);
        },
        None => {},
    }
}

/// The position of a profile with this id: no earlier one has it.
pub open spec fn is_first_with_id(list: Seq<ProfileModel>, id: Text, k: int) -> bool {
    &&& 0 <= k < list.len()
    &&& list[k].id == id
    &&& forall|i: int| 0 <= i < k ==> (#[trigger] list[i]).id != id
}

proof fn lemma_found_profile(list: Seq<ProfileModel>, id: Text, from: nat)
    ensures
        match model::find_profile(list, id, from) {
            Some(k) => from <= k < list.len() && list[k as int].id == id && forall|i: int|
                from <= i < k ==> (#[trigger] list[i]).id != id,
            None => forall|i: int| from <= i < list.len() ==> (#[trigger] list[i]).id != id,
        },
    decreases list.len() - from,
{
    if from < list.len() && list[from as int].id != id {
        lemma_found_profile(list, id, from + 1);
    }
}

/// Running the last profile again takes that profile and starts its tasks. Where no profile
/// was run, or the profile is unknown, this is refused.
pub proof fn rerunning_takes_the_last_profile(m: AppModel, k: int)
    ensures
        m.last_profile_id is None ==> m.rerun_last_profile() == (
            AppModel { status: None, ..m },
            Err::<Option<Seq<TaskModel>>, FailureModel>(
                FailureModel { context: "no profile has been run yet"@, cause: None },
            ),
        ),
        m.last_profile_id matches Some(id) ==> (forall|i: int|
            0 <= i < m.profiles().len() ==> (#[trigger] m.profiles()[i]).id != id)
            ==> m.rerun_last_profile() == (
            AppModel { status: None, ..m },
            Err::<Option<Seq<TaskModel>>, FailureModel>(
                FailureModel { context: "unknown profile "@ + id, cause: None },
            ),
        ),
        m.last_profile_id matches Some(id) ==> is_first_with_id(m.profiles(), id, k) ==> exists|
            taken: AppModel,
        |
            #[trigger] has_taken_profile(AppModel { status: None, ..m }, k, taken)
                && m.rerun_last_profile() == taken.prepare_run(),
{
    match m.last_profile_id {
        Some(id) => {
            lemma_found_profile(m.profiles(), id, 0);
            if is_first_with_id(m.profiles(), id, k) {
                let quiet = AppModel { status: None, ..m };
                assert(model::find_profile(m.profiles(), id, 0) == Some(k as nat)) by {
                    match model::find_profile(m.profiles(), id, 0) {
                        Some(f) => {
                            assert(m.profiles()[f as int].id == id);
                            assert(m.profiles()[k].id == id);
                        },
                        None => {
                            assert(m.profiles()[k].id == id);
                        },
                    }
                }
                lemma_with_profile(quiet, k as nat);
                assert(has_taken_profile(quiet, k, quiet.with_profile(k as nat)));
            }
        },
        None => {},
    }
}

/// A confirmation starts the plan that awaits it. On another screen it starts nothing.
pub proof fn confirming_starts_the_waiting_plan(m: AppModel)
    ensures
        m.screen == Screen::ConfirmDangerous && m.pending is Some ==> {
            let (after, plan) = m.confirm_run();
            plan == m.pending && has_begun(m, after)
        },
        m.screen != Screen::ConfirmDangerous || m.pending is None ==> m.confirm_run() == (
            m,
            None::<Seq<TaskModel>>,
        ),
{
}

/// Cancelling drops the plan that awaits confirmation and goes back to the selection, with
/// a message. On another screen nothing changes.
pub proof fn cancelling_goes_back_to_the_selection(m: AppModel)
    ensures
        m.screen == Screen::ConfirmDangerous ==> m.cancel_confirmation() == (AppModel {
            pending: None,
            screen: Screen::Select,
            status: Some("Run cancelled."@),
            ..m
        }),
        m.screen != Screen::ConfirmDangerous ==> m.cancel_confirmation() == m,
{
}

/// From the summary one goes back to the selection with nothing left of the run.
pub proof fn summaries_are_left_for_the_selection(m: AppModel)
    ensures
        ({
            let after = m.reset_after_summary();
            &&& after == (AppModel {
                screen: Screen::Select,
                summary: None,
                status: None,
                logs: Seq::empty(),
                items: after.items,
                ..m
            })
            &&& after.items.len() == m.items.len()
            &&& forall|i: int|
                0 <= i < m.items.len() ==> #[trigger] after.items[i] == (ItemModel {
                    state: TaskState::Pending,
                    ..m.items[i]
                })
        }),
{
}

/// A run that ended with a summary is shown with it. One that failed is shown with the
/// failure and its cause, as the message and as the latest activity.
pub proof fn runs_end_on_the_summary_screen(
    m: AppModel,
    summary: SummaryModel,
    context: Text,
    cause: Text,
)
    requires
        m.logs.len() <= 200,
    ensures
        m.finish_run(Ok(summary)) == (AppModel {
            screen: Screen::Summary,
            status: Some("Run complete."@),
            summary: Some(summary),
            ..m
        }),
        ({
            let after = m.finish_run(Err(FailureModel { context, cause: Some(cause) }));
            &&& after == (AppModel {
                screen: Screen::Summary,
                status: Some("Run failed: "@ + (context + ": "@ + cause)),
                summary: None,
                logs: after.logs,
                ..m
            })
            &&& cockpit::has_logged(m.logs, "fatal: "@ + (context + ": "@ + cause), after.logs)
        }),
        ({
            let after = m.finish_run(Err(FailureModel { context, cause: None }));
            &&& after == (AppModel {
                screen: Screen::Summary,
                status: Some("Run failed: "@ + context),
                summary: None,
                logs: after.logs,
                ..m
            })
            &&& cockpit::has_logged(m.logs, "fatal: "@ + context, after.logs)
        }),
{
}

/// A run with a summary is the latest entry of the history, of which at most 20 are kept,
/// and is to be saved. A run that failed leaves the history as it was. Either way its
/// profile was the last to run.
pub proof fn finished_runs_enter_the_history(m: AppModel, run: CompletedModel)
    requires
        m.history.len() <= 20,
        m.logs.len() <= 200,
    ensures
        run.result matches Ok(summary) ==> {
            let after = m.record_run(run);
            &&& after == (AppModel {
                screen: Screen::Summary,
                status: Some("Run complete."@),
                summary: Some(summary),
                last_profile_id: Some(run.profile_id),
                history: after.history,
                dirty: true,
                ..m
            })
            &&& after.history.len() == if m.history.len() < 20 {
                m.history.len() + 1
            } else {
                20
            }
            &&& after.history.last() == persistence::history_of(
                run.started_at_unix_secs,
                run.duration_ms,
                run.profile_id,
                run.selected_tasks,
                summary,
            )
            &&& forall|i: int|
                0 <= i < after.history.len() - 1 ==> #[trigger] after.history[i] == m.history[i
                    + m.history.len() + 1 - after.history.len()]
        },
        run.result matches Err(reason) ==> {
            let after = m.record_run(run);
            &&& after == (AppModel {
                screen: Screen::Summary,
                status: Some("Run failed: "@ + reason),
                summary: None,
                last_profile_id: Some(run.profile_id),
                logs: after.logs,
                ..m
            })
            &&& cockpit::has_logged(m.logs, "fatal: "@ + reason, after.logs)
        },
{
}

/// The report of a check goes to the task with that id, and to no other.
pub proof fn checks_go_to_their_task(
    m: AppModel,
    id: Text,
    report: Result<ReportModel, FailureModel>,
)
    ensures
        ({
            let after = m.apply_preflight(id, report);
            &&& after == (AppModel { items: after.items, cursor: after.cursor, ..m })
            &&& cockpit::comes_to_rest(after, m.cursor)
            &&& after.items.len() == m.items.len()
            &&& forall|i: int|
                #![trigger after.items[i]]
                0 <= i < m.items.len() ==> (m.items[i].id == id ==> after.items[i]
                    == items::inspected(m.items[i], report)) && (m.items[i].id != id
                    ==> after.items[i] == m.items[i])
        }),
{
    cockpit::lemma_settled_rests(
        AppModel { items: model::with_report(m.items, id, report), ..m },
    );
}

/// What is saved is version 1, the id of the active profile, the own profile and the
/// history.
pub proof fn snapshots_hold_what_is_to_be_saved(m: AppModel)
    ensures
        m.snapshot().version == 1,
        m.snapshot().active_profile_id == m.profiles()[m.active as int].id,
        m.snapshot().custom_profile == m.custom,
        m.snapshot().history == m.history,
{
}

/// Once it is saved, nothing is to be saved. A failure to save is shown, and it is to be
/// saved still.
pub proof fn saving_is_taken_note_of(m: AppModel, reason: Text)
    ensures
        m.saved(Ok(())) == (AppModel { dirty: false, ..m }),
        m.saved(Err(reason)) == (AppModel {
            status: Some("State save failed: "@ + reason),
            ..m
        }),
{
}

/// The cockpit opens on the selection with the tasks of the catalog, those of the active
/// profile selected, the flags of the command line and of that profile, and the latest 20
/// runs. The own profile is the saved one or, where that selects nothing, the default
/// selection with the saved flags.
pub proof fn the_cockpit_opens_with_what_was_saved(
    tasks: Seq<TaskModel>,
    options: RunOptions,
    saved: PersistedModel,
)
    ensures
        ({
            let m = model::opened(tasks, options, saved);
            let profile = m.profiles()[m.active as int];
            &&& m.catalog == tasks
            &&& m.cursor == 0 && m.screen == Screen::Select && m.logs.len() == 0
            &&& m.summary is None && m.status is None && m.pending is None && !m.dirty
            &&& m.scope == ScopeFilter::All && m.category is None && m.tag is None
            &&& m.custom.options == saved.custom_profile.options
            &&& saved.custom_profile.selected_tasks.len() > 0 ==> m.custom.selected_tasks
                == saved.custom_profile.selected_tasks
            &&& saved.custom_profile.selected_tasks.len() == 0 ==> m.custom.selected_tasks
                == tasks.filter(|task: TaskModel| task.default_selected).map_values(
                |task: TaskModel| task.id,
            )
            &&& m.options.dry_run == (options.dry_run || profile.options.dry_run)
            &&& m.options.verbose == (options.verbose || profile.options.verbose)
            &&& m.options.brew_cleanup == (options.brew_cleanup || profile.options.brew_cleanup)
            &&& m.options.npm_audit == (options.npm_audit || profile.options.npm_audit)
            &&& m.items.len() == tasks.len()
            &&& forall|i: int|
                0 <= i < tasks.len() ==> #[trigger] m.items[i] == (ItemModel {
                    selected: m.items[i].selected,
                    ..items::item_of(tasks[i])
                }) && (m.items[i].selected <==> profile.selected_tasks.contains(tasks[i].id))
            &&& m.history.len() == if saved.history.len() <= 20 {
                saved.history.len() as int
            } else {
                20
            }
            &&& forall|i: int|
                0 <= i < m.history.len() ==> #[trigger] m.history[i] == saved.history[i
                    + saved.history.len() - m.history.len()]
            &&& m.history.len() == 0 ==> m.last_profile_id is None
            &&& m.history.len() > 0 ==> m.last_profile_id == Some(m.history.last().profile_id)
        }),
{
    cockpit::ids_are_gathered_in_order(Seq::empty(), tasks, Seq::empty());
}

/// The active profile of a cockpit that opens is the one with the saved id, and the own one
/// where no profile has it.
pub proof fn the_cockpit_opens_with_the_saved_profile(
    tasks: Seq<TaskModel>,
    options: RunOptions,
    saved: PersistedModel,
)
    ensures
        ({
            let m = model::opened(tasks, options, saved);
            &&& m.active < 5
            &&& m.profiles()[m.active as int].id == saved.active_profile_id || m.active == 0
            &&& (exists|k: int|
                0 <= k < 5 && (#[trigger] m.profiles()[k]).id == saved.active_profile_id)
                ==> m.profiles()[m.active as int].id == saved.active_profile_id
        }),
{
    let m = model::opened(tasks, options, saved);
    lemma_found_profile(m.profiles(), saved.active_profile_id, 0);
    cockpit::profiles_are_offered_in_order(m);
}

} // verus!
