//! What the cockpit shows of tasks, and what becomes of them.

use crate::catalog::TaskModel;
use crate::failure::FailureModel;
use crate::profiles;
use crate::runner::{EventModel, OutcomeModel, OutcomeStatus, ReportModel, StreamKind};
use crate::text::Text;
use crate::tui::items;
use crate::tui::items::{AvailabilityState, ItemModel, ScopeFilter, TaskState};
use crate::tui::model;
use crate::tui::model::{AppModel, EntryModel};
use vstd::prelude::*;

verus! {

/// A task is shown with everything that it declares, selected exactly where it is by
/// default, pending and available.
pub proof fn tasks_are_shown_as_they_are_declared(task: TaskModel)
    ensures
        ({
            let item = items::item_of(task);
            &&& item.id == task.id
            &&& item.label == task.label
            &&& item.description == task.description
            &&& item.category == task.category
            &&& item.tags == task.tags
            &&& item.notes == task.notes
            &&& item.dangerous == task.dangerous
            &&& item.danger_message == task.danger_message
            &&& item.dependencies == task.dependencies
            &&& item.requires_commands == task.preflight.requires_commands
            &&& item.requires_paths == task.preflight.requires_paths
            &&& item.on_missing == task.preflight.on_missing
            &&& item.selected == task.default_selected
            &&& item.state == TaskState::Pending
            &&& item.availability == AvailabilityState::Available
            &&& item.preflight_messages.len() == 0
        }),
{
}

/// Each state of a task, each availability and each scope has a name of its own.
pub proof fn states_have_names()
    ensures
        items::task_state_label(TaskState::Pending) == "pending"@,
        items::task_state_label(TaskState::Running) == "running"@,
        items::task_state_label(TaskState::Success) == "ok"@,
        items::task_state_label(TaskState::Warn) == "warn"@,
        items::task_state_label(TaskState::Fail) == "fail"@,
        items::availability_label(AvailabilityState::Available) == "available"@,
        items::availability_label(AvailabilityState::WarnUnavailable) == "unavailable, will warn"@,
        items::availability_label(AvailabilityState::FailUnavailable) == "unavailable, will fail"@,
        items::scope_label(ScopeFilter::All) == "all"@,
        items::scope_label(ScopeFilter::Selected) == "selected"@,
        items::scope_label(ScopeFilter::Dangerous) == "dangerous"@,
        items::scope_label(ScopeFilter::Available) == "available"@,
{
}

/// A task that ended with a success, a warning or a failure is in exactly that state.
pub proof fn tasks_end_in_the_state_of_their_outcome(status: OutcomeStatus)
    ensures
        items::state_after(status) == TaskState::Success <==> status == OutcomeStatus::Success,
        items::state_after(status) == TaskState::Warn <==> status == OutcomeStatus::Warn,
        items::state_after(status) == TaskState::Fail <==> status == OutcomeStatus::Fail,
{
}

/// A task that its check stops with a warning or a failure is unavailable in that way,
/// and any other is available.
pub proof fn checks_tell_what_is_available(status: Option<OutcomeStatus>)
    ensures
        items::availability_of(status) == AvailabilityState::WarnUnavailable <==> status == Some(
            OutcomeStatus::Warn,
        ),
        items::availability_of(status) == AvailabilityState::FailUnavailable <==> status == Some(
            OutcomeStatus::Fail,
        ),
        items::availability_of(status) == AvailabilityState::Available <==> status is None || status
            == Some(OutcomeStatus::Success),
{
}

/// A checked task has the availability and the messages of the report. One that could not
/// be checked counts as failing, with the failure as its message. Nothing else of it
/// changes.
pub proof fn checks_are_shown_with_their_task(
    item: ItemModel,
    report: ReportModel,
    context: Text,
    cause: Text,
)
    ensures
        ({
            let after = items::inspected(item, Ok(report));
            &&& after == (ItemModel {
                availability: after.availability,
                preflight_messages: report.messages,
                ..item
            })
            &&& report.status is None ==> after.availability == AvailabilityState::Available
            &&& report.status == Some(OutcomeStatus::Warn) ==> after.availability
                == AvailabilityState::WarnUnavailable
            &&& report.status == Some(OutcomeStatus::Fail) ==> after.availability
                == AvailabilityState::FailUnavailable
        }),
        items::inspected(item, Err(FailureModel { context, cause: Some(cause) })) == (ItemModel {
            availability: AvailabilityState::FailUnavailable,
            preflight_messages: seq![context + ": "@ + cause],
            ..item
        }),
        items::inspected(item, Err(FailureModel { context, cause: None })) == (ItemModel {
            availability: AvailabilityState::FailUnavailable,
            preflight_messages: seq![context],
            ..item
        }),
{
}

/// The scopes follow one another: all tasks, the selected, the dangerous and the available
/// ones, and all again.
pub proof fn scopes_follow_one_another()
    ensures
        items::scope_after(ScopeFilter::All) == ScopeFilter::Selected,
        items::scope_after(ScopeFilter::Selected) == ScopeFilter::Dangerous,
        items::scope_after(ScopeFilter::Dangerous) == ScopeFilter::Available,
        items::scope_after(ScopeFilter::Available) == ScopeFilter::All,
{
}

/// The task at position `i` is in the scope of the list, in its category if there is one,
/// and has its tag if there is one.
pub open spec fn is_shown(m: AppModel, i: int) -> bool {
    &&& 0 <= i < m.items.len()
    &&& m.scope == ScopeFilter::Selected ==> m.items[i].selected
    &&& m.scope == ScopeFilter::Dangerous ==> m.items[i].dangerous
    &&& m.scope == ScopeFilter::Available ==> m.items[i].availability
        == AvailabilityState::Available
    &&& m.category is Some ==> m.items[i].category == m.category->0
    &&& m.tag is Some ==> exists|k: int|
        0 <= k < m.items[i].tags.len() && #[trigger] m.items[i].tags[k] == m.tag->0
}

/// A task passes the filters exactly where it is in the scope, the category and the tag
/// that they name.
pub proof fn filters_show_what_they_name(m: AppModel, i: int)
    requires
        0 <= i < m.items.len(),
    ensures
        m.visible(i) <==> is_shown(m, i),
{
    if m.visible(i) && m.tag is Some {
        let k = choose|k: int| 0 <= k < m.items[i].tags.len() && m.items[i].tags[k] == m.tag->0;
        assert(m.items[i].tags[k] == m.tag->0);
    }
    if is_shown(m, i) && m.tag is Some {
        let k = choose|k: int|
            0 <= k < m.items[i].tags.len() && #[trigger] m.items[i].tags[k] == m.tag->0;
        assert(m.items[i].tags.contains(m.tag->0));
    }
}

proof fn lemma_shown_is_visible(m: AppModel)
    ensures
        forall|i: int| 0 <= i < m.items.len() ==> #[trigger] m.visible(i) == is_shown(m, i),
{
    assert forall|i: int| 0 <= i < m.items.len() implies #[trigger] m.visible(i) == is_shown(
        m,
        i,
    ) by {
        filters_show_what_they_name(m, i);
    }
}

/// `after` has one more line than `before`, and only the latest 200 lines.
pub open spec fn has_logged(before: Seq<Text>, line: Text, after: Seq<Text>) -> bool {
    &&& after.len() == if before.len() < 200 {
        before.len() + 1
    } else {
        200
    }
    &&& after.last() == line
    &&& forall|i: int|
        0 <= i < after.len() - 1 ==> #[trigger] after[i] == before[i + before.len() + 1
            - after.len()]
}

/// A line of activity is the latest; the oldest beyond 200 is forgotten. Nothing else
/// changes.
pub proof fn activity_is_logged(m: AppModel, line: Text)
    requires
        m.logs.len() <= 200,
    ensures
        has_logged(m.logs, line, m.log(line).logs),
        m.log(line) == (AppModel { logs: m.log(line).logs, ..m }),
{
}

/// The task that starts is running and every other one is as before. The activity names
/// the task.
pub proof fn started_tasks_are_running(m: AppModel, id: Text, label: Text)
    requires
        m.logs.len() <= 200,
    ensures
        ({
            let after = m.handle_runner_event(EventModel::TaskStarted { task_id: id, label });
            &&& after == (AppModel { items: after.items, logs: after.logs, ..m })
            &&& has_logged(m.logs, "==> "@ + label, after.logs)
            &&& after.items.len() == m.items.len()
            &&& forall|i: int|
                #![trigger after.items[i]]
                0 <= i < m.items.len() ==> (m.items[i].id == id ==> after.items[i] == (ItemModel {
                    state: TaskState::Running,
                    ..m.items[i]
                })) && (m.items[i].id != id ==> after.items[i] == m.items[i])
        }),
{
}

/// A task that finished has succeeded exactly where its status is a success, has a warning
/// exactly where it is a warning, and has failed exactly where it is a failure. Every
/// other task is as before. The activity says how it ended.
pub proof fn finished_tasks_are_in_the_state_of_their_status(
    m: AppModel,
    id: Text,
    label: Text,
    status: OutcomeStatus,
)
    requires
        m.logs.len() <= 200,
    ensures
        ({
            let after = m.handle_runner_event(
                EventModel::TaskFinished { task_id: id, label, status },
            );
            &&& after == (AppModel { items: after.items, logs: after.logs, ..m })
            &&& has_logged(
                m.logs,
                label + " finished: "@ + match status {
                    OutcomeStatus::Success => "OK"@,
                    OutcomeStatus::Warn => "WARN"@,
                    OutcomeStatus::Fail => "FAIL"@,
                },
                after.logs,
            )
            &&& after.items.len() == m.items.len()
            &&& forall|i: int|
                #![trigger after.items[i]]
                0 <= i < m.items.len() && m.items[i].id == id ==> {
                    &&& after.items[i].state == TaskState::Success <==> status
                        == OutcomeStatus::Success
                    &&& after.items[i].state == TaskState::Warn <==> status == OutcomeStatus::Warn
                    &&& after.items[i].state == TaskState::Fail <==> status == OutcomeStatus::Fail
                    &&& after.items[i] == (ItemModel {
                        state: after.items[i].state,
                        ..m.items[i]
                    })
                }
            &&& forall|i: int|
                #![trigger after.items[i]]
                0 <= i < m.items.len() && m.items[i].id != id ==> after.items[i] == m.items[i]
        }),
{
}

/// A line of output changes no task. The activity shows it with the id of the task and its
/// stream.
pub proof fn output_is_shown_with_its_task(m: AppModel, id: Text, line: Text)
    requires
        m.logs.len() <= 200,
    ensures
        ({
            let after = m.handle_runner_event(
                EventModel::OutputLine { task_id: id, stream: StreamKind::Stdout, line },
            );
            &&& after == (AppModel { logs: after.logs, ..m })
            &&& has_logged(m.logs, "["@ + id + ":"@ + "out"@ + "] "@ + line, after.logs)
        }),
        ({
            let after = m.handle_runner_event(
                EventModel::OutputLine { task_id: id, stream: StreamKind::Stderr, line },
            );
            &&& after == (AppModel { logs: after.logs, ..m })
            &&& has_logged(m.logs, "["@ + id + ":"@ + "err"@ + "] "@ + line, after.logs)
        }),
{
}

/// The ids of the selected tasks, of the tasks that are selected by default and of the
/// tasks that failed are all of them, in order.
pub proof fn ids_are_gathered_in_order(
    all: Seq<ItemModel>,
    tasks: Seq<TaskModel>,
    outcomes: Seq<OutcomeModel>,
)
    ensures
        model::selected_ids(all) == all.filter(|item: ItemModel| item.selected).map_values(
            |item: ItemModel| item.id,
        ),
        model::default_ids(tasks) == tasks.filter(
            |task: TaskModel| task.default_selected,
        ).map_values(|task: TaskModel| task.id),
        model::failed_ids(outcomes) == outcomes.filter(
            |outcome: OutcomeModel| outcome.status == OutcomeStatus::Fail,
        ).map_values(|outcome: OutcomeModel| outcome.id),
{
    lemma_selected_filter(all);
    lemma_default_filter(tasks);
    lemma_failed_filter(outcomes);
}

proof fn lemma_selected_filter(all: Seq<ItemModel>)
    ensures
        model::selected_ids(all) == all.filter(|item: ItemModel| item.selected).map_values(
            |item: ItemModel| item.id,
        ),
    decreases all.len(),
{
    reveal(Seq::filter);
    let chosen = |item: ItemModel| item.selected;
    let named = |item: ItemModel| item.id;
    if all.len() == 0 {
        assert(all.filter(chosen).map_values(named) =~= Seq::empty());
    } else {
        let init = all.drop_last();
        lemma_selected_filter(init);
        if all.last().selected {
            assert(init.filter(chosen).push(all.last()).map_values(named) =~= init.filter(
                chosen,
            ).map_values(named).push(all.last().id));
        }
    }
}

proof fn lemma_default_filter(tasks: Seq<TaskModel>)
    ensures
        model::default_ids(tasks) == tasks.filter(
            |task: TaskModel| task.default_selected,
        ).map_values(|task: TaskModel| task.id),
    decreases tasks.len(),
{
    reveal(Seq::filter);
    let chosen = |task: TaskModel| task.default_selected;
    let named = |task: TaskModel| task.id;
    if tasks.len() == 0 {
        assert(tasks.filter(chosen).map_values(named) =~= Seq::empty());
    } else {
        let init = tasks.drop_last();
        lemma_default_filter(init);
        if tasks.last().default_selected {
            assert(init.filter(chosen).push(tasks.last()).map_values(named) =~= init.filter(
                chosen,
            ).map_values(named).push(tasks.last().id));
        }
    }
}

proof fn lemma_failed_filter(outcomes: Seq<OutcomeModel>)
    ensures
        model::failed_ids(outcomes) == outcomes.filter(
            |outcome: OutcomeModel| outcome.status == OutcomeStatus::Fail,
        ).map_values(|outcome: OutcomeModel| outcome.id),
    decreases outcomes.len(),
{
    reveal(Seq::filter);
    let chosen = |outcome: OutcomeModel| outcome.status == OutcomeStatus::Fail;
    let named = |outcome: OutcomeModel| outcome.id;
    if outcomes.len() == 0 {
        assert(outcomes.filter(chosen).map_values(named) =~= Seq::empty());
    } else {
        let init = outcomes.drop_last();
        lemma_failed_filter(init);
        if outcomes.last().status == OutcomeStatus::Fail {
            assert(init.filter(chosen).push(outcomes.last()).map_values(named) =~= init.filter(
                chosen,
            ).map_values(named).push(outcomes.last().id));
        }
    }
}

/// The dangers of a plan are those of its dangerous tasks in order, each with the task's
/// label and its own warning or, without one, a general one.
pub proof fn dangers_are_named_in_order(plan: Seq<TaskModel>)
    ensures
        model::danger_messages(plan) == plan.filter(|task: TaskModel| task.dangerous).map_values(
            |task: TaskModel|
                (
                    task.label,
                    if task.danger_message is Some {
                        task.danger_message->0
                    } else {
                        "Marked as dangerous."@
                    },
                ),
        ),
    decreases plan.len(),
{
    reveal(Seq::filter);
    let chosen = |task: TaskModel| task.dangerous;
    let named = |task: TaskModel|
        (
            task.label,
            if task.danger_message is Some {
                task.danger_message->0
            } else {
                "Marked as dangerous."@
            },
        );
    if plan.len() == 0 {
        assert(plan.filter(chosen).map_values(named) =~= Seq::empty());
    } else {
        let init = plan.drop_last();
        dangers_are_named_in_order(init);
        if plan.last().dangerous {
            assert(init.filter(chosen).push(plan.last()).map_values(named) =~= init.filter(
                chosen,
            ).map_values(named).push(named(plan.last())));
        }
    }
}

/// A plan is dangerous exactly where one of its tasks is.
pub proof fn plans_are_as_dangerous_as_their_tasks(plan: Seq<TaskModel>)
    ensures
        model::is_dangerous(plan) <==> !(forall|i: int|
            0 <= i < plan.len() ==> !(#[trigger] plan[i]).dangerous),
{
}

/// The cockpit offers the own profile first and then the four standard ones.
pub proof fn profiles_are_offered_in_order(m: AppModel)
    ensures
        m.profiles().len() == 5,
        m.profiles()[0].id == "custom"@,
        m.profiles()[0].selected_tasks == m.custom.selected_tasks,
        m.profiles()[0].options == m.custom.options,
        forall|i: int|
            0 <= i < 4 ==> m.profiles()[i + 1] == #[trigger] profiles::standard_profiles()[i],
{
}

/// The next move goes to the next shown task; from the last one it goes round to the first.
/// Nothing but the cursor changes.
pub proof fn the_cursor_moves_down_and_round(m: AppModel, i: int)
    requires
        m.cursor < m.items.len() || m.cursor == 0 && m.items.len() == 0,
        is_shown(m, i),
    ensures
        m.move_next() == (AppModel { cursor: m.move_next().cursor, ..m }),
        i > m.cursor && (forall|j: int| m.cursor < j < i ==> !#[trigger] is_shown(m, j))
            ==> m.move_next().cursor == i,
        (forall|j: int| m.cursor < j ==> !#[trigger] is_shown(m, j)) && (forall|j: int|
            j < i ==> !#[trigger] is_shown(m, j)) ==> m.move_next().cursor == i,
{
    lemma_shown_is_visible(m);
    model::lemma_seek(m, 0);
    model::lemma_seek(m, m.cursor as int + 1);
    assert(m.visible(i));
}

/// The previous move goes to the shown task before; from the first one it goes round to
/// the last. Nothing but the cursor changes.
pub proof fn the_cursor_moves_up_and_round(m: AppModel, i: int)
    requires
        m.cursor < m.items.len() || m.cursor == 0 && m.items.len() == 0,
        is_shown(m, i),
    ensures
        m.move_previous() == (AppModel { cursor: m.move_previous().cursor, ..m }),
        i < m.cursor && (forall|j: int| i < j < m.cursor ==> !#[trigger] is_shown(m, j))
            ==> m.move_previous().cursor == i,
        (forall|j: int| j < m.cursor ==> !#[trigger] is_shown(m, j)) && (forall|j: int|
            i < j ==> !#[trigger] is_shown(m, j)) ==> m.move_previous().cursor == i,
{
    lemma_shown_is_visible(m);
    model::lemma_seek_back(m, m.cursor - 1);
    model::lemma_seek_back(m, m.items.len() - 1);
    assert(m.visible(i));
}

/// Where no task is shown, no move changes anything.
pub proof fn the_cursor_stays_where_nothing_is_shown(m: AppModel)
    requires
        m.cursor < m.items.len() || m.cursor == 0 && m.items.len() == 0,
        forall|i: int| !#[trigger] is_shown(m, i),
    ensures
        m.move_next() == m,
        m.move_previous() == m,
{
    lemma_shown_is_visible(m);
    model::lemma_seek(m, 0);
    model::lemma_seek(m, m.cursor as int + 1);
    model::lemma_seek_back(m, m.cursor - 1);
    model::lemma_seek_back(m, m.items.len() - 1);
}

/// Coming from `from`, the cursor of `after` stays where that task is shown. Else it is on
/// the first task that is shown, and stays where none is.
pub open spec fn comes_to_rest(after: AppModel, from: nat) -> bool {
    if is_shown(after, from as int) {
        after.cursor == from
    } else {
        ||| is_shown(after, after.cursor as int) && forall|j: int|
            j < after.cursor ==> !#[trigger] is_shown(after, j)
        ||| after.cursor == from && forall|j: int| !#[trigger] is_shown(after, j)
    }
}

pub proof fn lemma_settled_rests(m: AppModel)
    ensures
        comes_to_rest(m.settled(), m.cursor),
        m.settled() == (AppModel { cursor: m.settled().cursor, ..m }),
{
    lemma_shown_is_visible(m);
    model::lemma_seek(m, 0);
    let after = m.settled();
    assert forall|i: int| #[trigger] is_shown(after, i) == is_shown(m, i) by {}
    if !(m.cursor < m.items.len() && m.visible(m.cursor as int)) {
        match m.seek(0) {
            Some(i) => {
                assert(m.visible(i));
                assert forall|j: int| j < i implies !#[trigger] is_shown(after, j) by {
                    if 0 <= j {
                        assert(!m.visible(j));
                    }
                }
            },
            None => {
                assert forall|j: int| !#[trigger] is_shown(after, j) by {
                    if 0 <= j < m.items.len() {
                        assert(!m.visible(j));
                    }
                }
            },
        }
    } else {
        assert(is_shown(m, m.cursor as int));
    }
}

/// The task under the cursor is the one that can be chosen, exactly where it is shown.
pub proof fn the_task_under_the_cursor_is_chosen(m: AppModel)
    ensures
        m.selected_visible_task() == if is_shown(m, m.cursor as int) {
            Some(m.items[m.cursor as int])
        } else {
            None
        },
{
    lemma_shown_is_visible(m);
    if m.cursor < m.items.len() {
        assert(m.visible(m.cursor as int) == is_shown(m, m.cursor as int));
    }
}

/// Every category that heads a part of the list is that of a shown task, and no category
/// heads two parts.
pub proof fn categories_head_the_list_once(m: AppModel, count: nat)
    requires
        count <= m.items.len(),
    ensures
        m.categories(count).no_duplicates(),
        forall|category: Text| #[trigger]
            m.categories(count).contains(category) <==> exists|i: int|
                0 <= i < count && #[trigger] is_shown(m, i) && m.items[i].category == category,
    decreases count,
{
    if count > 0 {
        let before = m.categories((count - 1) as nat);
        let now = m.categories(count);
        let last = m.items[count - 1].category;
        categories_head_the_list_once(m, (count - 1) as nat);
        filters_show_what_they_name(m, count - 1);
        assert forall|category: Text| #[trigger] now.contains(category) <==> exists|i: int|
            0 <= i < count && #[trigger] is_shown(m, i) && m.items[i].category == category by {
            if now.contains(category) {
                let k = choose|k: int| 0 <= k < now.len() && now[k] == category;
                if k < before.len() {
                    assert(before[k] == category);
                    assert(before.contains(category));
                    let i = choose|i: int|
                        0 <= i < count - 1 && #[trigger] is_shown(m, i) && m.items[i].category
                            == category;
                    assert(is_shown(m, i));
                } else {
                    assert(is_shown(m, count - 1));
                }
            }
            if exists|i: int|
                0 <= i < count && #[trigger] is_shown(m, i) && m.items[i].category == category {
                let i = choose|i: int|
                    0 <= i < count && #[trigger] is_shown(m, i) && m.items[i].category
                        == category;
                if i < count - 1 || before.contains(category) {
                    assert(before.contains(category));
                    let k = choose|k: int| 0 <= k < before.len() && before[k] == category;
                    assert(now[k] == category);
                } else {
                    assert(now.last() == category);
                }
            }
        }
    }
}

/// Categories are listed in the order in which their first shown tasks stand.
pub proof fn categories_follow_their_first_tasks(m: AppModel, count: nat, a: int, b: int)
    requires
        count <= m.items.len(),
        0 <= a < b < count,
        is_shown(m, a),
        is_shown(m, b),
        forall|i: int|
            0 <= i <= a && #[trigger] is_shown(m, i) ==> m.items[i].category != m.items[b].category,
    ensures
        exists|x: int, y: int|
            0 <= x < y < m.categories(count).len() && #[trigger] m.categories(count)[x]
                == m.items[a].category && #[trigger] m.categories(count)[y] == m.items[b].category,
{
    let all = m.categories(count);
    let some = m.categories((a + 1) as nat);
    categories_head_the_list_once(m, (a + 1) as nat);
    categories_head_the_list_once(m, count);
    lemma_categories_prefix(m, (a + 1) as nat, count);
    assert(some.contains(m.items[a].category));
    assert(!some.contains(m.items[b].category));
    let x = choose|x: int| 0 <= x < some.len() && some[x] == m.items[a].category;
    assert(all.contains(m.items[b].category));
    let y = choose|y: int| 0 <= y < all.len() && all[y] == m.items[b].category;
    assert(all[x] == some[x]);
    if y < some.len() {
        assert(some[y] == all[y]);
    }
    assert(all[x] == m.items[a].category && all[y] == m.items[b].category);
}

proof fn lemma_categories_prefix(m: AppModel, count: nat, total: nat)
    requires
        count <= total,
    ensures
        m.categories(count).is_prefix_of(m.categories(total)),
    decreases total - count,
{
    if count < total {
        lemma_categories_prefix(m, count + 1, total);
    }
}

/// `at` lists the positions below `count` of the shown tasks of a category, ascending.
pub open spec fn lists_category(m: AppModel, category: Text, count: int, at: Seq<int>) -> bool {
    &&& forall|i: int, j: int| 0 <= i < j < at.len() ==> #[trigger] at[i] < #[trigger] at[j]
    &&& forall|p: int| #[trigger]
        at.contains(p) <==> 0 <= p < count && is_shown(m, p) && m.items[p].category == category
}

proof fn lemma_rows_in_category(m: AppModel, category: Text, count: nat) -> (at: Seq<int>)
    requires
        count <= m.items.len(),
    ensures
        lists_category(m, category, count as int, at),
        m.rows_in(category, count).len() == at.len(),
        forall|k: int|
            0 <= k < at.len() ==> m.rows_in(category, count)[k] == EntryModel::Task(
                (#[trigger] at[k]) as nat,
            ),
    decreases count,
{
    if count == 0 {
        Seq::empty()
    } else {
        let before = lemma_rows_in_category(m, category, (count - 1) as nat);
        filters_show_what_they_name(m, count - 1);
        let last = count - 1;
        if is_shown(m, last) && m.items[last].category == category {
            let at = before.push(last);
            assert forall|i: int, j: int| 0 <= i < j < at.len() implies #[trigger] at[i]
                < #[trigger] at[j] by {
                assert(before.contains(before[i]));
            }
            assert forall|p: int| #[trigger] at.contains(p) <==> 0 <= p < count && is_shown(m, p)
                && m.items[p].category == category by {
                if at.contains(p) {
                    let k = choose|k: int| 0 <= k < at.len() && at[k] == p;
                    if k < before.len() {
                        assert(before[k] == p);
                        assert(before.contains(p));
                    }
                }
                if before.contains(p) {
                    let k = choose|k: int| 0 <= k < before.len() && before[k] == p;
                    assert(at[k] == p);
                }
                assert(at.last() == last);
            }
            assert forall|k: int| 0 <= k < at.len() implies m.rows_in(category, count)[k]
                == EntryModel::Task((#[trigger] at[k]) as nat) by {
                if k < before.len() {
                    assert(at[k] == before[k]);
                }
            }
            at
        } else {
            before
        }
    }
}

/// Under each category the list has a row for each of its shown tasks, in their order.
pub proof fn tasks_are_listed_under_their_category(m: AppModel, category: Text)
    ensures
        exists|at: Seq<int>|
            {
                &&& #[trigger] lists_category(m, category, m.items.len() as int, at)
                &&& m.rows_in(category, m.items.len()).len() == at.len()
                &&& forall|k: int|
                    0 <= k < at.len() ==> m.rows_in(category, m.items.len())[k]
                        == EntryModel::Task((#[trigger] at[k]) as nat)
            },
{
    let at = lemma_rows_in_category(m, category, m.items.len());
    assert(lists_category(m, category, m.items.len() as int, at));
}

/// The list goes through the categories: each has a row with its name and then the rows of
/// its tasks.
pub proof fn the_list_goes_through_the_categories(m: AppModel, first: Seq<Text>, next: Text)
    ensures
        m.rows(Seq::empty()).len() == 0,
        m.rows(first.push(next)) == m.rows(first) + seq![EntryModel::Header(next)] + m.rows_in(
            next,
            m.items.len(),
        ),
        m.entries() == m.rows(m.categories(m.items.len())),
{
    assert(first.push(next).drop_last() =~= first);
    assert(m.rows(first).push(EntryModel::Header(next)) =~= m.rows(first) + seq![
        EntryModel::Header(next),
    ]);
}

} // verus!
