//! What a plan holds and in what order, and what a catalog is made of.

use crate::catalog;
use crate::catalog::{CatalogErrorModel, TaskModel};
use crate::planning;
use crate::schedule;
use crate::text;
use crate::text::Text;
use vstd::prelude::*;

verus! {

/// `path` names tasks by their positions, and each of them lists the id of the next
/// among its dependencies.
#[verifier::opaque]
pub open spec fn is_chain(tasks: Seq<TaskModel>, path: Seq<int>) -> bool {
    &&& path.len() >= 1
    &&& forall|k: int| 0 <= k < path.len() ==> 0 <= #[trigger] path[k] < tasks.len()
    &&& forall|k: int, m: int|
        0 <= k < path.len() - 1 && m == k + 1 ==> tasks[#[trigger] path[k]].dependencies.contains(
            tasks[#[trigger] path[m]].id,
        )
}

/// `x` is `a`, or `a` depends on it directly or through other tasks.
pub open spec fn leads_to(tasks: Seq<TaskModel>, a: int, x: int) -> bool {
    exists|path: Seq<int>| #[trigger] is_chain(tasks, path) && path[0] == a && path.last() == x
}

/// Some task has the id.
pub open spec fn names_a_task(tasks: Seq<TaskModel>, id: Text) -> bool {
    exists|i: int| 0 <= i < tasks.len() && (#[trigger] tasks[i]).id == id
}

/// `first` stands before `second` in the plan.
pub open spec fn comes_before(
    plan: Seq<TaskModel>,
    first: TaskModel,
    second: TaskModel,
) -> bool {
    exists|i: int, j: int|
        0 <= i < j < plan.len() && #[trigger] plan[i] == first && #[trigger] plan[j] == second
}

proof fn lemma_listed_is_edge(tasks: Seq<TaskModel>, a: int, b: int)
    requires
        catalog::catalog_wf(tasks),
        0 <= a < tasks.len(),
    ensures
        schedule::edge(planning::graph_of(tasks), a, b) <==> 0 <= b < tasks.len()
            && tasks[a].dependencies.contains(tasks[b].id),
{
    let g = planning::graph_of(tasks);
    let listed = tasks[a].dependencies;
    if g[a].contains(b) {
        let k = choose|k: int| 0 <= k < g[a].len() && g[a][k] == b;
        assert(catalog::has_id(tasks, tasks[a].dependencies[k]));
        assert(listed[k] == tasks[b].id);
    }
    if 0 <= b < tasks.len() && listed.contains(tasks[b].id) {
        let k = choose|k: int| 0 <= k < listed.len() && listed[k] == tasks[b].id;
        catalog::lemma_index_of(tasks, b);
        assert(g[a][k] == b);
    }
}

proof fn lemma_chain_is_path(tasks: Seq<TaskModel>, path: Seq<int>)
    requires
        catalog::catalog_wf(tasks),
    ensures
        is_chain(tasks, path) <==> schedule::is_path(planning::graph_of(tasks), path) && 0
            <= path[0] < tasks.len(),
{
    let g = planning::graph_of(tasks);
    reveal(is_chain);
    if is_chain(tasks, path) {
        assert forall|k: int| 0 <= k < path.len() - 1 implies schedule::edge(
            g,
            #[trigger] path[k],
            path[k + 1],
        ) by {
            lemma_listed_is_edge(tasks, path[k], path[k + 1]);
            assert(0 <= path[k + 1] < tasks.len());
        }
    }
    if schedule::is_path(g, path) && 0 <= path[0] < tasks.len() {
        assert forall|k: int| 0 <= k < path.len() implies 0 <= #[trigger] path[k]
            < tasks.len() by {
            if k > 0 {
                assert(schedule::edge(g, path[k - 1], path[k - 1 + 1]));
                lemma_listed_is_edge(tasks, path[k - 1], path[k]);
            }
        }
        assert forall|k: int, m: int| 0 <= k < path.len() - 1 && m == k + 1 implies tasks[
        #[trigger] path[k]].dependencies.contains(tasks[#[trigger] path[m]].id) by {
            assert(schedule::edge(g, path[k], path[k + 1]));
            lemma_listed_is_edge(tasks, path[k], path[k + 1]);
        }
    }
}

proof fn lemma_leads_is_needs(tasks: Seq<TaskModel>, a: int, x: int)
    requires
        catalog::catalog_wf(tasks),
        0 <= a < tasks.len(),
    ensures
        leads_to(tasks, a, x) <==> schedule::needs(planning::graph_of(tasks), a, x),
{
    let g = planning::graph_of(tasks);
    if leads_to(tasks, a, x) {
        let path = choose|path: Seq<int>|
            #[trigger] is_chain(tasks, path) && path[0] == a && path.last() == x;
        lemma_chain_is_path(tasks, path);
        assert(schedule::connects(g, path, a, x));
    }
    if schedule::needs(g, a, x) {
        let path = choose|path: Seq<int>| schedule::connects(g, path, a, x);
        lemma_chain_is_path(tasks, path);
    }
}

proof fn lemma_planned(tasks: Seq<TaskModel>, all: bool, requested: Seq<Text>, x: int)
    requires
        catalog::catalog_wf(tasks),
        0 <= x < tasks.len(),
    ensures
        planning::plan_outcome(tasks, all, requested) matches Ok(plan) ==> (plan.contains(tasks[x])
            <==> exists|a: int|
            0 <= a < tasks.len() && planning::asked_for(tasks, all, requested, a)
                && #[trigger] leads_to(tasks, a, x)),
{
    planning::plan_holds_exactly_what_is_called_for(tasks, all, requested, x);
    assert forall|a: int| 0 <= a < tasks.len() implies (#[trigger] leads_to(tasks, a, x)
        <==> schedule::needs(planning::graph_of(tasks), a, x)) by {
        lemma_leads_is_needs(tasks, a, x);
    }
    if planning::called_for(tasks, all, requested, x) {
        let a = choose|a: int|
            0 <= a < tasks.len() && #[trigger] planning::asked_for(tasks, all, requested, a)
                && schedule::needs(planning::graph_of(tasks), a, x);
        assert(leads_to(tasks, a, x));
    }
}

proof fn lemma_leads_to_itself(tasks: Seq<TaskModel>, x: int)
    requires
        0 <= x < tasks.len(),
    ensures
        leads_to(tasks, x, x),
{
    reveal(is_chain);
    assert(is_chain(tasks, seq![x]));
}

proof fn lemma_planned_are_tasks(tasks: Seq<TaskModel>, all: bool, requested: Seq<Text>)
    requires
        catalog::catalog_wf(tasks),
    ensures
        planning::plan_outcome(tasks, all, requested) matches Ok(plan) ==> {
            &&& forall|i: int| 0 <= i < plan.len() ==> tasks.contains(#[trigger] plan[i])
            &&& forall|i: int, j: int|
                0 <= i < j < plan.len() ==> #[trigger] plan[i] != #[trigger] plan[j]
        },
{
    planning::plan_runs_dependencies_first(tasks, all, requested);
    match planning::plan_outcome(tasks, all, requested) {
        Ok(plan) => {
            assert forall|i: int, j: int| 0 <= i < j < plan.len() implies #[trigger] plan[i]
                != #[trigger] plan[j] by {
                assert(plan[i].id != plan[j].id);
            }
        },
        Err(_) => {},
    }
}

/// Where nothing is requested, a plan holds every task that is selected by default,
/// every task that one of these depends on directly or through others, and nothing
/// else, each once.
pub proof fn plans_take_the_defaults_where_nothing_is_requested(tasks: Seq<TaskModel>)
    requires
        catalog::catalog_wf(tasks),
    ensures
        planning::plan_outcome(tasks, false, Seq::empty()) matches Ok(plan) ==> {
            &&& forall|x: int|
                0 <= x < tasks.len() && tasks[x].default_selected ==> #[trigger] plan.contains(
                    tasks[x],
                )
            &&& forall|x: int|
                0 <= x < tasks.len() ==> (#[trigger] plan.contains(tasks[x]) <==> exists|a: int|
                    0 <= a < tasks.len() && tasks[a].default_selected && #[trigger] leads_to(
                        tasks,
                        a,
                        x,
                    ))
            &&& forall|i: int| 0 <= i < plan.len() ==> tasks.contains(#[trigger] plan[i])
            &&& forall|i: int, j: int|
                0 <= i < j < plan.len() ==> #[trigger] plan[i] != #[trigger] plan[j]
        },
{
    let none = Seq::<Text>::empty();
    lemma_planned_are_tasks(tasks, false, none);
    match planning::plan_outcome(tasks, false, none) {
        Ok(plan) => {
            assert forall|x: int| 0 <= x < tasks.len() implies (#[trigger] plan.contains(tasks[x])
                <==> exists|a: int|
                0 <= a < tasks.len() && tasks[a].default_selected && #[trigger] leads_to(
                    tasks,
                    a,
                    x,
                )) by {
                lemma_planned(tasks, false, none, x);
                if plan.contains(tasks[x]) {
                    let a = choose|a: int|
                        0 <= a < tasks.len() && planning::asked_for(tasks, false, none, a)
                            && #[trigger] leads_to(tasks, a, x);
                    assert(tasks[a].default_selected && leads_to(tasks, a, x));
                }
            }
            assert forall|x: int|
                0 <= x < tasks.len() && tasks[x].default_selected implies #[trigger] plan.contains(
                tasks[x],
            ) by {
                lemma_leads_to_itself(tasks, x);
            }
        },
        Err(_) => {},
    }
}

/// Where ids are requested, a plan holds every task whose id is among them, every task
/// that one of these depends on directly or through others, and nothing else, each
/// once: what is selected by default does not matter.
pub proof fn plans_take_what_is_requested(tasks: Seq<TaskModel>, requested: Seq<Text>)
    requires
        catalog::catalog_wf(tasks),
        requested.len() > 0,
    ensures
        planning::plan_outcome(tasks, false, requested) matches Ok(plan) ==> {
            &&& forall|x: int|
                0 <= x < tasks.len() && requested.contains(tasks[x].id) ==> #[trigger] plan.contains(
                    tasks[x],
                )
            &&& forall|x: int|
                0 <= x < tasks.len() ==> (#[trigger] plan.contains(tasks[x]) <==> exists|a: int|
                    0 <= a < tasks.len() && requested.contains(tasks[a].id) && #[trigger] leads_to(
                        tasks,
                        a,
                        x,
                    ))
            &&& forall|i: int| 0 <= i < plan.len() ==> tasks.contains(#[trigger] plan[i])
            &&& forall|i: int, j: int|
                0 <= i < j < plan.len() ==> #[trigger] plan[i] != #[trigger] plan[j]
        },
{
    lemma_planned_are_tasks(tasks, false, requested);
    match planning::plan_outcome(tasks, false, requested) {
        Ok(plan) => {
            assert forall|x: int| 0 <= x < tasks.len() implies (#[trigger] plan.contains(tasks[x])
                <==> exists|a: int|
                0 <= a < tasks.len() && requested.contains(tasks[a].id) && #[trigger] leads_to(
                    tasks,
                    a,
                    x,
                )) by {
                lemma_planned(tasks, false, requested, x);
                if plan.contains(tasks[x]) {
                    let a = choose|a: int|
                        0 <= a < tasks.len() && planning::asked_for(tasks, false, requested, a)
                            && #[trigger] leads_to(tasks, a, x);
                    assert(requested.contains(tasks[a].id) && leads_to(tasks, a, x));
                }
            }
            assert forall|x: int|
                0 <= x < tasks.len() && requested.contains(tasks[x].id) implies #[trigger] plan.contains(
                tasks[x],
            ) by {
                lemma_leads_to_itself(tasks, x);
            }
        },
        Err(_) => {},
    }
}

/// A plan of all tasks holds every task of the catalog once and nothing else, whatever
/// is requested.
pub proof fn plans_of_all_take_every_task_once(tasks: Seq<TaskModel>, requested: Seq<Text>)
    requires
        catalog::catalog_wf(tasks),
    ensures
        planning::plan_outcome(tasks, true, requested) matches Ok(plan) ==> {
            &&& forall|x: int| 0 <= x < tasks.len() ==> plan.contains(#[trigger] tasks[x])
            &&& forall|i: int| 0 <= i < plan.len() ==> tasks.contains(#[trigger] plan[i])
            &&& forall|i: int, j: int|
                0 <= i < j < plan.len() ==> #[trigger] plan[i] != #[trigger] plan[j]
        },
{
    lemma_planned_are_tasks(tasks, true, requested);
    planning::plan_of_all_holds_every_task(tasks, requested);
}

/// In a plan every dependency that a task lists stands before the task.
pub proof fn plans_put_dependencies_first(
    tasks: Seq<TaskModel>,
    all: bool,
    requested: Seq<Text>,
)
    requires
        catalog::catalog_wf(tasks),
    ensures
        planning::plan_outcome(tasks, all, requested) matches Ok(plan) ==> forall|i: int, k: int|
            0 <= i < plan.len() && 0 <= k < plan[i].dependencies.len() ==> names_a_task(
                plan.take(i),
                #[trigger] plan[i].dependencies[k],
            ),
{
    planning::plan_runs_dependencies_first(tasks, all, requested);
    match planning::plan_outcome(tasks, all, requested) {
        Ok(plan) => {
            assert forall|i: int, k: int|
                0 <= i < plan.len() && 0 <= k < plan[i].dependencies.len() implies names_a_task(
                plan.take(i),
                #[trigger] plan[i].dependencies[k],
            ) by {
                assert(catalog::has_id(plan.take(i), plan[i].dependencies[k]));
            }
        },
        Err(_) => {},
    }
}

proof fn lemma_selected_in_turn(
    tasks: Seq<TaskModel>,
    all: bool,
    requested: Seq<Text>,
    i: int,
    j: int,
)
    requires
        catalog::catalog_wf(tasks),
        0 <= i < j < tasks.len(),
        planning::asked_for(tasks, all, requested, i),
        planning::asked_for(tasks, all, requested, j),
        forall|a: int|
            0 <= a <= i && planning::asked_for(tasks, all, requested, a) ==> !#[trigger] leads_to(
                tasks,
                a,
                j,
            ),
    ensures
        planning::plan_outcome(tasks, all, requested) matches Ok(plan) ==> comes_before(
            plan,
            tasks[i],
            tasks[j],
        ),
{
    let g = planning::graph_of(tasks);
    let chosen = planning::selection(tasks, all, requested, tasks.len());
    let up_to_i = planning::selection(tasks, all, requested, (i + 1) as nat);
    let before_j = planning::selection(tasks, all, requested, j as nat);
    let up_to_j = planning::selection(tasks, all, requested, (j + 1) as nat);
    planning::lemma_graph_wf(tasks);
    planning::lemma_selection(tasks, all, requested, tasks.len());
    planning::lemma_selection(tasks, all, requested, (i + 1) as nat);
    planning::lemma_selection_prefix(tasks, all, requested, (i + 1) as nat, j as nat);
    planning::lemma_selection_prefix(tasks, all, requested, (i + 1) as nat, tasks.len());
    planning::lemma_selection_prefix(tasks, all, requested, (j + 1) as nat, tasks.len());
    let a = up_to_i.len() - 1;
    let b = up_to_j.len() - 1;
    let before_i = planning::selection(tasks, all, requested, i as nat);
    assert(up_to_i == before_i.push(i));
    assert(up_to_j == before_j.push(j));
    assert(up_to_i[a] == i);
    assert(up_to_j[b] == j);
    assert(chosen[a] == up_to_i[a]);
    assert(chosen[b] == up_to_j[b]);
    assert(a < b);
    assert(chosen.take(a + 1) =~= up_to_i);
    if schedule::needed_by_any(g, up_to_i, j) {
        let k = choose|k: int|
            0 <= k < up_to_i.len() && schedule::needs(g, #[trigger] up_to_i[k], j);
        assert(up_to_i.contains(up_to_i[k]));
        lemma_leads_is_needs(tasks, up_to_i[k], j);
        assert(leads_to(tasks, up_to_i[k], j));
    }
    match planning::plan_outcome(tasks, all, requested) {
        Ok(plan) => {
            schedule::lemma_visits_in_turn(g, chosen, Set::empty(), Seq::empty(), a, b);
            let order = schedule::schedule(g, chosen)->Ok_0;
            let (m, n) = choose|m: int, n: int|
                0 <= m < n < order.len() && #[trigger] order[m] == i && #[trigger] order[n] == j;
            assert(plan[m] == tasks[i] && plan[n] == tasks[j]);
        },
        Err(_) => {},
    }
}

/// Tasks that are selected by default keep the order of the catalog in a plan, except
/// where one is needed by a task that is selected and does not come later.
pub proof fn plans_keep_the_order_of_the_defaults(tasks: Seq<TaskModel>, i: int, j: int)
    requires
        catalog::catalog_wf(tasks),
        0 <= i < j < tasks.len(),
        tasks[i].default_selected,
        tasks[j].default_selected,
        forall|a: int|
            0 <= a <= i && tasks[a].default_selected ==> !#[trigger] leads_to(tasks, a, j),
    ensures
        planning::plan_outcome(tasks, false, Seq::empty()) matches Ok(plan) ==> comes_before(
            plan,
            tasks[i],
            tasks[j],
        ),
{
    lemma_selected_in_turn(tasks, false, Seq::empty(), i, j);
}

/// Requested tasks keep the order of the catalog in a plan, except where one is needed
/// by a requested task that does not come later.
pub proof fn plans_keep_the_order_of_the_request(
    tasks: Seq<TaskModel>,
    requested: Seq<Text>,
    i: int,
    j: int,
)
    requires
        catalog::catalog_wf(tasks),
        0 <= i < j < tasks.len(),
        requested.contains(tasks[i].id),
        requested.contains(tasks[j].id),
        forall|a: int|
            0 <= a <= i && requested.contains(tasks[a].id) ==> !#[trigger] leads_to(tasks, a, j),
    ensures
        planning::plan_outcome(tasks, false, requested) matches Ok(plan) ==> comes_before(
            plan,
            tasks[i],
            tasks[j],
        ),
{
    lemma_selected_in_turn(tasks, false, requested, i, j);
}

/// A plan of all tasks keeps the order of the catalog, except where a task is needed
/// by one that does not come later.
pub proof fn plans_of_all_keep_the_order_of_the_catalog(
    tasks: Seq<TaskModel>,
    requested: Seq<Text>,
    i: int,
    j: int,
)
    requires
        catalog::catalog_wf(tasks),
        0 <= i < j < tasks.len(),
        forall|a: int| 0 <= a <= i ==> !#[trigger] leads_to(tasks, a, j),
    ensures
        planning::plan_outcome(tasks, true, requested) matches Ok(plan) ==> comes_before(
            plan,
            tasks[i],
            tasks[j],
        ),
{
    lemma_selected_in_turn(tasks, true, requested, i, j);
}

/// In the plan of one task its dependencies keep the order in which it lists them,
/// except where one is needed by a dependency that is not listed later.
pub proof fn plans_keep_the_order_of_dependencies(
    tasks: Seq<TaskModel>,
    t: int,
    x: int,
    y: int,
    a: int,
    b: int,
)
    requires
        catalog::catalog_wf(tasks),
        0 <= t < tasks.len(),
        0 <= x < tasks.len(),
        0 <= y < tasks.len(),
        0 <= a < b < tasks[t].dependencies.len(),
        tasks[t].dependencies[a] == tasks[x].id,
        tasks[t].dependencies[b] == tasks[y].id,
        forall|k: int, z: int|
            0 <= k <= a && 0 <= z < tasks.len() && #[trigger] tasks[t].dependencies[k]
                == tasks[z].id ==> !#[trigger] leads_to(tasks, z, y),
    ensures
        planning::plan_outcome(tasks, false, seq![tasks[t].id]) matches Ok(plan) ==> comes_before(
            plan,
            tasks[x],
            tasks[y],
        ),
{
    let requested = seq![tasks[t].id];
    let g = planning::graph_of(tasks);
    match planning::plan_outcome(tasks, false, requested) {
        Ok(plan) => {
            lemma_plan_of_one(tasks, t);
            let inner = Set::<int>::empty().insert(t);
            let first = schedule::visit_all(g, g[t], inner, Seq::empty())->Ok_0;
            planning::lemma_graph_wf(tasks);
            catalog::lemma_index_of(tasks, x);
            catalog::lemma_index_of(tasks, y);
            assert(g[t][a] == x && g[t][b] == y);
            lemma_depends_on_listed(g, t);
            if schedule::needed_by_any(g, g[t].take(a + 1), y) {
                let some = g[t].take(a + 1);
                let k = choose|k: int|
                    0 <= k < some.len() && schedule::needs(g, #[trigger] some[k], y);
                let z = some[k];
                assert(z == g[t][k]);
                assert(catalog::has_id(tasks, tasks[t].dependencies[k]));
                assert(tasks[t].dependencies[k] == tasks[z].id);
                lemma_leads_is_needs(tasks, z, y);
                assert(leads_to(tasks, z, y));
            }
            schedule::lemma_visits_in_turn(g, g[t], inner, Seq::empty(), a, b);
            let (m, n) = choose|m: int, n: int|
                0 <= m < n < first.len() && #[trigger] first[m] == x && #[trigger] first[n] == y;
            assert(plan[m] == tasks[x] && plan[n] == tasks[y]);
        },
        Err(_) => {},
    }
}

/// The plan of one task ends with that task.
pub proof fn plans_of_one_task_end_with_it(tasks: Seq<TaskModel>, t: int)
    requires
        catalog::catalog_wf(tasks),
        0 <= t < tasks.len(),
    ensures
        planning::plan_outcome(tasks, false, seq![tasks[t].id]) matches Ok(plan) ==> plan.len() > 0
            && plan.last() == tasks[t],
{
    if planning::plan_outcome(tasks, false, seq![tasks[t].id]) is Ok {
        lemma_plan_of_one(tasks, t);
    }
}

proof fn lemma_depends_on_listed(g: schedule::Graph, t: int)
    requires
        0 <= t < g.len(),
    ensures
        forall|v: int, k: int|
            Set::<int>::empty().insert(t).contains(v) && 0 <= k < g[t].len()
                ==> #[trigger] schedule::depends(g, v, g[t][k]),
{
    assert forall|v: int, k: int|
        Set::<int>::empty().insert(t).contains(v) && 0 <= k < g[t].len() implies
        #[trigger] schedule::depends(g, v, g[t][k]) by {
        let step = seq![t, g[t][k]];
        assert(g[t].contains(g[t][k]));
        assert(schedule::edge(g, step[0], step[0int + 1]));
        assert(schedule::connects(g, step, t, g[t][k]));
    }
}

proof fn lemma_plan_of_one(tasks: Seq<TaskModel>, t: int)
    requires
        catalog::catalog_wf(tasks),
        0 <= t < tasks.len(),
        planning::plan_outcome(tasks, false, seq![tasks[t].id]) is Ok,
    ensures
        ({
            let g = planning::graph_of(tasks);
            let plan = planning::plan_outcome(tasks, false, seq![tasks[t].id])->Ok_0;
            schedule::visit_all(g, g[t], Set::<int>::empty().insert(t), Seq::empty()) matches Ok(
                first,
            ) && plan == first.push(t).map_values(|i: int| tasks[i])
        }),
{
    let requested = seq![tasks[t].id];
    let g = planning::graph_of(tasks);
    let chosen = planning::selection(tasks, false, requested, tasks.len());
    lemma_only_selection(tasks, t, tasks.len());
    assert(chosen == seq![t]);
    let none = Set::<int>::empty();
    let start = Seq::<int>::empty();
    assert(chosen.drop_last() =~= start);
    schedule::lemma_idle_shrinks(g, none, t);
    assert(schedule::visit_all(g, start, none, start) == Ok::<Seq<int>, int>(start));
    assert(schedule::visit_all(g, chosen, none, start) == schedule::visit(g, t, none, start));
    let inner = none.insert(t);
    let whole = schedule::visit_all(g, g[t], inner, start);
    assert(schedule::visit(g, t, none, start) == (match whole {
        Ok(extended) => Ok::<Seq<int>, int>(extended.push(t)),
        Err(at) => Err(at),
    }));
}

proof fn lemma_only_selection(tasks: Seq<TaskModel>, t: int, count: nat)
    requires
        catalog::catalog_wf(tasks),
        0 <= t < tasks.len(),
        count <= tasks.len(),
    ensures
        planning::selection(tasks, false, seq![tasks[t].id], count) == if t < count {
            seq![t]
        } else {
            Seq::<int>::empty()
        },
    decreases count,
{
    if count > 0 {
        let requested = seq![tasks[t].id];
        lemma_only_selection(tasks, t, (count - 1) as nat);
        assert(requested[0] == tasks[t].id);
        assert(requested.contains(tasks[count - 1].id) <==> count - 1 == t) by {
            if requested.contains(tasks[count - 1].id) {
                catalog::lemma_ids_distinct(tasks, count - 1, t);
            }
        }
        assert(planning::selection(tasks, false, requested, count) =~= if t < count {
            seq![t]
        } else {
            Seq::<int>::empty()
        });
    }
}

/// The id at position `k` is the first of `ids` that no task has.
pub open spec fn is_first_unknown(tasks: Seq<TaskModel>, ids: Seq<Text>, k: int) -> bool {
    &&& 0 <= k < ids.len()
    &&& !names_a_task(tasks, ids[k])
    &&& forall|m: int| 0 <= m < k ==> names_a_task(tasks, #[trigger] ids[m])
}

proof fn lemma_first_missing_is_first(tasks: Seq<TaskModel>, ids: Seq<Text>)
    ensures
        catalog::first_missing(tasks, ids) matches Some(id) ==> exists|k: int|
            #[trigger] is_first_unknown(tasks, ids, k) && ids[k] == id,
        catalog::first_missing(tasks, ids) is None ==> forall|m: int|
            0 <= m < ids.len() ==> names_a_task(tasks, #[trigger] ids[m]),
    decreases ids.len(),
{
    assert forall|id: Text| #[trigger] catalog::has_id(tasks, id) == names_a_task(tasks, id) by {}
    if ids.len() > 0 {
        let init = ids.drop_last();
        lemma_first_missing_is_first(tasks, init);
        assert forall|m: int| 0 <= m < init.len() implies #[trigger] init[m] == ids[m] by {}
        match catalog::first_missing(tasks, init) {
            Some(id) => {
                let k = choose|k: int| #[trigger] is_first_unknown(tasks, init, k) && init[k] == id;
                assert forall|m: int| 0 <= m < k implies names_a_task(
                    tasks,
                    #[trigger] ids[m],
                ) by {
                    assert(names_a_task(tasks, init[m]));
                }
                assert(is_first_unknown(tasks, ids, k) && ids[k] == id);
            },
            None => {
                let last = ids.len() - 1;
                assert forall|m: int| 0 <= m < last implies names_a_task(
                    tasks,
                    #[trigger] ids[m],
                ) by {
                    assert(names_a_task(tasks, init[m]));
                }
                if !catalog::has_id(tasks, ids.last()) {
                    assert(is_first_unknown(tasks, ids, last));
                }
            },
        }
    }
}

/// A chain from a task that depends on itself back to it.
pub open spec fn is_circle(tasks: Seq<TaskModel>, path: Seq<int>) -> bool {
    is_chain(tasks, path) && path.len() >= 2 && path[0] == path.last()
}

/// A request is refused for an unknown id exactly where no task has one of the ids,
/// and the refusal names the first such id. A plan of all tasks is never refused so.
pub proof fn plans_are_refused_for_the_first_unknown_id(
    tasks: Seq<TaskModel>,
    requested: Seq<Text>,
)
    requires
        catalog::catalog_wf(tasks),
    ensures
        (exists|k: int| 0 <= k < requested.len() && !names_a_task(tasks, #[trigger] requested[k]))
            <==> (planning::plan_outcome(tasks, false, requested) matches Err(
            CatalogErrorModel::UnknownTask(_),
        )),
        planning::plan_outcome(tasks, false, requested) matches Err(
            CatalogErrorModel::UnknownTask(id),
        ) ==> exists|k: int| #[trigger] is_first_unknown(tasks, requested, k) && requested[k] == id,
        !(planning::plan_outcome(tasks, true, requested) matches Err(
            CatalogErrorModel::UnknownTask(_),
        )),
{
    lemma_first_missing_is_first(tasks, requested);
    if catalog::first_missing(tasks, requested) is Some {
        let k = choose|k: int| #[trigger] is_first_unknown(tasks, requested, k);
        assert(!names_a_task(tasks, requested[k]));
    }
}

proof fn lemma_circle_is_depends(tasks: Seq<TaskModel>, x: int)
    requires
        catalog::catalog_wf(tasks),
        0 <= x < tasks.len(),
    ensures
        schedule::depends(planning::graph_of(tasks), x, x) <==> exists|path: Seq<int>|
            #[trigger] is_circle(tasks, path) && path[0] == x,
{
    let g = planning::graph_of(tasks);
    if schedule::depends(g, x, x) {
        let path = choose|path: Seq<int>|
            #[trigger] schedule::connects(g, path, x, x) && path.len() >= 2;
        lemma_chain_is_path(tasks, path);
        assert(is_circle(tasks, path));
    }
    if exists|path: Seq<int>| #[trigger] is_circle(tasks, path) && path[0] == x {
        let path = choose|path: Seq<int>| #[trigger] is_circle(tasks, path) && path[0] == x;
        lemma_chain_is_path(tasks, path);
        assert(schedule::connects(g, path, x, x));
    }
}

proof fn lemma_no_unknown_id(tasks: Seq<TaskModel>, requested: Seq<Text>)
    requires
        forall|k: int| 0 <= k < requested.len() ==> names_a_task(tasks, #[trigger] requested[k]),
    ensures
        catalog::first_missing(tasks, requested) is None,
{
    lemma_first_missing_is_first(tasks, requested);
    if catalog::first_missing(tasks, requested) is Some {
        let k = choose|k: int| #[trigger] is_first_unknown(tasks, requested, k);
        assert(!names_a_task(tasks, requested[k]));
    }
}

proof fn lemma_refused_on_circles(tasks: Seq<TaskModel>, all: bool, requested: Seq<Text>)
    requires
        catalog::catalog_wf(tasks),
        all || catalog::first_missing(tasks, requested) is None,
    ensures
        planning::plan_outcome(tasks, all, requested) is Err <==> exists|a: int, path: Seq<int>|
            0 <= a < tasks.len() && planning::asked_for(tasks, all, requested, a)
                && #[trigger] is_circle(tasks, path) && #[trigger] leads_to(tasks, a, path[0]),
{
    let g = planning::graph_of(tasks);
    planning::plan_fails_exactly_on_unknown_ids_and_cycles(tasks, all, requested);
    if !all {
        catalog::lemma_first_missing(tasks, requested);
    }
    if planning::plan_outcome(tasks, all, requested) is Err {
        let x = choose|x: int|
            0 <= x < tasks.len() && planning::called_for(tasks, all, requested, x)
                && #[trigger] schedule::depends(g, x, x);
        lemma_circle_is_depends(tasks, x);
        let path = choose|path: Seq<int>| #[trigger] is_circle(tasks, path) && path[0] == x;
        let a = choose|a: int|
            0 <= a < tasks.len() && #[trigger] planning::asked_for(tasks, all, requested, a)
                && schedule::needs(g, a, x);
        lemma_leads_is_needs(tasks, a, x);
        assert(is_circle(tasks, path) && leads_to(tasks, a, path[0]));
    }
    if exists|a: int, path: Seq<int>|
        0 <= a < tasks.len() && planning::asked_for(tasks, all, requested, a)
            && #[trigger] is_circle(tasks, path) && #[trigger] leads_to(tasks, a, path[0]) {
        let (a, path) = choose|a: int, path: Seq<int>|
            0 <= a < tasks.len() && planning::asked_for(tasks, all, requested, a)
                && #[trigger] is_circle(tasks, path) && #[trigger] leads_to(tasks, a, path[0]);
        let x = path[0];
        lemma_chain_is_path(tasks, path);
        lemma_circle_is_depends(tasks, x);
        lemma_leads_is_needs(tasks, a, x);
        assert(planning::called_for(tasks, all, requested, x));
        assert(schedule::depends(g, x, x));
    }
}

proof fn lemma_refusal_names_a_meeting(tasks: Seq<TaskModel>, all: bool, requested: Seq<Text>)
    requires
        catalog::catalog_wf(tasks),
        all || catalog::first_missing(tasks, requested) is None,
    ensures
        planning::plan_outcome(tasks, all, requested) matches Err(error) ==> exists|
            path: Seq<int>,
        |
            #[trigger] is_chain(tasks, path) && 0 <= path[0] < tasks.len() && planning::asked_for(
                tasks,
                all,
                requested,
                path[0],
            ) && path.drop_last().no_duplicates() && path.drop_last().contains(path.last())
                && error == CatalogErrorModel::DependencyCycle(tasks[path.last()].id),
{
    let g = planning::graph_of(tasks);
    let chosen = planning::selection(tasks, all, requested, tasks.len());
    planning::lemma_graph_wf(tasks);
    planning::lemma_selection(tasks, all, requested, tasks.len());
    if planning::plan_outcome(tasks, all, requested) is Err {
        let none = Seq::<int>::empty();
        assert forall|k: int| 0 <= k < chosen.len() implies schedule::is_path(
            g,
            none.push(#[trigger] chosen[k]),
        ) by {}
        schedule::lemma_visit_all_closes(g, chosen, Set::empty(), none, none);
        let at = schedule::schedule(g, chosen)->Err_0;
        let (way, k) = choose|way: Seq<int>, k: int|
            way.last() == at && 0 <= k < chosen.len() && #[trigger] schedule::closes(
                g,
                way,
                none.push(chosen[k]),
            );
        assert(none.push(chosen[k])[0] == way[0]);
        assert(chosen.contains(chosen[k]));
        lemma_chain_is_path(tasks, way);
        assert(is_chain(tasks, way));
    }
}

/// Where nothing is requested, planning fails exactly where a task that is selected by
/// default leads to a task that depends on itself. The failure names the task at which
/// a chain from a default first meets itself.
pub proof fn plans_of_the_defaults_fail_exactly_on_circles(tasks: Seq<TaskModel>)
    requires
        catalog::catalog_wf(tasks),
    ensures
        planning::plan_outcome(tasks, false, Seq::empty()) is Err <==> exists|
            a: int,
            path: Seq<int>,
        |
            0 <= a < tasks.len() && tasks[a].default_selected && #[trigger] is_circle(tasks, path)
                && #[trigger] leads_to(tasks, a, path[0]),
        planning::plan_outcome(tasks, false, Seq::empty()) matches Err(error) ==> exists|
            path: Seq<int>,
        |
            #[trigger] is_chain(tasks, path) && tasks[path[0]].default_selected
                && path.drop_last().no_duplicates() && path.drop_last().contains(path.last())
                && error == CatalogErrorModel::DependencyCycle(tasks[path.last()].id),
{
    lemma_refused_on_circles(tasks, false, Seq::empty());
    lemma_refusal_names_a_meeting(tasks, false, Seq::empty());
}

/// Where known ids are requested, planning fails exactly where a requested task leads
/// to a task that depends on itself. The failure names the task at which a chain from
/// a requested task first meets itself.
pub proof fn plans_of_a_request_fail_exactly_on_circles(
    tasks: Seq<TaskModel>,
    requested: Seq<Text>,
)
    requires
        catalog::catalog_wf(tasks),
        requested.len() > 0,
        forall|k: int| 0 <= k < requested.len() ==> names_a_task(tasks, #[trigger] requested[k]),
    ensures
        planning::plan_outcome(tasks, false, requested) is Err <==> exists|a: int, path: Seq<int>|
            0 <= a < tasks.len() && requested.contains(tasks[a].id) && #[trigger] is_circle(
                tasks,
                path,
            ) && #[trigger] leads_to(tasks, a, path[0]),
        planning::plan_outcome(tasks, false, requested) matches Err(error) ==> exists|
            path: Seq<int>,
        |
            #[trigger] is_chain(tasks, path) && requested.contains(tasks[path[0]].id)
                && path.drop_last().no_duplicates() && path.drop_last().contains(path.last())
                && error == CatalogErrorModel::DependencyCycle(tasks[path.last()].id),
{
    lemma_no_unknown_id(tasks, requested);
    lemma_refused_on_circles(tasks, false, requested);
    lemma_refusal_names_a_meeting(tasks, false, requested);
    if planning::plan_outcome(tasks, false, requested) is Err {
        let (a, path) = choose|a: int, path: Seq<int>|
            0 <= a < tasks.len() && planning::asked_for(tasks, false, requested, a)
                && #[trigger] is_circle(tasks, path) && #[trigger] leads_to(tasks, a, path[0]);
        assert(requested.contains(tasks[a].id) && is_circle(tasks, path) && leads_to(
            tasks,
            a,
            path[0],
        ));
    }
}

/// A plan of all tasks fails exactly where some task depends on itself. The failure
/// names the task at which a chain first meets itself.
pub proof fn plans_of_all_fail_exactly_on_circles(tasks: Seq<TaskModel>, requested: Seq<Text>)
    requires
        catalog::catalog_wf(tasks),
    ensures
        planning::plan_outcome(tasks, true, requested) is Err <==> exists|path: Seq<int>|
            #[trigger] is_circle(tasks, path),
        planning::plan_outcome(tasks, true, requested) matches Err(error) ==> exists|
            path: Seq<int>,
        |
            #[trigger] is_chain(tasks, path) && path.drop_last().no_duplicates()
                && path.drop_last().contains(path.last()) && error
                == CatalogErrorModel::DependencyCycle(tasks[path.last()].id),
{
    lemma_refused_on_circles(tasks, true, requested);
    lemma_refusal_names_a_meeting(tasks, true, requested);
    if exists|path: Seq<int>| #[trigger] is_circle(tasks, path) {
        let path = choose|path: Seq<int>| #[trigger] is_circle(tasks, path);
        lemma_chain_is_path(tasks, path);
        lemma_leads_to_itself(tasks, path[0]);
        assert(planning::asked_for(tasks, true, requested, path[0]));
    }
}

/// Two of the tasks have the same id.
pub open spec fn share_an_id(tasks: Seq<TaskModel>, i: int, j: int) -> bool {
    0 <= i < j < tasks.len() && tasks[i].id == tasks[j].id
}

proof fn lemma_share_an_id(tasks: Seq<TaskModel>)
    ensures
        catalog::ids_repeat(tasks) <==> exists|i: int, j: int| #[trigger] share_an_id(tasks, i, j),
{
    if catalog::ids_repeat(tasks) {
        let (i, j) = choose|i: int, j: int|
            0 <= i < j < tasks.len() && #[trigger] tasks[i].id == #[trigger] tasks[j].id;
        assert(share_an_id(tasks, i, j));
    }
}

/// A catalog is built exactly where no two tasks have the same id and every id that a
/// task lists among its dependencies is that of a task. It then holds the same tasks,
/// each as often, by ascending id.
pub proof fn catalogs_hold_the_tasks_by_id(tasks: Seq<TaskModel>)
    ensures
        catalog::definitions_outcome(tasks) is Ok <==> (forall|i: int, j: int|
            !#[trigger] share_an_id(tasks, i, j)) && (forall|i: int, k: int|
            0 <= i < tasks.len() && 0 <= k < tasks[i].dependencies.len() ==> names_a_task(
                tasks,
                #[trigger] tasks[i].dependencies[k],
            )),
        catalog::definitions_outcome(tasks) matches Ok(all) ==> {
            &&& all.to_multiset() == tasks.to_multiset()
            &&& forall|i: int, j: int|
                0 <= i < j < all.len() ==> text::text_lt(
                    #[trigger] all[i].id,
                    #[trigger] all[j].id,
                )
        },
{
    lemma_share_an_id(tasks);
    catalog::catalog_keeps_every_task(tasks);
    catalog::catalog_fails_exactly_on_repeated_ids_and_unknown_dependencies(tasks);
    assert forall|id: Text| #[trigger] catalog::has_id(tasks, id) == names_a_task(tasks, id) by {}
}

proof fn lemma_gathered_before(manifests: Seq<Result<TaskModel, Text>>, f: int)
    requires
        0 <= f <= manifests.len(),
        forall|i: int| 0 <= i < f ==> (#[trigger] manifests[i]) is Ok,
        forall|i: int, j: int|
            0 <= i < j < f ==> (#[trigger] manifests[i])->Ok_0.id != (
            #[trigger] manifests[j])->Ok_0.id,
    ensures
        catalog::gathered(manifests.take(f)) matches Ok(all) && forall|id: Text| #[trigger]
            catalog::has_id(all, id) <==> exists|i: int|
                0 <= i < f && (#[trigger] manifests[i])->Ok_0.id == id,
{
    let some = manifests.take(f);
    let read = catalog::tasks_read(some);
    assert(catalog::all_read(read) =~= some);
    catalog::lemma_gathered_definitions(read);
    if catalog::ids_repeat(read) {
        let (i, j) = choose|i: int, j: int|
            0 <= i < j < read.len() && #[trigger] read[i].id == #[trigger] read[j].id;
        assert(manifests[i]->Ok_0.id == manifests[j]->Ok_0.id);
    }
    let all = catalog::gathered(some)->Ok_0;
    assert forall|id: Text| #[trigger] catalog::has_id(all, id) <==> exists|i: int|
        0 <= i < f && (#[trigger] manifests[i])->Ok_0.id == id by {
        if catalog::has_id(read, id) {
            let i = choose|i: int| 0 <= i < read.len() && #[trigger] read[i].id == id;
            assert(manifests[i]->Ok_0.id == id);
        }
        if exists|i: int| 0 <= i < f && (#[trigger] manifests[i])->Ok_0.id == id {
            let i = choose|i: int| 0 <= i < f && (#[trigger] manifests[i])->Ok_0.id == id;
            assert(read[i].id == id);
        }
    }
}

/// Loading stops at the first manifest that could not be read, and says why, or that
/// has the id of an earlier one, and names it.
pub proof fn loading_reports_the_first_fault(
    dir: Text,
    manifests: Seq<Result<TaskModel, Text>>,
    f: int,
)
    requires
        0 <= f < manifests.len(),
        forall|i: int| 0 <= i < f ==> (#[trigger] manifests[i]) is Ok,
        forall|i: int, j: int|
            0 <= i < j < f ==> (#[trigger] manifests[i])->Ok_0.id != (
            #[trigger] manifests[j])->Ok_0.id,
    ensures
        manifests[f] matches Err(reason) ==> catalog::load_outcome(dir, manifests) == Err::<
            Seq<TaskModel>,
            CatalogErrorModel,
        >(CatalogErrorModel::Manifest(reason)),
        manifests[f] matches Ok(task) ==> (exists|i: int|
            0 <= i < f && (#[trigger] manifests[i])->Ok_0.id == task.id)
            ==> catalog::load_outcome(dir, manifests) == Err::<Seq<TaskModel>, CatalogErrorModel>(
            CatalogErrorModel::DuplicateTask(task.id),
        ),
{
    lemma_gathered_before(manifests, f);
    let more = manifests.take(f + 1);
    assert(more.drop_last() =~= manifests.take(f));
    assert(more.last() == manifests[f]);
    if catalog::gathered(more) is Err {
        catalog::lemma_gathered_stops(manifests, f + 1);
    }
}

/// Manifests that were all read make the catalog of their tasks, if there are any.
/// Where there are none, loading names the directory.
pub proof fn loading_makes_the_catalog_of_the_tasks(dir: Text, tasks: Seq<TaskModel>)
    ensures
        ({
            let manifests = Seq::new(tasks.len(), |i: int| Ok::<TaskModel, Text>(tasks[i]));
            catalog::load_outcome(dir, manifests) == if tasks.len() == 0 {
                Err::<Seq<TaskModel>, CatalogErrorModel>(CatalogErrorModel::NoManifests(dir))
            } else {
                catalog::definitions_outcome(tasks)
            }
        }),
{
    let manifests = Seq::new(tasks.len(), |i: int| Ok::<TaskModel, Text>(tasks[i]));
    assert(manifests =~= catalog::all_read(tasks));
    catalog::lemma_gathered_definitions(tasks);
    match catalog::gathered(manifests) {
        Ok(all) => {
            vstd::seq_lib::to_multiset_len(all);
            vstd::seq_lib::to_multiset_len(tasks);
        },
        Err(_) => {},
    }
}

/// Where a later task has the id of an earlier one, building a catalog names the id of
/// the first such task.
pub proof fn catalogs_report_the_first_repeated_id(tasks: Seq<TaskModel>, f: int)
    requires
        0 <= f < tasks.len(),
        forall|i: int, j: int| #[trigger] share_an_id(tasks, i, j) ==> f <= j,
        exists|i: int| #[trigger] share_an_id(tasks, i, f),
    ensures
        catalog::definitions_outcome(tasks) == Err::<Seq<TaskModel>, CatalogErrorModel>(
            CatalogErrorModel::DuplicateTask(tasks[f].id),
        ),
{
    let manifests = catalog::all_read(tasks);
    assert forall|i: int, j: int| 0 <= i < j < f implies (#[trigger] manifests[i])->Ok_0.id != (
    #[trigger] manifests[j])->Ok_0.id by {
        assert(!share_an_id(tasks, i, j));
    }
    let i = choose|i: int| #[trigger] share_an_id(tasks, i, f);
    assert(manifests[i]->Ok_0.id == tasks[f].id);
    lemma_gathered_before(manifests, f);
    let more = manifests.take(f + 1);
    assert(more.drop_last() =~= manifests.take(f));
    assert(more.last() == manifests[f]);
    catalog::lemma_gathered_stops(manifests, f + 1);
}

proof fn lemma_first_unknown_is_missing(tasks: Seq<TaskModel>, ids: Seq<Text>, k: int)
    requires
        is_first_unknown(tasks, ids, k),
    ensures
        catalog::first_missing(tasks, ids) == Some(ids[k]),
{
    let before = ids.take(k);
    let more = ids.take(k + 1);
    catalog::lemma_first_missing(tasks, before);
    assert forall|m: int| 0 <= m < before.len() implies catalog::has_id(
        tasks,
        #[trigger] before[m],
    ) by {
        assert(before[m] == ids[m]);
        assert(names_a_task(tasks, ids[m]));
    }
    assert(more.drop_last() =~= before);
    assert(more.last() == ids[k]);
    assert(!catalog::has_id(tasks, ids[k])) by {
        assert(!names_a_task(tasks, ids[k]));
    }
    catalog::lemma_first_missing_stops(tasks, ids, k + 1);
}

/// Where ids are distinct, an unknown dependency is reported with the task that lists
/// it: of several such tasks the one with the smallest id, and its first unknown
/// dependency.
pub proof fn catalogs_report_the_first_unknown_dependency(tasks: Seq<TaskModel>, t: int, k: int)
    requires
        forall|i: int, j: int| !#[trigger] share_an_id(tasks, i, j),
        0 <= t < tasks.len(),
        is_first_unknown(tasks, tasks[t].dependencies, k),
        forall|i: int, m: int|
            0 <= i < tasks.len() && text::text_lt(tasks[i].id, tasks[t].id) && 0 <= m
                < tasks[i].dependencies.len() ==> names_a_task(
                tasks,
                #[trigger] tasks[i].dependencies[m],
            ),
    ensures
        catalog::definitions_outcome(tasks) == Err::<Seq<TaskModel>, CatalogErrorModel>(
            CatalogErrorModel::UnknownDependency {
                task: tasks[t].id,
                dependency: tasks[t].dependencies[k],
            },
        ),
{
    lemma_share_an_id(tasks);
    catalog::lemma_gathered_definitions(tasks);
    let all = catalog::gathered(catalog::all_read(tasks))->Ok_0;
    catalog::lemma_same_members(all, tasks);
    assert(all.contains(tasks[t]));
    let p = choose|p: int| 0 <= p < all.len() && all[p] == tasks[t];
    assert forall|id: Text| #[trigger] names_a_task(all, id) == names_a_task(tasks, id) by {
        assert(catalog::has_id(all, id) == catalog::has_id(tasks, id));
    }
    let ids = tasks[t].dependencies;
    assert(is_first_unknown(all, ids, k)) by {
        assert forall|m: int| 0 <= m < k implies names_a_task(all, #[trigger] ids[m]) by {
            assert(names_a_task(tasks, ids[m]));
        }
    }
    lemma_first_unknown_is_missing(all, ids, k);
    assert forall|i: int, m: int| 0 <= i < p && 0 <= m < all[i].dependencies.len() implies
        catalog::has_id(all, #[trigger] all[i].dependencies[m]) by {
        assert(text::text_lt(all[i].id, all[p].id));
        assert(tasks.contains(all[i]));
        let q = choose|q: int| 0 <= q < tasks.len() && tasks[q] == all[i];
        assert(names_a_task(tasks, tasks[q].dependencies[m]));
        assert(names_a_task(all, all[i].dependencies[m]));
    }
    catalog::lemma_first_unresolved(all, p as nat);
    catalog::lemma_first_unresolved_stops(all, (p + 1) as nat, all.len());
}

/// Each error is shown in words of its own, with the names that it holds.
pub proof fn errors_are_shown_in_words(first: Text, second: Text)
    ensures
        CatalogErrorModel::Manifest(first).message() == first,
        CatalogErrorModel::DuplicateTask(first).message() == "duplicate task id "@ + first,
        CatalogErrorModel::NoManifests(first).message() == "no task manifests found in "@ + first,
        (CatalogErrorModel::UnknownDependency { task: first, dependency: second }).message()
            == "task "@ + first + " references unknown dependency "@ + second,
        CatalogErrorModel::UnknownTask(first).message() == "unknown task "@ + first,
        CatalogErrorModel::DependencyCycle(first).message() == "dependency cycle detected at task "@
            + first,
{
}

/// The plans of these ids one after the other, each without the tasks that are there already.
pub open spec fn plans_in_turn(tasks: Seq<TaskModel>, ids: Seq<Text>) -> Seq<TaskModel>
    decreases ids.len(),
{
    if ids.len() == 0 {
        Seq::empty()
    } else {
        let before = plans_in_turn(tasks, ids.drop_last());
        let own = planning::plan_outcome(tasks, false, seq![ids.last()])->Ok_0;
        before + own.filter(|task: TaskModel| !before.contains(task))
    }
}

/// The tasks at these positions.
pub open spec fn tasks_at(tasks: Seq<TaskModel>, order: Seq<int>) -> Seq<TaskModel> {
    order.map_values(|i: int| tasks[i])
}

proof fn lemma_plan_is_schedule(tasks: Seq<TaskModel>, t: int)
    requires
        catalog::catalog_wf(tasks),
        0 <= t < tasks.len(),
        schedule::schedule(planning::graph_of(tasks), seq![t]) is Ok,
    ensures
        planning::plan_outcome(tasks, false, seq![tasks[t].id]) == Ok::<
            Seq<TaskModel>,
            CatalogErrorModel,
        >(tasks_at(tasks, schedule::schedule(planning::graph_of(tasks), seq![t])->Ok_0)),
{
    let requested = seq![tasks[t].id];
    lemma_only_selection(tasks, t, tasks.len());
    catalog::lemma_first_missing(tasks, requested);
    assert forall|k: int| 0 <= k < requested.len() implies catalog::has_id(
        tasks,
        #[trigger] requested[k],
    ) by {
        assert(tasks[t].id == requested[k]);
    }
}

proof fn lemma_same_members_at(tasks: Seq<TaskModel>, order: Seq<int>, x: int)
    requires
        catalog::catalog_wf(tasks),
        0 <= x < tasks.len(),
        forall|k: int| 0 <= k < order.len() ==> 0 <= #[trigger] order[k] < tasks.len(),
    ensures
        tasks_at(tasks, order).contains(tasks[x]) <==> order.contains(x),
{
    let there = tasks_at(tasks, order);
    if there.contains(tasks[x]) {
        let k = choose|k: int| 0 <= k < there.len() && there[k] == tasks[x];
        catalog::lemma_ids_distinct(tasks, order[k], x);
        assert(order[k] == x);
    }
    if order.contains(x) {
        let k = choose|k: int| 0 <= k < order.len() && order[k] == x;
        assert(there[k] == tasks[x]);
    }
}

proof fn lemma_tasks_without(tasks: Seq<TaskModel>, own: Seq<int>, before: Seq<int>)
    requires
        catalog::catalog_wf(tasks),
        forall|k: int| 0 <= k < own.len() ==> 0 <= #[trigger] own[k] < tasks.len(),
        forall|k: int| 0 <= k < before.len() ==> 0 <= #[trigger] before[k] < tasks.len(),
    ensures
        tasks_at(tasks, schedule::without(own, before)) == tasks_at(tasks, own).filter(
            |task: TaskModel| !tasks_at(tasks, before).contains(task),
        ),
    decreases own.len(),
{
    reveal(Seq::filter);
    let fresh = |task: TaskModel| !tasks_at(tasks, before).contains(task);
    if own.len() == 0 {
        assert(tasks_at(tasks, own) =~= Seq::empty());
        assert(tasks_at(tasks, schedule::without(own, before)) =~= Seq::empty());
    } else {
        let init = own.drop_last();
        let x = own.last();
        assert(x == own[own.len() - 1]);
        assert forall|k: int| 0 <= k < init.len() implies 0 <= #[trigger] init[k] < tasks.len() by {
            assert(init[k] == own[k]);
        }
        lemma_tasks_without(tasks, init, before);
        lemma_same_members_at(tasks, before, x);
        assert(tasks_at(tasks, own).drop_last() =~= tasks_at(tasks, init));
        assert(tasks_at(tasks, own).last() == tasks[x]);
        if !before.contains(x) {
            assert(tasks_at(tasks, schedule::without(init, before).push(x)) =~= tasks_at(
                tasks,
                schedule::without(init, before),
            ).push(tasks[x]));
        }
    }
}

proof fn lemma_plans_in_turn(
    tasks: Seq<TaskModel>,
    nodes: Seq<int>,
    ids: Seq<Text>,
    visiting: Set<int>,
)
    requires
        catalog::catalog_wf(tasks),
        nodes.len() == ids.len(),
        forall|k: int| 0 <= k < nodes.len() ==> 0 <= #[trigger] nodes[k] < tasks.len(),
        forall|k: int| 0 <= k < nodes.len() ==> tasks[#[trigger] nodes[k]].id == ids[k],
        forall|v: int, k: int|
            visiting.contains(v) && 0 <= k < nodes.len() ==> #[trigger] schedule::depends(
                planning::graph_of(tasks),
                v,
                nodes[k],
            ),
        schedule::visit_all(planning::graph_of(tasks), nodes, visiting, Seq::empty()) is Ok,
    ensures
        tasks_at(
            tasks,
            schedule::visit_all(planning::graph_of(tasks), nodes, visiting, Seq::empty())->Ok_0,
        ) == plans_in_turn(tasks, ids),
    decreases nodes.len(),
{
    let g = planning::graph_of(tasks);
    let none = Seq::<int>::empty();
    planning::lemma_graph_wf(tasks);
    if nodes.len() == 0 {
        assert(tasks_at(tasks, none) =~= Seq::empty());
    } else {
        let init = nodes.drop_last();
        let last = nodes.last();
        assert(last == nodes[nodes.len() - 1]);
        assert(ids.last() == tasks[last].id);
        assert forall|k: int| 0 <= k < init.len() implies #[trigger] init[k] == nodes[k] by {}
        assert forall|v: int, k: int| visiting.contains(v) && 0 <= k < init.len() implies
            #[trigger] schedule::depends(g, v, init[k]) by {
            assert(schedule::depends(g, v, nodes[k]));
        }
        schedule::lemma_visits_add_up(g, nodes, visiting);
        lemma_plans_in_turn(tasks, init, ids.drop_last(), visiting);
        lemma_plan_is_schedule(tasks, last);
        let before = schedule::visit_all(g, init, visiting, none)->Ok_0;
        let own = schedule::schedule(g, seq![last])->Ok_0;
        schedule::lemma_visit_all(g, init, visiting, none);
        schedule::lemma_visit_all(g, seq![last], Set::empty(), none);
        lemma_tasks_without(tasks, own, before);
        assert(tasks_at(tasks, before + schedule::without(own, before)) =~= tasks_at(tasks, before)
            + tasks_at(tasks, schedule::without(own, before)));
    }
}

/// The plan of one task goes through its dependencies in the order in which it lists them:
/// the plan of each is added, without what is there already, and then the task itself.
pub proof fn plans_go_from_dependency_to_dependency(tasks: Seq<TaskModel>, t: int)
    requires
        catalog::catalog_wf(tasks),
        0 <= t < tasks.len(),
    ensures
        planning::plan_outcome(tasks, false, seq![tasks[t].id]) matches Ok(plan) ==> plan
            == plans_in_turn(tasks, tasks[t].dependencies).push(tasks[t]),
{
    let g = planning::graph_of(tasks);
    if planning::plan_outcome(tasks, false, seq![tasks[t].id]) is Ok {
        lemma_plan_of_one(tasks, t);
        planning::lemma_graph_wf(tasks);
        lemma_depends_on_listed(g, t);
        let inner = Set::<int>::empty().insert(t);
        let first = schedule::visit_all(g, g[t], inner, Seq::empty())->Ok_0;
        assert forall|k: int| 0 <= k < g[t].len() implies 0 <= #[trigger] g[t][k] < tasks.len()
            && tasks[g[t][k]].id == tasks[t].dependencies[k] by {
            assert(catalog::has_id(tasks, tasks[t].dependencies[k]));
        }
        lemma_plans_in_turn(tasks, g[t], tasks[t].dependencies, inner);
        assert(first.push(t).map_values(|i: int| tasks[i]) =~= tasks_at(tasks, first).push(
            tasks[t],
        ));
    }
}

proof fn lemma_selected_in_turn_by_ids(
    tasks: Seq<TaskModel>,
    all: bool,
    requested: Seq<Text>,
    ids: Seq<Text>,
)
    requires
        catalog::catalog_wf(tasks),
        ({
            let chosen = planning::selection(tasks, all, requested, tasks.len());
            &&& chosen.len() == ids.len()
            &&& forall|k: int| 0 <= k < chosen.len() ==> tasks[#[trigger] chosen[k]].id == ids[k]
        }),
    ensures
        planning::plan_outcome(tasks, all, requested) matches Ok(plan) ==> plan == plans_in_turn(
            tasks,
            ids,
        ),
{
    let chosen = planning::selection(tasks, all, requested, tasks.len());
    planning::lemma_selection(tasks, all, requested, tasks.len());
    if planning::plan_outcome(tasks, all, requested) is Ok {
        assert forall|k: int| 0 <= k < chosen.len() implies 0 <= #[trigger] chosen[k]
            < tasks.len() by {
            assert(chosen.contains(chosen[k]));
        }
        lemma_plans_in_turn(tasks, chosen, ids, Set::empty());
    }
}

proof fn lemma_ids_of_selection(
    tasks: Seq<TaskModel>,
    all: bool,
    requested: Seq<Text>,
    count: nat,
    wanted: spec_fn(TaskModel) -> bool,
)
    requires
        count <= tasks.len(),
        forall|i: int|
            0 <= i < tasks.len() ==> #[trigger] planning::asked_for(tasks, all, requested, i)
                == wanted(tasks[i]),
    ensures
        planning::selection(tasks, all, requested, count).map_values(|i: int| tasks[i].id)
            == tasks.take(count as int).filter(wanted).map_values(|task: TaskModel| task.id),
    decreases count,
{
    reveal(Seq::filter);
    let at = |i: int| tasks[i].id;
    let named = |task: TaskModel| task.id;
    if count == 0 {
        assert(tasks.take(0) =~= Seq::empty());
        assert(planning::selection(tasks, all, requested, 0).map_values(at) =~= Seq::empty());
        assert(tasks.take(0).filter(wanted).map_values(named) =~= Seq::empty());
    } else {
        let less = (count - 1) as nat;
        let before = planning::selection(tasks, all, requested, less);
        lemma_ids_of_selection(tasks, all, requested, less, wanted);
        assert(tasks.take(count as int).drop_last() =~= tasks.take(less as int));
        assert(tasks.take(count as int).last() == tasks[less as int]);
        let kept = tasks.take(less as int).filter(wanted);
        if planning::asked_for(tasks, all, requested, less as int) {
            assert(before.push(less as int).map_values(at) =~= before.map_values(at).push(
                tasks[less as int].id,
            ));
            assert(kept.push(tasks[less as int]).map_values(named) =~= kept.map_values(named).push(
                tasks[less as int].id,
            ));
        }
    }
}

proof fn lemma_plan_by_ids(
    tasks: Seq<TaskModel>,
    all: bool,
    requested: Seq<Text>,
    wanted: spec_fn(TaskModel) -> bool,
)
    requires
        catalog::catalog_wf(tasks),
        forall|i: int|
            0 <= i < tasks.len() ==> #[trigger] planning::asked_for(tasks, all, requested, i)
                == wanted(tasks[i]),
    ensures
        planning::plan_outcome(tasks, all, requested) matches Ok(plan) ==> plan == plans_in_turn(
            tasks,
            tasks.filter(wanted).map_values(|task: TaskModel| task.id),
        ),
{
    let chosen = planning::selection(tasks, all, requested, tasks.len());
    let ids = tasks.filter(wanted).map_values(|task: TaskModel| task.id);
    lemma_ids_of_selection(tasks, all, requested, tasks.len(), wanted);
    assert(tasks.take(tasks.len() as int) =~= tasks);
    assert(chosen.map_values(|i: int| tasks[i].id) == ids);
    assert forall|k: int| 0 <= k < chosen.len() implies tasks[#[trigger] chosen[k]].id
        == ids[k] by {
        assert(chosen.map_values(|i: int| tasks[i].id)[k] == tasks[chosen[k]].id);
    }
    lemma_selected_in_turn_by_ids(tasks, all, requested, ids);
}

/// A plan goes through the tasks that are asked for in the order of the catalog: the
/// requested ones, or those that are selected by default, or all. The plan of each is added,
/// without what is there already.
pub proof fn plans_go_from_task_to_task(tasks: Seq<TaskModel>, requested: Seq<Text>)
    requires
        catalog::catalog_wf(tasks),
    ensures
        requested.len() > 0 ==> (planning::plan_outcome(tasks, false, requested) matches Ok(plan)
            ==> plan == plans_in_turn(
            tasks,
            tasks.filter(|task: TaskModel| requested.contains(task.id)).map_values(
                |task: TaskModel| task.id,
            ),
        )),
        planning::plan_outcome(tasks, false, Seq::empty()) matches Ok(plan) ==> plan
            == plans_in_turn(
            tasks,
            tasks.filter(|task: TaskModel| task.default_selected).map_values(
                |task: TaskModel| task.id,
            ),
        ),
        planning::plan_outcome(tasks, true, requested) matches Ok(plan) ==> plan == plans_in_turn(
            tasks,
            tasks.filter(|task: TaskModel| true).map_values(|task: TaskModel| task.id),
        ),
{
    if requested.len() > 0 {
        lemma_plan_by_ids(
            tasks,
            false,
            requested,
            |task: TaskModel| requested.contains(task.id),
        );
    }
    lemma_plan_by_ids(tasks, false, Seq::empty(), |task: TaskModel| task.default_selected);
    lemma_plan_by_ids(tasks, true, requested, |task: TaskModel| true);
}

} // verus!
