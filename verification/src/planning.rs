//! Execution plans: which tasks run, and in what order.

use crate::catalog;
use crate::catalog::{
    find_missing, find_task, Catalog, CatalogError, CatalogErrorModel, ExecutionPlan,
    TaskDefinition, TaskModel,
};
use crate::schedule;
use crate::text::{contains_text, Text};
use vstd::prelude::*;

verus! {

/// The catalog as a graph: task `i` lists the positions of its dependencies.
pub open spec fn graph_of(tasks: Seq<TaskModel>) -> schedule::Graph {
    Seq::new(
        tasks.len(),
        |i: int| tasks[i].dependencies.map_values(|id: Text| catalog::index_of(tasks, id)),
    )
}

/// Task `i` is asked for: all tasks are, or the listed ones, or, where nothing
/// is listed, those that are selected by default.
pub open spec fn asked_for(tasks: Seq<TaskModel>, all: bool, requested: Seq<Text>, i: int) -> bool {
    if all {
        true
    } else if requested.len() == 0 {
        tasks[i].default_selected
    } else {
        requested.contains(tasks[i].id)
    }
}

/// The positions below `count` that are asked for, ascending.
pub open spec fn selection(
    tasks: Seq<TaskModel>,
    all: bool,
    requested: Seq<Text>,
    count: nat,
) -> Seq<int>
    decreases count,
{
    if count == 0 {
        Seq::empty()
    } else {
        let before = selection(tasks, all, requested, (count - 1) as nat);
        if asked_for(tasks, all, requested, count - 1) {
            before.push(count - 1)
        } else {
            before
        }
    }
}

/// A plan, or why there is none: the first requested id that is unknown, or a
/// task at which a dependency cycle closes.
pub open spec fn plan_outcome(tasks: Seq<TaskModel>, all: bool, requested: Seq<Text>) -> Result<
    Seq<TaskModel>,
    CatalogErrorModel,
> {
    let unknown = if all {
        None
    } else {
        catalog::first_missing(tasks, requested)
    };
    match unknown {
        Some(id) => Err(CatalogErrorModel::UnknownTask(id)),
        None => match schedule::schedule(
            graph_of(tasks),
            selection(tasks, all, requested, tasks.len()),
        ) {
            Ok(order) => Ok(order.map_values(|i: int| tasks[i])),
            Err(at) => Err(CatalogErrorModel::DependencyCycle(tasks[at].id)),
        },
    }
}

/// A plan, or why there is none, as content.
pub open spec fn plan_result(res: Result<ExecutionPlan, CatalogError>) -> Result<
    Seq<TaskModel>,
    CatalogErrorModel,
> {
    match res {
        Ok(plan) => Ok(plan@),
        Err(error) => Err(error@),
    }
}

pub proof fn lemma_graph_wf(tasks: Seq<TaskModel>)
    requires
        catalog::catalog_wf(tasks),
    ensures
        schedule::graph_wf(graph_of(tasks)),
{
    let g = graph_of(tasks);
    assert forall|i: int, k: int| 0 <= i < g.len() && 0 <= k < g[i].len() implies 0
        <= #[trigger] g[i][k] < g.len() by {
        assert(catalog::has_id(tasks, tasks[i].dependencies[k]));
    }
}

pub proof fn lemma_selection(tasks: Seq<TaskModel>, all: bool, requested: Seq<Text>, count: nat)
    requires
        count <= tasks.len(),
    ensures
        schedule::nodes_in(graph_of(tasks), selection(tasks, all, requested, count)),
        forall|i: int| #[trigger]
            selection(tasks, all, requested, count).contains(i) <==> 0 <= i < count && asked_for(
                tasks,
                all,
                requested,
                i,
            ),
    decreases count,
{
    if count > 0 {
        lemma_selection(tasks, all, requested, (count - 1) as nat);
        let before = selection(tasks, all, requested, (count - 1) as nat);
        let now = selection(tasks, all, requested, count);
        assert forall|i: int| #[trigger] now.contains(i) <==> 0 <= i < count && asked_for(
            tasks,
            all,
            requested,
            i,
        ) by {
            if now.contains(i) {
                let k = choose|k: int| 0 <= k < now.len() && now[k] == i;
                if k < before.len() {
                    assert(before[k] == i);
                    assert(before.contains(i));
                }
            }
            if 0 <= i < count && asked_for(tasks, all, requested, i) {
                if i < count - 1 {
                    assert(before.contains(i));
                    let k = choose|k: int| 0 <= k < before.len() && before[k] == i;
                    assert(now[k] == i);
                } else {
                    assert(now.last() == i);
                }
            }
        }
    }
}

/// Once visiting a prefix fails, visiting the rest changes nothing.
proof fn lemma_visit_all_stops(
    g: schedule::Graph,
    nodes: Seq<int>,
    count: int,
    visiting: Set<int>,
    order: Seq<int>,
)
    requires
        0 <= count <= nodes.len(),
        schedule::visit_all(g, nodes.take(count), visiting, order) is Err,
    ensures
        schedule::visit_all(g, nodes, visiting, order) == schedule::visit_all(
            g,
            nodes.take(count),
            visiting,
            order,
        ),
    decreases nodes.len() - count,
{
    if count == nodes.len() {
        assert(nodes.take(count) =~= nodes);
    } else {
        assert(nodes.take(count + 1).drop_last() =~= nodes.take(count));
        lemma_visit_all_stops(g, nodes, count + 1, visiting, order);
    }
}

/// The marked positions.
pub open spec fn marked(marks: Seq<bool>) -> Set<int> {
    Set::new(|i: int| 0 <= i < marks.len() && marks[i])
}

/// Positions as integers.
pub open spec fn positions(order: Seq<usize>) -> Seq<int> {
    order.map_values(|i: usize| i as int)
}

fn contains_position(order: &Vec<usize>, node: usize) -> (res: bool)
    ensures
        res == positions(order@).contains(node as int),
{
    let mut i: usize = 0;
    while i < order.len()
        invariant
            i <= order.len(),
            forall|k: int| 0 <= k < i ==> positions(order@)[k] != node as int,
        decreases order.len() - i,
    {
        if order[i] == node {
            assert(positions(order@)[i as int] == node as int);
            return true;
        }
        i += 1;
    }
    false
}

/// Visits task `node` and what it still needs.
fn visit(
    tasks: &Vec<TaskDefinition>,
    node: usize,
    visiting: &mut Vec<bool>,
    order: &mut Vec<usize>,
) -> (res: Result<(), usize>)
    requires
        catalog::catalog_wf(tasks.deep_view()),
        node < tasks.len(),
        old(visiting)@.len() == tasks.len(),
    ensures
        match res {
            Ok(()) => schedule::visit(
                graph_of(tasks.deep_view()),
                node as int,
                marked(old(visiting)@),
                positions(old(order)@),
            ) == Ok::<Seq<int>, int>(positions(final(order)@)) && final(visiting)@ == old(
                visiting,
            )@,
            Err(at) => schedule::visit(
                graph_of(tasks.deep_view()),
                node as int,
                marked(old(visiting)@),
                positions(old(order)@),
            ) == Err::<Seq<int>, int>(at as int) && at < tasks.len(),
        },
        final(visiting)@.len() == tasks.len(),
        schedule::nodes_in(graph_of(tasks.deep_view()), positions(old(order)@))
            ==> schedule::nodes_in(graph_of(tasks.deep_view()), positions(final(order)@)),
    decreases schedule::idle(graph_of(tasks.deep_view()), marked(old(visiting)@)).len(),
{
    let ghost g = graph_of(tasks.deep_view());
    let ghost outer = marked(visiting@);
    let ghost start = positions(order@);
    if contains_position(order, node) {
        return Ok(());
    }
    if visiting[node] {
        return Err(node);
    }
    proof {
        schedule::lemma_idle_shrinks(g, outer, node as int);
    }
    visiting.set(node, true);
    let ghost inner = outer.insert(node as int);
    assert(marked(visiting@) =~= inner);
    let ghost nodes = g[node as int];
    let ghost entered = visiting@;
    let dependencies = &tasks[node].dependencies;
    let mut k: usize = 0;
    assert(nodes.take(0) =~= Seq::empty());
    while k < dependencies.len()
        invariant
            k <= dependencies.len(),
            node < tasks.len(),
            dependencies == tasks@[node as int].dependencies,
            catalog::catalog_wf(tasks.deep_view()),
            g == graph_of(tasks.deep_view()),
            nodes == g[node as int],
            visiting@ == entered,
            visiting@.len() == tasks.len(),
            inner == marked(visiting@),
            schedule::idle(g, inner).len() < schedule::idle(g, marked(old(visiting)@)).len(),
            start == positions(old(order)@),
            schedule::visit_all(g, nodes.take(k as int), inner, start) == Ok::<Seq<int>, int>(
                positions(order@),
            ),
            schedule::visit(g, node as int, marked(old(visiting)@), start) == (
                match schedule::visit_all(g, nodes, inner, start) {
                Ok(extended) => Ok::<Seq<int>, int>(extended.push(node as int)),
                Err(at) => Err(at),
            }),
            schedule::nodes_in(g, positions(old(order)@)) ==> schedule::nodes_in(
                g,
                positions(order@),
            ),
        decreases dependencies.len() - k,
    {
        proof {
            assert(catalog::has_id(
                tasks.deep_view(),
                tasks.deep_view()[node as int].dependencies[k as int],
            ));
            assert(nodes.take(k + 1).drop_last() =~= nodes.take(k as int));
            assert(nodes.take(k + 1).last() == catalog::index_of(
                tasks.deep_view(),
                dependencies@[k as int]@,
            ));
        }
        match find_task(tasks, dependencies[k].as_str()) {
            Some(next) => {
                proof {
                    catalog::lemma_index_of(tasks.deep_view(), next as int);
                }
                match visit(tasks, next, visiting, order) {
                    Ok(()) => {},
                    Err(at) => {
                        proof {
                            lemma_visit_all_stops(g, nodes, k + 1, inner, start);
                        }
                        return Err(at);
                    },
                }
            },
            None => {
                assert(false);
            },
        }
        k += 1;
    }
    assert(nodes.take(nodes.len() as int) =~= nodes);
    let ghost extended = positions(order@);
    visiting.set(node, false);
    order.push(node);
    assert(positions(order@) =~= extended.push(node as int));
    assert(visiting@ =~= old(visiting)@);
    Ok(())
}

impl Catalog {
    /// A plan of the requested tasks and everything they depend on, each after
    /// its dependencies: of all tasks where `all` is set, of the tasks that are
    /// selected by default where nothing is requested.
    pub fn plan(&self, all: bool, requested: &Vec<String>) -> (res: Result<
        ExecutionPlan,
        CatalogError,
    >)
        ensures
            plan_result(res) == plan_outcome(self@, all, requested.deep_view()),
    {
        let tasks = self.tasks();
        let ghost model = tasks.deep_view();
        let ghost g = graph_of(model);
        let ghost wanted = requested.deep_view();
        proof {
            lemma_graph_wf(model);
        }
        if !all {
            match find_missing(tasks, requested) {
                Some(id) => {
                    return Err(CatalogError::UnknownTask(id));
                },
                None => {},
            }
        }
        let mut visiting: Vec<bool> = Vec::new();
        let mut fill: usize = 0;
        while fill < tasks.len()
            invariant
                fill <= tasks.len(),
                visiting@.len() == fill,
                forall|i: int| 0 <= i < fill ==> !visiting@[i],
            decreases tasks.len() - fill,
        {
            visiting.push(false);
            fill += 1;
        }
        assert(marked(visiting@) =~= Set::empty());
        let mut order: Vec<usize> = Vec::new();
        assert(positions(order@) =~= Seq::empty());
        let mut i: usize = 0;
        while i < tasks.len()
            invariant
                i <= tasks.len(),
                model == tasks.deep_view(),
                model == self@,
                catalog::catalog_wf(model),
                g == graph_of(model),
                wanted == requested.deep_view(),
                visiting@.len() == tasks.len(),
                marked(visiting@) =~= Set::<int>::empty(),
                all || catalog::first_missing(model, wanted) is None,
                schedule::visit_all(
                    g,
                    selection(model, all, wanted, i as nat),
                    Set::empty(),
                    Seq::empty(),
                ) == Ok::<Seq<int>, int>(positions(order@)),
                schedule::nodes_in(g, positions(order@)),
            decreases tasks.len() - i,
        {
            let chosen = if all {
                true
            } else if requested.len() == 0 {
                tasks[i].default_selected
            } else {
                contains_text(requested, tasks[i].id.as_str())
            };
            if chosen {
                let ghost before = selection(model, all, wanted, i as nat);
                let ghost now = selection(model, all, wanted, (i + 1) as nat);
                assert(now.drop_last() =~= before);
                match visit(tasks, i, &mut visiting, &mut order) {
                    Ok(()) => {},
                    Err(at) => {
                        proof {
                            lemma_selection_prefix(model, all, wanted, (i + 1) as nat, model.len());
                            let whole = selection(model, all, wanted, model.len());
                            assert(whole.take(now.len() as int) =~= now);
                            lemma_visit_all_stops(
                                g,
                                whole,
                                now.len() as int,
                                Set::empty(),
                                Seq::empty(),
                            );
                        }
                        let id = tasks[at].id.clone();
                        return Err(CatalogError::DependencyCycle(id));
                    },
                }
            }
            i += 1;
        }
        let mut planned: Vec<TaskDefinition> = Vec::new();
        let ghost sequence = positions(order@).map_values(|k: int| model[k]);
        let mut k: usize = 0;
        while k < order.len()
            invariant
                k <= order.len(),
                model == tasks.deep_view(),
                g == graph_of(model),
                schedule::nodes_in(g, positions(order@)),
                sequence == positions(order@).map_values(|k: int| model[k]),
                planned.deep_view() =~= sequence.take(k as int),
            decreases order.len() - k,
        {
            assert(positions(order@)[k as int] == order@[k as int]);
            let ghost before = planned.deep_view();
            let task = tasks[order[k]].clone();
            planned.push(task);
            assert(planned.deep_view() =~= before.push(sequence[k as int]));
            k += 1;
        }
        assert(sequence.take(sequence.len() as int) =~= sequence);
        Ok(ExecutionPlan { tasks: planned })
    }
}

/// A shorter selection starts a longer one.
pub proof fn lemma_selection_prefix(
    tasks: Seq<TaskModel>,
    all: bool,
    requested: Seq<Text>,
    count: nat,
    total: nat,
)
    requires
        count <= total,
    ensures
        selection(tasks, all, requested, count).is_prefix_of(
            selection(tasks, all, requested, total),
        ),
    decreases total - count,
{
    if count < total {
        lemma_selection_prefix(tasks, all, requested, count + 1, total);
    }
}

/// Task `x` is asked for, or a task that is asked for depends on it directly
/// or through other tasks.
pub open spec fn called_for(
    tasks: Seq<TaskModel>,
    all: bool,
    requested: Seq<Text>,
    x: int,
) -> bool {
    exists|i: int|
        0 <= i < tasks.len() && #[trigger] asked_for(tasks, all, requested, i) && schedule::needs(
            graph_of(tasks),
            i,
            x,
        )
}

proof fn lemma_called_for(tasks: Seq<TaskModel>, all: bool, requested: Seq<Text>, x: int)
    ensures
        called_for(tasks, all, requested, x) <==> schedule::needed_by_any(
            graph_of(tasks),
            selection(tasks, all, requested, tasks.len()),
            x,
        ),
{
    let chosen = selection(tasks, all, requested, tasks.len());
    let g = graph_of(tasks);
    lemma_selection(tasks, all, requested, tasks.len());
    if called_for(tasks, all, requested, x) {
        let i = choose|i: int|
            0 <= i < tasks.len() && #[trigger] asked_for(tasks, all, requested, i)
                && schedule::needs(g, i, x);
        assert(chosen.contains(i));
        let k = choose|k: int| 0 <= k < chosen.len() && chosen[k] == i;
        assert(schedule::needs(g, chosen[k], x));
    }
    if schedule::needed_by_any(g, chosen, x) {
        let k = choose|k: int| 0 <= k < chosen.len() && schedule::needs(g, #[trigger] chosen[k], x);
        assert(chosen.contains(chosen[k]));
        assert(asked_for(tasks, all, requested, chosen[k]));
    }
}

/// A plan names no task twice, takes every task from the catalog, and runs
/// every task after all of its dependencies.
pub proof fn plan_runs_dependencies_first(
    tasks: Seq<TaskModel>,
    all: bool,
    requested: Seq<Text>,
)
    requires
        catalog::catalog_wf(tasks),
    ensures
        plan_outcome(tasks, all, requested) matches Ok(plan) ==> {
            &&& forall|i: int, j: int|
                0 <= i < j < plan.len() ==> #[trigger] plan[i].id != #[trigger] plan[j].id
            &&& forall|i: int| 0 <= i < plan.len() ==> tasks.contains(#[trigger] plan[i])
            &&& forall|i: int, k: int|
                0 <= i < plan.len() && 0 <= k < plan[i].dependencies.len() ==> catalog::has_id(
                    plan.take(i),
                    #[trigger] plan[i].dependencies[k],
                )
        },
{
    let g = graph_of(tasks);
    let chosen = selection(tasks, all, requested, tasks.len());
    lemma_graph_wf(tasks);
    lemma_selection(tasks, all, requested, tasks.len());
    schedule::schedule_is_complete_and_ordered(g, chosen);
    match plan_outcome(tasks, all, requested) {
        Ok(plan) => {
            let order = schedule::schedule(g, chosen)->Ok_0;
            assert forall|i: int, j: int| 0 <= i < j < plan.len() implies #[trigger] plan[i].id
                != #[trigger] plan[j].id by {
                if plan[i].id == plan[j].id {
                    catalog::lemma_ids_distinct(tasks, order[i], order[j]);
                }
            }
            assert forall|i: int, k: int|
                0 <= i < plan.len() && 0 <= k < plan[i].dependencies.len() implies catalog::has_id(
                plan.take(i),
                #[trigger] plan[i].dependencies[k],
            ) by {
                let id = plan[i].dependencies[k];
                let d = g[order[i]][k];
                assert(catalog::has_id(tasks, tasks[order[i]].dependencies[k]));
                assert(d == catalog::index_of(tasks, id));
                assert(schedule::edge(g, order[i], d));
                assert(order.take(i).contains(d));
                let m = choose|m: int| 0 <= m < order.take(i).len() && order.take(i)[m] == d;
                assert(plan.take(i)[m].id == id);
            }
        },
        Err(_) => {},
    }
}

/// A plan holds exactly the tasks that are asked for and those that they
/// depend on.
pub proof fn plan_holds_exactly_what_is_called_for(
    tasks: Seq<TaskModel>,
    all: bool,
    requested: Seq<Text>,
    x: int,
)
    requires
        catalog::catalog_wf(tasks),
        0 <= x < tasks.len(),
    ensures
        plan_outcome(tasks, all, requested) matches Ok(plan) ==> (plan.contains(tasks[x])
            <==> called_for(tasks, all, requested, x)),
{
    let g = graph_of(tasks);
    let chosen = selection(tasks, all, requested, tasks.len());
    lemma_graph_wf(tasks);
    lemma_selection(tasks, all, requested, tasks.len());
    lemma_called_for(tasks, all, requested, x);
    schedule::schedule_is_complete_and_ordered(g, chosen);
    match plan_outcome(tasks, all, requested) {
        Ok(plan) => {
            let order = schedule::schedule(g, chosen)->Ok_0;
            if order.contains(x) {
                let m = choose|m: int| 0 <= m < order.len() && order[m] == x;
                assert(plan[m] == tasks[x]);
            }
            if plan.contains(tasks[x]) {
                let m = choose|m: int| 0 <= m < plan.len() && plan[m] == tasks[x];
                catalog::lemma_ids_distinct(tasks, order[m], x);
                assert(order.contains(x));
            }
        },
        Err(_) => {},
    }
}

/// Planning fails exactly when a requested id is unknown or a task that is
/// called for depends on itself. The failure names the first unknown id, or
/// such a task.
pub proof fn plan_fails_exactly_on_unknown_ids_and_cycles(
    tasks: Seq<TaskModel>,
    all: bool,
    requested: Seq<Text>,
)
    requires
        catalog::catalog_wf(tasks),
    ensures
        plan_outcome(tasks, all, requested) is Err <==> ({
            ||| !all && exists|k: int|
                0 <= k < requested.len() && !catalog::has_id(tasks, #[trigger] requested[k])
            ||| exists|x: int|
                0 <= x < tasks.len() && called_for(tasks, all, requested, x)
                    && #[trigger] schedule::depends(graph_of(tasks), x, x)
        }),
        plan_outcome(tasks, all, requested) matches Err(error) ==> match error {
            CatalogErrorModel::UnknownTask(id) => !all && requested.contains(id)
                && !catalog::has_id(tasks, id),
            CatalogErrorModel::DependencyCycle(id) => exists|x: int|
                0 <= x < tasks.len() && tasks[x].id == id && called_for(tasks, all, requested, x)
                    && #[trigger] schedule::depends(graph_of(tasks), x, x),
            _ => false,
        },
{
    let g = graph_of(tasks);
    let chosen = selection(tasks, all, requested, tasks.len());
    lemma_graph_wf(tasks);
    lemma_selection(tasks, all, requested, tasks.len());
    schedule::schedule_fails_exactly_on_cycles(g, chosen);
    catalog::lemma_first_missing(tasks, requested);
    assert forall|x: int| called_for(tasks, all, requested, x) <==> schedule::needed_by_any(
        g,
        chosen,
        x,
    ) by {
        lemma_called_for(tasks, all, requested, x);
    }
    if all || catalog::first_missing(tasks, requested) is None {
        match schedule::schedule(g, chosen) {
            Ok(_) => {},
            Err(at) => {
                lemma_needed_in_graph(tasks, at);
                assert(schedule::depends(g, at, at));
            },
        }
    }
}

proof fn lemma_needed_in_graph(tasks: Seq<TaskModel>, x: int)
    requires
        schedule::depends(graph_of(tasks), x, x),
    ensures
        0 <= x < tasks.len(),
{
    let g = graph_of(tasks);
    let path = choose|path: Seq<int>|
        #[trigger] schedule::connects(g, path, x, x) && path.len() >= 2;
    assert(schedule::edge(g, path[0], path[0int + 1]));
}

/// Ids may be requested in any order and repeatedly: where all are known the plan,
/// or the failure to make one, is the same, and where one is unknown both
/// requests are refused for an unknown id.
pub proof fn plan_ignores_order_and_repetition(
    tasks: Seq<TaskModel>,
    first: Seq<Text>,
    second: Seq<Text>,
)
    requires
        forall|id: Text| #[trigger] first.contains(id) <==> second.contains(id),
    ensures
        (forall|k: int| 0 <= k < first.len() ==> catalog::has_id(tasks, #[trigger] first[k]))
            ==> plan_outcome(tasks, false, first) == plan_outcome(tasks, false, second),
        (exists|k: int| 0 <= k < first.len() && !catalog::has_id(tasks, #[trigger] first[k])) ==> {
            &&& plan_outcome(tasks, false, first) matches Err(error) && error is UnknownTask
            &&& plan_outcome(tasks, false, second) matches Err(error) && error is UnknownTask
        },
{
    catalog::lemma_first_missing(tasks, first);
    catalog::lemma_first_missing(tasks, second);
    if first.len() == 0 || second.len() == 0 {
        if first.len() > 0 {
            assert(first.contains(first[0]));
        }
        if second.len() > 0 {
            assert(second.contains(second[0]));
            assert(first.contains(second[0]));
        }
        assert(first =~= second);
    } else {
        lemma_same_selection(tasks, first, second, tasks.len());
        assert forall|k: int| 0 <= k < second.len() implies first.contains(
            #[trigger] second[k],
        ) by {
            assert(second.contains(second[k]));
        }
        assert forall|k: int| 0 <= k < first.len() implies second.contains(#[trigger] first[k]) by {
            assert(first.contains(first[k]));
        }
    }
}

proof fn lemma_same_selection(
    tasks: Seq<TaskModel>,
    first: Seq<Text>,
    second: Seq<Text>,
    count: nat,
)
    requires
        first.len() > 0,
        second.len() > 0,
        forall|id: Text| #[trigger] first.contains(id) <==> second.contains(id),
    ensures
        selection(tasks, false, first, count) == selection(tasks, false, second, count),
    decreases count,
{
    if count > 0 {
        lemma_same_selection(tasks, first, second, (count - 1) as nat);
        assert(first.contains(tasks[count - 1].id) <==> second.contains(tasks[count - 1].id));
    }
}

/// A plan of all tasks leaves none out.
pub proof fn plan_of_all_holds_every_task(tasks: Seq<TaskModel>, requested: Seq<Text>)
    requires
        catalog::catalog_wf(tasks),
    ensures
        plan_outcome(tasks, true, requested) matches Ok(plan) ==> forall|x: int|
            0 <= x < tasks.len() ==> plan.contains(#[trigger] tasks[x]),
{
    match plan_outcome(tasks, true, requested) {
        Ok(plan) => {
            assert forall|x: int| 0 <= x < tasks.len() implies plan.contains(
                #[trigger] tasks[x],
            ) by {
                plan_holds_exactly_what_is_called_for(tasks, true, requested, x);
                assert(schedule::connects(graph_of(tasks), seq![x], x, x));
                assert(schedule::needs(graph_of(tasks), x, x));
                assert(asked_for(tasks, true, requested, x));
            }
        },
        Err(_) => {},
    }
}

} // verus!
