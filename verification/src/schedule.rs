//! Depth-first scheduling of a dependency graph: every node after the nodes it
//! depends on, or the node at which a cycle closes.

use vstd::prelude::*;

verus! {

/// A graph on the nodes `0 .. g.len()`: `g[i]` lists what node `i` depends on,
/// in order.
pub type Graph = Seq<Seq<int>>;

/// Every listed dependency is a node of the graph.
pub open spec fn graph_wf(g: Graph) -> bool {
    forall|i: int, k: int|
        0 <= i < g.len() && 0 <= k < g[i].len() ==> 0 <= #[trigger] g[i][k] < g.len()
}

/// All of `nodes` belong to the graph.
pub open spec fn nodes_in(g: Graph, nodes: Seq<int>) -> bool {
    forall|k: int| 0 <= k < nodes.len() ==> 0 <= #[trigger] nodes[k] < g.len()
}

/// The nodes that are not being visited.
pub open spec fn idle(g: Graph, visiting: Set<int>) -> Set<int> {
    vstd::set_lib::set_int_range(0, g.len() as int).difference(visiting)
}

/// What visiting `node` makes of the order so far: the nodes it still needs,
/// then itself; or the node at which a cycle closes. A node is reached again
/// while it is being visited exactly when it depends on itself.
pub open spec fn visit(g: Graph, node: int, visiting: Set<int>, order: Seq<int>) -> Result<
    Seq<int>,
    int,
>
    decreases idle(g, visiting).len(), 0nat,
{
    if order.contains(node) {
        Ok(order)
    } else if visiting.contains(node) || node < 0 || node >= g.len() {
        Err(node)
    } else {
        proof {
            lemma_idle_shrinks(g, visiting, node);
        }
        match visit_all(g, g[node], visiting.insert(node), order) {
            Ok(extended) => Ok(extended.push(node)),
            Err(at) => Err(at),
        }
    }
}

/// Visits `nodes` from first to last.
pub open spec fn visit_all(
    g: Graph,
    nodes: Seq<int>,
    visiting: Set<int>,
    order: Seq<int>,
) -> Result<Seq<int>, int>
    decreases idle(g, visiting).len(), nodes.len(),
{
    if nodes.len() == 0 {
        Ok(order)
    } else {
        match visit_all(g, nodes.drop_last(), visiting, order) {
            Ok(extended) => visit(g, nodes.last(), visiting, extended),
            Err(at) => Err(at),
        }
    }
}

/// The schedule of `nodes` and everything they need.
pub open spec fn schedule(g: Graph, nodes: Seq<int>) -> Result<Seq<int>, int> {
    visit_all(g, nodes, Set::empty(), Seq::empty())
}

pub proof fn lemma_idle_shrinks(g: Graph, visiting: Set<int>, node: int)
    requires
        !visiting.contains(node),
        0 <= node < g.len(),
    ensures
        idle(g, visiting.insert(node)).len() < idle(g, visiting).len(),
{
    vstd::set_lib::lemma_int_range(0, g.len() as int);
    assert(idle(g, visiting.insert(node)) =~= idle(g, visiting).remove(node));
    assert(idle(g, visiting).contains(node));
}

/// `a` lists `b` among its dependencies.
pub open spec fn edge(g: Graph, a: int, b: int) -> bool {
    0 <= a < g.len() && g[a].contains(b)
}

/// Each node of `path` lists the next one.
pub open spec fn is_path(g: Graph, path: Seq<int>) -> bool {
    path.len() >= 1 && forall|k: int|
        0 <= k < path.len() - 1 ==> edge(g, #[trigger] path[k], path[k + 1])
}

/// `path` leads from `a` to `b`.
pub open spec fn connects(g: Graph, path: Seq<int>, a: int, b: int) -> bool {
    is_path(g, path) && path[0] == a && path.last() == b
}

/// `a` is `b`, or depends on it directly or through other nodes.
pub open spec fn needs(g: Graph, a: int, b: int) -> bool {
    exists|path: Seq<int>| #[trigger] connects(g, path, a, b)
}

/// `a` depends on `b` directly or through other nodes.
pub open spec fn depends(g: Graph, a: int, b: int) -> bool {
    exists|path: Seq<int>| #[trigger] connects(g, path, a, b) && path.len() >= 2
}

/// Nodes of the graph, each once, each after everything it lists.
pub open spec fn is_ordered(g: Graph, order: Seq<int>) -> bool {
    &&& nodes_in(g, order)
    &&& order.no_duplicates()
    &&& forall|i: int, d: int|
        0 <= i < order.len() && #[trigger] edge(g, order[i], d) ==> order.take(i).contains(d)
}

proof fn lemma_needs_self(g: Graph, a: int)
    ensures
        needs(g, a, a),
{
    assert(connects(g, seq![a], a, a));
}

proof fn lemma_needs_then_edge(g: Graph, a: int, b: int, c: int)
    requires
        needs(g, a, b),
        edge(g, b, c),
    ensures
        depends(g, a, c),
        needs(g, a, c),
{
    let path = choose|path: Seq<int>| connects(g, path, a, b);
    let longer = path.push(c);
    assert forall|k: int| 0 <= k < longer.len() - 1 implies edge(g, #[trigger] longer[k], longer[k + 1]) by {
        if k < path.len() - 1 {
            assert(edge(g, path[k], path[k + 1]));
        }
    }
    assert(connects(g, longer, a, c));
}

proof fn lemma_depends_needs(g: Graph, a: int, b: int)
    requires
        depends(g, a, b),
    ensures
        needs(g, a, b),
{
}

proof fn lemma_needs_transitive(g: Graph, a: int, b: int, c: int)
    requires
        needs(g, a, b),
        needs(g, b, c),
    ensures
        needs(g, a, c),
{
    let first = choose|path: Seq<int>| connects(g, path, a, b);
    let second = choose|path: Seq<int>| connects(g, path, b, c);
    let whole = first + second.drop_first();
    assert forall|k: int| 0 <= k < whole.len() - 1 implies edge(g, #[trigger] whole[k], whole[k + 1]) by {
        if k < first.len() - 1 {
            assert(edge(g, first[k], first[k + 1]));
        } else {
            let j = k - (first.len() - 1);
            assert(whole[k] == second[j]);
            assert(edge(g, second[j], second[j + 1]));
        }
    }
    assert(connects(g, whole, a, c));
}

/// What visiting one node keeps and adds.
pub open spec fn visit_post(
    g: Graph,
    node: int,
    visiting: Set<int>,
    order: Seq<int>,
    result: Result<Seq<int>, int>,
) -> bool {
    match result {
        Ok(extended) => {
            &&& is_ordered(g, extended)
            &&& order.is_prefix_of(extended)
            &&& extended.contains(node)
            &&& forall|x: int| #[trigger]
                extended.contains(x) ==> order.contains(x) || (needs(g, node, x)
                    && !visiting.contains(x))
        },
        Err(at) => depends(g, at, at) && needs(g, node, at),
    }
}

/// What visiting several nodes keeps and adds.
pub open spec fn visit_all_post(
    g: Graph,
    nodes: Seq<int>,
    visiting: Set<int>,
    order: Seq<int>,
    result: Result<Seq<int>, int>,
) -> bool {
    match result {
        Ok(extended) => {
            &&& is_ordered(g, extended)
            &&& order.is_prefix_of(extended)
            &&& forall|x: int| #[trigger] nodes.contains(x) ==> extended.contains(x)
            &&& forall|x: int| #[trigger]
                extended.contains(x) ==> order.contains(x) || (needed_by_any(g, nodes, x)
                    && !visiting.contains(x))
        },
        Err(at) => depends(g, at, at) && needed_by_any(g, nodes, at),
    }
}

/// `x` is one of `nodes`, or one of them depends on it.
pub open spec fn needed_by_any(g: Graph, nodes: Seq<int>, x: int) -> bool {
    exists|k: int| 0 <= k < nodes.len() && needs(g, #[trigger] nodes[k], x)
}

proof fn lemma_visit(g: Graph, node: int, visiting: Set<int>, order: Seq<int>)
    requires
        graph_wf(g),
        0 <= node < g.len(),
        is_ordered(g, order),
        forall|v: int| #[trigger] visiting.contains(v) ==> depends(g, v, node),
    ensures
        visit_post(g, node, visiting, order, visit(g, node, visiting, order)),
    decreases idle(g, visiting).len(), 0nat,
{
    lemma_needs_self(g, node);
    if order.contains(node) {
    } else if visiting.contains(node) {
    } else {
        let inner = visiting.insert(node);
        lemma_idle_shrinks(g, visiting, node);
        assert forall|v: int, k: int| inner.contains(v) && 0 <= k < g[node].len() implies #[trigger] depends(
            g,
            v,
            g[node][k],
        ) by {
            assert(edge(g, node, g[node][k]));
            if v != node {
                lemma_depends_needs(g, v, node);
            }
            lemma_needs_then_edge(g, v, node, g[node][k]);
        }
        lemma_visit_all(g, g[node], inner, order);
        match visit_all(g, g[node], inner, order) {
            Ok(extended) => {
                let result = extended.push(node);
                assert(!extended.contains(node));
                assert(nodes_in(g, result));
                assert forall|i: int, d: int|
                    0 <= i < result.len() && #[trigger] edge(g, result[i], d) implies result.take(
                    i,
                ).contains(d) by {
                    if i < extended.len() {
                        assert(edge(g, extended[i], d));
                        assert(result.take(i) =~= extended.take(i));
                    } else {
                        assert(g[node].contains(d));
                        assert(result.take(i) =~= extended);
                    }
                }
                assert(result.last() == node);
                assert forall|x: int| #[trigger] result.contains(x) implies order.contains(x) || (
                needs(g, node, x) && !visiting.contains(x)) by {
                    if x != node {
                        let i = choose|i: int| 0 <= i < result.len() && result[i] == x;
                        assert(extended[i] == x);
                        assert(extended.contains(x));
                        if !order.contains(x) {
                            lemma_needed_through(g, node, x);
                        }
                    }
                }
            },
            Err(at) => {
                lemma_needed_through(g, node, at);
            },
        }
    }
}

proof fn lemma_needed_through(g: Graph, node: int, x: int)
    requires
        0 <= node < g.len(),
        needed_by_any(g, g[node], x),
    ensures
        needs(g, node, x),
{
    let k = choose|k: int| 0 <= k < g[node].len() && needs(g, #[trigger] g[node][k], x);
    assert(edge(g, node, g[node][k]));
    lemma_needs_self(g, node);
    lemma_needs_then_edge(g, node, node, g[node][k]);
    lemma_needs_transitive(g, node, g[node][k], x);
}

pub proof fn lemma_visit_all(g: Graph, nodes: Seq<int>, visiting: Set<int>, order: Seq<int>)
    requires
        graph_wf(g),
        nodes_in(g, nodes),
        is_ordered(g, order),
        forall|v: int, k: int|
            visiting.contains(v) && 0 <= k < nodes.len() ==> #[trigger] depends(g, v, nodes[k]),
    ensures
        visit_all_post(g, nodes, visiting, order, visit_all(g, nodes, visiting, order)),
    decreases idle(g, visiting).len(), nodes.len(),
{
    if nodes.len() > 0 {
        let init = nodes.drop_last();
        let last = nodes.last();
        assert forall|v: int, k: int| visiting.contains(v) && 0 <= k < init.len() implies #[trigger] depends(
            g,
            v,
            init[k],
        ) by {
            assert(init[k] == nodes[k]);
        }
        lemma_visit_all(g, init, visiting, order);
        assert forall|x: int| needed_by_any(g, init, x) implies needed_by_any(g, nodes, x) by {
            let k = choose|k: int| 0 <= k < init.len() && needs(g, #[trigger] init[k], x);
            assert(nodes[k] == init[k]);
        }
        match visit_all(g, init, visiting, order) {
            Ok(extended) => {
                assert forall|v: int| #[trigger] visiting.contains(v) implies depends(
                    g,
                    v,
                    last,
                ) by {
                    assert(depends(g, v, nodes[nodes.len() - 1]));
                }
                lemma_visit(g, last, visiting, extended);
                match visit(g, last, visiting, extended) {
                    Ok(result) => {
                        assert forall|x: int| #[trigger] nodes.contains(x) implies result.contains(
                            x,
                        ) by {
                            let k = choose|k: int| 0 <= k < nodes.len() && nodes[k] == x;
                            if k < init.len() {
                                assert(init[k] == x);
                                assert(init.contains(x));
                                let j = choose|j: int| 0 <= j < extended.len() && extended[j] == x;
                                assert(result[j] == x);
                            }
                        }
                        assert forall|x: int| #[trigger] result.contains(x) implies order.contains(
                            x,
                        ) || (needed_by_any(g, nodes, x) && !visiting.contains(x)) by {
                            if !extended.contains(x) {
                                assert(needs(g, nodes[nodes.len() - 1], x));
                            }
                        }
                    },
                    Err(at) => {
                        assert(needs(g, nodes[nodes.len() - 1], at));
                    },
                }
            },
            Err(at) => {},
        }
    }
}

/// In an ordered sequence, what an element depends on comes before it.
proof fn lemma_path_goes_back(g: Graph, order: Seq<int>, path: Seq<int>, i: int)
    requires
        is_ordered(g, order),
        is_path(g, path),
        0 <= i < order.len(),
        order[i] == path[0],
    ensures
        exists|j: int|
            0 <= j <= i && #[trigger] order[j] == path.last() && (path.len() >= 2 ==> j < i),
    decreases path.len(),
{
    if path.len() == 1 {
        assert(order[i] == path.last());
    } else {
        assert(edge(g, path[0], path[0int + 1]));
        assert(order.take(i).contains(path[1]));
        let k = choose|k: int| 0 <= k < order.take(i).len() && order.take(i)[k] == path[1];
        let rest = path.drop_first();
        assert forall|m: int| 0 <= m < rest.len() - 1 implies edge(g, #[trigger] rest[m], rest[m + 1]) by {
            assert(edge(g, path[m + 1], path[m + 1 + 1]));
        }
        lemma_path_goes_back(g, order, rest, k);
        let j = choose|j: int| 0 <= j <= k && #[trigger] order[j] == rest.last();
        assert(order[j] == path.last());
    }
}

/// A schedule holds the requested nodes and everything they need, nothing else,
/// each node once and after everything it lists.
pub proof fn schedule_is_complete_and_ordered(g: Graph, nodes: Seq<int>)
    requires
        graph_wf(g),
        nodes_in(g, nodes),
    ensures
        schedule(g, nodes) matches Ok(order) ==> {
            &&& is_ordered(g, order)
            &&& forall|x: int| #[trigger] order.contains(x) <==> needed_by_any(g, nodes, x)
        },
{
    lemma_visit_all(g, nodes, Set::empty(), Seq::empty());
    match schedule(g, nodes) {
        Ok(order) => {
            assert forall|x: int| needed_by_any(g, nodes, x) implies #[trigger] order.contains(
                x,
            ) by {
                let k = choose|k: int| 0 <= k < nodes.len() && needs(g, #[trigger] nodes[k], x);
                let path = choose|path: Seq<int>| connects(g, path, nodes[k], x);
                assert(nodes.contains(nodes[k]));
                let i = choose|i: int| 0 <= i < order.len() && order[i] == nodes[k];
                lemma_path_goes_back(g, order, path, i);
            }
        },
        Err(at) => {},
    }
}

/// Scheduling fails exactly when the requested nodes need some node that
/// depends on itself, and the failure names such a node.
pub proof fn schedule_fails_exactly_on_cycles(g: Graph, nodes: Seq<int>)
    requires
        graph_wf(g),
        nodes_in(g, nodes),
    ensures
        schedule(g, nodes) is Err <==> exists|x: int|
            needed_by_any(g, nodes, x) && #[trigger] depends(g, x, x),
        schedule(g, nodes) matches Err(at) ==> needed_by_any(g, nodes, at) && depends(g, at, at),
{
    lemma_visit_all(g, nodes, Set::empty(), Seq::empty());
    schedule_is_complete_and_ordered(g, nodes);
    match schedule(g, nodes) {
        Ok(order) => {
            assert forall|x: int| needed_by_any(g, nodes, x) implies !#[trigger] depends(
                g,
                x,
                x,
            ) by {
                if depends(g, x, x) {
                    let path = choose|path: Seq<int>|
                        #[trigger] connects(g, path, x, x) && path.len() >= 2;
                    assert(order.contains(x));
                    let i = choose|i: int| 0 <= i < order.len() && order[i] == x;
                    lemma_path_goes_back(g, order, path, i);
                    let j = choose|j: int| 0 <= j < i && #[trigger] order[j] == path.last();
                    assert(order[j] == order[i]);
                }
            }
        },
        Err(at) => {},
    }
}

/// What was visited first stays in front.
proof fn lemma_visited_first(
    g: Graph,
    nodes: Seq<int>,
    visiting: Set<int>,
    order: Seq<int>,
    count: int,
)
    requires
        graph_wf(g),
        nodes_in(g, nodes),
        is_ordered(g, order),
        forall|v: int, k: int|
            visiting.contains(v) && 0 <= k < nodes.len() ==> #[trigger] depends(g, v, nodes[k]),
        0 <= count <= nodes.len(),
        visit_all(g, nodes, visiting, order) is Ok,
    ensures
        visit_all(g, nodes.take(count), visiting, order) matches Ok(first)
            && first.is_prefix_of(visit_all(g, nodes, visiting, order)->Ok_0),
    decreases nodes.len(),
{
    if count == nodes.len() {
        assert(nodes.take(count) =~= nodes);
    } else {
        let init = nodes.drop_last();
        assert forall|v: int, k: int| visiting.contains(v) && 0 <= k < init.len() implies #[trigger] depends(
            g,
            v,
            init[k],
        ) by {
            assert(init[k] == nodes[k]);
        }
        lemma_visited_first(g, init, visiting, order, count);
        lemma_visit_all(g, init, visiting, order);
        assert(init.take(count) =~= nodes.take(count));
        let middle = visit_all(g, init, visiting, order)->Ok_0;
        assert forall|v: int| #[trigger] visiting.contains(v) implies depends(
            g,
            v,
            nodes.last(),
        ) by {
            assert(depends(g, v, nodes[nodes.len() - 1]));
        }
        lemma_visit(g, nodes.last(), visiting, middle);
    }
}

/// Of two visited nodes the earlier one comes first, unless the later one was
/// needed up to then.
pub proof fn lemma_visits_in_turn(
    g: Graph,
    nodes: Seq<int>,
    visiting: Set<int>,
    order: Seq<int>,
    a: int,
    b: int,
)
    requires
        graph_wf(g),
        nodes_in(g, nodes),
        is_ordered(g, order),
        forall|v: int, k: int|
            visiting.contains(v) && 0 <= k < nodes.len() ==> #[trigger] depends(g, v, nodes[k]),
        0 <= a < b < nodes.len(),
        visit_all(g, nodes, visiting, order) is Ok,
        !order.contains(nodes[b]),
        !needed_by_any(g, nodes.take(a + 1), nodes[b]),
    ensures
        exists|i: int, j: int|
            0 <= i < j < visit_all(g, nodes, visiting, order)->Ok_0.len() && #[trigger] visit_all(
                g,
                nodes,
                visiting,
                order,
            )->Ok_0[i] == nodes[a] && #[trigger] visit_all(g, nodes, visiting, order)->Ok_0[j]
                == nodes[b],
{
    let some = nodes.take(a + 1);
    assert forall|v: int, k: int| visiting.contains(v) && 0 <= k < some.len() implies #[trigger] depends(
        g,
        v,
        some[k],
    ) by {
        assert(some[k] == nodes[k]);
    }
    lemma_visit_all(g, some, visiting, order);
    lemma_visit_all(g, nodes, visiting, order);
    lemma_visited_first(g, nodes, visiting, order, a + 1);
    let first = visit_all(g, some, visiting, order)->Ok_0;
    let all = visit_all(g, nodes, visiting, order)->Ok_0;
    assert(some[a] == nodes[a]);
    assert(some.contains(nodes[a]));
    assert(first.contains(nodes[a]));
    let i = choose|i: int| 0 <= i < first.len() && first[i] == nodes[a];
    assert(nodes.contains(nodes[b]));
    let j = choose|j: int| 0 <= j < all.len() && all[j] == nodes[b];
    assert(!first.contains(nodes[b]));
    if j < first.len() {
        assert(first[j] == all[j]);
    }
    assert(all[i] == nodes[a]);
    assert(all[j] == nodes[b]);
}

/// `path` goes on from `start`, meets no node twice before its end, and ends at a
/// node that it has met.
pub open spec fn closes(g: Graph, path: Seq<int>, start: Seq<int>) -> bool {
    &&& is_path(g, path)
    &&& start.is_prefix_of(path)
    &&& path.drop_last().no_duplicates()
    &&& path.drop_last().contains(path.last())
}

proof fn lemma_visit_closes(
    g: Graph,
    node: int,
    visiting: Set<int>,
    order: Seq<int>,
    stack: Seq<int>,
)
    requires
        graph_wf(g),
        0 <= node < g.len(),
        forall|v: int| #[trigger] visiting.contains(v) <==> stack.contains(v),
        stack.no_duplicates(),
        is_path(g, stack.push(node)),
    ensures
        visit(g, node, visiting, order) matches Err(at) ==> exists|path: Seq<int>|
            path.last() == at && #[trigger] closes(g, path, stack.push(node)),
    decreases idle(g, visiting).len(), 0nat,
{
    let now = stack.push(node);
    if order.contains(node) {
    } else if visiting.contains(node) {
        assert(now.drop_last() =~= stack);
        assert(closes(g, now, now));
    } else {
        let inner = visiting.insert(node);
        lemma_idle_shrinks(g, visiting, node);
        assert forall|v: int| #[trigger] inner.contains(v) <==> now.contains(v) by {
            if now.contains(v) && v != node {
                let i = choose|i: int| 0 <= i < now.len() && now[i] == v;
                assert(stack[i] == v);
            }
            if stack.contains(v) {
                let i = choose|i: int| 0 <= i < stack.len() && stack[i] == v;
                assert(now[i] == v);
            }
            if v == node {
                assert(now.last() == v);
            }
        }
        assert(!stack.contains(node));
        assert forall|k: int| 0 <= k < g[node].len() implies is_path(
            g,
            now.push(#[trigger] g[node][k]),
        ) by {
            let longer = now.push(g[node][k]);
            assert forall|m: int| 0 <= m < longer.len() - 1 implies edge(
                g,
                #[trigger] longer[m],
                longer[m + 1],
            ) by {
                if m < now.len() - 1 {
                    assert(edge(g, now[m], now[m + 1]));
                } else {
                    assert(g[node].contains(g[node][k]));
                }
            }
        }
        lemma_visit_all_closes(g, g[node], inner, order, now);
        match visit_all(g, g[node], inner, order) {
            Ok(_) => {},
            Err(at) => {
                let (path, k) = choose|path: Seq<int>, k: int|
                    path.last() == at && 0 <= k < g[node].len() && #[trigger] closes(
                        g,
                        path,
                        now.push(g[node][k]),
                    );
                assert(now.is_prefix_of(now.push(g[node][k])));
                assert forall|m: int| 0 <= m < now.len() implies now[m] == path[m] by {
                    assert(now.push(g[node][k])[m] == path[m]);
                }
                assert(closes(g, path, now));
            },
        }
    }
}

/// A failure to visit names the node at which a path from one of the nodes first
/// meets itself.
pub proof fn lemma_visit_all_closes(
    g: Graph,
    nodes: Seq<int>,
    visiting: Set<int>,
    order: Seq<int>,
    stack: Seq<int>,
)
    requires
        graph_wf(g),
        nodes_in(g, nodes),
        forall|v: int| #[trigger] visiting.contains(v) <==> stack.contains(v),
        stack.no_duplicates(),
        forall|k: int| 0 <= k < nodes.len() ==> is_path(g, stack.push(#[trigger] nodes[k])),
    ensures
        visit_all(g, nodes, visiting, order) matches Err(at) ==> exists|path: Seq<int>, k: int|
            path.last() == at && 0 <= k < nodes.len() && #[trigger] closes(
                g,
                path,
                stack.push(nodes[k]),
            ),
    decreases idle(g, visiting).len(), nodes.len(),
{
    if nodes.len() > 0 {
        let init = nodes.drop_last();
        assert forall|k: int| 0 <= k < init.len() implies is_path(
            g,
            stack.push(#[trigger] init[k]),
        ) by {
            assert(init[k] == nodes[k]);
        }
        lemma_visit_all_closes(g, init, visiting, order, stack);
        match visit_all(g, init, visiting, order) {
            Ok(extended) => {
                let last = nodes.len() - 1;
                assert(is_path(g, stack.push(nodes[last])));
                lemma_visit_closes(g, nodes.last(), visiting, extended, stack);
                match visit(g, nodes.last(), visiting, extended) {
                    Ok(_) => {},
                    Err(at) => {
                        let path = choose|path: Seq<int>|
                            path.last() == at && #[trigger] closes(
                                g,
                                path,
                                stack.push(nodes.last()),
                            );
                        assert(closes(g, path, stack.push(nodes[last])));
                    },
                }
            },
            Err(at) => {
                let (path, k) = choose|path: Seq<int>, k: int|
                    path.last() == at && 0 <= k < init.len() && #[trigger] closes(
                        g,
                        path,
                        stack.push(init[k]),
                    );
                assert(closes(g, path, stack.push(nodes[k])));
            },
        }
    }
}

/// `more` without what is in `order`.
pub open spec fn without(more: Seq<int>, order: Seq<int>) -> Seq<int>
    decreases more.len(),
{
    if more.len() == 0 {
        Seq::empty()
    } else {
        let before = without(more.drop_last(), order);
        if order.contains(more.last()) {
            before
        } else {
            before.push(more.last())
        }
    }
}

proof fn lemma_without_member(more: Seq<int>, order: Seq<int>, x: int)
    ensures
        without(more, order).contains(x) <==> more.contains(x) && !order.contains(x),
    decreases more.len(),
{
    if more.len() > 0 {
        let init = more.drop_last();
        let before = without(init, order);
        let now = without(more, order);
        lemma_without_member(init, order, x);
        if now.contains(x) {
            let k = choose|k: int| 0 <= k < now.len() && now[k] == x;
            if k < before.len() {
                assert(before[k] == x);
                assert(before.contains(x));
                let m = choose|m: int| 0 <= m < init.len() && init[m] == x;
                assert(more[m] == x);
            } else {
                assert(more[more.len() - 1] == x);
            }
        }
        if more.contains(x) && !order.contains(x) {
            let m = choose|m: int| 0 <= m < more.len() && more[m] == x;
            if m < init.len() {
                assert(init[m] == x);
                assert(before.contains(x));
                let k = choose|k: int| 0 <= k < before.len() && before[k] == x;
                assert(now[k] == x);
            } else {
                assert(now.last() == x);
            }
        }
    }
}

proof fn lemma_without_joined(first: Seq<int>, second: Seq<int>, order: Seq<int>)
    ensures
        without(first + second, order) == without(first, order) + without(second, order),
    decreases second.len(),
{
    if second.len() == 0 {
        assert(first + second =~= first);
        assert(without(first, order) + without(second, order) =~= without(first, order));
    } else {
        lemma_without_joined(first, second.drop_last(), order);
        assert((first + second).drop_last() =~= first + second.drop_last());
        assert((first + second).last() == second.last());
        assert(without(first + second, order) =~= without(first, order) + without(second, order));
    }
}

proof fn lemma_without_twice(more: Seq<int>, first: Seq<int>, second: Seq<int>, both: Seq<int>)
    requires
        forall|x: int| #[trigger]
            both.contains(x) <==> first.contains(x) || second.contains(x),
    ensures
        without(without(more, first), second) == without(more, both),
    decreases more.len(),
{
    if more.len() > 0 {
        let init = more.drop_last();
        lemma_without_twice(init, first, second, both);
        assert(both.contains(more.last()) <==> first.contains(more.last()) || second.contains(
            more.last(),
        ));
        if !first.contains(more.last()) {
            assert(without(more, first).drop_last() =~= without(init, first));
        }
    }
}

proof fn lemma_without_all(more: Seq<int>, order: Seq<int>)
    requires
        forall|x: int| #[trigger] more.contains(x) ==> order.contains(x),
    ensures
        without(more, order) == Seq::<int>::empty(),
    decreases more.len(),
{
    if more.len() > 0 {
        let init = more.drop_last();
        assert(more.contains(more.last()));
        assert forall|x: int| #[trigger] init.contains(x) implies order.contains(x) by {
            let k = choose|k: int| 0 <= k < init.len() && init[k] == x;
            assert(more[k] == x);
            assert(more.contains(x));
        }
        lemma_without_all(init, order);
    }
}

/// Visiting adds to an order what visiting alone gives and is not there yet.
proof fn lemma_visit_adds(g: Graph, node: int, visiting: Set<int>, order: Seq<int>)
    requires
        graph_wf(g),
        0 <= node < g.len(),
        is_ordered(g, order),
        forall|v: int| #[trigger] visiting.contains(v) ==> depends(g, v, node),
        visit(g, node, visiting, order) is Ok,
    ensures
        visit(g, node, visiting, Seq::empty()) matches Ok(alone) && visit(
            g,
            node,
            visiting,
            order,
        )->Ok_0 == order + without(alone, order),
    decreases idle(g, visiting).len(), 0nat,
{
    let none = Seq::<int>::empty();
    lemma_visit(g, node, visiting, none);
    if order.contains(node) {
        let i = choose|i: int| 0 <= i < order.len() && order[i] == node;
        match visit(g, node, visiting, none) {
            Ok(alone) => {
                assert forall|x: int| #[trigger] alone.contains(x) implies order.contains(x) by {
                    assert(needs(g, node, x));
                    let path = choose|path: Seq<int>| connects(g, path, node, x);
                    lemma_path_goes_back(g, order, path, i);
                }
                lemma_without_all(alone, order);
                assert(order + none =~= order);
            },
            Err(at) => {
                let path = choose|path: Seq<int>| connects(g, path, node, at);
                lemma_path_goes_back(g, order, path, i);
                let j = choose|j: int| 0 <= j <= i && #[trigger] order[j] == path.last();
                let round = choose|round: Seq<int>|
                    #[trigger] connects(g, round, at, at) && round.len() >= 2;
                lemma_path_goes_back(g, order, round, j);
                let k = choose|k: int| 0 <= k < j && #[trigger] order[k] == round.last();
                assert(order[k] == order[j]);
            },
        }
    } else {
        let inner = visiting.insert(node);
        lemma_idle_shrinks(g, visiting, node);
        assert forall|v: int, k: int| inner.contains(v) && 0 <= k < g[node].len() implies #[trigger] depends(
            g,
            v,
            g[node][k],
        ) by {
            assert(edge(g, node, g[node][k]));
            if v != node {
                lemma_depends_needs(g, v, node);
            } else {
                lemma_needs_self(g, node);
            }
            lemma_needs_then_edge(g, v, node, g[node][k]);
        }
        lemma_visit_all_adds(g, g[node], inner, order);
        let below = visit_all(g, g[node], inner, none)->Ok_0;
        let alone = below.push(node);
        assert(alone.drop_last() =~= below);
        assert((order + without(below, order)).push(node) =~= order + without(alone, order));
    }
}

proof fn lemma_visit_all_adds(g: Graph, nodes: Seq<int>, visiting: Set<int>, order: Seq<int>)
    requires
        graph_wf(g),
        nodes_in(g, nodes),
        is_ordered(g, order),
        forall|v: int, k: int|
            visiting.contains(v) && 0 <= k < nodes.len() ==> #[trigger] depends(g, v, nodes[k]),
        visit_all(g, nodes, visiting, order) is Ok,
    ensures
        visit_all(g, nodes, visiting, Seq::empty()) matches Ok(alone) && visit_all(
            g,
            nodes,
            visiting,
            order,
        )->Ok_0 == order + without(alone, order),
    decreases idle(g, visiting).len(), nodes.len(),
{
    let none = Seq::<int>::empty();
    if nodes.len() == 0 {
        assert(order + without(none, order) =~= order);
    } else {
        let init = nodes.drop_last();
        let last = nodes.last();
        assert forall|v: int, k: int| visiting.contains(v) && 0 <= k < init.len() implies #[trigger] depends(
            g,
            v,
            init[k],
        ) by {
            assert(init[k] == nodes[k]);
        }
        assert forall|v: int| #[trigger] visiting.contains(v) implies depends(g, v, last) by {
            assert(depends(g, v, nodes[nodes.len() - 1]));
        }
        lemma_visit_all_adds(g, init, visiting, order);
        lemma_visit_all(g, init, visiting, order);
        lemma_visit_all(g, init, visiting, none);
        let first = visit_all(g, init, visiting, none)->Ok_0;
        let extended = visit_all(g, init, visiting, order)->Ok_0;
        lemma_visit_adds(g, last, visiting, extended);
        let alone = visit(g, last, visiting, none)->Ok_0;
        lemma_still_ok(g, last, visiting, first);
        lemma_visit_adds(g, last, visiting, first);
        assert forall|x: int| #[trigger] extended.contains(x) <==> first.contains(x)
            || order.contains(x) by {
            lemma_without_member(first, order, x);
            let added = without(first, order);
            if extended.contains(x) {
                let k = choose|k: int| 0 <= k < extended.len() && extended[k] == x;
                if k < order.len() {
                    assert(order[k] == x);
                } else {
                    assert(added[k - order.len()] == x);
                    assert(added.contains(x));
                }
            }
            if order.contains(x) {
                let k = choose|k: int| 0 <= k < order.len() && order[k] == x;
                assert(extended[k] == x);
            }
            if added.contains(x) {
                let k = choose|k: int| 0 <= k < added.len() && added[k] == x;
                assert(extended[order.len() + k] == x);
            }
        }
        lemma_without_twice(alone, first, order, extended);
        lemma_without_joined(first, without(alone, first), order);
        assert(order + without(first, order) + without(alone, extended) =~= order + (without(
            first,
            order,
        ) + without(alone, extended)));
    }
}

/// What can be visited alone can be visited after other nodes.
proof fn lemma_still_ok(g: Graph, node: int, visiting: Set<int>, order: Seq<int>)
    requires
        graph_wf(g),
        0 <= node < g.len(),
        is_ordered(g, order),
        forall|v: int| #[trigger] visiting.contains(v) ==> depends(g, v, node),
        visit(g, node, visiting, Seq::empty()) is Ok,
    ensures
        visit(g, node, visiting, order) is Ok,
{
    let none = Seq::<int>::empty();
    lemma_visit(g, node, visiting, none);
    lemma_visit(g, node, visiting, order);
    match visit(g, node, visiting, order) {
        Ok(_) => {},
        Err(at) => {
            let alone = visit(g, node, visiting, none)->Ok_0;
            assert(alone.contains(node));
            let i = choose|i: int| 0 <= i < alone.len() && alone[i] == node;
            let path = choose|path: Seq<int>| connects(g, path, node, at);
            lemma_path_goes_back(g, alone, path, i);
            let j = choose|j: int| 0 <= j <= i && #[trigger] alone[j] == path.last();
            let round = choose|round: Seq<int>|
                #[trigger] connects(g, round, at, at) && round.len() >= 2;
            lemma_path_goes_back(g, alone, round, j);
            let k = choose|k: int| 0 <= k < j && #[trigger] alone[k] == round.last();
            assert(alone[k] == alone[j]);
        },
    }
}

/// What can be visited on the way from other nodes can be visited from none.
proof fn lemma_visit_from_none(
    g: Graph,
    node: int,
    visiting: Set<int>,
    fewer: Set<int>,
    order: Seq<int>,
)
    requires
        fewer.subset_of(visiting),
        visit(g, node, visiting, order) is Ok,
    ensures
        visit(g, node, fewer, order) == visit(g, node, visiting, order),
    decreases idle(g, visiting).len(), 0nat,
{
    if !order.contains(node) {
        lemma_idle_shrinks(g, visiting, node);
        lemma_visit_all_from_none(
            g,
            g[node],
            visiting.insert(node),
            fewer.insert(node),
            order,
        );
    }
}

proof fn lemma_visit_all_from_none(
    g: Graph,
    nodes: Seq<int>,
    visiting: Set<int>,
    fewer: Set<int>,
    order: Seq<int>,
)
    requires
        fewer.subset_of(visiting),
        visit_all(g, nodes, visiting, order) is Ok,
    ensures
        visit_all(g, nodes, fewer, order) == visit_all(g, nodes, visiting, order),
    decreases idle(g, visiting).len(), nodes.len(),
{
    if nodes.len() > 0 {
        lemma_visit_all_from_none(g, nodes.drop_last(), visiting, fewer, order);
        let extended = visit_all(g, nodes.drop_last(), visiting, order)->Ok_0;
        lemma_visit_from_none(g, nodes.last(), visiting, fewer, extended);
    }
}

/// Visiting nodes goes from one to the next: it adds the schedule of each, without what is
/// there already.
pub proof fn lemma_visits_add_up(g: Graph, nodes: Seq<int>, visiting: Set<int>)
    requires
        graph_wf(g),
        nodes_in(g, nodes),
        nodes.len() > 0,
        forall|v: int, k: int|
            visiting.contains(v) && 0 <= k < nodes.len() ==> #[trigger] depends(g, v, nodes[k]),
        visit_all(g, nodes, visiting, Seq::empty()) is Ok,
    ensures
        visit_all(g, nodes.drop_last(), visiting, Seq::empty()) matches Ok(before) && schedule(
            g,
            seq![nodes.last()],
        ) matches Ok(own) && visit_all(g, nodes, visiting, Seq::empty())->Ok_0 == before + without(
            own,
            before,
        ),
{
    let none = Seq::<int>::empty();
    let init = nodes.drop_last();
    let last = nodes.last();
    assert forall|v: int, k: int| visiting.contains(v) && 0 <= k < init.len() implies #[trigger] depends(
        g,
        v,
        init[k],
    ) by {
        assert(init[k] == nodes[k]);
    }
    assert forall|v: int| #[trigger] visiting.contains(v) implies depends(g, v, last) by {
        assert(depends(g, v, nodes[nodes.len() - 1]));
    }
    lemma_visit_all(g, init, visiting, none);
    let before = visit_all(g, init, visiting, none)->Ok_0;
    lemma_visit_adds(g, last, visiting, before);
    lemma_visit_from_none(g, last, visiting, Set::empty(), none);
    let one = seq![last];
    assert(one.drop_last() =~= none);
    assert(visit_all(g, none, Set::empty(), none) == Ok::<Seq<int>, int>(none));
    assert(schedule(g, one) == visit(g, last, Set::empty(), none));
}

} // verus!
