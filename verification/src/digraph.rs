//! The petgraph directed graph that holds workflow tasks, seen through its
//! node list and its edge list.
//!
//! Every function here makes one petgraph call; node and edge handles are
//! passed in and out as the `usize` positions they stand for.

use crate::dag::TaskNode;
use crate::graph::{has_edge, is_acyclic, is_topo_order, predecessors, reaches, reaches_plus, successors};
use petgraph::graph::{EdgeIndex, Graph, NodeIndex};
use petgraph::{Directed, Direction};
use vstd::prelude::*;

verus! {

#[verifier::external_type_specification]
#[verifier::external_body]
#[verifier::reject_recursive_types(N)]
#[verifier::reject_recursive_types(E)]
#[verifier::reject_recursive_types(Ty)]
#[verifier::reject_recursive_types(Ix)]
pub struct ExGraph<N, E, Ty, Ix>(Graph<N, E, Ty, Ix>);

#[verifier::external_type_specification]
#[verifier::external_body]
pub struct ExDirected(Directed);

/// The graph type of a workflow: tasks as nodes, unit edge weights.
pub type TaskGraph = Graph<TaskNode, (), Directed, u32>;

/// The node weights, in node-index order.
pub uninterp spec fn graph_nodes(g: Graph<TaskNode, (), Directed, u32>) -> Seq<TaskNode>;

/// The edges `(source, target)`, in edge-index order.
pub uninterp spec fn graph_edges(g: Graph<TaskNode, (), Directed, u32>) -> Seq<(nat, nat)>;

/// `Graph::new`: the graph has no nodes and no edges.
#[verifier::external_body]
pub(crate) fn graph_new() -> (g: TaskGraph)
    ensures
        graph_nodes(g) == Seq::<TaskNode>::empty(),
        graph_edges(g) == Seq::<(nat, nat)>::empty(),
{
    Graph::new()
}

/// `Graph::node_count`: the number of nodes.
#[verifier::external_body]
pub(crate) fn graph_node_count(g: &TaskGraph) -> (r: usize)
    ensures
        r == graph_nodes(*g).len(),
{
    g.node_count()
}

/// `Graph::edge_count`: the number of edges.
#[verifier::external_body]
pub(crate) fn graph_edge_count(g: &TaskGraph) -> (r: usize)
    ensures
        r == graph_edges(*g).len(),
{
    g.edge_count()
}

/// `Graph::add_node`: appends the weight as the node with the next index.
/// petgraph panics when the `u32` index space is full, which `requires` leaves out.
#[verifier::external_body]
pub(crate) fn graph_add_node(g: &mut TaskGraph, weight: TaskNode) -> (r: usize)
    requires
        graph_nodes(*old(g)).len() < u32::MAX,
    ensures
        r == graph_nodes(*old(g)).len(),
        graph_nodes(*final(g)) == graph_nodes(*old(g)).push(weight),
        graph_edges(*final(g)) == graph_edges(*old(g)),
{
    g.add_node(weight).index()
}

/// `Graph::node_weight`: the weight of node `a`, if the node exists.
#[verifier::external_body]
pub(crate) fn graph_node_weight(g: &TaskGraph, a: usize) -> (r: Option<&TaskNode>)
    requires
        a < u32::MAX,
    ensures
        a < graph_nodes(*g).len() ==> r == Some(&graph_nodes(*g)[a as int]),
        a >= graph_nodes(*g).len() ==> r.is_none(),
{
    g.node_weight(NodeIndex::new(a))
}

/// `Graph::add_edge`: appends the edge `(a, b)` with the next edge index.
/// petgraph panics on an absent endpoint or a full edge index space.
#[verifier::external_body]
pub(crate) fn graph_add_edge(g: &mut TaskGraph, a: usize, b: usize) -> (r: usize)
    requires
        a < graph_nodes(*old(g)).len(),
        b < graph_nodes(*old(g)).len(),
        a < u32::MAX,
        b < u32::MAX,
        graph_edges(*old(g)).len() < u32::MAX,
    ensures
        r == graph_edges(*old(g)).len(),
        graph_nodes(*final(g)) == graph_nodes(*old(g)),
        graph_edges(*final(g)) == graph_edges(*old(g)).push((a as nat, b as nat)),
{
    g.add_edge(NodeIndex::new(a), NodeIndex::new(b), ()).index()
}

/// `Graph::find_edge`: some edge from `a` to `b`, or `None` when there is none.
#[verifier::external_body]
pub(crate) fn graph_find_edge(g: &TaskGraph, a: usize, b: usize) -> (r: Option<usize>)
    requires
        a < u32::MAX,
        b < u32::MAX,
    ensures
        r.is_none() <==> !has_edge(graph_edges(*g), a as nat, b as nat),
        r matches Some(k) ==> k < graph_edges(*g).len() && graph_edges(*g)[k as int] == (
            a as nat,
            b as nat,
        ),
{
    match g.find_edge(NodeIndex::new(a), NodeIndex::new(b)) {
        Some(e) => Some(e.index()),
        None => None,
    }
}

/// `Graph::remove_edge`: removes edge `k` by moving the last edge into its place.
#[verifier::external_body]
pub(crate) fn graph_remove_edge(g: &mut TaskGraph, k: usize) -> (r: bool)
    requires
        k < u32::MAX,
    ensures
        r == (k < graph_edges(*old(g)).len()),
        graph_nodes(*final(g)) == graph_nodes(*old(g)),
        r ==> graph_edges(*final(g)) == graph_edges(*old(g)).update(
            k as int,
            graph_edges(*old(g)).last(),
        ).drop_last(),
        !r ==> graph_edges(*final(g)) == graph_edges(*old(g)),
{
    g.remove_edge(EdgeIndex::new(k)).is_some()
}

/// `Graph::neighbors_directed(a, Outgoing)`: the targets of the edges leaving `a`,
/// one per edge; petgraph lists them newest first, which is not stated here.
#[verifier::external_body]
pub(crate) fn graph_successors(g: &TaskGraph, a: usize) -> (r: Vec<usize>)
    requires
        a < u32::MAX,
    ensures
        r@.map_values(|x: usize| x as nat).to_multiset() == successors(graph_edges(*g), a as nat).to_multiset(),
        forall|x: usize| r@.contains(x) <==> has_edge(graph_edges(*g), a as nat, x as nat),
{
    let mut r = Vec::new();
    for n in g.neighbors_directed(NodeIndex::new(a), Direction::Outgoing) {
        r.push(n.index());
    }
    r
}

/// `Graph::neighbors_directed(a, Incoming)`: the sources of the edges entering `a`,
/// one per edge; petgraph lists them newest first, which is not stated here.
#[verifier::external_body]
pub(crate) fn graph_predecessors(g: &TaskGraph, a: usize) -> (r: Vec<usize>)
    requires
        a < u32::MAX,
    ensures
        r@.map_values(|x: usize| x as nat).to_multiset() == predecessors(graph_edges(*g), a as nat).to_multiset(),
        forall|x: usize| r@.contains(x) <==> has_edge(graph_edges(*g), x as nat, a as nat),
{
    let mut r = Vec::new();
    for n in g.neighbors_directed(NodeIndex::new(a), Direction::Incoming) {
        r.push(n.index());
    }
    r
}

/// The order `petgraph::algo::toposort` gives the nodes of the graph (as
/// positions), when it gives one.
pub uninterp spec fn graph_topo(g: Graph<TaskNode, (), Directed, u32>) -> Seq<usize>;

/// `petgraph::algo::toposort`: a topological order of all nodes when the graph
/// has no cycle (a self-loop counts as one), otherwise a node that lies on a cycle.
/// Which of the topological orders comes back follows petgraph's adjacency
/// lists; `graph_topo` names it.
#[verifier::external_body]
pub(crate) fn graph_toposort(g: &TaskGraph) -> (r: Result<Vec<usize>, usize>)
    ensures
        r matches Ok(ord) ==> ord@ == graph_topo(*g),
        r is Ok <==> is_acyclic(graph_edges(*g)),
        r matches Ok(ord) ==> is_topo_order(
            graph_nodes(*g).len(),
            graph_edges(*g),
            ord@.map_values(|x: usize| x as nat),
        ),
        r matches Err(c) ==> c < graph_nodes(*g).len() && reaches_plus(
            graph_edges(*g),
            c as nat,
            c as nat,
        ),
{
    match petgraph::algo::toposort(g, None) {
        Ok(v) => {
            let mut r = Vec::new();
            for n in v {
                r.push(n.index());
            }
            Ok(r)
        },
        Err(c) => Err(c.node_id().index()),
    }
}

/// Node `v` appears in one of the components.
pub open spec fn listed_in(r: Seq<Vec<usize>>, v: nat) -> bool {
    exists|c: int, i: int| 0 <= c < r.len() && 0 <= i < r[c].len() && #[trigger] r[c][i] == v
}

/// What `petgraph::algo::tarjan_scc` returns on the graph: its components,
/// each as the positions of its nodes, in the order the algorithm emits them.
pub uninterp spec fn graph_sccs(g: Graph<TaskNode, (), Directed, u32>) -> Seq<Seq<usize>>;

/// `petgraph::algo::tarjan_scc`: the strongly connected components, as
/// `graph_sccs` names them. Every node lies in exactly one component, and two
/// nodes share a component exactly when each reaches the other. Which order
/// the components and their nodes come in is left to the name.
#[verifier::external_body]
pub(crate) fn graph_tarjan_scc(g: &TaskGraph) -> (r: Vec<Vec<usize>>)
    ensures
        r@.map_values(|c: Vec<usize>| c@) == graph_sccs(*g),
        forall|c: int, i: int|
            0 <= c < r.len() && 0 <= i < r[c].len() ==> #[trigger] r[c][i] < graph_nodes(*g).len(),
        forall|c: int| 0 <= c < r.len() ==> #[trigger] r[c].len() > 0,
        forall|v: nat| v < graph_nodes(*g).len() ==> #[trigger] listed_in(r@, v),
        forall|c1: int, i1: int, c2: int, i2: int|
            0 <= c1 < r.len() && 0 <= i1 < r[c1].len() && 0 <= c2 < r.len() && 0 <= i2 < r[c2].len()
                && #[trigger] r[c1][i1] == #[trigger] r[c2][i2] ==> c1 == c2 && i1 == i2,
        forall|c1: int, i1: int, c2: int, i2: int|
            0 <= c1 < r.len() && 0 <= i1 < r[c1].len() && 0 <= c2 < r.len() && 0 <= i2 < r[c2].len()
                ==> (c1 == c2 <==> (reaches(
                graph_edges(*g),
                #[trigger] r[c1][i1] as nat,
                #[trigger] r[c2][i2] as nat,
            ) && reaches(graph_edges(*g), r[c2][i2] as nat, r[c1][i1] as nat))),
{
    let mut r = Vec::new();
    for scc in petgraph::algo::tarjan_scc(g) {
        let mut c = Vec::new();
        for n in scc {
            c.push(n.index());
        }
        r.push(c);
    }
    r
}

} // verus!
