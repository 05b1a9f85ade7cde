//! The workflow DAG: tasks as nodes, "runs before" dependencies as edges.
//!
//! A task is looked up by its identifier; when several tasks share one, the
//! one added last answers for it.

use crate::digraph::{
    graph_add_edge, graph_add_node, graph_edge_count, graph_edges, graph_find_edge, graph_new, graph_node_count,
    graph_node_weight, graph_nodes, graph_predecessors, graph_remove_edge, graph_sccs, graph_successors, graph_topo, graph_tarjan_scc,
    graph_toposort, listed_in, TaskGraph,
};
use crate::graph::{predecessors, 
    edges_in_range, has_edge, is_acyclic, is_path, is_topo_order, lemma_plus_first_step,
    lemma_plus_then_reaches, lemma_reaches_refl, is_layering, nodes_at_layer, lemma_topo_covers, lemma_reaches_step, lemma_reaches_trans,
    reaches, reaches_plus, count_false, lemma_count_false_update, is_back_path, edges_within, lemma_sub_acyclic,
    layered_count, lemma_edge_closes_cycle, lemma_layer_below, lemma_layered_count_all, lemma_nodes_at_layer_members,
};
use crate::task::TaskId;
use crate::text::{concat2, decimal, decimal_u128};
use vstd::prelude::*;
use vstd::string::StringExecFns;

verus! {

/// Node data stored in the workflow graph.
#[derive(Debug)]
pub struct TaskNode {
    /// Task identifier
    pub id: TaskId,
    /// Human-readable task name
    pub name: String,
    /// Dependencies the task declared for itself (informational)
    pub dependencies: Vec<TaskId>,
}

impl TaskNode {
    /// A task with no declared dependencies.
    pub fn new(id: &str, name: &str) -> (r: TaskNode)
        ensures
            r.id@ == id@,
            r.name@ == name@,
            r.dependencies@.len() == 0,
    {
        TaskNode { id: TaskId::new(id), name: name.to_string(), dependencies: Vec::new() }
    }

    /// The same task with one more declared dependency.
    pub fn with_dependency(self, dep: &str) -> (r: TaskNode)
        ensures
            r.id@ == self.id@,
            r.name@ == self.name@,
            r.dependencies@.len() == self.dependencies@.len() + 1,
            r.dependencies@.last()@ == dep@,
            forall|i: int| 0 <= i < self.dependencies@.len() ==> r.dependencies@[i] == self.dependencies@[i],
    {
        let mut s = self;
        s.dependencies.push(TaskId::new(dep));
        s
    }

    /// Returns the task ID.
    pub fn id(&self) -> (r: &TaskId)
        ensures
            r == &self.id,
    {
        &self.id
    }
}

/// A task or a whole workflow ran past its time limit.
#[derive(Debug)]
pub enum TimeoutError {
    /// A task exceeded its limit
    TaskTimeout { task_id: String, timeout_secs: u64 },
    /// The workflow exceeded its limit
    WorkflowTimeout { timeout_secs: u64 },
}

/// Error types for workflow operations.
#[derive(Debug)]
pub enum WorkflowError {
    /// Cycle detected in the dependency graph
    CycleDetected(Vec<TaskId>),
    /// Referenced task not found in workflow
    TaskNotFound(TaskId),
    /// Workflow is empty
    EmptyWorkflow,
    /// Dependency refers to non-existent task
    MissingDependency(TaskId),
    /// Checkpoint data is corrupted or has invalid checksum
    CheckpointCorrupted(String),
    /// Checkpoint not found
    CheckpointNotFound(String),
    /// Workflow structure has changed since checkpoint
    WorkflowChanged(String),
    /// Workflow or task exceeded its time limit
    Timeout(TimeoutError),
    /// Task execution failed
    TaskFailed(String),
}

/// `{:?}` of a string: the text in double quotes, with quotes, backslashes
/// and unprintable characters escaped as `str::escape_debug` does.
pub uninterp spec fn debug_quoted(s: Seq<char>) -> Seq<char>;

/// `<str as Debug>::fmt`, written out to a new string.
#[verifier::external_body]
pub(crate) fn str_debug(s: &str) -> (r: String)
    ensures
        r@ == debug_quoted(s@),
{
    format!("{:?}", s)
}

/// The `{:?}` text of one identifier: `TaskId("...")`.
pub open spec fn id_debug(id: TaskId) -> Seq<char> {
    "TaskId("@ + debug_quoted(id@) + ")"@
}

/// The `{:?}` items of a list of identifiers, separated by `, `.
pub open spec fn id_items_debug(ids: Seq<TaskId>) -> Seq<char>
    decreases ids.len(),
{
    if ids.len() == 0 {
        Seq::empty()
    } else if ids.len() == 1 {
        id_debug(ids[0])
    } else {
        id_items_debug(ids.drop_last()) + ", "@ + id_debug(ids.last())
    }
}

/// The `{:?}` text of a list of identifiers: `[TaskId("a"), TaskId("b")]`.
pub open spec fn id_list_debug(ids: Seq<TaskId>) -> Seq<char> {
    "["@ + id_items_debug(ids) + "]"@
}

/// The message of a timeout.
pub open spec fn timeout_text(t: TimeoutError) -> Seq<char> {
    match t {
        TimeoutError::TaskTimeout { task_id, timeout_secs } => "Task "@ + task_id@ + " timed out after "@ + decimal(
            timeout_secs as nat,
        ) + "s"@,
        TimeoutError::WorkflowTimeout { timeout_secs } => "Workflow timed out after "@ + decimal(timeout_secs as nat)
            + "s"@,
    }
}

/// The message of a workflow error.
pub open spec fn workflow_error_text(e: WorkflowError) -> Seq<char> {
    match e {
        WorkflowError::CycleDetected(ids) => "Cycle detected in workflow involving tasks: "@ + id_list_debug(ids@),
        WorkflowError::TaskNotFound(id) => "Task not found: "@ + id@,
        WorkflowError::EmptyWorkflow => "Workflow cannot be empty"@,
        WorkflowError::MissingDependency(id) => "Missing dependency: "@ + id@,
        WorkflowError::CheckpointCorrupted(m) => "Checkpoint corrupted: "@ + m@,
        WorkflowError::CheckpointNotFound(m) => "Checkpoint not found: "@ + m@,
        WorkflowError::WorkflowChanged(m) => "Workflow structure changed: "@ + m@,
        WorkflowError::Timeout(t) => "Timeout: "@ + timeout_text(t),
        WorkflowError::TaskFailed(m) => "Task execution failed: "@ + m@,
    }
}

/// The `{:?}` text of a list of identifiers.
fn id_list_debug_string(ids: &Vec<TaskId>) -> (r: String)
    ensures
        r@ == id_list_debug(ids@),
{
    let mut s = "[".to_string();
    let mut i: usize = 0;
    while i < ids.len()
        invariant
            i <= ids@.len(),
            s@ == "["@ + id_items_debug(ids@.subrange(0, i as int)),
        decreases ids@.len() - i,
    {
        if i > 0 {
            s.append(", ");
        }
        s.append("TaskId(");
        let q = str_debug(ids[i].as_str());
        s.append(q.as_str());
        s.append(")");
        proof {
            let pre = ids@.subrange(0, i as int);
            let next = ids@.subrange(0, i + 1);
            assert(next.drop_last() =~= pre);
            assert(next.last() == ids@[i as int]);
            if i == 0 {
                assert(pre =~= Seq::<TaskId>::empty());
            }
        }
        i = i + 1;
    }
    s.append("]");
    proof {
        assert(ids@.subrange(0, ids@.len() as int) =~= ids@);
    }
    s
}

impl TimeoutError {
    /// The timeout's message.
    pub fn to_display_string(&self) -> (r: String)
        ensures
            r@ == timeout_text(*self),
    {
        match self {
            TimeoutError::TaskTimeout { task_id, timeout_secs } => {
                let mut s = "Task ".to_string();
                s.append(task_id.as_str());
                s.append(" timed out after ");
                let n = decimal_u128(*timeout_secs as u128);
                s.append(n.as_str());
                s.append("s");
                s
            },
            TimeoutError::WorkflowTimeout { timeout_secs } => {
                let mut s = "Workflow timed out after ".to_string();
                let n = decimal_u128(*timeout_secs as u128);
                s.append(n.as_str());
                s.append("s");
                s
            },
        }
    }
}

impl WorkflowError {
    /// The error's message.
    pub fn to_display_string(&self) -> (r: String)
        ensures
            r@ == workflow_error_text(*self),
    {
        match self {
            WorkflowError::CycleDetected(ids) => {
                let mut s = "Cycle detected in workflow involving tasks: ".to_string();
                let l = id_list_debug_string(ids);
                s.append(l.as_str());
                s
            },
            WorkflowError::TaskNotFound(id) => concat2("Task not found: ", id.as_str()),
            WorkflowError::EmptyWorkflow => "Workflow cannot be empty".to_string(),
            WorkflowError::MissingDependency(id) => concat2("Missing dependency: ", id.as_str()),
            WorkflowError::CheckpointCorrupted(m) => concat2("Checkpoint corrupted: ", m.as_str()),
            WorkflowError::CheckpointNotFound(m) => concat2("Checkpoint not found: ", m.as_str()),
            WorkflowError::WorkflowChanged(m) => concat2("Workflow structure changed: ", m.as_str()),
            WorkflowError::Timeout(t) => {
                let mut s = "Timeout: ".to_string();
                let m = t.to_display_string();
                s.append(m.as_str());
                s
            },
            WorkflowError::TaskFailed(m) => concat2("Task execution failed: ", m.as_str()),
        }
    }
}

/// Directed graph of tasks representing a workflow.
pub struct Workflow {
    pub(crate) graph: TaskGraph,
}

impl Default for Workflow {
    fn default() -> (w: Workflow)
        ensures
            w.wf(),
            w.nodes() == Seq::<TaskNode>::empty(),
            w.edges() == Seq::<(nat, nat)>::empty(),
    {
        Workflow::new()
    }
}

/// The position of the last node carrying identifier `id`, or -1.
pub open spec fn last_index_of(nodes: Seq<TaskNode>, id: Seq<char>) -> int
    decreases nodes.len(),
{
    if nodes.len() == 0 {
        -1
    } else if nodes.last().id@ == id {
        nodes.len() - 1
    } else {
        last_index_of(nodes.drop_last(), id)
    }
}

/// Properties of `last_index_of`.
pub proof fn lemma_last_index_of(nodes: Seq<TaskNode>, id: Seq<char>)
    ensures
        -1 <= last_index_of(nodes, id) < nodes.len(),
        last_index_of(nodes, id) >= 0 ==> nodes[last_index_of(nodes, id)].id@ == id,
        forall|j: int| last_index_of(nodes, id) < j < nodes.len() ==> #[trigger] nodes[j].id@ != id,
        last_index_of(nodes, id) == -1 <==> forall|j: int| 0 <= j < nodes.len() ==> #[trigger] nodes[j].id@ != id,
    decreases nodes.len(),
{
    if nodes.len() > 0 {
        let d = nodes.drop_last();
        lemma_last_index_of(d, id);
        assert forall|j: int| last_index_of(nodes, id) < j < nodes.len() implies #[trigger] nodes[j].id@
            != id by {
            if j < d.len() {
                assert(nodes[j] == d[j]);
                assert(d[j].id@ != id);
            } else {
                assert(nodes[j] == nodes.last());
            }
        }
        if last_index_of(nodes, id) == -1 {
            assert forall|j: int| 0 <= j < nodes.len() implies #[trigger] nodes[j].id@ != id by {
                if j < d.len() {
                    assert(nodes[j] == d[j]);
                }
            }
        }
        if forall|j: int| 0 <= j < nodes.len() ==> #[trigger] nodes[j].id@ != id {
            assert forall|j: int| 0 <= j < d.len() implies #[trigger] d[j].id@ != id by {
                assert(nodes[j] == d[j]);
            }
        }
        if last_index_of(nodes, id) >= 0 && last_index_of(nodes, id) < d.len() {
            assert(nodes[last_index_of(nodes, id)] == d[last_index_of(nodes, id)]);
        }
    }
}

/// `ids` are the identifiers of the nodes listed in `ps`, taken in some order.
pub open spec fn ids_of_in_some_order(nodes: Seq<TaskNode>, ps: Seq<nat>, ids: Seq<TaskId>) -> bool {
    exists|qs: Seq<nat>| qs.to_multiset() == ps.to_multiset() && #[trigger] ids_along(nodes, qs, ids)
}

/// Some entry of `ids` is `x`.
pub open spec fn lists_id(ids: Seq<TaskId>, x: Seq<char>) -> bool {
    exists|k: int| 0 <= k < ids.len() && #[trigger] ids[k]@ == x
}

/// The nodes among the first `upto` that no edge points to, in node order.
pub open spec fn roots_upto(e: Seq<(nat, nat)>, upto: nat) -> Seq<nat>
    decreases upto,
{
    if upto == 0 {
        Seq::empty()
    } else if (forall|u: nat| !#[trigger] has_edge(e, u, (upto - 1) as nat)) {
        roots_upto(e, (upto - 1) as nat).push((upto - 1) as nat)
    } else {
        roots_upto(e, (upto - 1) as nat)
    }
}

/// `ids` are the identifiers of the nodes listed by `ord`, in that order.
pub open spec fn ids_along(nodes: Seq<TaskNode>, ord: Seq<nat>, ids: Seq<TaskId>) -> bool {
    &&& ids.len() == ord.len()
    &&& forall|i: int| 0 <= i < ord.len() ==> #[trigger] ids[i]@ == nodes[ord[i] as int].id@
}

/// Some task with identifier `from` has an edge of `e` into node `to`.
pub open spec fn has_id_edge(nodes: Seq<TaskNode>, e: Seq<(nat, nat)>, to: nat, from: Seq<char>) -> bool {
    exists|j: nat| j < nodes.len() && #[trigger] has_edge(e, j, to) && nodes[j as int].id@ == from
}

/// The edges after applying the suggestions `(from, to)` to `e` in order: each
/// adds an edge from the last task named `from` to the last task named `to`,
/// unless some task named `from` already has an edge into that task.
pub open spec fn applied_edges(nodes: Seq<TaskNode>, e: Seq<(nat, nat)>, sug: Seq<(TaskId, TaskId)>) -> Seq<(nat, nat)>
    decreases sug.len(),
{
    if sug.len() == 0 {
        e
    } else {
        let prev = applied_edges(nodes, e, sug.drop_last());
        let a = last_index_of(nodes, sug.last().0@) as nat;
        let b = last_index_of(nodes, sug.last().1@) as nat;
        if has_id_edge(nodes, prev, b, sug.last().0@) {
            prev
        } else {
            prev.push((a, b))
        }
    }
}

impl Workflow {
    /// The task nodes in insertion order.
    pub closed spec fn nodes(&self) -> Seq<TaskNode> {
        graph_nodes(self.graph)
    }

    /// The dependency edges `(prerequisite, dependent)` in insertion order.
    pub closed spec fn edges(&self) -> Seq<(nat, nat)> {
        graph_edges(self.graph)
    }

    /// Every edge joins existing nodes and both index spaces fit petgraph's `u32`.
    pub open spec fn wf(&self) -> bool {
        &&& edges_in_range(self.edges(), self.nodes().len())
        &&& self.nodes().len() <= u32::MAX
        &&& self.edges().len() <= u32::MAX
    }

    /// No two tasks share an identifier.
    pub open spec fn unique_ids(&self) -> bool {
        forall|j1: int, j2: int|
            0 <= j1 < self.nodes().len() && 0 <= j2 < self.nodes().len() && j1 != j2 ==> #[trigger] self.nodes()[j1].id@
                != #[trigger] self.nodes()[j2].id@
    }

    /// The node that answers for identifier `id`, or -1.
    pub open spec fn index_of(&self, id: Seq<char>) -> int {
        last_index_of(self.nodes(), id)
    }

    /// Some task carries identifier `id`.
    pub open spec fn has_task(&self, id: Seq<char>) -> bool {
        exists|j: int| 0 <= j < self.nodes().len() && #[trigger] self.nodes()[j].id@ == id
    }

    /// The identifiers along the topological order petgraph gives the graph.
    pub closed spec fn topo_ids(&self) -> Seq<Seq<char>> {
        graph_topo(self.graph).map_values(|v: usize| graph_nodes(self.graph)[v as int].id@)
    }

    /// `ids` is the execution order `execution_order` returns: a topological
    /// order of the tasks, the one petgraph gives.
    pub open spec fn is_the_execution_order(&self, ids: Seq<TaskId>) -> bool {
        &&& self.is_execution_order(ids)
        &&& ids.map_values(|t: TaskId| t@) == self.topo_ids()
    }

    /// `ids` lists the tasks in a topological order of the whole graph.
    pub open spec fn is_execution_order(&self, ids: Seq<TaskId>) -> bool {
        exists|ord: Seq<nat>|
            is_topo_order(self.nodes().len(), self.edges(), ord) && #[trigger] ids_along(
                self.nodes(),
                ord,
                ids,
            )
    }

    /// `layers[k]` lists, in node order, the tasks whose layer under `lay` is `k`,
    /// and the layers run from 0 up to the highest one used.
    pub open spec fn groups_by(&self, lay: Seq<nat>, layers: Seq<Vec<TaskId>>) -> bool {
        &&& forall|v: nat| v < self.nodes().len() ==> #[trigger] lay[v as int] < layers.len()
        &&& self.nodes().len() > 0 ==> exists|v: nat|
            v < self.nodes().len() && #[trigger] lay[v as int] + 1 == layers.len()
        &&& forall|k: int|
            0 <= k < layers.len() ==> ids_along(
                self.nodes(),
                nodes_at_layer(lay, k as nat, self.nodes().len()),
                #[trigger] layers[k]@,
            )
    }

    /// `layers` groups the tasks by the (unique) layering of the graph.
    pub open spec fn is_layered_as(&self, layers: Seq<Vec<TaskId>>) -> bool {
        exists|lay: Seq<nat>|
            is_layering(self.nodes().len(), self.edges(), lay) && #[trigger] self.groups_by(lay, layers)
    }

    /// Some node carrying identifier `from` has an edge into node `to`.
    pub open spec fn depends_on_id(&self, to: nat, from: Seq<char>) -> bool {
        exists|j: nat| j < self.nodes().len() && #[trigger] has_edge(self.edges(), j, to) && self.nodes()[j as int].id@ == from
    }

    /// Node `v` shares a strongly connected component with another node.
    pub open spec fn on_long_cycle(&self, v: nat) -> bool {
        exists|u: nat|
            u < self.nodes().len() && u != v && #[trigger] reaches(self.edges(), u, v) && reaches(
                self.edges(),
                v,
                u,
            )
    }

    /// `id` is the identifier of a node that shares a strongly connected
    /// component with another node.
    pub open spec fn is_cycle_member_id(&self, id: Seq<char>) -> bool {
        exists|v: nat| v < self.nodes().len() && self.on_long_cycle(v) && id == self.nodes()[v as int].id@
    }

    /// `ids` names exactly the tasks of the nodes that share a strongly
    /// connected component with another node.
    pub open spec fn is_cycle_report(&self, ids: Seq<TaskId>) -> bool {
        &&& forall|k: int| 0 <= k < ids.len() ==> self.is_cycle_member_id(#[trigger] ids[k]@)
        &&& forall|v: nat|
            v < self.nodes().len() && #[trigger] self.on_long_cycle(v) ==> lists_id(ids, self.nodes()[v as int].id@)
    }

    /// Creates a new empty workflow.
    pub fn new() -> (w: Workflow)
        ensures
            w.wf(),
            w.nodes() == Seq::<TaskNode>::empty(),
            w.edges() == Seq::<(nat, nat)>::empty(),
    {
        Workflow { graph: graph_new() }
    }

    /// Adds a task as an isolated node and returns its node index.
    /// The graph's index space must not be full (petgraph panics there).
    pub fn add_task(&mut self, task: TaskNode) -> (r: usize)
        requires
            old(self).wf(),
            old(self).nodes().len() < u32::MAX,
        ensures
            final(self).wf(),
            r == old(self).nodes().len(),
            final(self).nodes() == old(self).nodes().push(task),
            final(self).edges() == old(self).edges(),
    {
        graph_add_node(&mut self.graph, task)
    }

    /// Returns the number of tasks in the workflow.
    pub fn task_count(&self) -> (r: usize)
        ensures
            r == self.nodes().len(),
    {
        graph_node_count(&self.graph)
    }

    /// Returns the number of dependency edges in the workflow.
    pub fn dependency_count(&self) -> (r: usize)
        ensures
            r == self.edges().len(),
    {
        graph_edge_count(&self.graph)
    }

    /// The node answering for `id`, if any.
    pub fn find_task(&self, id: &TaskId) -> (r: Option<usize>)
        requires
            self.wf(),
        ensures
            r matches Some(i) ==> i as int == self.index_of(id@) && i < self.nodes().len(),
            r is None <==> self.index_of(id@) == -1,
            r is None <==> !self.has_task(id@),
    {
        proof {
            lemma_last_index_of(self.nodes(), id@);
        }
        let n: usize = graph_node_count(&self.graph);
        let mut i: usize = n;
        while i > 0
            invariant
                n == self.nodes().len(),
                n <= u32::MAX,
                i <= n,
                forall|j: int| i <= j < n ==> #[trigger] self.nodes()[j].id@ != id@,
                -1 <= last_index_of(self.nodes(), id@) < n,
                last_index_of(self.nodes(), id@) >= 0 ==> self.nodes()[last_index_of(
                    self.nodes(),
                    id@,
                )].id@ == id@,
                forall|j: int| last_index_of(self.nodes(), id@) < j < n ==> #[trigger] self.nodes()[j].id@ != id@,
                last_index_of(self.nodes(), id@) == -1 <==> forall|j: int|
                    0 <= j < n ==> #[trigger] self.nodes()[j].id@ != id@,
            decreases i,
        {
            i = i - 1;
            let node = graph_node_weight(&self.graph, i).unwrap();
            if node.id == *id {
                return Some(i);
            }
        }
        None
    }

    /// Checks if a task ID exists in the workflow.
    pub fn contains_task(&self, id: &TaskId) -> (r: bool)
        requires
            self.wf(),
        ensures
            r == self.has_task(id@),
    {
        self.find_task(id).is_some()
    }

    /// The identifiers of the nodes listed in `idx`, in that order.
    fn ids_of(&self, idx: &Vec<usize>) -> (r: Vec<TaskId>)
        requires
            self.wf(),
            forall|i: int| 0 <= i < idx.len() ==> #[trigger] idx[i] < self.nodes().len(),
        ensures
            ids_along(self.nodes(), idx@.map_values(|x: usize| x as nat), r@),
    {
        let mut r: Vec<TaskId> = Vec::new();
        let mut i: usize = 0;
        while i < idx.len()
            invariant
                self.wf(),
                i <= idx.len(),
                forall|j: int| 0 <= j < idx.len() ==> #[trigger] idx[j] < self.nodes().len(),
                r@.len() == i,
                forall|j: int| 0 <= j < i ==> #[trigger] r@[j]@ == self.nodes()[idx[j] as int].id@,
            decreases idx.len() - i,
        {
            let node = graph_node_weight(&self.graph, idx[i]).unwrap();
            r.push(node.id.clone());
            i = i + 1;
        }
        r
    }

    /// Path for a cycle report: the nodes met walking backwards from `end`
    /// until `start` is found, or just `start` and `end` when it is not.
    fn find_cycle_path(&self, start: usize, end: usize) -> (r: Vec<TaskId>)
        requires
            self.wf(),
            start < self.nodes().len(),
            end < self.nodes().len(),
        ensures
            (r@.len() == 2 && r@[0]@ == self.nodes()[start as int].id@ && r@[1]@
                == self.nodes()[end as int].id@) || exists|q: Seq<nat>|
                q[0] == end && q.last() == start && is_back_path(self.edges(), q) && #[trigger] ids_along(
                    self.nodes(),
                    q,
                    r@,
                ),
    {
        let n: usize = graph_node_count(&self.graph);
        let mut visited: Vec<bool> = Vec::new();
        let mut k: usize = 0;
        while k < n
            invariant
                k <= n,
                visited@.len() == k,
            decreases n - k,
        {
            visited.push(false);
            k = k + 1;
        }
        let mut queue: Vec<(usize, Vec<usize>)> = Vec::new();
        let mut first: Vec<usize> = Vec::new();
        first.push(end);
        queue.push((end, first));
        loop
            invariant
                self.wf(),
                n == self.nodes().len(),
                start < n,
                end < n,
                visited@.len() == n,
                forall|j: int|
                    0 <= j < queue@.len() ==> {
                        let (c, p) = #[trigger] queue@[j];
                        &&& c < n
                        &&& p@.len() >= 1
                        &&& p@[0] == end
                        &&& p@.last() == c
                        &&& forall|t: int| 0 <= t < p@.len() ==> #[trigger] p@[t] < n
                        &&& is_back_path(self.edges(), p@.map_values(|x: usize| x as nat))
                    },
            decreases count_false(visited@), queue@.len(),
        {
            match queue.pop() {
                None => {
                    break ;
                },
                Some((current, path)) => {
                    if current == start {
                        let r = self.ids_of(&path);
                        proof {
                            let q = path@.map_values(|x: usize| x as nat);
                            assert(q[0] == end);
                            assert(q.last() == start);
                        }
                        return r;
                    }
                    if visited[current] {
                        continue ;
                    }
                    proof {
                        lemma_count_false_update(visited@, current as int);
                    }
                    visited.set(current, true);
                    let preds = graph_predecessors(&self.graph, current);
                    let mut t: usize = 0;
                    while t < preds.len()
                        invariant
                            self.wf(),
                            n == self.nodes().len(),
                            start < n,
                            end < n,
                            current < n,
                            visited@.len() == n,
                            t <= preds@.len(),
                            forall|x: usize| preds@.contains(x) <==> has_edge(self.edges(), x as nat, current as nat),
                            path@.len() >= 1,
                            path@[0] == end,
                            path@.last() == current,
                            forall|u: int| 0 <= u < path@.len() ==> #[trigger] path@[u] < n,
                            is_back_path(self.edges(), path@.map_values(|x: usize| x as nat)),
                            forall|j: int|
                                0 <= j < queue@.len() ==> {
                                    let (c, p) = #[trigger] queue@[j];
                                    &&& c < n
                                    &&& p@.len() >= 1
                                    &&& p@[0] == end
                                    &&& p@.last() == c
                                    &&& forall|u: int| 0 <= u < p@.len() ==> #[trigger] p@[u] < n
                                    &&& is_back_path(self.edges(), p@.map_values(|x: usize| x as nat))
                                },
                        decreases preds@.len() - t,
                    {
                        let nb: usize = preds[t];
                        assert(preds@.contains(nb));
                        if nb < n && !visited[nb] {
                            let mut new_path = path.clone();
                            new_path.push(nb);
                            proof {
                                let q = path@.map_values(|x: usize| x as nat);
                                let q2 = new_path@.map_values(|x: usize| x as nat);
                                assert(q2 =~= q.push(nb as nat));
                                assert forall|k: int| #![trigger q2[k]] 0 <= k < q2.len() - 1 implies has_edge(
                                    self.edges(),
                                    q2[k + 1],
                                    q2[k],
                                ) by {
                                    if k < q.len() - 1 {
                                        assert(q2[k] == q[k] && q2[k + 1] == q[k + 1]);
                                    } else {
                                        assert(q2[k] == current as nat);
                                        assert(q2[k + 1] == nb as nat);
                                    }
                                }
                            }
                            queue.push((nb, new_path));
                        }
                        t = t + 1;
                    }
                },
            }
        }
        let mut r: Vec<TaskId> = Vec::new();
        let a = graph_node_weight(&self.graph, start).unwrap();
        r.push(a.id.clone());
        let b = graph_node_weight(&self.graph, end).unwrap();
        r.push(b.id.clone());
        r
    }

    /// Identifiers of every node that shares a strongly connected component
    /// with another node, component by component.
    fn detect_cycle_nodes(&self) -> (r: Vec<TaskId>)
        requires
            self.wf(),
        ensures
            self.is_cycle_report(r@),
    {
        let sccs = graph_tarjan_scc(&self.graph);
        let ghost n = self.nodes().len();
        let ghost e = self.edges();
        let mut r: Vec<TaskId> = Vec::new();
        let mut c: usize = 0;
        while c < sccs.len()
            invariant
                self.wf(),
                n == self.nodes().len(),
                e == self.edges(),
                c <= sccs@.len(),
                forall|c1: int, i1: int|
                    0 <= c1 < sccs@.len() && 0 <= i1 < sccs@[c1]@.len() ==> #[trigger] sccs@[c1]@[i1] < n,
                forall|v: nat| v < n ==> #[trigger] listed_in(sccs@, v),
                forall|c1: int, i1: int, c2: int, i2: int|
                    0 <= c1 < sccs@.len() && 0 <= i1 < sccs@[c1]@.len() && 0 <= c2 < sccs@.len() && 0
                        <= i2 < sccs@[c2]@.len() && #[trigger] sccs@[c1]@[i1] == #[trigger] sccs@[c2]@[i2]
                        ==> c1 == c2 && i1 == i2,
                forall|c1: int, i1: int, c2: int, i2: int|
                    0 <= c1 < sccs@.len() && 0 <= i1 < sccs@[c1]@.len() && 0 <= c2 < sccs@.len() && 0
                        <= i2 < sccs@[c2]@.len() ==> (c1 == c2 <==> (reaches(
                        e,
                        #[trigger] sccs@[c1]@[i1] as nat,
                        #[trigger] sccs@[c2]@[i2] as nat,
                    ) && reaches(e, sccs@[c2]@[i2] as nat, sccs@[c1]@[i1] as nat))),
                forall|k: int| 0 <= k < r@.len() ==> self.is_cycle_member_id(#[trigger] r@[k]@),
                forall|c1: int, i1: int|
                    0 <= c1 < c && 0 <= i1 < sccs@[c1]@.len() && sccs@[c1]@.len() > 1 ==> lists_id(
                        r@,
                        self.nodes()[#[trigger] sccs@[c1]@[i1] as int].id@,
                    ),
            decreases sccs@.len() - c,
        {
            let comp = &sccs[c];
            if comp.len() > 1 {
                let ghost r0 = r@;
                let mut i: usize = 0;
                while i < comp.len()
                    invariant
                        self.wf(),
                        n == self.nodes().len(),
                        e == self.edges(),
                        c < sccs@.len(),
                        comp == sccs@[c as int],
                        comp@.len() > 1,
                        i <= comp@.len(),
                        forall|c1: int, i1: int|
                            0 <= c1 < sccs@.len() && 0 <= i1 < sccs@[c1]@.len() ==> #[trigger] sccs@[c1]@[i1] < n,
                        forall|c1: int, i1: int, c2: int, i2: int|
                            0 <= c1 < sccs@.len() && 0 <= i1 < sccs@[c1]@.len() && 0 <= c2 < sccs@.len()
                                && 0 <= i2 < sccs@[c2]@.len() && #[trigger] sccs@[c1]@[i1]
                                == #[trigger] sccs@[c2]@[i2] ==> c1 == c2 && i1 == i2,
                        forall|c1: int, i1: int, c2: int, i2: int|
                            0 <= c1 < sccs@.len() && 0 <= i1 < sccs@[c1]@.len() && 0 <= c2 < sccs@.len()
                                && 0 <= i2 < sccs@[c2]@.len() ==> (c1 == c2 <==> (reaches(
                                e,
                                #[trigger] sccs@[c1]@[i1] as nat,
                                #[trigger] sccs@[c2]@[i2] as nat,
                            ) && reaches(e, sccs@[c2]@[i2] as nat, sccs@[c1]@[i1] as nat))),
                        r@.len() == r0.len() + i,
                        forall|k: int| 0 <= k < r0.len() ==> r@[k] == r0[k],
                        forall|k: int| 0 <= k < r0.len() ==> self.is_cycle_member_id(#[trigger] r0[k]@),
                        forall|c1: int, i1: int|
                            0 <= c1 < c && 0 <= i1 < sccs@[c1]@.len() && sccs@[c1]@.len() > 1 ==> lists_id(
                                r0,
                                self.nodes()[#[trigger] sccs@[c1]@[i1] as int].id@,
                            ),
                        forall|j: int| 0 <= j < i ==> #[trigger] r@[r0.len() + j]@ == self.nodes()[comp@[j] as int].id@,
                    decreases comp@.len() - i,
                {
                    let v = comp[i];
                    proof {
                        let other: int = if i == 0 { 1 } else { 0 };
                        let u = comp@[other];
                        assert(sccs@[c as int]@[other] == u);
                        assert(sccs@[c as int]@[i as int] == v);
                        assert(u != v);
                        assert(reaches(e, u as nat, v as nat) && reaches(e, v as nat, u as nat));
                        assert(self.on_long_cycle(v as nat));
                        assert(self.is_cycle_member_id(self.nodes()[v as int].id@));
                    }
                    let node = graph_node_weight(&self.graph, v).unwrap();
                    r.push(node.id.clone());
                    i = i + 1;
                }
                proof {
                    assert forall|k: int| 0 <= k < r@.len() implies self.is_cycle_member_id(#[trigger] r@[k]@) by {
                        if k < r0.len() {
                            assert(r@[k] == r0[k]);
                            assert(self.is_cycle_member_id(r0[k]@));
                        } else {
                            let j = k - r0.len();
                            assert(r@[r0.len() + j]@ == self.nodes()[comp@[j] as int].id@);
                            let w = comp@[j];
                            let other: int = if j == 0 { 1 } else { 0 };
                            let u = comp@[other];
                            assert(sccs@[c as int]@[other] == u);
                            assert(sccs@[c as int]@[j] == w);
                            assert(reaches(e, u as nat, w as nat) && reaches(e, w as nat, u as nat));
                            assert(self.on_long_cycle(w as nat));
                            assert(self.is_cycle_member_id(self.nodes()[w as int].id@));
                        }
                    }
                    assert forall|c1: int, i1: int|
                        0 <= c1 < c + 1 && 0 <= i1 < sccs@[c1]@.len() && sccs@[c1]@.len() > 1 implies lists_id(
                            r@,
                            self.nodes()[#[trigger] sccs@[c1]@[i1] as int].id@,
                        ) by {
                        if c1 < c {
                            let x = self.nodes()[sccs@[c1]@[i1] as int].id@;
                            assert(lists_id(r0, x));
                            let k = choose|k: int| 0 <= k < r0.len() && #[trigger] r0[k]@ == x;
                            assert(r@[k] == r0[k]);
                            assert(r@[k]@ == x);
                        } else {
                            assert(r@[r0.len() + i1]@ == self.nodes()[comp@[i1] as int].id@);
                        }
                    }
                }
            }
            c = c + 1;
        }
        proof {
            assert forall|v: nat| v < n && #[trigger] self.on_long_cycle(v) implies lists_id(
                r@,
                self.nodes()[v as int].id@,
            ) by {
                let u = choose|u: nat| u < n && u != v && #[trigger] reaches(e, u, v) && reaches(e, v, u);
                assert(listed_in(sccs@, v));
                assert(listed_in(sccs@, u));
                let (cv, iv) = choose|cv: int, iv: int|
                    0 <= cv < sccs@.len() && 0 <= iv < sccs@[cv]@.len() && #[trigger] sccs@[cv]@[iv] == v;
                let (cu, iu) = choose|cu: int, iu: int|
                    0 <= cu < sccs@.len() && 0 <= iu < sccs@[cu]@.len() && #[trigger] sccs@[cu]@[iu] == u;
                assert(sccs@[cv]@[iv] as nat == v && sccs@[cu]@[iu] as nat == u);
                assert(cv == cu);
                assert(iv != iu);
                assert(sccs@[cv]@.len() > 1);
                assert(self.nodes()[sccs@[cv]@[iv] as int].id@ == self.nodes()[v as int].id@);
            }
        }
        r
    }

    /// Adds a dependency edge: `to_task` runs after `from_task`.
    ///
    /// The edge is kept only when the graph stays acyclic (for an acyclic
    /// graph: when `from_task` cannot already be reached from `to_task`, so
    /// never for a task on itself); otherwise it is taken back out and the
    /// error names a path for the report.
    pub fn add_dependency(&mut self, from_task: TaskId, to_task: TaskId) -> (r: Result<(), WorkflowError>)
        requires
            old(self).wf(),
            old(self).edges().len() < u32::MAX,
        ensures
            final(self).wf(),
            final(self).nodes() == old(self).nodes(),
            !old(self).has_task(from_task@) ==> (r matches Err(WorkflowError::TaskNotFound(x)) && x@
                == from_task@ && final(self).edges() == old(self).edges()),
            old(self).has_task(from_task@) && !old(self).has_task(to_task@) ==> (r matches Err(
                WorkflowError::TaskNotFound(x),
            ) && x@ == to_task@ && final(self).edges() == old(self).edges()),
            old(self).has_task(from_task@) && old(self).has_task(to_task@) ==> {
                let grown = old(self).edges().push(
                    (
                        old(self).index_of(from_task@) as nat,
                        old(self).index_of(to_task@) as nat,
                    ),
                );
                &&& is_acyclic(grown) ==> r is Ok && final(self).edges() == grown
                &&& !is_acyclic(grown) ==> (r matches Err(WorkflowError::CycleDetected(_))
                    && final(self).edges() == old(self).edges())
            },
            old(self).has_task(from_task@) && old(self).has_task(to_task@) && is_acyclic(old(self).edges()) ==> (r
                is Ok <==> !reaches(
                old(self).edges(),
                old(self).index_of(to_task@) as nat,
                old(self).index_of(from_task@) as nat,
            )),
    {
        let from_idx = match self.find_task(&from_task) {
            Some(i) => i,
            None => {
                return Err(WorkflowError::TaskNotFound(from_task));
            },
        };
        let to_idx = match self.find_task(&to_task) {
            Some(i) => i,
            None => {
                return Err(WorkflowError::TaskNotFound(to_task));
            },
        };
        let ghost before = self.edges();
        proof {
            if is_acyclic(before) {
                lemma_edge_closes_cycle(before, from_idx as nat, to_idx as nat);
            }
        }
        graph_add_edge(&mut self.graph, from_idx, to_idx);
        proof {
            let grown = self.edges();
            assert(grown[grown.len() - 1] == (from_idx as nat, to_idx as nat));
            assert(has_edge(grown, from_idx as nat, to_idx as nat));
        }
        match graph_toposort(&self.graph) {
            Ok(_) => Ok(()),
            Err(_) => {
                let k = graph_find_edge(&self.graph, from_idx, to_idx).unwrap();
                let ghost grown = self.edges();
                proof {
                    assert(grown[grown.len() - 1] == (from_idx as nat, to_idx as nat));
                }
                graph_remove_edge(&mut self.graph, k);
                proof {
                    assert(self.edges() =~= before);
                }
                let cycle_path = self.find_cycle_path(from_idx, to_idx);
                Err(WorkflowError::CycleDetected(cycle_path))
            },
        }
    }

    /// Adds an edge `from_task -> to_task` without the cycle check, so that
    /// graphs built elsewhere (cycles included) can be analysed.
    pub fn add_edge_unchecked(&mut self, from_task: &TaskId, to_task: &TaskId) -> (r: Result<(), WorkflowError>)
        requires
            old(self).wf(),
            old(self).edges().len() < u32::MAX,
        ensures
            final(self).wf(),
            final(self).nodes() == old(self).nodes(),
            !old(self).has_task(from_task@) ==> (r matches Err(WorkflowError::TaskNotFound(x)) && x@ == from_task@),
            old(self).has_task(from_task@) && !old(self).has_task(to_task@) ==> (r matches Err(
                WorkflowError::TaskNotFound(x),
            ) && x@ == to_task@),
            r is Err ==> final(self).edges() == old(self).edges(),
            old(self).has_task(from_task@) && old(self).has_task(to_task@) ==> r is Ok && final(self).edges()
                == old(self).edges().push(
                (old(self).index_of(from_task@) as nat, old(self).index_of(to_task@) as nat),
            ),
    {
        let from_idx = match self.find_task(from_task) {
            Some(i) => i,
            None => {
                return Err(WorkflowError::TaskNotFound(from_task.clone()));
            },
        };
        let to_idx = match self.find_task(to_task) {
            Some(i) => i,
            None => {
                return Err(WorkflowError::TaskNotFound(to_task.clone()));
            },
        };
        graph_add_edge(&mut self.graph, from_idx, to_idx);
        Ok(())
    }

    /// Returns tasks in topological execution order.
    pub fn execution_order(&self) -> (r: Result<Vec<TaskId>, WorkflowError>)
        requires
            self.wf(),
        ensures
            self.nodes().len() == 0 <==> r matches Err(WorkflowError::EmptyWorkflow),
            self.nodes().len() > 0 && !is_acyclic(self.edges()) ==> (r matches Err(
                WorkflowError::CycleDetected(ids),
            ) && self.is_cycle_report(ids@)),
            self.nodes().len() > 0 && is_acyclic(self.edges()) ==> (r matches Ok(order)
                && self.is_the_execution_order(order@)),
            r is Ok ==> self.nodes().len() > 0 && is_acyclic(self.edges()),
    {
        if graph_node_count(&self.graph) == 0 {
            return Err(WorkflowError::EmptyWorkflow);
        }
        match graph_toposort(&self.graph) {
            Err(_) => Err(WorkflowError::CycleDetected(self.detect_cycle_nodes())),
            Ok(sorted) => {
                let ghost ord = sorted@.map_values(|x: usize| x as nat);
                proof {
                    assert forall|i: int| 0 <= i < sorted@.len() implies #[trigger] sorted@[i] < self.nodes().len() by {
                        assert(ord[i] < self.nodes().len());
                    }
                }
                let order = self.ids_of(&sorted);
                proof {
                    assert(ids_along(self.nodes(), ord, order@));
                    assert(order@.map_values(|t: TaskId| t@) =~= self.topo_ids());
                }
                Ok(order)
            },
        }
    }

    /// Returns tasks grouped into parallel execution layers: a task's layer is
    /// the length of the longest dependency chain that ends at it, so tasks in
    /// one layer never depend on each other and only on lower layers.
    pub fn execution_layers(&self) -> (r: Result<Vec<Vec<TaskId>>, WorkflowError>)
        requires
            self.wf(),
        ensures
            self.nodes().len() == 0 <==> r matches Err(WorkflowError::EmptyWorkflow),
            self.nodes().len() > 0 && !is_acyclic(self.edges()) ==> (r matches Err(
                WorkflowError::CycleDetected(ids),
            ) && self.is_cycle_report(ids@)),
            self.nodes().len() > 0 && is_acyclic(self.edges()) ==> (r matches Ok(layers)
                && self.is_layered_as(layers@)),
            r is Ok ==> self.nodes().len() > 0 && is_acyclic(self.edges()),
    {
        let n = graph_node_count(&self.graph);
        if n == 0 {
            return Err(WorkflowError::EmptyWorkflow);
        }
        let sorted = match graph_toposort(&self.graph) {
            Err(_) => {
                return Err(WorkflowError::CycleDetected(self.detect_cycle_nodes()));
            },
            Ok(sorted) => sorted,
        };
        let ghost ord = sorted@.map_values(|x: usize| x as nat);
        let ghost e = self.edges();
        let mut lay: Vec<usize> = Vec::new();
        let mut z: usize = 0;
        while z < n
            invariant
                z <= n,
                lay@.len() == z,
                forall|j: int| 0 <= j < z ==> lay@[j] == 0,
            decreases n - z,
        {
            lay.push(0);
            z = z + 1;
        }
        let mut i: usize = 0;
        while i < n
            invariant
                self.wf(),
                n == self.nodes().len(),
                e == self.edges(),
                is_topo_order(n as nat, e, ord),
                ord == sorted@.map_values(|x: usize| x as nat),
                i <= n,
                lay@.len() == n,
                forall|j: int|
                    0 <= j < i ==> {
                        let v = #[trigger] ord[j];
                        &&& lay@[v as int] <= j
                        &&& forall|u: nat| u < n && has_edge(e, u, v) ==> lay@[u as int] < lay@[v as int]
                        &&& lay@[v as int] > 0 ==> exists|u: nat|
                            u < n && has_edge(e, u, v) && lay@[u as int] + 1 == lay@[v as int]
                    },
            decreases n - i,
        {
            let v = sorted[i];
            assert(ord[i as int] == v as nat);
            assert(v < n);
            let preds = graph_predecessors(&self.graph, v);
            let mut m: usize = 0;
            let mut t: usize = 0;
            while t < preds.len()
                invariant
                    self.wf(),
                    n == self.nodes().len(),
                    e == self.edges(),
                    is_topo_order(n as nat, e, ord),
                    i < n,
                    v as nat == ord[i as int],
                    lay@.len() == n,
                    forall|x: usize| preds@.contains(x) <==> has_edge(e, x as nat, v as nat),
                    forall|j: int|
                        0 <= j < i ==> {
                            let w = #[trigger] ord[j];
                            &&& lay@[w as int] <= j
                            &&& forall|u: nat| u < n && has_edge(e, u, w) ==> lay@[u as int] < lay@[w as int]
                            &&& lay@[w as int] > 0 ==> exists|u: nat|
                                u < n && has_edge(e, u, w) && lay@[u as int] + 1 == lay@[w as int]
                        },
                    t <= preds@.len(),
                    m <= i,
                    forall|s: int| 0 <= s < t ==> lay@[#[trigger] preds@[s] as int] < m,
                    m > 0 ==> exists|u: nat| u < n && has_edge(e, u, v as nat) && lay@[u as int] + 1 == m,
                decreases preds@.len() - t,
            {
                let p = preds[t];
                assert(preds@.contains(p));
                assert(has_edge(e, p as nat, v as nat));
                assert(p < n);
                proof {
                    lemma_topo_covers(n as nat, e, ord, p as nat);
                    let jp = choose|jp: int| 0 <= jp < ord.len() && ord[jp] == p as nat;
                    assert(has_edge(e, ord[jp], ord[i as int]));
                    assert(jp < i);
                    assert(lay@[ord[jp] as int] <= jp);
                }
                if lay[p] + 1 > m {
                    m = lay[p] + 1;
                }
                t = t + 1;
            }
            proof {
                assert forall|u: nat| u < n && has_edge(e, u, v as nat) implies lay@[u as int] < m by {
                    assert(u < u32::MAX);
                    assert(preds@.contains(u as usize));
                    let s = choose|s: int| 0 <= s < preds@.len() && preds@[s] == u as usize;
                    assert(lay@[preds@[s] as int] < m);
                }
            }
            let ghost old_lay = lay@;
            lay.set(v, m);
            proof {
                assert forall|j: int| 0 <= j < i + 1 implies {
                    let w = #[trigger] ord[j];
                    &&& lay@[w as int] <= j
                    &&& forall|u: nat| u < n && has_edge(e, u, w) ==> lay@[u as int] < lay@[w as int]
                    &&& lay@[w as int] > 0 ==> exists|u: nat|
                        u < n && has_edge(e, u, w) && lay@[u as int] + 1 == lay@[w as int]
                } by {
                    let w = ord[j];
                    if j < i {
                        assert(ord[j] != ord[i as int]);
                        assert(lay@[w as int] == old_lay[w as int]);
                        assert forall|u: nat| u < n && has_edge(e, u, w) implies lay@[u as int] < lay@[w as int] by {
                            lemma_topo_covers(n as nat, e, ord, u);
                            let ju = choose|ju: int| 0 <= ju < ord.len() && ord[ju] == u;
                            assert(has_edge(e, ord[ju], ord[j]));
                            assert(ju < j);
                            assert(ord[ju] != ord[i as int]);
                        }
                        if lay@[w as int] > 0 {
                            let u = choose|u: nat|
                                u < n && has_edge(e, u, w) && old_lay[u as int] + 1 == old_lay[w as int];
                            lemma_topo_covers(n as nat, e, ord, u);
                            let ju = choose|ju: int| 0 <= ju < ord.len() && ord[ju] == u;
                            assert(has_edge(e, ord[ju], ord[j]));
                            assert(ord[ju] != ord[i as int]);
                            assert(lay@[u as int] + 1 == lay@[w as int]);
                        }
                    } else {
                        assert forall|u: nat| u < n && has_edge(e, u, w) implies lay@[u as int] < lay@[w as int] by {
                            lemma_topo_covers(n as nat, e, ord, u);
                            let ju = choose|ju: int| 0 <= ju < ord.len() && ord[ju] == u;
                            assert(has_edge(e, ord[ju], ord[i as int]));
                            assert(ju < i);
                            assert(ord[ju] != ord[i as int]);
                        }
                        if m > 0 {
                            let u = choose|u: nat| u < n && has_edge(e, u, v as nat) && old_lay[u as int] + 1 == m;
                            lemma_topo_covers(n as nat, e, ord, u);
                            let ju = choose|ju: int| 0 <= ju < ord.len() && ord[ju] == u;
                            assert(has_edge(e, ord[ju], ord[i as int]));
                            assert(ord[ju] != ord[i as int]);
                            assert(lay@[u as int] + 1 == lay@[w as int]);
                        }
                    }
                }
            }
            i = i + 1;
        }
        let ghost layv = lay@.map_values(|x: usize| x as nat);
        proof {
            assert forall|w: nat| w < n implies {
                &&& forall|u: nat| u < n && has_edge(e, u, w) ==> lay@[u as int] < lay@[w as int]
                &&& lay@[w as int] > 0 ==> exists|u: nat|
                    u < n && has_edge(e, u, w) && lay@[u as int] + 1 == lay@[w as int]
                &&& lay@[w as int] < n
            } by {
                lemma_topo_covers(n as nat, e, ord, w);
                let j = choose|j: int| 0 <= j < ord.len() && ord[j] == w;
                assert(ord[j] == w);
            }
            assert forall|u: nat, w: nat| u < n && w < n && #[trigger] has_edge(e, u, w) implies layv[u as int]
                < layv[w as int] by {
                assert(lay@[u as int] < lay@[w as int]);
            }
            assert forall|w: nat| w < n && #[trigger] layv[w as int] > 0 implies exists|u: nat|
                u < n && has_edge(e, u, w) && layv[u as int] + 1 == layv[w as int] by {
                let u = choose|u: nat| u < n && has_edge(e, u, w) && lay@[u as int] + 1 == lay@[w as int];
                assert(layv[u as int] + 1 == layv[w as int]);
            }
            assert(is_layering(n as nat, e, layv));
        }
        // highest layer in use
        let mut top: usize = 0;
        let mut q: usize = 0;
        while q < n
            invariant
                n == self.nodes().len(),
                lay@.len() == n,
                q <= n,
                forall|w: int| 0 <= w < n ==> #[trigger] lay@[w] < n,
                top < n,
                forall|w: int| 0 <= w < q ==> #[trigger] lay@[w] <= top,
                q > 0 ==> exists|w: int| 0 <= w < q && #[trigger] lay@[w] == top,
                q == 0 ==> top == 0,
            decreases n - q,
        {
            if lay[q] > top || q == 0 {
                top = lay[q];
            }
            q = q + 1;
        }
        let mut layers: Vec<Vec<TaskId>> = Vec::new();
        let mut k: usize = 0;
        while k <= top
            invariant
                self.wf(),
                n == self.nodes().len(),
                n > 0,
                lay@.len() == n,
                layv == lay@.map_values(|x: usize| x as nat),
                top < n,
                k <= top + 1,
                layers@.len() == k,
                forall|c: int|
                    0 <= c < k ==> ids_along(
                        self.nodes(),
                        nodes_at_layer(layv, c as nat, n as nat),
                        #[trigger] layers@[c]@,
                    ),
            decreases top + 1 - k,
        {
            let mut group: Vec<TaskId> = Vec::new();
            let mut v: usize = 0;
            while v < n
                invariant
                    self.wf(),
                    n == self.nodes().len(),
                    lay@.len() == n,
                    layv == lay@.map_values(|x: usize| x as nat),
                    v <= n,
                    ids_along(self.nodes(), nodes_at_layer(layv, k as nat, v as nat), group@),
                decreases n - v,
            {
                if lay[v] == k {
                    let node = graph_node_weight(&self.graph, v).unwrap();
                    group.push(node.id.clone());
                }
                proof {
                    let before = nodes_at_layer(layv, k as nat, v as nat);
                    let after = nodes_at_layer(layv, k as nat, (v + 1) as nat);
                    if layv[v as int] == k as nat {
                        assert(after == before.push(v as nat));
                        assert forall|x: int| 0 <= x < after.len() implies #[trigger] group@[x]@
                            == self.nodes()[after[x] as int].id@ by {
                            if x < before.len() {
                                assert(after[x] == before[x]);
                            }
                        }
                    } else {
                        assert(after == before);
                    }
                }
                v = v + 1;
            }
            layers.push(group);
            proof {
                assert forall|c: int|
                    0 <= c < k + 1 implies ids_along(
                        self.nodes(),
                        nodes_at_layer(layv, c as nat, n as nat),
                        #[trigger] layers@[c]@,
                    ) by {
                    if c == k {
                        assert(layers@[c] == group);
                    }
                }
            }
            k = k + 1;
        }
        proof {
            assert(self.groups_by(layv, layers@)) by {
                assert forall|w: nat| w < n implies #[trigger] layv[w as int] < layers@.len() by {
                    assert(lay@[w as int] <= top);
                }
                let w0 = choose|w: int| 0 <= w < n && #[trigger] lay@[w] == top;
                assert(layv[w0] + 1 == layers@.len());
            }
        }
        Ok(layers)
    }

    /// Returns every task identifier once.
    pub fn task_ids(&self) -> (r: Vec<TaskId>)
        requires
            self.wf(),
        ensures
            forall|k: int| 0 <= k < r@.len() ==> self.has_task(#[trigger] r@[k]@),
            forall|j: int| 0 <= j < self.nodes().len() ==> lists_id(r@, #[trigger] self.nodes()[j].id@),
            forall|k1: int, k2: int|
                0 <= k1 < r@.len() && 0 <= k2 < r@.len() && k1 != k2 ==> #[trigger] r@[k1]@ != #[trigger] r@[k2]@,
    {
        let n = graph_node_count(&self.graph);
        let mut r: Vec<TaskId> = Vec::new();
        let mut j: usize = 0;
        while j < n
            invariant
                self.wf(),
                n == self.nodes().len(),
                j <= n,
                forall|k: int| 0 <= k < r@.len() ==> self.has_task(#[trigger] r@[k]@),
                forall|k: int| 0 <= k < r@.len() ==> #[trigger] self.index_of(r@[k]@) < j,
                forall|i: int|
                    0 <= i < n && 0 <= self.index_of(#[trigger] self.nodes()[i].id@) < j ==> lists_id(
                        r@,
                        self.nodes()[i].id@,
                    ),
                forall|k1: int, k2: int|
                    0 <= k1 < r@.len() && 0 <= k2 < r@.len() && k1 != k2 ==> #[trigger] r@[k1]@ != #[trigger] r@[k2]@,
            decreases n - j,
        {
            let node = graph_node_weight(&self.graph, j).unwrap();
            proof {
                lemma_last_index_of(self.nodes(), node.id@);
                assert(self.nodes()[j as int].id@ == node.id@);
            }
            let found = self.find_task(&node.id);
            let ghost r0 = r@;
            if found == Some(j) {
                r.push(node.id.clone());
                proof {
                    assert forall|k1: int, k2: int|
                        0 <= k1 < r@.len() && 0 <= k2 < r@.len() && k1 != k2 implies #[trigger] r@[k1]@
                        != #[trigger] r@[k2]@ by {
                        if k1 == r0.len() as int {
                            assert(self.index_of(r0[k2]@) < j);
                        } else if k2 == r0.len() as int {
                            assert(self.index_of(r0[k1]@) < j);
                        } else {
                            assert(r@[k1] == r0[k1] && r@[k2] == r0[k2]);
                        }
                    }
                    assert(r@[r0.len() as int]@ == node.id@);
                }
            }
            proof {
                assert forall|k: int| 0 <= k < r@.len() implies self.has_task(#[trigger] r@[k]@) by {
                    if k < r0.len() {
                        assert(r@[k] == r0[k]);
                    } else {
                        assert(self.nodes()[j as int].id@ == r@[k]@);
                    }
                }
                assert forall|i: int|
                    0 <= i < n && 0 <= self.index_of(#[trigger] self.nodes()[i].id@) < j + 1 implies lists_id(
                        r@,
                        self.nodes()[i].id@,
                    ) by {
                    let x = self.nodes()[i].id@;
                    lemma_last_index_of(self.nodes(), x);
                    if self.index_of(x) < j {
                        assert(lists_id(r0, x));
                        let k = choose|k: int| 0 <= k < r0.len() && #[trigger] r0[k]@ == x;
                        assert(r@[k] == r0[k]);
                    } else {
                        assert(self.index_of(x) == j);
                        assert(x == node.id@);
                        assert(r@[r0.len() as int]@ == node.id@);
                    }
                }
            }
            j = j + 1;
        }
        proof {
            assert forall|i: int| 0 <= i < self.nodes().len() implies lists_id(r@, #[trigger] self.nodes()[i].id@) by {
                lemma_last_index_of(self.nodes(), self.nodes()[i].id@);
                assert(0 <= self.index_of(self.nodes()[i].id@) < n);
            }
        }
        r
    }

    /// Returns the tasks that a task depends on, read from the graph's edges:
    /// one entry per edge into the task, in an order not stated here.
    pub fn task_dependencies(&self, id: &TaskId) -> (r: Option<Vec<TaskId>>)
        requires
            self.wf(),
        ensures
            r is None <==> !self.has_task(id@),
            r matches Some(deps) ==> ids_of_in_some_order(
                self.nodes(),
                predecessors(self.edges(), self.index_of(id@) as nat),
                deps@,
            ),
            r matches Some(deps) ==> forall|x: Seq<char>|
                lists_id(deps@, x) <==> #[trigger] self.depends_on_id(self.index_of(id@) as nat, x),
    {
        match self.find_task(id) {
            None => None,
            Some(i) => {
                let preds = graph_predecessors(&self.graph, i);
                proof {
                    assert forall|t: int| 0 <= t < preds@.len() implies #[trigger] preds@[t] < self.nodes().len() by {
                        assert(preds@.contains(preds@[t]));
                        assert(has_edge(self.edges(), preds@[t] as nat, i as nat));
                    }
                }
                let deps = self.ids_of(&preds);
                proof {
                    let ps = preds@.map_values(|x: usize| x as nat);
                    assert(ids_along(self.nodes(), ps, deps@));
                    assert(ps.to_multiset() == predecessors(self.edges(), i as nat).to_multiset());
                    assert(i as int == self.index_of(id@));
                    assert(ids_of_in_some_order(self.nodes(), predecessors(self.edges(), i as nat), deps@));
                    assert forall|x: Seq<char>| lists_id(deps@, x) <==> #[trigger] self.depends_on_id(i as nat, x) by {
                        if lists_id(deps@, x) {
                            let k = choose|k: int| 0 <= k < deps@.len() && #[trigger] deps@[k]@ == x;
                            assert(preds@.contains(preds@[k]));
                            assert(has_edge(self.edges(), preds@[k] as nat, i as nat));
                            assert(self.nodes()[preds@[k] as int].id@ == x);
                        }
                        if self.depends_on_id(i as nat, x) {
                            let j = choose|j: nat|
                                j < self.nodes().len() && #[trigger] has_edge(self.edges(), j, i as nat)
                                    && self.nodes()[j as int].id@ == x;
                            assert(preds@.contains(j as usize));
                            let k = choose|k: int| 0 <= k < preds@.len() && preds@[k] == j as usize;
                            assert(deps@[k]@ == x);
                        }
                    }
                }
                Some(deps)
            },
        }
    }

    /// Returns the tasks that no dependency points to, in node order.
    pub fn ready_tasks(&self) -> (r: Vec<TaskId>)
        requires
            self.wf(),
        ensures
            ids_along(self.nodes(), roots_upto(self.edges(), self.nodes().len()), r@),
    {
        let n = graph_node_count(&self.graph);
        let mut r: Vec<TaskId> = Vec::new();
        let mut v: usize = 0;
        while v < n
            invariant
                self.wf(),
                n == self.nodes().len(),
                v <= n,
                ids_along(self.nodes(), roots_upto(self.edges(), v as nat), r@),
            decreases n - v,
        {
            let preds = graph_predecessors(&self.graph, v);
            let ghost before = roots_upto(self.edges(), v as nat);
            let ghost after = roots_upto(self.edges(), (v + 1) as nat);
            if preds.len() == 0 {
                let node = graph_node_weight(&self.graph, v).unwrap();
                r.push(node.id.clone());
                proof {
                    assert forall|u: nat| !#[trigger] has_edge(self.edges(), u, v as nat) by {
                        if has_edge(self.edges(), u, v as nat) {
                            assert(u < self.nodes().len());
                            assert(preds@.contains(u as usize));
                        }
                    }
                    assert(after == before.push(v as nat));
                    assert forall|x: int| 0 <= x < after.len() implies #[trigger] r@[x]@ == self.nodes()[after[x] as int].id@ by {
                        if x < before.len() {
                            assert(after[x] == before[x]);
                        }
                    }
                }
            } else {
                proof {
                    assert(preds@.contains(preds@[0]));
                    assert(has_edge(self.edges(), preds@[0] as nat, v as nat));
                    assert(after == before);
                }
            }
            v = v + 1;
        }
        r
    }

    /// Applies suggested dependencies `(prerequisite, dependent)` in order,
    /// skipping those the graph already has; returns how many were added.
    /// The first one that cannot be added (unknown task, or a cycle) ends the
    /// run with its error, keeping the ones added before it.
    pub fn apply_suggestions(&mut self, suggestions: Vec<(TaskId, TaskId)>) -> (r: Result<usize, WorkflowError>)
        requires
            old(self).wf(),
            old(self).edges().len() + suggestions@.len() < u32::MAX,
        ensures
            final(self).wf(),
            final(self).nodes() == old(self).nodes(),
            final(self).edges().len() >= old(self).edges().len(),
            final(self).edges().subrange(0, old(self).edges().len() as int) == old(self).edges(),
            final(self).edges().len() > old(self).edges().len() ==> is_acyclic(final(self).edges()),
            r matches Ok(c) ==> final(self).edges().len() == old(self).edges().len() + c,
            r is Ok ==> final(self).edges() == applied_edges(old(self).nodes(), old(self).edges(), suggestions@),
            r is Ok ==> forall|k: int|
                0 <= k < suggestions@.len() ==> final(self).has_task(#[trigger] suggestions@[k].1@)
                    && final(self).depends_on_id(
                    final(self).index_of(suggestions@[k].1@) as nat,
                    suggestions@[k].0@,
                ),
            edges_within(final(self).edges(), old(self).edges() + old(self).suggestion_edges(suggestions@)),
            old(self).knows_all(suggestions@) && is_acyclic(old(self).edges() + old(self).suggestion_edges(suggestions@))
                ==> r is Ok,
            r matches Err(e) ==> (e is CycleDetected || (e matches WorkflowError::TaskNotFound(x) && !old(self).has_task(
                x@,
            ))),
    {
        let ghost old_edges = self.edges();
        let ghost old_nodes = self.nodes();
        let ghost n = self.nodes().len();
        let mut applied: usize = 0;
        let mut k: usize = 0;
        let ghost sug = suggestions@;
        let mut rest = suggestions;
        proof {
            assert(rest@ == sug);
            assert(sug.subrange(0, 0).len() == 0);
        }
        // walk the suggestions front to back
        let mut items: Vec<(TaskId, TaskId)> = Vec::new();
        while rest.len() > 0
            invariant
                items@.len() + rest@.len() == sug.len(),
                forall|t: int| 0 <= t < items@.len() ==> #[trigger] items@[t] == sug[sug.len() - 1 - t],
                forall|t: int| 0 <= t < rest@.len() ==> #[trigger] rest@[t] == sug[t],
            decreases rest@.len(),
        {
            let x = rest.pop().unwrap();
            items.push(x);
        }
        proof {
            let union = old_edges + old(self).suggestion_edges(sug);
            assert(edges_within(old_edges, union)) by {
                assert forall|u: nat, v: nat| #[trigger] has_edge(old_edges, u, v) implies has_edge(union, u, v) by {
                    let q = choose|q: int| 0 <= q < old_edges.len() && #[trigger] old_edges[q] == (u, v);
                    assert(union[q] == (u, v));
                }
            }
            if old(self).knows_all(sug) && is_acyclic(union) {
                lemma_sub_acyclic(old_edges, union);
            }
        }
        while items.len() > 0
            invariant
                self.wf(),
                self.nodes() == old_nodes,
                old_nodes == old(self).nodes(),
                old_edges == old(self).edges(),
                n == old_nodes.len(),
                sug == suggestions@,
                k + items@.len() == sug.len(),
                forall|t: int| 0 <= t < items@.len() ==> #[trigger] items@[t] == sug[sug.len() - 1 - t],
                self.edges().len() == old_edges.len() + applied,
                applied <= k,
                old_edges.len() + sug.len() < u32::MAX,
                self.edges().subrange(0, old_edges.len() as int) == old_edges,
                self.edges().len() > old_edges.len() ==> is_acyclic(self.edges()),
                edges_within(self.edges(), old_edges + old(self).suggestion_edges(sug)),
                old(self).knows_all(sug) && is_acyclic(old_edges + old(self).suggestion_edges(sug)) ==> is_acyclic(
                    self.edges(),
                ),
                forall|t: int|
                    0 <= t < k ==> self.has_task(#[trigger] sug[t].1@) && self.depends_on_id(
                        self.index_of(sug[t].1@) as nat,
                        sug[t].0@,
                    ),
                self.edges() == applied_edges(old_nodes, old_edges, sug.subrange(0, k as int)),
            decreases items@.len(),
        {
            let (from_task, to_task) = items.pop().unwrap();
            assert(from_task == sug[k as int].0 && to_task == sug[k as int].1);
            let ghost e0 = self.edges();
            proof {
                assert(sug.subrange(0, k + 1).drop_last() =~= sug.subrange(0, k as int));
                assert(sug.subrange(0, k + 1).last() == sug[k as int]);
            }
            let already = match self.task_dependencies(&to_task) {
                Some(deps) => {
                    let mut found = false;
                    let mut d: usize = 0;
                    while d < deps.len()
                        invariant
                            d <= deps@.len(),
                            found <==> exists|x: int| 0 <= x < d && #[trigger] deps@[x]@ == from_task@,
                        decreases deps@.len() - d,
                    {
                        if deps[d] == from_task {
                            found = true;
                        }
                        d = d + 1;
                    }
                    proof {
                        assert(found <==> lists_id(deps@, from_task@));
                        assert(found <==> self.depends_on_id(self.index_of(to_task@) as nat, from_task@));
                    }
                    found
                },
                None => false,
            };
            let ghost to_known = self.has_task(to_task@);
            proof {
                let b = last_index_of(old_nodes, sug[k as int].1@) as nat;
                assert(already ==> self.depends_on_id(self.index_of(to_task@) as nat, from_task@));
                assert(already ==> has_id_edge(old_nodes, e0, b, sug[k as int].0@));
                assert(!already && to_known ==> !self.depends_on_id(
                    self.index_of(to_task@) as nat,
                    from_task@,
                ));
                assert(!already && to_known ==> !has_id_edge(old_nodes, e0, b, sug[k as int].0@));
            }
            if !already {
                proof {
                    let union = old_edges + old(self).suggestion_edges(sug);
                    let a = self.index_of(sug[k as int].0@) as nat;
                    let b = self.index_of(sug[k as int].1@) as nat;
                    assert(union[old_edges.len() + k] == (a, b));
                    assert(edges_within(e0.push((a, b)), union)) by {
                        assert forall|u: nat, v: nat| #[trigger] has_edge(e0.push((a, b)), u, v) implies has_edge(union, u, v) by {
                            let q = choose|q: int| 0 <= q < e0.push((a, b)).len() && #[trigger] e0.push((a, b))[q] == (u, v);
                            if q < e0.len() {
                                assert(e0[q] == (u, v));
                                assert(has_edge(e0, u, v));
                            } else {
                                assert(union[old_edges.len() + k] == (u, v));
                            }
                        }
                    }
                    if old(self).knows_all(sug) && is_acyclic(union) {
                        lemma_sub_acyclic(e0.push((a, b)), union);
                    }
                }
                match self.add_dependency(from_task, to_task) {
                    Ok(()) => {},
                    Err(err) => {
                        assert(self.edges() == e0);
                        assert(self.nodes() == old_nodes);
                        assert(self.edges().len() >= old_edges.len());
                        proof {
                            if old(self).knows_all(sug) && is_acyclic(old_edges + old(self).suggestion_edges(sug)) {
                                assert(self.has_task(sug[k as int].0@));
                                assert(self.has_task(sug[k as int].1@));
                                assert(false);
                            }
                        }
                        return Err(err);
                    },
                }
                applied = applied + 1;
                proof {
                    let grown = self.edges();
                    let a = self.index_of(sug[k as int].0@) as nat;
                    let b = self.index_of(sug[k as int].1@) as nat;
                    assert(grown == e0.push((a, b)));
                    assert(grown.subrange(0, old_edges.len() as int) =~= e0.subrange(0, old_edges.len() as int));
                    assert(grown[grown.len() - 1] == (a, b));
                    lemma_last_index_of(self.nodes(), sug[k as int].0@);
                    assert(has_edge(grown, a, b));
                    assert(self.depends_on_id(b, sug[k as int].0@));
                    assert forall|t: int|
                        0 <= t < k implies self.has_task(#[trigger] sug[t].1@) && self.depends_on_id(
                            self.index_of(sug[t].1@) as nat,
                            sug[t].0@,
                        ) by {
                        let bt = self.index_of(sug[t].1@) as nat;
                        let j = choose|j: nat|
                            j < n && #[trigger] has_edge(e0, j, bt) && self.nodes()[j as int].id@ == sug[t].0@;
                        let q = choose|q: int| 0 <= q < e0.len() && #[trigger] e0[q] == (j, bt);
                        assert(grown[q] == e0[q]);
                        assert(has_edge(grown, j, bt));
                    }
                }
            }
            proof {
                let b = last_index_of(old_nodes, sug[k as int].1@) as nat;
                if !already {
                    assert(to_known);
                    assert(!has_id_edge(old_nodes, e0, b, sug[k as int].0@));
                }
            }
            k = k + 1;
        }
        proof {
            assert(sug.subrange(0, sug.len() as int) =~= sug);
        }
        Ok(applied)
    }

    /// The edges the suggestions `(from, to)` would add.
    pub open spec fn suggestion_edges(&self, sug: Seq<(TaskId, TaskId)>) -> Seq<(nat, nat)> {
        sug.map_values(|s: (TaskId, TaskId)| (self.index_of(s.0@) as nat, self.index_of(s.1@) as nat))
    }

    /// Every suggestion names two tasks of the workflow.
    pub open spec fn knows_all(&self, sug: Seq<(TaskId, TaskId)>) -> bool {
        forall|k: int| 0 <= k < sug.len() ==> self.has_task(#[trigger] sug[k].0@) && self.has_task(sug[k].1@)
    }

    /// The strongly connected components of the graph, in the order
    /// petgraph's Tarjan search emits them.
    pub closed spec fn sccs(&self) -> Seq<Seq<usize>> {
        graph_sccs(self.graph)
    }

    /// The strongly connected components of the graph (see `graph_tarjan_scc`).
    pub(crate) fn components(&self) -> (r: Vec<Vec<usize>>)
        requires
            self.wf(),
        ensures
            r@.map_values(|c: Vec<usize>| c@) == self.sccs(),
            forall|c: int, i: int|
                0 <= c < r@.len() && 0 <= i < r@[c]@.len() ==> #[trigger] r@[c]@[i] < self.nodes().len(),
            forall|v: nat| v < self.nodes().len() ==> #[trigger] listed_in(r@, v),
            forall|c1: int, i1: int, c2: int, i2: int|
                0 <= c1 < r@.len() && 0 <= i1 < r@[c1]@.len() && 0 <= c2 < r@.len() && 0 <= i2 < r@[c2]@.len()
                    && #[trigger] r@[c1]@[i1] == #[trigger] r@[c2]@[i2] ==> c1 == c2 && i1 == i2,
            forall|c1: int, i1: int, c2: int, i2: int|
                0 <= c1 < r@.len() && 0 <= i1 < r@[c1]@.len() && 0 <= c2 < r@.len() && 0 <= i2 < r@[c2]@.len()
                    ==> (c1 == c2 <==> (reaches(
                    self.edges(),
                    #[trigger] r@[c1]@[i1] as nat,
                    #[trigger] r@[c2]@[i2] as nat,
                ) && reaches(self.edges(), r@[c2]@[i2] as nat, r@[c1]@[i1] as nat))),
    {
        let r = graph_tarjan_scc(&self.graph);
        proof {
            assert forall|c: int, i: int| 0 <= c < r@.len() && 0 <= i < r@[c]@.len() implies #[trigger] r@[c]@[i]
                < self.nodes().len() by {
                assert(r[c][i] < self.nodes().len());
            }
        }
        r
    }

    /// The identifier of node `i`.
    pub(crate) fn id_at(&self, i: usize) -> (r: TaskId)
        requires
            self.wf(),
            i < self.nodes().len(),
        ensures
            r@ == self.nodes()[i as int].id@,
    {
        graph_node_weight(&self.graph, i).unwrap().id.clone()
    }

    /// The targets of the edges leaving node `i`.
    pub(crate) fn successors_of(&self, i: usize) -> (r: Vec<usize>)
        requires
            self.wf(),
            i < self.nodes().len(),
        ensures
            forall|x: usize| r@.contains(x) <==> has_edge(self.edges(), i as nat, x as nat),
    {
        graph_successors(&self.graph, i)
    }

    /// Node `i` has an edge to itself.
    pub(crate) fn has_self_loop(&self, i: usize) -> (r: bool)
        requires
            self.wf(),
            i < self.nodes().len(),
        ensures
            r == has_edge(self.edges(), i as nat, i as nat),
    {
        graph_find_edge(&self.graph, i, i).is_some()
    }

    /// Returns the name of a task.
    pub fn task_name(&self, id: &TaskId) -> (r: Option<String>)
        requires
            self.wf(),
        ensures
            r is None <==> !self.has_task(id@),
            r matches Some(s) ==> s@ == self.nodes()[self.index_of(id@)].name@,
    {
        match self.find_task(id) {
            Some(i) => {
                let node = graph_node_weight(&self.graph, i).unwrap();
                Some(node.name.clone())
            },
            None => None,
        }
    }
}

/// How many tasks the layers hold in all.
pub open spec fn layers_size(layers: Seq<Vec<TaskId>>) -> nat
    decreases layers.len(),
{
    if layers.len() == 0 {
        0
    } else {
        layers_size(layers.drop_last()) + layers.last()@.len()
    }
}

/// The execution layers of a workflow with tasks partition its tasks: there
/// is at least one layer, no layer is empty, the layers hold as many tasks in
/// all as the workflow has, every task stands in the layer its layering
/// gives it and in no other, and every dependency leads to a later layer.
pub proof fn lemma_layers_partition(w: &Workflow, layers: Seq<Vec<TaskId>>)
    requires
        w.wf(),
        w.nodes().len() > 0,
        w.is_layered_as(layers),
    ensures
        layers.len() > 0,
        forall|k: int| 0 <= k < layers.len() ==> #[trigger] layers[k]@.len() > 0,
        layers_size(layers) == w.nodes().len(),
        exists|lay: Seq<nat>|
            {
                &&& is_layering(w.nodes().len(), w.edges(), lay)
                &&& #[trigger] w.groups_by(lay, layers)
                &&& forall|k: nat, v: nat|
                    v < w.nodes().len() ==> (#[trigger] nodes_at_layer(lay, k, w.nodes().len()).contains(v) <==> k
                        == lay[v as int])
                &&& forall|u: nat, v: nat|
                    u < w.nodes().len() && v < w.nodes().len() && #[trigger] has_edge(w.edges(), u, v) ==> lay[u as int]
                        < lay[v as int]
            },
{
    let n = w.nodes().len();
    let lay = choose|lay: Seq<nat>| is_layering(n, w.edges(), lay) && #[trigger] w.groups_by(lay, layers);
    assert forall|k: nat| #![trigger nodes_at_layer(lay, k, n)] true implies forall|v: nat|
        #[trigger] nodes_at_layer(lay, k, n).contains(v) <==> v < n && lay[v as int] == k by {
        lemma_nodes_at_layer_members(lay, k, n);
    }
    let top = choose|v: nat| v < n && #[trigger] lay[v as int] + 1 == layers.len();
    assert(lay[top as int] < layers.len());
    assert forall|k: int| 0 <= k < layers.len() implies #[trigger] layers[k]@.len() > 0 by {
        lemma_layer_below(n, w.edges(), lay, top, k as nat);
        let u = choose|u: nat| u < n && #[trigger] lay[u as int] == k as nat;
        lemma_nodes_at_layer_members(lay, k as nat, n);
        assert(nodes_at_layer(lay, k as nat, n).contains(u));
        assert(ids_along(w.nodes(), nodes_at_layer(lay, k as nat, n), layers[k]@));
    }
    lemma_layers_size_count(w, lay, layers, layers.len());
    lemma_layered_count_all(lay, layers.len(), n);
    assert(layers.take(layers.len() as int) =~= layers);
}

/// The first `m` layers hold as many tasks as the layering puts below layer `m`.
proof fn lemma_layers_size_count(w: &Workflow, lay: Seq<nat>, layers: Seq<Vec<TaskId>>, m: nat)
    requires
        w.groups_by(lay, layers),
        m <= layers.len(),
    ensures
        layers_size(layers.take(m as int)) == layered_count(lay, m, w.nodes().len()),
    decreases m,
{
    if m > 0 {
        lemma_layers_size_count(w, lay, layers, (m - 1) as nat);
        assert(layers.take(m as int).drop_last() =~= layers.take(m - 1));
        assert(ids_along(w.nodes(), nodes_at_layer(lay, (m - 1) as nat, w.nodes().len()), layers[m - 1]@));
    }
}

/// No edge of a graph on the nodes below `n` leads into node `n`.
proof fn lemma_no_edge_into_new(e: Seq<(nat, nat)>, n: nat)
    requires
        edges_in_range(e, n),
    ensures
        predecessors(e, n) == Seq::<nat>::empty(),
    decreases e.len(),
{
    if e.len() > 0 {
        assert(edges_in_range(e.drop_last(), n)) by {
            assert forall|k: int| 0 <= k < e.drop_last().len() implies (#[trigger] e.drop_last()[k]).0 < n
                && e.drop_last()[k].1 < n by {
                assert(e.drop_last()[k] == e[k]);
            }
        }
        lemma_no_edge_into_new(e.drop_last(), n);
        assert(e[e.len() - 1].1 < n);
    }
}

/// A task added to a workflow (see `add_task`) is found under its
/// identifier, as the last task that carries it, with its name and with no
/// dependencies; every other identifier is found as before.
pub proof fn lemma_added_task(before: &Workflow, after: &Workflow, task: TaskNode)
    requires
        before.wf(),
        after.nodes() == before.nodes().push(task),
        after.edges() == before.edges(),
    ensures
        after.has_task(task.id@),
        after.index_of(task.id@) == before.nodes().len(),
        after.nodes()[after.index_of(task.id@)].name@ == task.name@,
        predecessors(after.edges(), before.nodes().len()) == Seq::<nat>::empty(),
        forall|x: Seq<char>| #[trigger] after.has_task(x) <==> before.has_task(x) || x == task.id@,
        forall|x: Seq<char>| x != task.id@ ==> #[trigger] after.index_of(x) == before.index_of(x),
{
    let n = before.nodes().len();
    assert(after.nodes()[n as int] == task);
    assert(after.nodes().drop_last() =~= before.nodes());
    lemma_no_edge_into_new(before.edges(), n);
    assert forall|x: Seq<char>| #[trigger] after.has_task(x) <==> before.has_task(x) || x == task.id@ by {
        if before.has_task(x) {
            let j = choose|j: int| 0 <= j < n && #[trigger] before.nodes()[j].id@ == x;
            assert(after.nodes()[j] == before.nodes()[j]);
        }
        if after.has_task(x) && x != task.id@ {
            let j = choose|j: int| 0 <= j < after.nodes().len() && #[trigger] after.nodes()[j].id@ == x;
            assert(j < n);
            assert(after.nodes()[j] == before.nodes()[j]);
        }
    }
}

} // verus!
