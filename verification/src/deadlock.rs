//! Deadlock detection for workflow execution: dependency cycles (a hard
//! error) and long dependency chains (a warning).

use crate::dag::{ids_along, TaskNode, Workflow, WorkflowError, TimeoutError};
use crate::digraph::listed_in;
use crate::graph::{
    has_edge, is_acyclic, is_layering, lemma_layering_unique, lemma_plus_first_step, nodes_at_layer,
    reaches, reaches_plus,
};
use crate::task::TaskId;
use crate::text::{decimal, push_decimal};
use vstd::prelude::*;
use vstd::string::StringExecFns;

verus! {

/// Error types for deadlock detection.
#[derive(Debug)]
pub enum DeadlockError {
    /// Dependency cycle detected in workflow
    DependencyCycle(Vec<TaskId>),
    /// Resource deadlock detected at runtime
    ResourceDeadlock(String),
    /// Potential deadlock warning (heuristic-based)
    PotentialDeadlock(String),
}

/// The timeout a resource deadlock is reported as, in seconds.
pub const RESOURCE_DEADLOCK_TIMEOUT_SECS: u64 = 300;

impl DeadlockError {
    /// The workflow error this deadlock error is reported as: a cycle stays a
    /// cycle, a resource deadlock becomes a workflow timeout, and a potential
    /// deadlock becomes an empty cycle report.
    pub fn to_workflow_error(self) -> (r: WorkflowError)
        ensures
            self matches DeadlockError::DependencyCycle(c) ==> r == WorkflowError::CycleDetected(c),
            self is ResourceDeadlock ==> r == WorkflowError::Timeout(
                TimeoutError::WorkflowTimeout { timeout_secs: RESOURCE_DEADLOCK_TIMEOUT_SECS },
            ),
            self is PotentialDeadlock ==> (r matches WorkflowError::CycleDetected(c) && c@.len() == 0),
    {
        match self {
            DeadlockError::DependencyCycle(cycle) => WorkflowError::CycleDetected(cycle),
            DeadlockError::ResourceDeadlock(_) => WorkflowError::Timeout(
                TimeoutError::WorkflowTimeout { timeout_secs: RESOURCE_DEADLOCK_TIMEOUT_SECS },
            ),
            DeadlockError::PotentialDeadlock(_) => WorkflowError::CycleDetected(Vec::new()),
        }
    }
}

impl From<DeadlockError> for WorkflowError {
    fn from(err: DeadlockError) -> (r: WorkflowError) {
        err.to_workflow_error()
    }
}

impl vstd::std_specs::convert::FromSpecImpl<DeadlockError> for WorkflowError {
    open spec fn obeys_from_spec() -> bool {
        false
    }

    open spec fn from_spec(err: DeadlockError) -> WorkflowError {
        WorkflowError::EmptyWorkflow
    }
}

/// Warning type for potential deadlock conditions.
#[derive(Debug)]
pub enum DeadlockWarningType {
    /// Tasks share the same resource (potential contention)
    SharedResource(String),
    /// Long chain of dependent tasks (risk of timeout)
    LongDependencyChain { length: usize },
    /// Task has no timeout configured (risk of hanging)
    NoTimeout,
}

/// A deadlock warning with context and suggestions.
#[derive(Debug)]
pub struct DeadlockWarning {
    /// Task ID that triggered the warning
    pub task_id: TaskId,
    /// Type of warning
    pub warning_type: DeadlockWarningType,
    /// Human-readable suggestion
    pub suggestion: String,
}

/// The text of a warning's description.
pub open spec fn warning_text(task: Seq<char>, kind: DeadlockWarningType, suggestion: Seq<char>) -> Seq<char> {
    match kind {
        DeadlockWarningType::SharedResource(resource) => "Task '"@ + task + "' shares resource '"@
            + resource@ + "': "@ + suggestion,
        DeadlockWarningType::LongDependencyChain { length } => "Task '"@ + task
            + "' has a long dependency chain ("@ + decimal(length as nat) + " tasks): "@ + suggestion,
        DeadlockWarningType::NoTimeout => "Task '"@ + task + "' has no timeout: "@ + suggestion,
    }
}

/// The advice attached to a long-chain warning for a workflow `depth` layers deep.
pub open spec fn long_chain_advice(depth: nat) -> Seq<char> {
    "Consider splitting this workflow or increasing deadlock_timeout (current depth: "@ + decimal(depth)
        + ")"@
}

impl DeadlockWarning {
    /// Creates a new deadlock warning.
    pub fn new(task_id: TaskId, warning_type: DeadlockWarningType, suggestion: String) -> (r: DeadlockWarning)
        ensures
            r.task_id == task_id,
            r.warning_type == warning_type,
            r.suggestion == suggestion,
    {
        DeadlockWarning { task_id, warning_type, suggestion }
    }

    /// Returns a human-readable description of the warning.
    pub fn description(&self) -> (r: String)
        ensures
            r@ == warning_text(self.task_id@, self.warning_type, self.suggestion@),
    {
        let mut s = "Task '".to_string();
        s.append(self.task_id.as_str());
        match &self.warning_type {
            DeadlockWarningType::SharedResource(resource) => {
                s.append("' shares resource '");
                s.append(resource.as_str());
                s.append("': ");
            },
            DeadlockWarningType::LongDependencyChain { length } => {
                s.append("' has a long dependency chain (");
                push_decimal(&mut s, *length);
                s.append(" tasks): ");
            },
            DeadlockWarningType::NoTimeout => {
                s.append("' has no timeout: ");
            },
        }
        s.append(self.suggestion.as_str());
        s
    }
}

/// There is a largest layer under `lay`, and `count` is one more than it.
pub open spec fn is_layer_count(n: nat, lay: Seq<nat>, count: nat) -> bool {
    &&& forall|v: nat| v < n ==> #[trigger] lay[v as int] < count
    &&& exists|v: nat| v < n && #[trigger] lay[v as int] + 1 == count
}

/// `warnings` flags each task of the layer `depth - 1` as a long chain of `depth`.
pub open spec fn flags_deepest_layer(
    nodes: Seq<TaskNode>,
    lay: Seq<nat>,
    depth: nat,
    warnings: Seq<DeadlockWarning>,
) -> bool {
    let top = nodes_at_layer(lay, (depth - 1) as nat, nodes.len());
    &&& warnings.len() == top.len()
    &&& forall|i: int|
        0 <= i < warnings.len() ==> is_long_chain_warning(#[trigger] warnings[i], nodes[top[i] as int].id@, depth)
}

/// `w` flags task `id` as ending a dependency chain `depth` layers long.
pub open spec fn is_long_chain_warning(w: DeadlockWarning, id: Seq<char>, depth: nat) -> bool {
    &&& w.task_id@ == id
    &&& w.warning_type == DeadlockWarningType::LongDependencyChain { length: depth as usize }
    &&& w.suggestion@ == long_chain_advice(depth)
}

/// `id` is the identifier of a task that lies on a cycle.
pub open spec fn is_on_cycle_id(workflow: &Workflow, id: Seq<char>) -> bool {
    exists|v: nat|
        v < workflow.nodes().len() && reaches_plus(workflow.edges(), v, v) && id == workflow.nodes()[v as int].id@
}

/// The first component of `sccs` with more than one task.
pub open spec fn first_multi(sccs: Seq<Seq<usize>>) -> Option<Seq<usize>>
    decreases sccs.len(),
{
    if sccs.len() == 0 {
        None
    } else if sccs[0].len() > 1 {
        Some(sccs[0])
    } else {
        first_multi(sccs.drop_first())
    }
}

/// The first single-task component of `sccs` whose task depends on itself.
pub open spec fn first_self_loop(sccs: Seq<Seq<usize>>, e: Seq<(nat, nat)>) -> Option<Seq<usize>>
    decreases sccs.len(),
{
    if sccs.len() == 0 {
        None
    } else if sccs[0].len() == 1 && has_edge(e, sccs[0][0] as nat, sccs[0][0] as nat) {
        Some(sccs[0])
    } else {
        first_self_loop(sccs.drop_first(), e)
    }
}

/// The component a cycle check reports: the first with more than one task,
/// or else the first single task that depends on itself.
pub open spec fn reported_component(sccs: Seq<Seq<usize>>, e: Seq<(nat, nat)>) -> Option<Seq<usize>> {
    match first_multi(sccs) {
        Some(c) => Some(c),
        None => first_self_loop(sccs, e),
    }
}

/// `ids` names the tasks of the component a cycle check reports, in the
/// component's order: a non-empty set of tasks that all reach each other,
/// with every task that reaches and is reached by them.
pub open spec fn reports_cycle(workflow: &Workflow, ids: Seq<TaskId>) -> bool {
    reported_component(workflow.sccs(), workflow.edges()) matches Some(c) && {
        &&& c.len() > 0
        &&& ids.map_values(|t: TaskId| t@) == c.map_values(|v: usize| workflow.nodes()[v as int].id@)
        &&& forall|i: int, j: int|
            0 <= i < c.len() && 0 <= j < c.len() ==> reaches(workflow.edges(), #[trigger] c[i] as nat, #[trigger] c[j] as nat)
        &&& forall|u: nat|
            u < workflow.nodes().len() && reaches(workflow.edges(), c[0] as nat, u) && reaches(
                workflow.edges(),
                u,
                c[0] as nat,
            ) ==> #[trigger] c.contains(u as usize)
    }
}

/// A chain of more layers than this draws a warning.
pub const LONG_CHAIN_LAYERS: usize = 5;

/// Deadlock detector for workflow analysis.
pub struct DeadlockDetector;

impl Default for DeadlockDetector {
    fn default() -> (r: DeadlockDetector) {
        DeadlockDetector
    }
}

impl DeadlockDetector {
    /// Creates a new deadlock detector.
    pub fn new() -> (r: DeadlockDetector) {
        DeadlockDetector
    }

    /// Detects dependency cycles in the workflow DAG: the first strongly
    /// connected component with more than one task, or else the first task
    /// that depends on itself, in the order petgraph's Tarjan search emits them.
    pub fn detect_dependency_cycles(&self, workflow: &Workflow) -> (r: Result<(), DeadlockError>)
        requires
            workflow.wf(),
        ensures
            r is Ok <==> is_acyclic(workflow.edges()),
            r matches Err(DeadlockError::DependencyCycle(ids)) ==> reports_cycle(workflow, ids@),
            r matches Err(DeadlockError::DependencyCycle(ids)) ==> ids@.len() > 0 && forall|k: int|
                0 <= k < ids@.len() ==> is_on_cycle_id(workflow, #[trigger] ids@[k]@),
            r is Err ==> r matches Err(DeadlockError::DependencyCycle(_)),
    {
        let sccs = workflow.components();
        let ghost n = workflow.nodes().len();
        let ghost e = workflow.edges();
        let ghost ss = sccs@.map_values(|c: Vec<usize>| c@);
        let mut c: usize = 0;
        proof {
            assert(ss.subrange(0, ss.len() as int) =~= ss);
        }
        while c < sccs.len()
            invariant
                workflow.wf(),
                n == workflow.nodes().len(),
                e == workflow.edges(),
                ss == sccs@.map_values(|c: Vec<usize>| c@),
                ss == workflow.sccs(),
                c <= sccs@.len(),
                first_multi(ss) == first_multi(ss.subrange(c as int, ss.len() as int)),
                forall|c1: int, i1: int|
                    0 <= c1 < sccs@.len() && 0 <= i1 < sccs@[c1]@.len() ==> #[trigger] sccs@[c1]@[i1] < n,
                forall|v: nat| v < n ==> #[trigger] listed_in(sccs@, v),
                forall|c1: int, i1: int, c2: int, i2: int|
                    0 <= c1 < sccs@.len() && 0 <= i1 < sccs@[c1]@.len() && 0 <= c2 < sccs@.len() && 0
                        <= i2 < sccs@[c2]@.len() && #[trigger] sccs@[c1]@[i1] == #[trigger] sccs@[c2]@[i2]
                        ==> c1 == c2 && i1 == i2,
                forall|c1: int, i1: int, c2: int, i2: int|
                    0 <= c1 < sccs@.len() && 0 <= i1 < sccs@[c1]@.len() && 0 <= c2 < sccs@.len() && 0
                        <= i2 < sccs@[c2]@.len() ==> (c1 == c2 <==> (reaches(
                        e,
                        #[trigger] sccs@[c1]@[i1] as nat,
                        #[trigger] sccs@[c2]@[i2] as nat,
                    ) && reaches(e, sccs@[c2]@[i2] as nat, sccs@[c1]@[i1] as nat))),
                forall|c1: int| 0 <= c1 < c ==> #[trigger] sccs@[c1]@.len() <= 1,
            decreases sccs@.len() - c,
        {
            let ghost rest = ss.subrange(c as int, ss.len() as int);
            proof {
                assert(rest[0] == sccs@[c as int]@);
                assert(rest.drop_first() =~= ss.subrange(c + 1, ss.len() as int));
            }
            if sccs[c].len() > 1 {
                let ghost comp = sccs@[c as int]@;
                let mut ids: Vec<TaskId> = Vec::new();
                let mut i: usize = 0;
                while i < sccs[c].len()
                    invariant
                        workflow.wf(),
                        n == workflow.nodes().len(),
                        e == workflow.edges(),
                        c < sccs@.len(),
                        comp == sccs@[c as int]@,
                        sccs@[c as int]@.len() > 1,
                        i <= sccs@[c as int]@.len(),
                        forall|c1: int, i1: int|
                            0 <= c1 < sccs@.len() && 0 <= i1 < sccs@[c1]@.len() ==> #[trigger] sccs@[c1]@[i1] < n,
                        forall|c1: int, i1: int, c2: int, i2: int|
                            0 <= c1 < sccs@.len() && 0 <= i1 < sccs@[c1]@.len() && 0 <= c2 < sccs@.len()
                                && 0 <= i2 < sccs@[c2]@.len() && #[trigger] sccs@[c1]@[i1]
                                == #[trigger] sccs@[c2]@[i2] ==> c1 == c2 && i1 == i2,
                        forall|c1: int, i1: int, c2: int, i2: int|
                            0 <= c1 < sccs@.len() && 0 <= i1 < sccs@[c1]@.len() && 0 <= c2 < sccs@.len()
                                && 0 <= i2 < sccs@[c2]@.len() ==> (c1 == c2 <==> (reaches(
                                e,
                                #[trigger] sccs@[c1]@[i1] as nat,
                                #[trigger] sccs@[c2]@[i2] as nat,
                            ) && reaches(e, sccs@[c2]@[i2] as nat, sccs@[c1]@[i1] as nat))),
                        ids@.len() == i,
                        ids@.map_values(|t: TaskId| t@) == comp.subrange(0, i as int).map_values(
                            |v: usize| workflow.nodes()[v as int].id@,
                        ),
                        forall|k: int| 0 <= k < i ==> is_on_cycle_id(workflow, #[trigger] ids@[k]@),
                    decreases sccs@[c as int]@.len() - i,
                {
                    let v = sccs[c][i];
                    proof {
                        let other: int = if i == 0 { 1 } else { 0 };
                        let u = sccs@[c as int]@[other];
                        assert(u != v);
                        assert(reaches(e, u as nat, v as nat) && reaches(e, v as nat, u as nat));
                        lemma_cycle_through(e, v as nat, u as nat);
                    }
                    let ghost ids0 = ids@;
                    ids.push(workflow.id_at(v));
                    proof {
                        assert forall|k: int| 0 <= k < i + 1 implies is_on_cycle_id(workflow, #[trigger] ids@[k]@) by {
                            if k < i {
                                assert(ids@[k] == ids0[k]);
                            } else {
                                assert(ids@[k]@ == workflow.nodes()[v as int].id@);
                            }
                        }
                        assert(ids@.map_values(|t: TaskId| t@) =~= comp.subrange(0, i + 1).map_values(
                            |v: usize| workflow.nodes()[v as int].id@,
                        )) by {
                            assert(ids@.map_values(|t: TaskId| t@) =~= ids0.map_values(|t: TaskId| t@).push(
                                ids@[i as int]@,
                            ));
                            assert(comp.subrange(0, i + 1).map_values(|v: usize| workflow.nodes()[v as int].id@)
                                =~= comp.subrange(0, i as int).map_values(|v: usize| workflow.nodes()[v as int].id@).push(
                                workflow.nodes()[v as int].id@,
                            ));
                        }
                    }
                    i = i + 1;
                }
                proof {
                    assert(ids@.len() > 0);
                    assert(is_on_cycle_id(workflow, ids@[0]@));
                    let w = choose|w: nat|
                        w < n && reaches_plus(e, w, w) && ids@[0]@ == workflow.nodes()[w as int].id@;
                    assert(reaches_plus(e, w, w));
                    assert(!is_acyclic(e));
                    assert(comp.subrange(0, comp.len() as int) =~= comp);
                    assert(first_multi(ss) == Some(comp));
                    assert forall|a: int, b: int| 0 <= a < comp.len() && 0 <= b < comp.len() implies reaches(
                        e,
                        #[trigger] comp[a] as nat,
                        #[trigger] comp[b] as nat,
                    ) by {
                        assert(comp[a] == sccs@[c as int]@[a] && comp[b] == sccs@[c as int]@[b]);
                    }
                    assert forall|u: nat|
                        u < n && reaches(e, comp[0] as nat, u) && reaches(e, u, comp[0] as nat) implies #[trigger] comp.contains(
                        u as usize,
                    ) by {
                        assert(listed_in(sccs@, u));
                        let (cu, iu) = choose|cu: int, iu: int|
                            0 <= cu < sccs@.len() && 0 <= iu < sccs@[cu]@.len() && #[trigger] sccs@[cu]@[iu] == u;
                        assert(sccs@[c as int]@[0] == comp[0]);
                        assert(cu == c);
                        assert(comp[iu] == u);
                    }
                    assert(reports_cycle(workflow, ids@));
                }
                return Err(DeadlockError::DependencyCycle(ids));
            }
            c = c + 1;
        }
        let mut c2: usize = 0;
        proof {
            assert(ss.subrange(ss.len() as int, ss.len() as int).len() == 0);
            assert(first_multi(ss) is None);
        }
        while c2 < sccs.len()
            invariant
                workflow.wf(),
                n == workflow.nodes().len(),
                e == workflow.edges(),
                ss == sccs@.map_values(|c: Vec<usize>| c@),
                ss == workflow.sccs(),
                first_multi(ss) is None,
                c2 <= sccs@.len(),
                first_self_loop(ss, e) == first_self_loop(ss.subrange(c2 as int, ss.len() as int), e),
                forall|c1: int, i1: int|
                    0 <= c1 < sccs@.len() && 0 <= i1 < sccs@[c1]@.len() ==> #[trigger] sccs@[c1]@[i1] < n,
                forall|v: nat| v < n ==> #[trigger] listed_in(sccs@, v),
                forall|c1: int, i1: int, c2: int, i2: int|
                    0 <= c1 < sccs@.len() && 0 <= i1 < sccs@[c1]@.len() && 0 <= c2 < sccs@.len() && 0
                        <= i2 < sccs@[c2]@.len() ==> (c1 == c2 <==> (reaches(
                        e,
                        #[trigger] sccs@[c1]@[i1] as nat,
                        #[trigger] sccs@[c2]@[i2] as nat,
                    ) && reaches(e, sccs@[c2]@[i2] as nat, sccs@[c1]@[i1] as nat))),
                forall|c1: int| 0 <= c1 < sccs@.len() ==> #[trigger] sccs@[c1]@.len() <= 1,
                forall|c1: int|
                    0 <= c1 < c2 && #[trigger] sccs@[c1]@.len() == 1 ==> !has_edge(
                        e,
                        sccs@[c1]@[0] as nat,
                        sccs@[c1]@[0] as nat,
                    ),
            decreases sccs@.len() - c2,
        {
            let ghost rest = ss.subrange(c2 as int, ss.len() as int);
            proof {
                assert(rest[0] == sccs@[c2 as int]@);
                assert(rest.drop_first() =~= ss.subrange(c2 + 1, ss.len() as int));
            }
            if sccs[c2].len() == 1 {
                let idx = sccs[c2][0];
                if workflow.has_self_loop(idx) {
                    let mut ids: Vec<TaskId> = Vec::new();
                    ids.push(workflow.id_at(idx));
                    proof {
                        let comp = sccs@[c2 as int]@;
                        lemma_self_loop_cycle(e, idx as nat);
                        assert(ids@[0]@ == workflow.nodes()[idx as int].id@);
                        assert(is_on_cycle_id(workflow, ids@[0]@));
                        assert(!is_acyclic(e));
                        assert(first_self_loop(ss, e) == Some(comp));
                        crate::graph::lemma_reaches_refl(e, idx as nat);
                        assert(ids@.map_values(|t: TaskId| t@) =~= comp.map_values(
                            |v: usize| workflow.nodes()[v as int].id@,
                        ));
                        assert forall|u: nat|
                            u < n && reaches(e, comp[0] as nat, u) && reaches(e, u, comp[0] as nat) implies #[trigger] comp.contains(
                            u as usize,
                        ) by {
                            assert(listed_in(sccs@, u));
                            let (cu, iu) = choose|cu: int, iu: int|
                                0 <= cu < sccs@.len() && 0 <= iu < sccs@[cu]@.len() && #[trigger] sccs@[cu]@[iu] == u;
                            assert(sccs@[c2 as int]@[0] == comp[0]);
                            assert(cu == c2);
                            assert(iu == 0);
                            assert(comp[0] == u);
                        }
                        assert(reports_cycle(workflow, ids@));
                    }
                    return Err(DeadlockError::DependencyCycle(ids));
                }
            }
            c2 = c2 + 1;
        }
        proof {
            assert forall|u: nat| !#[trigger] reaches_plus(e, u, u) by {
                if reaches_plus(e, u, u) {
                    assert(u < n) by {
                        let w = lemma_plus_first_step(e, u, u);
                        let k = choose|k: int| 0 <= k < e.len() && #[trigger] e[k] == (u, w);
                        assert(e[k].0 < n);
                    }
                    assert(listed_in(sccs@, u));
                    let (cu, iu) = choose|cu: int, iu: int|
                        0 <= cu < sccs@.len() && 0 <= iu < sccs@[cu]@.len() && #[trigger] sccs@[cu]@[iu] == u;
                    let w = lemma_plus_first_step(e, u, u);
                    if w == u {
                        assert(sccs@[cu]@.len() == 1);
                        assert(iu == 0);
                        assert(has_edge(e, sccs@[cu]@[0] as nat, sccs@[cu]@[0] as nat));
                    } else {
                        let k = choose|k: int| 0 <= k < e.len() && #[trigger] e[k] == (u, w);
                        assert(e[k].1 < n);
                        assert(listed_in(sccs@, w));
                        let (cw, iw) = choose|cw: int, iw: int|
                            0 <= cw < sccs@.len() && 0 <= iw < sccs@[cw]@.len() && #[trigger] sccs@[cw]@[iw] == w;
                        crate::graph::lemma_reaches_refl(e, u);
                        crate::graph::lemma_reaches_step(e, u, u, w);
                        assert(reaches(e, sccs@[cu]@[iu] as nat, sccs@[cw]@[iw] as nat));
                        assert(reaches(e, sccs@[cw]@[iw] as nat, sccs@[cu]@[iu] as nat));
                        assert(cu == cw);
                        assert(iu != iw);
                        assert(sccs@[cu]@.len() <= 1);
                    }
                }
            }
        }
        Ok(())
    }

    /// Analyzes workflow for potential resource deadlocks; only long
    /// dependency chains can be seen from the graph alone.
    pub fn detect_resource_deadlocks(&self, workflow: &Workflow) -> (r: Result<Vec<DeadlockWarning>, DeadlockError>)
        requires
            workflow.wf(),
        ensures
            r matches Ok(warnings) && self.long_chain_warnings(workflow, warnings@),
    {
        Ok(self.detect_long_chains(workflow))
    }

    /// `warnings` are what the long-chain analysis reports for `workflow`:
    /// nothing unless the workflow is a non-empty DAG more than five layers
    /// deep, and then one warning per task in its deepest layer.
    pub open spec fn long_chain_warnings(&self, workflow: &Workflow, warnings: Seq<DeadlockWarning>) -> bool {
        let n = workflow.nodes().len();
        let e = workflow.edges();
        &&& !(n > 0 && is_acyclic(e)) ==> warnings.len() == 0
        &&& n > 0 && is_acyclic(e) ==> forall|lay: Seq<nat>, depth: nat|
            is_layering(n, e, lay) && #[trigger] is_layer_count(n, lay, depth) ==> {
                &&& depth <= LONG_CHAIN_LAYERS ==> warnings.len() == 0
                &&& depth > LONG_CHAIN_LAYERS ==> flags_deepest_layer(workflow.nodes(), lay, depth, warnings)
            }
    }

    /// Detects long dependency chains that might time out.
    fn detect_long_chains(&self, workflow: &Workflow) -> (r: Vec<DeadlockWarning>)
        requires
            workflow.wf(),
        ensures
            self.long_chain_warnings(workflow, r@),
    {
        if let Ok(layers) = workflow.execution_layers() {
            let ghost lay0 = choose|lay: Seq<nat>|
                is_layering(workflow.nodes().len(), workflow.edges(), lay) && #[trigger] workflow.groups_by(lay, layers@);
            self.warnings_for_layers(workflow, &layers, Ghost(lay0))
        } else {
            Vec::new()
        }
    }

    /// The long-chain warnings for a workflow whose layers are `layers`.
    fn warnings_for_layers(&self, workflow: &Workflow, layers: &Vec<Vec<TaskId>>, Ghost(lay0): Ghost<Seq<nat>>) -> (r: Vec<DeadlockWarning>)
        requires
            workflow.wf(),
            workflow.nodes().len() > 0,
            is_acyclic(workflow.edges()),
            is_layering(workflow.nodes().len(), workflow.edges(), lay0),
            workflow.groups_by(lay0, layers@),
        ensures
            self.long_chain_warnings(workflow, r@),
    {
        let mut warnings: Vec<DeadlockWarning> = Vec::new();
        let ghost n = workflow.nodes().len();
        let ghost e = workflow.edges();
        let max_layer = layers.len();
        if max_layer > LONG_CHAIN_LAYERS {
            let top = &layers[max_layer - 1];
            let ghost top_nodes = nodes_at_layer(lay0, (max_layer - 1) as nat, n);
            proof {
                assert(ids_along(workflow.nodes(), top_nodes, top@));
            }
            let mut advice = "Consider splitting this workflow or increasing deadlock_timeout (current depth: ".to_string();
            push_decimal(&mut advice, max_layer);
            advice.append(")");
            let mut i: usize = 0;
            while i < top.len()
                invariant
                    i <= top@.len(),
                    ids_along(workflow.nodes(), top_nodes, top@),
                    advice@ == long_chain_advice(max_layer as nat),
                    warnings@.len() == i,
                    max_layer > LONG_CHAIN_LAYERS,
                    forall|j: int|
                        0 <= j < i ==> is_long_chain_warning(
                            #[trigger] warnings@[j],
                            workflow.nodes()[top_nodes[j] as int].id@,
                            max_layer as nat,
                        ),
                decreases top@.len() - i,
            {
                let w = DeadlockWarning::new(
                    top[i].clone(),
                    DeadlockWarningType::LongDependencyChain { length: max_layer },
                    advice.clone(),
                );
                let ghost w0 = warnings@;
                warnings.push(w);
                proof {
                    assert(warnings@[i as int].task_id@ == top@[i as int]@);
                    assert(is_long_chain_warning(
                        warnings@[i as int],
                        workflow.nodes()[top_nodes[i as int] as int].id@,
                        max_layer as nat,
                    ));
                    assert forall|j: int| 0 <= j < i + 1 implies is_long_chain_warning(
                        #[trigger] warnings@[j],
                        workflow.nodes()[top_nodes[j] as int].id@,
                        max_layer as nat,
                    ) by {
                        if j < i {
                            assert(warnings@[j] == w0[j]);
                        }
                    }
                }
                i = i + 1;
            }
            proof {
                assert(flags_deepest_layer(workflow.nodes(), lay0, max_layer as nat, warnings@));
            }
        }
        proof {
            assert forall|lay: Seq<nat>, depth: nat|
                is_layering(n, e, lay) && #[trigger] is_layer_count(n, lay, depth) implies {
                    &&& depth <= LONG_CHAIN_LAYERS ==> warnings@.len() == 0
                    &&& depth > LONG_CHAIN_LAYERS ==> flags_deepest_layer(workflow.nodes(), lay, depth, warnings@)
                } by {
                lemma_same_depth(n, e, lay0, max_layer as nat, lay, depth);
            }
        }
        warnings
    }

    /// Validates that a workflow is deadlock-free: a cycle is an error,
    /// long chains come back as warnings.
    pub fn validate_workflow(&self, workflow: &Workflow) -> (r: Result<Vec<DeadlockWarning>, DeadlockError>)
        requires
            workflow.wf(),
        ensures
            r is Ok <==> is_acyclic(workflow.edges()),
            r matches Ok(warnings) ==> self.long_chain_warnings(workflow, warnings@),
            r matches Err(DeadlockError::DependencyCycle(ids)) ==> reports_cycle(workflow, ids@),
            r is Err ==> r matches Err(DeadlockError::DependencyCycle(_)),
    {
        self.detect_dependency_cycles(workflow)?;
        self.detect_resource_deadlocks(workflow)
    }
}

/// The layering and the number of layers are determined by the graph.
proof fn lemma_same_depth(n: nat, e: Seq<(nat, nat)>, lay0: Seq<nat>, count0: nat, lay: Seq<nat>, depth: nat)
    requires
        is_layering(n, e, lay0),
        forall|v: nat| v < n ==> #[trigger] lay0[v as int] < count0,
        n > 0 ==> exists|v: nat| v < n && #[trigger] lay0[v as int] + 1 == count0,
        is_layering(n, e, lay),
        is_layer_count(n, lay, depth),
    ensures
        lay == lay0,
        depth == count0,
{
    lemma_layering_unique(n, e, lay, lay0);
    let v1 = choose|v: nat| v < n && #[trigger] lay[v as int] + 1 == depth;
    let v2 = choose|v: nat| v < n && #[trigger] lay0[v as int] + 1 == count0;
    assert(lay0[v2 as int] < depth);
    assert(lay[v1 as int] < count0);
}

/// Two distinct nodes that reach each other both lie on a cycle.
proof fn lemma_cycle_through(e: Seq<(nat, nat)>, v: nat, u: nat)
    requires
        u != v,
        reaches(e, u, v),
        reaches(e, v, u),
    ensures
        reaches_plus(e, v, v),
{
    let p = choose|p: Seq<nat>| #[trigger] crate::graph::is_path(e, p) && p[0] == v && p.last() == u;
    assert(p.len() >= 2) by {
        if p.len() == 1 {
            assert(p[0] == p.last());
        }
    }
    assert(reaches_plus(e, v, u));
    crate::graph::lemma_plus_then_reaches(e, v, u, v);
}

/// A self-loop is a cycle.
proof fn lemma_self_loop_cycle(e: Seq<(nat, nat)>, v: nat)
    requires
        has_edge(e, v, v),
    ensures
        reaches_plus(e, v, v),
{
    crate::graph::lemma_reaches_refl(e, v);
    crate::graph::lemma_reaches_step(e, v, v, v);
}

} // verus!
