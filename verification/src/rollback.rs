//! Rollback planning for workflow failure recovery (Saga compensation).
//!
//! When a task fails, the tasks that depend on it (directly or through other
//! tasks) are rolled back, latest-executed first; independent tasks keep
//! their completed state.

use crate::dag::{id_list_debug, ids_along, last_index_of, lists_id, workflow_error_text, Workflow, WorkflowError};
use crate::graph::{
    has_edge, is_acyclic, is_path, is_topo_order, lemma_reaches_refl, lemma_reaches_step, lemma_topo_covers,
    lemma_topo_path_forward, reaches, reaches_plus,
};
use crate::task::TaskId;
use vstd::multiset::Multiset;
use vstd::prelude::*;

verus! {

/// Rollback strategy for determining which tasks to roll back.
#[derive(Clone, Copy, Debug, PartialEq, Eq, Structural)]
pub enum RollbackStrategy {
    /// Roll back all tasks reachable from failed task (all dependents)
    AllDependent,
    /// Roll back only the failed task
    FailedOnly,
    /// Custom selection; handled as `AllDependent`
    Custom,
}

/// Report from rollback execution.
#[derive(Debug)]
pub struct RollbackReport {
    /// Tasks that were successfully rolled back
    pub rolled_back_tasks: Vec<TaskId>,
    /// Tasks that were skipped (no compensation defined)
    pub skipped_tasks: Vec<TaskId>,
    /// Tasks where compensation failed
    pub failed_compensations: Vec<(TaskId, String)>,
}

impl RollbackReport {
    /// Creates a new empty rollback report.
    pub fn new() -> (r: RollbackReport)
        ensures
            r.rolled_back_tasks@.len() == 0,
            r.skipped_tasks@.len() == 0,
            r.failed_compensations@.len() == 0,
    {
        RollbackReport { rolled_back_tasks: Vec::new(), skipped_tasks: Vec::new(), failed_compensations: Vec::new() }
    }

    /// Returns the total number of tasks processed.
    pub fn total_processed(&self) -> (r: usize)
        requires
            self.rolled_back_tasks@.len() + self.skipped_tasks@.len() + self.failed_compensations@.len()
                <= usize::MAX,
        ensures
            r == self.rolled_back_tasks@.len() + self.skipped_tasks@.len() + self.failed_compensations@.len(),
    {
        self.rolled_back_tasks.len() + self.skipped_tasks.len() + self.failed_compensations.len()
    }
}

/// Errors that can occur during rollback.
#[derive(Debug)]
pub enum RollbackError {
    /// Failed to find rollback set (DAG traversal error)
    RollbackSetFailed(String),
    /// Task not found in workflow during rollback
    TaskNotFound(TaskId),
    /// Compensation execution failed
    CompensationFailed(TaskId, String),
    /// Graph traversal error
    TraversalError(String),
}

/// The last position of `x` among `ids`, or -1.
pub open spec fn last_pos(ids: Seq<TaskId>, x: Seq<char>) -> int
    decreases ids.len(),
{
    if ids.len() == 0 {
        -1
    } else if ids.last()@ == x {
        ids.len() - 1
    } else {
        last_pos(ids.drop_last(), x)
    }
}

/// Where a task sorts in rollback: its last position in the execution
/// order, or 0 when the order does not list it.
pub open spec fn rollback_key(order: Seq<TaskId>, x: Seq<char>) -> nat {
    if last_pos(order, x) >= 0 {
        last_pos(order, x) as nat
    } else {
        0
    }
}

/// Inserts `x` before the first entry of lower key (after all entries of
/// key at least its own).
pub open spec fn insert_by_key(sorted: Seq<TaskId>, x: TaskId, order: Seq<TaskId>) -> Seq<TaskId>
    decreases sorted.len(),
{
    if sorted.len() == 0 {
        seq![x]
    } else if rollback_key(order, sorted[0]@) < rollback_key(order, x@) {
        seq![x] + sorted
    } else {
        seq![sorted[0]] + insert_by_key(sorted.drop_first(), x, order)
    }
}

/// Stable sort of `s` by descending rollback key.
pub open spec fn sort_for_rollback(s: Seq<TaskId>, order: Seq<TaskId>) -> Seq<TaskId>
    decreases s.len(),
{
    if s.len() == 0 {
        Seq::empty()
    } else {
        insert_by_key(sort_for_rollback(s.drop_last(), order), s.last(), order)
    }
}

/// Keys never increase along `s`.
pub open spec fn keys_descending(s: Seq<TaskId>, order: Seq<TaskId>) -> bool {
    forall|i: int, k: int|
        0 <= i < k < s.len() ==> rollback_key(order, #[trigger] s[i]@) >= rollback_key(order, #[trigger] s[k]@)
}

/// `x` is the identifier of a task that `f` reaches in `workflow`.
pub open spec fn is_dependent_id(workflow: &Workflow, f: nat, x: Seq<char>) -> bool {
    exists|j: nat| j < workflow.nodes().len() && #[trigger] reaches(workflow.edges(), f, j) && workflow.nodes()[j as int].id@ == x
}

/// No identifier occurs twice.
pub open spec fn distinct_ids(s: Seq<TaskId>) -> bool {
    forall|i: int, k: int| 0 <= i < s.len() && 0 <= k < s.len() && i != k ==> #[trigger] s[i]@ != #[trigger] s[k]@
}

/// `plan` lists each task that the failed node `f` reaches exactly once,
/// later-executed tasks first: along the workflow's execution order, the
/// last positions of its entries strictly decrease.
pub open spec fn is_rollback_plan(workflow: &Workflow, f: nat, plan: Seq<TaskId>) -> bool {
    &&& forall|x: Seq<char>| lists_id(plan, x) <==> #[trigger] is_dependent_id(workflow, f, x)
    &&& distinct_ids(plan)
    &&& exists|order: Seq<TaskId>|
        workflow.is_the_execution_order(order) && forall|i: int, k: int|
            0 <= i < k < plan.len() ==> rollback_key(order, #[trigger] plan[i]@) > rollback_key(
                order,
                #[trigger] plan[k]@,
            )
}

/// When no two tasks share an identifier, a rollback plan undoes every task
/// before the tasks it depends on: if the task listed at `k` reaches the task
/// listed at `i` through one or more dependencies, then `i` comes first.
pub proof fn lemma_rollback_plan_dependents_first(
    workflow: &Workflow,
    f: nat,
    plan: Seq<TaskId>,
    i: int,
    k: int,
    u: nat,
    v: nat,
)
    requires
        workflow.wf(),
        workflow.unique_ids(),
        is_rollback_plan(workflow, f, plan),
        0 <= i < plan.len(),
        0 <= k < plan.len(),
        u < workflow.nodes().len(),
        v < workflow.nodes().len(),
        plan[i]@ == workflow.nodes()[u as int].id@,
        plan[k]@ == workflow.nodes()[v as int].id@,
        reaches_plus(workflow.edges(), v, u),
    ensures
        i < k,
{
    let n = workflow.nodes().len();
    let e = workflow.edges();
    let order = choose|order: Seq<TaskId>|
        workflow.is_the_execution_order(order) && forall|a: int, b: int|
            0 <= a < b < plan.len() ==> rollback_key(order, #[trigger] plan[a]@) > rollback_key(order, #[trigger] plan[b]@);
    let ord = choose|ord: Seq<nat>| is_topo_order(n, e, ord) && #[trigger] ids_along(workflow.nodes(), ord, order);
    lemma_topo_covers(n, e, ord, v);
    let iv = choose|iv: int| 0 <= iv < ord.len() && ord[iv] == v;
    let p = choose|p: Seq<nat>| #[trigger] is_path(e, p) && p.len() >= 2 && p[0] == v && p.last() == u;
    lemma_topo_path_forward(n, e, ord, p, iv, p.len() - 1);
    let iu = choose|iu: int| iv < iu < n && #[trigger] ord[iu] == p[p.len() - 1];
    lemma_position_is_key(workflow, order, ord, iu);
    lemma_position_is_key(workflow, order, ord, iv);
    assert(rollback_key(order, plan[i]@) > rollback_key(order, plan[k]@));
    if i == k {
    } else if k < i {
        assert(rollback_key(order, plan[k]@) > rollback_key(order, plan[i]@));
    }
}

/// With distinct identifiers, the rollback key of the task at position `t` of
/// an execution order is `t`.
proof fn lemma_position_is_key(workflow: &Workflow, order: Seq<TaskId>, ord: Seq<nat>, t: int)
    requires
        workflow.unique_ids(),
        is_topo_order(workflow.nodes().len(), workflow.edges(), ord),
        ids_along(workflow.nodes(), ord, order),
        0 <= t < ord.len(),
    ensures
        rollback_key(order, workflow.nodes()[ord[t] as int].id@) == t,
{
    let x = workflow.nodes()[ord[t] as int].id@;
    lemma_last_pos(order, x);
    assert(order[t]@ == x);
    let lp = last_pos(order, x);
    assert(lp >= t);
    assert(order[lp]@ == x);
    assert(workflow.nodes()[ord[lp] as int].id@ == x);
    if lp != t {
        assert(ord[lp] != ord[t]);
        assert(ord[lp] < workflow.nodes().len() && ord[t] < workflow.nodes().len());
    }
}

/// Properties of `last_pos`.
proof fn lemma_last_pos(ids: Seq<TaskId>, x: Seq<char>)
    ensures
        -1 <= last_pos(ids, x) < ids.len(),
        last_pos(ids, x) >= 0 ==> ids[last_pos(ids, x)]@ == x,
        forall|j: int| last_pos(ids, x) < j < ids.len() ==> #[trigger] ids[j]@ != x,
    decreases ids.len(),
{
    if ids.len() > 0 {
        let d = ids.drop_last();
        lemma_last_pos(d, x);
        assert forall|j: int| last_pos(ids, x) < j < ids.len() implies #[trigger] ids[j]@ != x by {
            if j < d.len() {
                assert(ids[j] == d[j]);
                assert(d[j]@ != x);
            }
        }
        if last_pos(ids, x) >= 0 && last_pos(ids, x) < d.len() {
            assert(ids[last_pos(ids, x)] == d[last_pos(ids, x)]);
        }
    }
}

/// Inserting keeps the entries and keeps the keys descending.
proof fn lemma_insert_by_key(sorted: Seq<TaskId>, x: TaskId, order: Seq<TaskId>)
    requires
        keys_descending(sorted, order),
    ensures
        keys_descending(insert_by_key(sorted, x, order), order),
        insert_by_key(sorted, x, order).to_multiset() == sorted.to_multiset().insert(x),
        insert_by_key(sorted, x, order).len() == sorted.len() + 1,
        forall|i: int|
            0 <= i < insert_by_key(sorted, x, order).len() ==> #[trigger] insert_by_key(sorted, x, order)[i] == x
                || sorted.contains(insert_by_key(sorted, x, order)[i]),
    decreases sorted.len(),
{
    let r = insert_by_key(sorted, x, order);
    if sorted.len() == 0 {
        assert(r =~= seq![x]);
        assert(seq![x].to_multiset() =~= Multiset::empty().insert(x)) by {
            broadcast use vstd::seq_lib::group_seq_properties;
            broadcast use vstd::multiset::group_multiset_properties;
        }
        assert(sorted.to_multiset() =~= Multiset::empty()) by {
            broadcast use vstd::seq_lib::group_seq_properties;
        }
    } else if rollback_key(order, sorted[0]@) < rollback_key(order, x@) {
        assert(r =~= seq![x] + sorted);
        assert forall|i: int, k: int| 0 <= i < k < r.len() implies rollback_key(order, #[trigger] r[i]@)
            >= rollback_key(order, #[trigger] r[k]@) by {
            if i == 0 {
                if k > 1 {
                    assert(r[k] == sorted[k - 1]);
                    assert(rollback_key(order, sorted[0]@) >= rollback_key(order, sorted[k - 1]@));
                }
            } else {
                assert(r[i] == sorted[i - 1] && r[k] == sorted[k - 1]);
            }
        }
        broadcast use vstd::seq_lib::group_seq_properties;
        broadcast use vstd::multiset::group_multiset_properties;
        assert((seq![x] + sorted).to_multiset() =~= sorted.to_multiset().insert(x)) by {
            vstd::seq_lib::lemma_multiset_commutative(seq![x], sorted);
        }
        assert forall|i: int| 0 <= i < r.len() implies #[trigger] r[i] == x || sorted.contains(r[i]) by {
            if i > 0 {
                assert(r[i] == sorted[i - 1]);
            }
        }
    } else {
        let t = sorted.drop_first();
        assert(keys_descending(t, order)) by {
            assert forall|i: int, k: int| 0 <= i < k < t.len() implies rollback_key(order, #[trigger] t[i]@)
                >= rollback_key(order, #[trigger] t[k]@) by {
                assert(t[i] == sorted[i + 1] && t[k] == sorted[k + 1]);
            }
        }
        lemma_insert_by_key(t, x, order);
        let ti = insert_by_key(t, x, order);
        assert(r =~= seq![sorted[0]] + ti);
        assert forall|i: int, k: int| 0 <= i < k < r.len() implies rollback_key(order, #[trigger] r[i]@)
            >= rollback_key(order, #[trigger] r[k]@) by {
            if i == 0 {
                assert(r[k] == ti[k - 1]);
                if ti[k - 1] == x {
                } else {
                    assert(t.contains(ti[k - 1]));
                    let j = choose|j: int| 0 <= j < t.len() && t[j] == ti[k - 1];
                    assert(t[j] == sorted[j + 1]);
                    assert(rollback_key(order, sorted[0]@) >= rollback_key(order, sorted[j + 1]@));
                }
            } else {
                assert(r[i] == ti[i - 1] && r[k] == ti[k - 1]);
            }
        }
        broadcast use vstd::seq_lib::group_seq_properties;
        broadcast use vstd::multiset::group_multiset_properties;
        assert(sorted =~= seq![sorted[0]] + t);
        vstd::seq_lib::lemma_multiset_commutative(seq![sorted[0]], ti);
        vstd::seq_lib::lemma_multiset_commutative(seq![sorted[0]], t);
        assert(r.to_multiset() =~= sorted.to_multiset().insert(x));
        assert forall|i: int| 0 <= i < r.len() implies #[trigger] r[i] == x || sorted.contains(r[i]) by {
            if i > 0 {
                assert(r[i] == ti[i - 1]);
                if ti[i - 1] != x {
                    assert(t.contains(ti[i - 1]));
                    let j = choose|j: int| 0 <= j < t.len() && t[j] == ti[i - 1];
                    assert(sorted[j + 1] == t[j]);
                }
            } else {
                assert(r[0] == sorted[0]);
            }
        }
    }
}

/// The rollback sort keeps the entries and orders them by descending key.
pub proof fn lemma_sort_for_rollback(s: Seq<TaskId>, order: Seq<TaskId>)
    ensures
        keys_descending(sort_for_rollback(s, order), order),
        sort_for_rollback(s, order).to_multiset() == s.to_multiset(),
        sort_for_rollback(s, order).len() == s.len(),
    decreases s.len(),
{
    if s.len() == 0 {
        assert(s.to_multiset() =~= Multiset::empty()) by {
            broadcast use vstd::seq_lib::group_seq_properties;
        }
        assert(sort_for_rollback(s, order).to_multiset() =~= Multiset::empty()) by {
            broadcast use vstd::seq_lib::group_seq_properties;
        }
    } else {
        lemma_sort_for_rollback(s.drop_last(), order);
        lemma_insert_by_key(sort_for_rollback(s.drop_last(), order), s.last(), order);
        broadcast use vstd::seq_lib::group_seq_properties;
        assert(s =~= s.drop_last().push(s.last()));
    }
}

/// Rollback engine for workflow failure recovery.
pub struct RollbackEngine {
    _private: (),
}

impl Default for RollbackEngine {
    fn default() -> (r: RollbackEngine) {
        RollbackEngine::new()
    }
}

impl RollbackEngine {
    /// Creates a new rollback engine.
    pub fn new() -> (r: RollbackEngine) {
        RollbackEngine { _private: () }
    }

    /// Finds the tasks to roll back after `failed_task` failed, in rollback
    /// order (latest-executed first).
    pub fn find_rollback_set(&self, workflow: &Workflow, failed_task: &TaskId, strategy: RollbackStrategy) -> (r: Result<
        Vec<TaskId>,
        RollbackError,
    >)
        requires
            workflow.wf(),
        ensures
            !workflow.has_task(failed_task@) ==> (r matches Err(RollbackError::TaskNotFound(x)) && x@
                == failed_task@),
            workflow.has_task(failed_task@) && strategy == RollbackStrategy::FailedOnly ==> (r matches Ok(v)
                && v@.len() == 1 && v@[0]@ == failed_task@),
            workflow.has_task(failed_task@) && strategy != RollbackStrategy::FailedOnly && !is_acyclic(
                workflow.edges(),
            ) ==> (r matches Err(RollbackError::TraversalError(_))),
            workflow.has_task(failed_task@) && strategy != RollbackStrategy::FailedOnly && is_acyclic(
                workflow.edges(),
            ) ==> (r matches Ok(v) && is_rollback_plan(workflow, workflow.index_of(failed_task@) as nat, v@)),
    {
        let failed_idx = match workflow.find_task(failed_task) {
            Some(i) => i,
            None => {
                return Err(RollbackError::TaskNotFound(failed_task.clone()));
            },
        };
        match strategy {
            RollbackStrategy::FailedOnly => {
                let mut v: Vec<TaskId> = Vec::new();
                v.push(failed_task.clone());
                Ok(v)
            },
            _ => {
                let dependent_set = match self.find_dependent_tasks(workflow, failed_idx) {
                    Ok(d) => d,
                    Err(e) => {
                        return Err(e);
                    },
                };
                let ghost deps = dependent_set@;
                let sorted = self.reverse_execution_order(workflow, dependent_set);
                proof {
                    if let Ok(v) = &sorted {
                        let order = choose|order: Seq<TaskId>|
                            workflow.is_the_execution_order(order) && v@ == sort_for_rollback(deps, order);
                        lemma_sort_for_rollback(deps, order);
                        lemma_plan_from_sorted(workflow, failed_idx as nat, deps, order, v@);
                        assert(is_rollback_plan(workflow, failed_idx as nat, v@));
                    }
                    assert(workflow.nodes().len() > 0);
                }
                sorted
            },
        }
    }

    /// The report of rolling back `tasks`, in the given order: every task is
    /// recorded as rolled back. Fails on the first task the workflow does not
    /// have. (Recording each rollback in the audit log is the caller's part.)
    pub fn rollback_report(&self, workflow: &Workflow, tasks: Vec<TaskId>) -> (r: Result<RollbackReport, RollbackError>)
        requires
            workflow.wf(),
        ensures
            (forall|i: int| 0 <= i < tasks@.len() ==> workflow.has_task(#[trigger] tasks@[i]@)) ==> (r matches Ok(
                rep,
            ) && rep.rolled_back_tasks@ == tasks@ && rep.skipped_tasks@.len() == 0
                && rep.failed_compensations@.len() == 0),
            r matches Err(e) ==> exists|i: int|
                0 <= i < tasks@.len() && !workflow.has_task(#[trigger] tasks@[i]@) && (forall|k: int|
                    0 <= k < i ==> workflow.has_task(#[trigger] tasks@[k]@)) && (e matches RollbackError::TaskNotFound(
                    x,
                ) && x@ == tasks@[i]@),
    {
        let mut i: usize = 0;
        while i < tasks.len()
            invariant
                i <= tasks@.len(),
                workflow.wf(),
                forall|k: int| 0 <= k < i ==> workflow.has_task(#[trigger] tasks@[k]@),
            decreases tasks@.len() - i,
        {
            if !workflow.contains_task(&tasks[i]) {
                return Err(RollbackError::TaskNotFound(tasks[i].clone()));
            }
            i = i + 1;
        }
        Ok(RollbackReport { rolled_back_tasks: tasks, skipped_tasks: Vec::new(), failed_compensations: Vec::new() })
    }

    /// Finds the identifiers of all tasks reachable from node `failed_idx`
    /// (the failed task included), each once. An index with no node gives none.
    pub fn find_dependent_tasks(&self, workflow: &Workflow, failed_idx: usize) -> (r: Result<Vec<TaskId>, RollbackError>)
        requires
            workflow.wf(),
        ensures
            r matches Ok(v) && distinct_ids(v@) && forall|x: Seq<char>|
                lists_id(v@, x) <==> #[trigger] is_dependent_id(workflow, failed_idx as nat, x),
    {
        let n = workflow.task_count();
        let ghost e = workflow.edges();
        let mut result: Vec<TaskId> = Vec::new();
        if failed_idx >= n {
            proof {
                assert forall|x: Seq<char>| !#[trigger] is_dependent_id(workflow, failed_idx as nat, x) by {
                    if is_dependent_id(workflow, failed_idx as nat, x) {
                        let j = choose|j: nat|
                            j < n && #[trigger] reaches(e, failed_idx as nat, j) && workflow.nodes()[j as int].id@ == x;
                        let p = choose|p: Seq<nat>|
                            #[trigger] crate::graph::is_path(e, p) && p[0] == failed_idx as nat && p.last() == j;
                        if p.len() > 1 {
                            assert(has_edge(e, p[0], p[1]));
                            let k = choose|k: int| 0 <= k < e.len() && #[trigger] e[k] == (p[0], p[1]);
                            assert(e[k].0 < n);
                        }
                    }
                }
            }
            return Ok(result);
        }
        let mut visited: Vec<bool> = Vec::new();
        let mut z: usize = 0;
        while z < n
            invariant
                z <= n,
                visited@.len() == z,
                forall|j: int| 0 <= j < z ==> !visited@[j],
            decreases n - z,
        {
            visited.push(false);
            z = z + 1;
        }
        let mut queue: Vec<usize> = Vec::new();
        queue.push(failed_idx);
        visited.set(failed_idx, true);
        let mut head: usize = 0;
        proof {
            lemma_reaches_refl(e, failed_idx as nat);
            assert(queue@[0] == failed_idx);
            assert forall|j: int| 0 <= j < n && #[trigger] visited@[j] implies queue@.contains(j as usize)
                && reaches(e, failed_idx as nat, j as nat) by {
                assert(j == failed_idx as int);
            }
        }
        while head < queue.len()
            invariant
                workflow.wf(),
                n == workflow.nodes().len(),
                e == workflow.edges(),
                failed_idx < n,
                visited@.len() == n,
                visited@[failed_idx as int],
                head <= queue@.len(),
                queue@.len() <= n,
                forall|q: int| 0 <= q < queue@.len() ==> #[trigger] queue@[q] < n && visited@[queue@[q] as int],
                forall|q1: int, q2: int|
                    0 <= q1 < queue@.len() && 0 <= q2 < queue@.len() && q1 != q2 ==> #[trigger] queue@[q1]
                        != #[trigger] queue@[q2],
                forall|j: int| 0 <= j < n && #[trigger] visited@[j] ==> queue@.contains(j as usize),
                forall|j: int| 0 <= j < n && #[trigger] visited@[j] ==> reaches(e, failed_idx as nat, j as nat),
                forall|q: int, s: nat|
                    0 <= q < head && #[trigger] has_edge(e, queue@[q] as nat, s) ==> s < n && visited@[s as int],
            decreases n - head,
        {
            let current = queue[head];
            let succs = workflow.successors_of(current);
            let mut t: usize = 0;
            while t < succs.len()
                invariant
                    workflow.wf(),
                    n == workflow.nodes().len(),
                    e == workflow.edges(),
                    failed_idx < n,
                    visited@.len() == n,
                    visited@[failed_idx as int],
                    head < queue@.len(),
                    current == queue@[head as int],
                    queue@.len() <= n,
                    forall|x: usize| succs@.contains(x) <==> has_edge(e, current as nat, x as nat),
                    forall|q: int| 0 <= q < queue@.len() ==> #[trigger] queue@[q] < n && visited@[queue@[q] as int],
                    forall|q1: int, q2: int|
                        0 <= q1 < queue@.len() && 0 <= q2 < queue@.len() && q1 != q2 ==> #[trigger] queue@[q1]
                            != #[trigger] queue@[q2],
                    forall|j: int| 0 <= j < n && #[trigger] visited@[j] ==> queue@.contains(j as usize),
                    forall|j: int| 0 <= j < n && #[trigger] visited@[j] ==> reaches(e, failed_idx as nat, j as nat),
                    forall|q: int, s: nat|
                        0 <= q < head && #[trigger] has_edge(e, queue@[q] as nat, s) ==> s < n && visited@[s as int],
                    t <= succs@.len(),
                    forall|u: int| 0 <= u < t ==> (#[trigger] succs@[u]) < n && visited@[succs@[u] as int],
                decreases succs@.len() - t,
            {
                let s = succs[t];
                assert(succs@.contains(s));
                proof {
                    let k = choose|k: int| 0 <= k < e.len() && #[trigger] e[k] == (current as nat, s as nat);
                    assert(e[k].1 < n);
                }
                if !visited[s] {
                    proof {
                        lemma_reaches_step(e, failed_idx as nat, current as nat, s as nat);
                        lemma_queue_bound(queue@, visited@, n as nat);
                    }
                    let ghost q0 = queue@;
                    visited.set(s, true);
                    queue.push(s);
                    proof {
                        assert forall|j: int| 0 <= j < n && #[trigger] visited@[j] implies queue@.contains(j as usize) by {
                            if j == s as int {
                                assert(queue@[q0.len() as int] == s);
                            } else {
                                assert(q0.contains(j as usize));
                                let q = choose|q: int| 0 <= q < q0.len() && q0[q] == j as usize;
                                assert(queue@[q] == q0[q]);
                            }
                        }
                    }
                }
                t = t + 1;
            }
            proof {
                assert forall|q: int, s: nat|
                    0 <= q < head + 1 && #[trigger] has_edge(e, queue@[q] as nat, s) implies s < n && visited@[s as int] by {
                    if q == head {
                        let k = choose|k: int| 0 <= k < e.len() && #[trigger] e[k] == (current as nat, s);
                        assert(e[k].1 < n);
                        assert(succs@.contains(s as usize));
                        let u = choose|u: int| 0 <= u < succs@.len() && succs@[u] == s as usize;
                        assert(visited@[succs@[u] as int]);
                    }
                }
            }
            head = head + 1;
        }
        proof {
            assert forall|j: nat| j < n && reaches(e, failed_idx as nat, j) implies visited@[j as int] by {
                lemma_closed_set_contains_reachable(e, n as nat, visited@, failed_idx as nat, j, queue@);
            }
        }
        // collect each reached task's identifier once, in node order
        let mut j: usize = 0;
        while j < n
            invariant
                workflow.wf(),
                n == workflow.nodes().len(),
                e == workflow.edges(),
                j <= n,
                visited@.len() == n,
                forall|v: int| 0 <= v < n ==> (#[trigger] visited@[v] <==> reaches(e, failed_idx as nat, v as nat)),
                distinct_ids(result@),
                forall|x: Seq<char>|
                    lists_id(result@, x) <==> exists|v: nat|
                        v < j && #[trigger] reaches(e, failed_idx as nat, v) && workflow.nodes()[v as int].id@ == x,
            decreases n - j,
        {
            if visited[j] {
                let id = workflow.id_at(j);
                let mut seen = false;
                let mut k: usize = 0;
                while k < result.len()
                    invariant
                        k <= result@.len(),
                        seen <==> exists|y: int| 0 <= y < k && #[trigger] result@[y]@ == id@,
                    decreases result@.len() - k,
                {
                    if result[k] == id {
                        seen = true;
                    }
                    k = k + 1;
                }
                let ghost r0 = result@;
                if !seen {
                    result.push(id);
                    proof {
                        assert forall|i: int, k2: int|
                            0 <= i < result@.len() && 0 <= k2 < result@.len() && i != k2 implies #[trigger] result@[i]@
                            != #[trigger] result@[k2]@ by {
                            if i < r0.len() && k2 < r0.len() {
                                assert(result@[i] == r0[i] && result@[k2] == r0[k2]);
                            } else if i < r0.len() {
                                assert(result@[i] == r0[i]);
                            } else {
                                assert(result@[k2] == r0[k2]);
                            }
                        }
                    }
                }
                proof {
                    assert forall|x: Seq<char>|
                        lists_id(result@, x) <==> exists|v: nat|
                            v < j + 1 && #[trigger] reaches(e, failed_idx as nat, v) && workflow.nodes()[v as int].id@ == x by {
                        if lists_id(result@, x) {
                            let y = choose|y: int| 0 <= y < result@.len() && #[trigger] result@[y]@ == x;
                            if y < r0.len() {
                                assert(result@[y] == r0[y]);
                                assert(lists_id(r0, x));
                            } else {
                                assert(reaches(e, failed_idx as nat, j as nat));
                            }
                        }
                        if exists|v: nat|
                            v < j + 1 && #[trigger] reaches(e, failed_idx as nat, v) && workflow.nodes()[v as int].id@ == x {
                            let v = choose|v: nat|
                                v < j + 1 && #[trigger] reaches(e, failed_idx as nat, v) && workflow.nodes()[v as int].id@ == x;
                            if v < j {
                                assert(lists_id(r0, x));
                                let y = choose|y: int| 0 <= y < r0.len() && #[trigger] r0[y]@ == x;
                                assert(result@[y] == r0[y]);
                            } else if seen {
                                let y = choose|y: int| 0 <= y < k && #[trigger] result@[y]@ == id@;
                                assert(result@[y]@ == x);
                            } else {
                                assert(result@[r0.len() as int]@ == x);
                            }
                        }
                    }
                }
            } else {
                proof {
                    assert forall|x: Seq<char>|
                        lists_id(result@, x) <==> exists|v: nat|
                            v < j + 1 && #[trigger] reaches(e, failed_idx as nat, v) && workflow.nodes()[v as int].id@ == x by {
                        if exists|v: nat|
                            v < j + 1 && #[trigger] reaches(e, failed_idx as nat, v) && workflow.nodes()[v as int].id@ == x {
                            let v = choose|v: nat|
                                v < j + 1 && #[trigger] reaches(e, failed_idx as nat, v) && workflow.nodes()[v as int].id@ == x;
                            assert(v != j);
                        }
                    }
                }
            }
            j = j + 1;
        }
        Ok(result)
    }

    /// Sorts tasks for rollback: by descending last position in the workflow's
    /// execution order (tasks it does not list count as position 0), ties in
    /// their given order. Fails when the workflow has no execution order.
    pub fn reverse_execution_order(&self, workflow: &Workflow, tasks: Vec<TaskId>) -> (r: Result<Vec<TaskId>, RollbackError>)
        requires
            workflow.wf(),
        ensures
            r is Ok <==> workflow.nodes().len() > 0 && is_acyclic(workflow.edges()),
            workflow.nodes().len() == 0 ==> (r matches Err(RollbackError::TraversalError(m)) && m@
                == workflow_error_text(WorkflowError::EmptyWorkflow)),
            workflow.nodes().len() > 0 && !is_acyclic(workflow.edges()) ==> (r matches Err(
                RollbackError::TraversalError(m),
            ) && exists|ids: Seq<TaskId>|
                workflow.is_cycle_report(ids) && m@ == "Cycle detected in workflow involving tasks: "@ + id_list_debug(
                    ids,
                )),
            r matches Ok(v) ==> exists|order: Seq<TaskId>|
                workflow.is_the_execution_order(order) && v@ == sort_for_rollback(tasks@, order),
    {
        let order = match workflow.execution_order() {
            Ok(o) => o,
            Err(e) => {
                let m = e.to_display_string();
                proof {
                    if workflow.nodes().len() > 0 {
                        let ids = e->CycleDetected_0@;
                        assert(workflow.is_cycle_report(ids));
                    }
                }
                return Err(RollbackError::TraversalError(m));
            },
        };
        let mut keys: Vec<usize> = Vec::new();
        let mut sorted: Vec<TaskId> = Vec::new();
        let ghost input = tasks@;
        let len0 = tasks.len();
        assert(input.len() <= usize::MAX);
        let mut rest = tasks;
        let mut reversed: Vec<TaskId> = Vec::new();
        while rest.len() > 0
            invariant
                reversed@.len() + rest@.len() == input.len(),
                input.len() <= usize::MAX,
                forall|t: int| 0 <= t < reversed@.len() ==> #[trigger] reversed@[t] == input[input.len() - 1 - t],
                forall|t: int| 0 <= t < rest@.len() ==> #[trigger] rest@[t] == input[t],
            decreases rest@.len(),
        {
            let x = rest.pop().unwrap();
            reversed.push(x);
        }
        let mut done: usize = 0;
        while reversed.len() > 0
            invariant
                done + reversed@.len() == input.len(),
                input.len() <= usize::MAX,
                forall|t: int| 0 <= t < reversed@.len() ==> #[trigger] reversed@[t] == input[input.len() - 1 - t],
                sorted@ == sort_for_rollback(input.subrange(0, done as int), order@),
                keys@.len() == sorted@.len(),
                forall|t: int| 0 <= t < keys@.len() ==> #[trigger] keys@[t] == rollback_key(order@, sorted@[t]@),
            decreases reversed@.len(),
        {
            let x = reversed.pop().unwrap();
            assert(x == input[done as int]);
            let kx = Self::key_of(&order, &x);
            let mut pos: usize = 0;
            while pos < keys.len() && keys[pos] >= kx
                invariant
                    pos <= keys@.len(),
                    keys@.len() == sorted@.len(),
                    forall|t: int| 0 <= t < keys@.len() ==> #[trigger] keys@[t] == rollback_key(order@, sorted@[t]@),
                    forall|t: int| 0 <= t < pos ==> #[trigger] keys@[t] >= kx,
                decreases keys@.len() - pos,
            {
                pos = pos + 1;
            }
            proof {
                assert forall|t: int| 0 <= t < pos implies rollback_key(order@, #[trigger] sorted@[t]@) >= rollback_key(
                    order@,
                    x@,
                ) by {
                    assert(keys@[t] >= kx);
                }
                if pos < sorted@.len() {
                    assert(keys@[pos as int] < kx);
                }
                lemma_insert_at(sorted@, x, order@, pos as int);
                assert(input.subrange(0, done + 1) =~= input.subrange(0, done as int).push(x));
                assert(input.subrange(0, done + 1).drop_last() =~= input.subrange(0, done as int));
            }
            let ghost k0 = keys@;
            let ghost s0 = sorted@;
            sorted.insert(pos, x);
            keys.insert(pos, kx);
            proof {
                assert forall|t: int| 0 <= t < keys@.len() implies #[trigger] keys@[t] == rollback_key(
                    order@,
                    sorted@[t]@,
                ) by {
                    if t < pos {
                        assert(keys@[t] == k0[t] && sorted@[t] == s0[t]);
                    } else if t > pos {
                        assert(keys@[t] == k0[t - 1] && sorted@[t] == s0[t - 1]);
                    }
                }
            }
            done = done + 1;
        }
        proof {
            assert(input.subrange(0, input.len() as int) =~= input);
        }
        Ok(sorted)
    }

    /// The rollback key of `x` in `order`.
    fn key_of(order: &Vec<TaskId>, x: &TaskId) -> (r: usize)
        ensures
            r == rollback_key(order@, x@),
    {
        proof {
            lemma_last_pos(order@, x@);
        }
        let mut i: usize = order.len();
        while i > 0
            invariant
                i <= order@.len(),
                forall|j: int| i <= j < order@.len() ==> #[trigger] order@[j]@ != x@,
                -1 <= last_pos(order@, x@) < order@.len(),
                last_pos(order@, x@) >= 0 ==> order@[last_pos(order@, x@)]@ == x@,
                forall|j: int| last_pos(order@, x@) < j < order@.len() ==> #[trigger] order@[j]@ != x@,
            decreases i,
        {
            i = i - 1;
            if order[i] == *x {
                return i;
            }
        }
        0
    }
}

/// Inserting before the first entry of lower key is `insert_by_key`.
proof fn lemma_insert_at(sorted: Seq<TaskId>, x: TaskId, order: Seq<TaskId>, pos: int)
    requires
        0 <= pos <= sorted.len(),
        forall|t: int| 0 <= t < pos ==> rollback_key(order, #[trigger] sorted[t]@) >= rollback_key(order, x@),
        pos < sorted.len() ==> rollback_key(order, sorted[pos]@) < rollback_key(order, x@),
    ensures
        insert_by_key(sorted, x, order) == sorted.insert(pos, x),
    decreases sorted.len(),
{
    if sorted.len() == 0 {
        assert(sorted.insert(pos, x) =~= seq![x]);
    } else if pos == 0 {
        assert(sorted.insert(0, x) =~= seq![x] + sorted);
    } else {
        let t = sorted.drop_first();
        assert forall|u: int| 0 <= u < pos - 1 implies rollback_key(order, #[trigger] t[u]@) >= rollback_key(order, x@) by {
            assert(t[u] == sorted[u + 1]);
        }
        if pos - 1 < t.len() {
            assert(t[pos - 1] == sorted[pos]);
        }
        lemma_insert_at(t, x, order, pos - 1);
        assert(rollback_key(order, sorted[0]@) >= rollback_key(order, x@));
        assert(sorted.insert(pos, x) =~= seq![sorted[0]] + t.insert(pos - 1, x));
    }
}

/// While the queue has room for unvisited nodes, it is shorter than the node count.
proof fn lemma_queue_bound(queue: Seq<usize>, visited: Seq<bool>, n: nat)
    requires
        visited.len() == n,
        forall|q: int| 0 <= q < queue.len() ==> #[trigger] queue[q] < n && visited[queue[q] as int],
        forall|q1: int, q2: int| 0 <= q1 < queue.len() && 0 <= q2 < queue.len() && q1 != q2 ==> #[trigger] queue[q1] != #[trigger] queue[q2],
        exists|j: int| 0 <= j < n && !visited[j],
    ensures
        queue.len() < n,
{
    let j = choose|j: int| 0 <= j < n && !visited[j];
    let qn = queue.map_values(|x: usize| x as nat);
    assert(qn.no_duplicates()) by {
        assert forall|a: int, b: int| 0 <= a < qn.len() && 0 <= b < qn.len() && a != b implies qn[a] != qn[b] by {
            assert(queue[a] != queue[b]);
        }
    }
    qn.unique_seq_to_set();
    let s = qn.to_set();
    let below = crate::graph::nat_below(n).remove(j as nat);
    assert(s.subset_of(below)) by {
        assert forall|x: nat| s.contains(x) implies below.contains(x) by {
            let i = choose|i: int| 0 <= i < qn.len() && qn[i] == x;
            assert(queue[i] < n && visited[queue[i] as int]);
        }
    }
    crate::graph::lemma_nat_below(n);
    assert(crate::graph::nat_below(n).contains(j as nat));
    vstd::set_lib::lemma_len_subset(s, below);
}

/// A set of nodes that contains `f` and every successor of its members
/// contains every node `f` reaches.
proof fn lemma_closed_set_contains_reachable(
    e: Seq<(nat, nat)>,
    n: nat,
    visited: Seq<bool>,
    f: nat,
    j: nat,
    queue: Seq<usize>,
)
    requires
        visited.len() == n,
        n <= usize::MAX,
        f < n,
        visited[f as int],
        forall|q: int, s: nat|
            0 <= q < queue.len() && #[trigger] has_edge(e, queue[q] as nat, s) ==> s < n && visited[s as int],
        forall|v: int| 0 <= v < n && #[trigger] visited[v] ==> queue.contains(v as usize),
        reaches(e, f, j),
    ensures
        j < n && visited[j as int],
{
    let p = choose|p: Seq<nat>| #[trigger] crate::graph::is_path(e, p) && p[0] == f && p.last() == j;
    lemma_closed_along_path(e, n, visited, p, queue, (p.len() - 1) as nat);
}

/// Every node of a path from a visited node stays inside a closed visited set.
proof fn lemma_closed_along_path(e: Seq<(nat, nat)>, n: nat, visited: Seq<bool>, p: Seq<nat>, queue: Seq<usize>, k: nat)
    requires
        visited.len() == n,
        n <= usize::MAX,
        crate::graph::is_path(e, p),
        k < p.len(),
        p[0] < n && visited[p[0] as int],
        forall|q: int, s: nat|
            0 <= q < queue.len() && #[trigger] has_edge(e, queue[q] as nat, s) ==> s < n && visited[s as int],
        forall|v: int| 0 <= v < n && #[trigger] visited[v] ==> queue.contains(v as usize),
    ensures
        p[k as int] < n && visited[p[k as int] as int],
    decreases k,
{
    if k > 0 {
        lemma_closed_along_path(e, n, visited, p, queue, (k - 1) as nat);
        let a = p[k - 1];
        assert(has_edge(e, a, p[k as int]));
        assert(visited[a as int]);
        assert((a as int) as usize == a as usize);
        assert(queue.contains(a as usize));
        let q = choose|q: int| 0 <= q < queue.len() && queue[q] == a as usize;
        assert(has_edge(e, queue[q] as nat, p[k as int]));
    }
}

/// From the sorted dependent set to the rollback plan.
proof fn lemma_plan_from_sorted(
    workflow: &Workflow,
    f: nat,
    deps: Seq<TaskId>,
    order: Seq<TaskId>,
    plan: Seq<TaskId>,
)
    requires
        distinct_ids(deps),
        forall|x: Seq<char>| lists_id(deps, x) <==> #[trigger] is_dependent_id(workflow, f, x),
        workflow.is_the_execution_order(order),
        plan == sort_for_rollback(deps, order),
        keys_descending(plan, order),
        plan.to_multiset() == deps.to_multiset(),
        plan.len() == deps.len(),
    ensures
        is_rollback_plan(workflow, f, plan),
{
    assert forall|t: TaskId| plan.contains(t) <==> deps.contains(t) by {
        vstd::seq_lib::to_multiset_contains(plan, t);
        vstd::seq_lib::to_multiset_contains(deps, t);
    }
    assert forall|x: Seq<char>| lists_id(plan, x) <==> #[trigger] is_dependent_id(workflow, f, x) by {
        if lists_id(plan, x) {
            let k = choose|k: int| 0 <= k < plan.len() && #[trigger] plan[k]@ == x;
            assert(plan.contains(plan[k]));
            assert(deps.contains(plan[k]));
            let i = choose|i: int| 0 <= i < deps.len() && deps[i] == plan[k];
            assert(deps[i]@ == x);
            assert(lists_id(deps, x));
        }
        if is_dependent_id(workflow, f, x) {
            assert(lists_id(deps, x));
            let k = choose|k: int| 0 <= k < deps.len() && #[trigger] deps[k]@ == x;
            assert(deps.contains(deps[k]));
            assert(plan.contains(deps[k]));
            let i = choose|i: int| 0 <= i < plan.len() && plan[i] == deps[k];
            assert(plan[i]@ == x);
        }
    }
    assert(distinct_ids(plan)) by {
        assert forall|i: int, k: int| 0 <= i < plan.len() && 0 <= k < plan.len() && i != k implies #[trigger] plan[i]@
            != #[trigger] plan[k]@ by {
            lemma_distinct_positions(plan, deps, i, k);
        }
    }
    let ord = choose|ord: Seq<nat>|
        is_topo_order(workflow.nodes().len(), workflow.edges(), ord) && #[trigger] ids_along(workflow.nodes(), ord, order);
    assert forall|i: int, k: int| 0 <= i < k < plan.len() implies rollback_key(order, #[trigger] plan[i]@) > rollback_key(
        order,
        #[trigger] plan[k]@,
    ) by {
        assert(rollback_key(order, plan[i]@) >= rollback_key(order, plan[k]@));
        assert(plan[i]@ != plan[k]@);
        // both are identifiers of tasks, so the order lists both
        lemma_dependent_is_listed(workflow, f, order, ord, plan[i]@);
        lemma_dependent_is_listed(workflow, f, order, ord, plan[k]@);
        lemma_last_pos(order, plan[i]@);
        lemma_last_pos(order, plan[k]@);
    }
}

/// Two entries of a permutation of a list without repeated identifiers differ.
proof fn lemma_distinct_positions(plan: Seq<TaskId>, deps: Seq<TaskId>, i: int, k: int)
    requires
        distinct_ids(deps),
        plan.to_multiset() == deps.to_multiset(),
        0 <= i < plan.len(),
        0 <= k < plan.len(),
        i != k,
    ensures
        plan[i]@ != plan[k]@,
{
    broadcast use vstd::multiset::group_multiset_properties;
    broadcast use vstd::seq_lib::group_seq_properties;
    if plan[i]@ == plan[k]@ {
        assert(plan.contains(plan[i]));
        assert(plan.contains(plan[k]));
        vstd::seq_lib::to_multiset_contains(plan, plan[i]);
        vstd::seq_lib::to_multiset_contains(deps, plan[i]);
        vstd::seq_lib::to_multiset_contains(plan, plan[k]);
        vstd::seq_lib::to_multiset_contains(deps, plan[k]);
        assert(deps.contains(plan[i]));
        assert(deps.contains(plan[k]));
        let a = choose|a: int| 0 <= a < deps.len() && deps[a] == plan[i];
        let b = choose|b: int| 0 <= b < deps.len() && deps[b] == plan[k];
        if a == b {
            assert(plan[i] == plan[k]);
            lemma_count_two(plan, i, k);
            assert(deps.to_multiset().count(plan[i]) >= 2);
            lemma_count_one(deps, a);
        } else {
            assert(deps[a]@ != deps[b]@);
        }
    }
}

/// An element at two positions occurs at least twice.
proof fn lemma_count_two(s: Seq<TaskId>, i: int, k: int)
    requires
        0 <= i < s.len(),
        0 <= k < s.len(),
        i != k,
        s[i] == s[k],
    ensures
        s.to_multiset().count(s[i]) >= 2,
    decreases s.len(),
{
    broadcast use vstd::seq_lib::group_seq_properties;
    broadcast use vstd::multiset::group_multiset_properties;
    let d = s.drop_last();
    assert(s =~= d.push(s.last()));
    if i == s.len() - 1 {
        assert(d.contains(s[k])) by {
            assert(d[k] == s[k]);
        }
        assert(d.to_multiset().count(s[i]) >= 1);
    } else if k == s.len() - 1 {
        assert(d.contains(s[i])) by {
            assert(d[i] == s[i]);
        }
        assert(d.to_multiset().count(s[i]) >= 1);
    } else {
        assert(d[i] == s[i] && d[k] == s[k]);
        lemma_count_two(d, i, k);
    }
}

/// An element of a list without repeated identifiers occurs once.
proof fn lemma_count_one(s: Seq<TaskId>, a: int)
    requires
        distinct_ids(s),
        0 <= a < s.len(),
    ensures
        s.to_multiset().count(s[a]) == 1,
    decreases s.len(),
{
    broadcast use vstd::seq_lib::group_seq_properties;
    broadcast use vstd::multiset::group_multiset_properties;
    let d = s.drop_last();
    assert(s =~= d.push(s.last()));
    assert(distinct_ids(d)) by {
        assert forall|i: int, k: int| 0 <= i < d.len() && 0 <= k < d.len() && i != k implies #[trigger] d[i]@
            != #[trigger] d[k]@ by {
            assert(d[i] == s[i] && d[k] == s[k]);
        }
    }
    if a == s.len() - 1 {
        assert(!d.contains(s[a])) by {
            if d.contains(s[a]) {
                let i = choose|i: int| 0 <= i < d.len() && d[i] == s[a];
                assert(s[i] == d[i]);
                assert(s[i]@ == s[a]@);
            }
        }
    } else {
        assert(d[a] == s[a]);
        lemma_count_one(d, a);
        assert(s.last() != s[a]) by {
            assert(s[s.len() - 1]@ != s[a]@);
        }
    }
}

/// Every dependent task is listed by the execution order.
proof fn lemma_dependent_is_listed(workflow: &Workflow, f: nat, order: Seq<TaskId>, ord: Seq<nat>, x: Seq<char>)
    requires
        is_topo_order(workflow.nodes().len(), workflow.edges(), ord),
        ids_along(workflow.nodes(), ord, order),
        is_dependent_id(workflow, f, x),
    ensures
        last_pos(order, x) >= 0,
{
    let j = choose|j: nat| j < workflow.nodes().len() && #[trigger] reaches(workflow.edges(), f, j) && workflow.nodes()[j as int].id@ == x;
    crate::graph::lemma_topo_covers(workflow.nodes().len(), workflow.edges(), ord, j);
    let i = choose|i: int| 0 <= i < ord.len() && ord[i] == j;
    assert(order[i]@ == x);
    lemma_last_pos(order, x);
}

} // verus!
