//! Fluent construction of workflows: collect tasks and dependencies, then
//! build a workflow from them, checking that every dependency names known
//! tasks and that no dependency closes a cycle.

use crate::dag::{last_index_of, lemma_last_index_of, TaskNode, Workflow, WorkflowError};
use crate::graph::is_acyclic;
use crate::task::TaskId;
use vstd::prelude::*;

verus! {

/// `t` added to `tasks`: it replaces the task with its identifier, or comes last.
pub open spec fn insert_task(tasks: Seq<TaskNode>, t: TaskNode) -> Seq<TaskNode> {
    if last_index_of(tasks, t.id@) >= 0 {
        tasks.update(last_index_of(tasks, t.id@), t)
    } else {
        tasks.push(t)
    }
}

/// The edge a dependency `(from, to)` becomes among `nodes`.
pub open spec fn dep_edge(nodes: Seq<TaskNode>, d: (Seq<char>, Seq<char>)) -> (nat, nat) {
    (last_index_of(nodes, d.0) as nat, last_index_of(nodes, d.1) as nat)
}

/// The edges the dependencies become among `nodes`, in order.
pub open spec fn dep_edges(nodes: Seq<TaskNode>, deps: Seq<(Seq<char>, Seq<char>)>) -> Seq<(nat, nat)> {
    deps.map_values(|d: (Seq<char>, Seq<char>)| dep_edge(nodes, d))
}

/// The first `k` dependencies name tasks among `nodes`, and adding them one
/// by one never closes a cycle.
pub open spec fn deps_ok_upto(nodes: Seq<TaskNode>, deps: Seq<(Seq<char>, Seq<char>)>, k: int) -> bool {
    forall|j: int|
        0 <= j < k ==> {
            &&& last_index_of(nodes, (#[trigger] deps[j]).0) >= 0
            &&& last_index_of(nodes, deps[j].1) >= 0
            &&& is_acyclic(dep_edges(nodes, deps.subrange(0, j + 1)))
        }
}

/// The outcome building from `nodes` and `deps` has when `nodes` is not
/// empty: dependency `k` is the first to fail, and `r` is its error.
pub open spec fn fails_at(
    nodes: Seq<TaskNode>,
    deps: Seq<(Seq<char>, Seq<char>)>,
    k: int,
    r: Result<Workflow, WorkflowError>,
) -> bool {
    &&& last_index_of(nodes, deps[k].0) < 0 ==> (r matches Err(WorkflowError::TaskNotFound(x)) && x@ == deps[k].0)
    &&& last_index_of(nodes, deps[k].0) >= 0 && last_index_of(nodes, deps[k].1) < 0 ==> (r matches Err(
        WorkflowError::TaskNotFound(x),
    ) && x@ == deps[k].1)
    &&& last_index_of(nodes, deps[k].0) >= 0 && last_index_of(nodes, deps[k].1) >= 0 ==> (r matches Err(
        WorkflowError::CycleDetected(_),
    ))
}

/// What building a workflow from `nodes` and `deps` gives: an empty-workflow
/// error without tasks; otherwise the error of the first dependency that
/// names an unknown task or closes a cycle; otherwise the workflow of the
/// tasks with one edge per dependency.
pub open spec fn builds(nodes: Seq<TaskNode>, deps: Seq<(Seq<char>, Seq<char>)>, r: Result<Workflow, WorkflowError>) -> bool {
    &&& nodes.len() == 0 ==> (r matches Err(WorkflowError::EmptyWorkflow))
    &&& nodes.len() > 0 && deps_ok_upto(nodes, deps, deps.len() as int) ==> (r matches Ok(w) && w.wf() && w.nodes()
        == nodes && w.edges() == dep_edges(nodes, deps))
    &&& forall|k: int|
        0 <= k < deps.len() && nodes.len() > 0 && deps_ok_upto(nodes, deps, k) && !deps_ok_upto(nodes, deps, k + 1)
            ==> #[trigger] fails_at(nodes, deps, k, r)
    &&& r is Ok <==> nodes.len() > 0 && deps_ok_upto(nodes, deps, deps.len() as int)
}

/// No two tasks share an identifier.
pub open spec fn distinct_task_ids(tasks: Seq<TaskNode>) -> bool {
    forall|i: int, k: int| 0 <= i < tasks.len() && 0 <= k < tasks.len() && i != k ==> #[trigger] tasks[i].id@ != #[trigger] tasks[k].id@
}

/// Builder collecting tasks and dependencies for a workflow.
pub struct WorkflowBuilder {
    tasks: Vec<TaskNode>,
    dependencies: Vec<(TaskId, TaskId)>,
}

impl Default for WorkflowBuilder {
    fn default() -> (r: WorkflowBuilder)
        ensures
            r.spec_tasks().len() == 0,
            r.spec_deps().len() == 0,
    {
        WorkflowBuilder::new()
    }
}

impl WorkflowBuilder {
    /// The tasks collected, each identifier once.
    pub closed spec fn spec_tasks(&self) -> Seq<TaskNode> {
        self.tasks@
    }

    /// The dependencies collected, as `(from, to)` identifier texts.
    pub closed spec fn spec_deps(&self) -> Seq<(Seq<char>, Seq<char>)> {
        self.dependencies@.map_values(|d: (TaskId, TaskId)| (d.0@, d.1@))
    }

    /// Creates an empty builder.
    pub fn new() -> (r: WorkflowBuilder)
        ensures
            r.spec_tasks().len() == 0,
            r.spec_deps().len() == 0,
    {
        let r = WorkflowBuilder { tasks: Vec::new(), dependencies: Vec::new() };
        assert(r.spec_deps() =~= Seq::empty());
        r
    }

    /// Adds a task; it replaces a task added before with the same identifier.
    pub fn add_task(self, task: TaskNode) -> (r: WorkflowBuilder)
        requires
            distinct_task_ids(self.spec_tasks()),
        ensures
            distinct_task_ids(r.spec_tasks()),
            r.spec_tasks() == insert_task(self.spec_tasks(), task),
            r.spec_deps() == self.spec_deps(),
    {
        let ghost t0 = self.tasks@;
        proof {
            lemma_last_index_of(t0, task.id@);
        }
        let mut s = self;
        let mut i: usize = 0;
        let mut found: Option<usize> = None;
        while i < s.tasks.len()
            invariant
                i <= s.tasks@.len(),
                s.tasks@ == t0,
                found matches Some(k) ==> k < i && t0[k as int].id@ == task.id@,
                found is None ==> forall|j: int| 0 <= j < i ==> #[trigger] t0[j].id@ != task.id@,
            decreases s.tasks@.len() - i,
        {
            if s.tasks[i].id == task.id {
                found = Some(i);
            }
            i = i + 1;
        }
        match found {
            Some(k) => {
                proof {
                    assert(k as int == last_index_of(t0, task.id@)) by {
                        if (k as int) < last_index_of(t0, task.id@) {
                            let l = last_index_of(t0, task.id@);
                            assert(t0[l].id@ == task.id@);
                        } else if (k as int) > last_index_of(t0, task.id@) {
                        }
                    }
                }
                s.tasks.set(k, task);
                proof {
                    assert forall|a: int, b: int|
                        0 <= a < s.tasks@.len() && 0 <= b < s.tasks@.len() && a != b implies #[trigger] s.tasks@[a].id@
                        != #[trigger] s.tasks@[b].id@ by {
                        if a != k && b != k {
                            assert(s.tasks@[a] == t0[a] && s.tasks@[b] == t0[b]);
                        } else if a == k {
                            assert(s.tasks@[b] == t0[b]);
                            assert(t0[k as int].id@ != t0[b].id@);
                        } else {
                            assert(s.tasks@[a] == t0[a]);
                            assert(t0[k as int].id@ != t0[a].id@);
                        }
                    }
                }
            },
            None => {
                s.tasks.push(task);
                proof {
                    assert forall|a: int, b: int|
                        0 <= a < s.tasks@.len() && 0 <= b < s.tasks@.len() && a != b implies #[trigger] s.tasks@[a].id@
                        != #[trigger] s.tasks@[b].id@ by {
                        if a < t0.len() && b < t0.len() {
                            assert(s.tasks@[a] == t0[a] && s.tasks@[b] == t0[b]);
                        } else if a < t0.len() {
                            assert(s.tasks@[a] == t0[a]);
                        } else {
                            assert(s.tasks@[b] == t0[b]);
                        }
                    }
                }
            },
        }
        s
    }

    /// Adds the dependency "`to` runs after `from`"; it is checked when building.
    pub fn dependency(self, from: TaskId, to: TaskId) -> (r: WorkflowBuilder)
        ensures
            r.spec_tasks() == self.spec_tasks(),
            r.spec_deps() == self.spec_deps().push((from@, to@)),
    {
        let ghost d0 = self.dependencies@;
        let mut s = self;
        s.dependencies.push((from, to));
        proof {
            assert(s.spec_deps() =~= d0.map_values(|d: (TaskId, TaskId)| (d.0@, d.1@)).push((from@, to@)));
        }
        s
    }

    /// Builds the workflow (see `builds`).
    pub fn build(self) -> (r: Result<Workflow, WorkflowError>)
        requires
            self.spec_tasks().len() < u32::MAX,
            self.spec_deps().len() < u32::MAX,
        ensures
            builds(self.spec_tasks(), self.spec_deps(), r),
    {
        let ghost nodes = self.spec_tasks();
        let ghost deps = self.spec_deps();
        if self.tasks.len() == 0 {
            proof {
                assert forall|k: int|
                    0 <= k < deps.len() && nodes.len() > 0 && deps_ok_upto(nodes, deps, k) && !deps_ok_upto(nodes, deps, k + 1)
                        implies #[trigger] fails_at(nodes, deps, k, Err(WorkflowError::EmptyWorkflow)) by {
                }
            }
            return Err(WorkflowError::EmptyWorkflow);
        }
        let WorkflowBuilder { tasks, dependencies } = self;
        let mut w = Workflow::new();
        let mut rest = tasks;
        let mut reversed: Vec<TaskNode> = Vec::new();
        while rest.len() > 0
            invariant
                reversed@.len() + rest@.len() == nodes.len(),
                forall|t: int| 0 <= t < reversed@.len() ==> #[trigger] reversed@[t] == nodes[nodes.len() - 1 - t],
                forall|t: int| 0 <= t < rest@.len() ==> #[trigger] rest@[t] == nodes[t],
            decreases rest@.len(),
        {
            let t = rest.pop().unwrap();
            reversed.push(t);
        }
        let mut done: usize = 0;
        while reversed.len() > 0
            invariant
                done + reversed@.len() == nodes.len(),
                nodes.len() < u32::MAX,
                forall|t: int| 0 <= t < reversed@.len() ==> #[trigger] reversed@[t] == nodes[nodes.len() - 1 - t],
                w.wf(),
                w.nodes() == nodes.subrange(0, done as int),
                w.edges() == Seq::<(nat, nat)>::empty(),
            decreases reversed@.len(),
        {
            let t = reversed.pop().unwrap();
            proof {
                assert(t == nodes[done as int]);
                assert(nodes.subrange(0, done + 1) =~= nodes.subrange(0, done as int).push(t));
            }
            w.add_task(t);
            done = done + 1;
        }
        proof {
            assert(nodes.subrange(0, done as int) =~= nodes);
        }
        let mut drest = dependencies;
        let mut dreversed: Vec<(TaskId, TaskId)> = Vec::new();
        let ghost draw = drest@;
        while drest.len() > 0
            invariant
                dreversed@.len() + drest@.len() == draw.len(),
                forall|t: int| 0 <= t < dreversed@.len() ==> #[trigger] dreversed@[t] == draw[draw.len() - 1 - t],
                forall|t: int| 0 <= t < drest@.len() ==> #[trigger] drest@[t] == draw[t],
            decreases drest@.len(),
        {
            let d = drest.pop().unwrap();
            dreversed.push(d);
        }
        let mut k: usize = 0;
        assert(deps == draw.map_values(|d: (TaskId, TaskId)| (d.0@, d.1@)));
        assert(dep_edges(nodes, deps.subrange(0, 0)) =~= Seq::<(nat, nat)>::empty());
        while dreversed.len() > 0
            invariant
                k + dreversed@.len() == deps.len(),
                deps.len() < u32::MAX,
                nodes == self.spec_tasks(),
                deps == self.spec_deps(),
                deps == draw.map_values(|d: (TaskId, TaskId)| (d.0@, d.1@)),
                forall|t: int| 0 <= t < dreversed@.len() ==> #[trigger] dreversed@[t] == draw[draw.len() - 1 - t],
                nodes.len() > 0,
                w.wf(),
                w.nodes() == nodes,
                w.edges() == dep_edges(nodes, deps.subrange(0, k as int)),
                deps_ok_upto(nodes, deps, k as int),
            decreases dreversed@.len(),
        {
            let (from, to) = dreversed.pop().unwrap();
            proof {
                assert(deps[k as int] == (from@, to@));
                lemma_last_index_of(nodes, from@);
                lemma_last_index_of(nodes, to@);
                assert(w.has_task(from@) <==> last_index_of(nodes, from@) >= 0) by {
                    if last_index_of(nodes, from@) >= 0 {
                        assert(nodes[last_index_of(nodes, from@)].id@ == from@);
                    }
                }
                assert(w.has_task(to@) <==> last_index_of(nodes, to@) >= 0) by {
                    if last_index_of(nodes, to@) >= 0 {
                        assert(nodes[last_index_of(nodes, to@)].id@ == to@);
                    }
                }
                assert(dep_edges(nodes, deps.subrange(0, k + 1)) =~= dep_edges(nodes, deps.subrange(0, k as int)).push(
                    dep_edge(nodes, deps[k as int]),
                ));
                assert(deps_ok_upto(nodes, deps, k + 1) <==> (last_index_of(nodes, from@) >= 0 && last_index_of(
                    nodes,
                    to@,
                ) >= 0 && is_acyclic(dep_edges(nodes, deps.subrange(0, k + 1)))));
            }
            let ghost kk = k as int;
            match w.add_dependency(from, to) {
                Ok(()) => {},
                Err(e) => {
                    proof {
                        let r: Result<Workflow, WorkflowError> = Err(e);
                        assert(fails_at(nodes, deps, kk, r));
                        assert forall|q: int|
                            0 <= q < deps.len() && nodes.len() > 0 && deps_ok_upto(nodes, deps, q) && !deps_ok_upto(
                                nodes,
                                deps,
                                q + 1,
                            ) implies #[trigger] fails_at(nodes, deps, q, r) by {
                            if q < kk {
                                assert(deps_ok_upto(nodes, deps, q + 1));
                            } else if q > kk {
                                assert(deps_ok_upto(nodes, deps, kk + 1));
                            }
                        }
                        assert(!deps_ok_upto(nodes, deps, deps.len() as int));
                    }
                    return Err(e);
                },
            }
            k = k + 1;
        }
        proof {
            assert(deps.subrange(0, k as int) =~= deps);
            assert forall|q: int|
                0 <= q < deps.len() && nodes.len() > 0 && deps_ok_upto(nodes, deps, q) && !deps_ok_upto(nodes, deps, q + 1)
                    implies #[trigger] fails_at(nodes, deps, q, Ok(w)) by {
                assert(deps_ok_upto(nodes, deps, q + 1));
            }
        }
        Ok(w)
    }

    /// Builds a workflow that runs the tasks one after the other: each task
    /// depends on the one before it (see `sequential_builds`).
    pub fn sequential(tasks: Vec<TaskNode>) -> (r: Result<Workflow, WorkflowError>)
        requires
            tasks@.len() < u32::MAX,
        ensures
            builds(inserted_all(tasks@), chain_deps(tasks@), r),
    {
        let ghost input = tasks@;
        let mut rest = tasks;
        let mut reversed: Vec<TaskNode> = Vec::new();
        while rest.len() > 0
            invariant
                reversed@.len() + rest@.len() == input.len(),
                forall|t: int| 0 <= t < reversed@.len() ==> #[trigger] reversed@[t] == input[input.len() - 1 - t],
                forall|t: int| 0 <= t < rest@.len() ==> #[trigger] rest@[t] == input[t],
            decreases rest@.len(),
        {
            let t = rest.pop().unwrap();
            reversed.push(t);
        }
        let mut builder = WorkflowBuilder::new();
        let mut prev: Option<TaskId> = None;
        let mut done: usize = 0;
        proof {
            assert(inserted_all(input.subrange(0, 0)) =~= Seq::<TaskNode>::empty());
            assert(chain_deps(input.subrange(0, 0)) =~= Seq::empty());
        }
        while reversed.len() > 0
            invariant
                done + reversed@.len() == input.len(),
                input.len() < u32::MAX,
                forall|t: int| 0 <= t < reversed@.len() ==> #[trigger] reversed@[t] == input[input.len() - 1 - t],
                distinct_task_ids(builder.spec_tasks()),
                builder.spec_tasks() == inserted_all(input.subrange(0, done as int)),
                builder.spec_deps() == chain_deps(input.subrange(0, done as int)),
                done == 0 <==> prev is None,
                prev matches Some(p) ==> done > 0 && p@ == input[done - 1].id@,
                builder.spec_tasks().len() <= done,
            decreases reversed@.len(),
        {
            let t = reversed.pop().unwrap();
            let id = t.id.clone();
            let ghost sub0 = input.subrange(0, done as int);
            let ghost sub1 = input.subrange(0, done + 1);
            proof {
                assert(t == input[done as int]);
                assert(sub1 =~= sub0.push(t));
                assert(sub1.drop_last() =~= sub0);
            }
            match prev {
                Some(p) => {
                    builder = builder.dependency(p, id.clone());
                    proof {
                        assert(sub1[sub1.len() - 2] == sub0[done - 1]);
                    }
                },
                None => {},
            }
            prev = Some(id);
            proof {
                lemma_last_index_of(builder.spec_tasks(), t.id@);
            }
            builder = builder.add_task(t);
            done = done + 1;
        }
        proof {
            assert(input.subrange(0, done as int) =~= input);
            lemma_chain_deps_len(input);
            assert(builder.spec_deps().len() < u32::MAX);
        }
        builder.build()
    }
}

/// The tasks a builder holds after adding `s` in order.
pub open spec fn inserted_all(s: Seq<TaskNode>) -> Seq<TaskNode>
    decreases s.len(),
{
    if s.len() == 0 {
        Seq::empty()
    } else {
        insert_task(inserted_all(s.drop_last()), s.last())
    }
}

/// The dependencies of running `s` in order: each task after the one before it.
pub open spec fn chain_deps(s: Seq<TaskNode>) -> Seq<(Seq<char>, Seq<char>)>
    decreases s.len(),
{
    if s.len() <= 1 {
        Seq::empty()
    } else {
        chain_deps(s.drop_last()).push((s[s.len() - 2].id@, s.last().id@))
    }
}

/// Running `s` in order makes one dependency fewer than there are tasks.
proof fn lemma_chain_deps_len(s: Seq<TaskNode>)
    ensures
        chain_deps(s).len() <= s.len(),
    decreases s.len(),
{
    if s.len() > 1 {
        lemma_chain_deps_len(s.drop_last());
    }
}

} // verus!
