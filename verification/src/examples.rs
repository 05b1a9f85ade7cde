//! Example tasks that cooperate with cancellation, and an example workflow
//! made of them.

use crate::dag::{TaskNode, Workflow};
use crate::graph::lemma_forward_edges_acyclic;
use crate::task::TaskId;
use vstd::prelude::*;

verus! {

/// A task that works in a number of iterations, waiting between them, and
/// checks for cancellation before each one.
pub struct CancellationAwareTask {
    id: TaskId,
    name: String,
    iterations: usize,
    delay_ms: u64,
}

impl CancellationAwareTask {
    /// The task's identifier.
    pub closed spec fn spec_id(&self) -> TaskId {
        self.id
    }

    /// The task's name.
    pub closed spec fn spec_name(&self) -> String {
        self.name
    }

    /// How many iterations make up the work.
    pub closed spec fn spec_iterations(&self) -> usize {
        self.iterations
    }

    /// The wait between iterations, in milliseconds.
    pub closed spec fn spec_delay_ms(&self) -> u64 {
        self.delay_ms
    }

    /// Creates a cancellation-aware task.
    pub fn new(id: TaskId, name: String, iterations: usize, delay_ms: u64) -> (r: CancellationAwareTask)
        ensures
            r.spec_id() == id,
            r.spec_name() == name,
            r.spec_iterations() == iterations,
            r.spec_delay_ms() == delay_ms,
    {
        CancellationAwareTask { id, name, iterations, delay_ms }
    }

    /// The task's identifier.
    pub fn id(&self) -> (r: TaskId)
        ensures
            r@ == self.spec_id()@,
    {
        self.id.clone()
    }

    /// The task's name.
    pub fn name(&self) -> (r: &str)
        ensures
            r@ == self.spec_name()@,
    {
        self.name.as_str()
    }

    /// The wait between iterations, in milliseconds.
    pub fn delay_ms(&self) -> (r: u64)
        ensures
            r == self.spec_delay_ms(),
    {
        self.delay_ms
    }

    /// Whether another iteration runs after `completed` of them, given
    /// whether cancellation was requested: only while work remains and no
    /// cancellation was seen.
    pub fn runs_another_iteration(&self, completed: usize, cancelled: bool) -> (r: bool)
        ensures
            r == (completed < self.spec_iterations() && !cancelled),
    {
        completed < self.iterations && !cancelled
    }
}

/// A task that works for a fixed time unless cancelled first.
pub struct PollingTask {
    id: TaskId,
    name: String,
    total_duration_ms: u64,
}

impl PollingTask {
    /// The task's identifier.
    pub closed spec fn spec_id(&self) -> TaskId {
        self.id
    }

    /// The task's name.
    pub closed spec fn spec_name(&self) -> String {
        self.name
    }

    /// How long the work takes, in milliseconds.
    pub closed spec fn spec_total_duration_ms(&self) -> u64 {
        self.total_duration_ms
    }

    /// Creates a polling task.
    pub fn new(id: TaskId, name: String, total_duration_ms: u64) -> (r: PollingTask)
        ensures
            r.spec_id() == id,
            r.spec_name() == name,
            r.spec_total_duration_ms() == total_duration_ms,
    {
        PollingTask { id, name, total_duration_ms }
    }

    /// The task's identifier.
    pub fn id(&self) -> (r: TaskId)
        ensures
            r@ == self.spec_id()@,
    {
        self.id.clone()
    }

    /// The task's name.
    pub fn name(&self) -> (r: &str)
        ensures
            r@ == self.spec_name()@,
    {
        self.name.as_str()
    }

    /// How long the work takes, in milliseconds.
    pub fn total_duration_ms(&self) -> (r: u64)
        ensures
            r == self.spec_total_duration_ms(),
    {
        self.total_duration_ms
    }
}

/// A workflow of three cancellation-aware tasks `task1`, `task2`, `task3`
/// that run one after the other.
pub fn cooperative_cancellation_example() -> (r: Workflow)
    ensures
        r.wf(),
        r.nodes().len() == 3,
        r.nodes()[0].id@ == "task1"@,
        r.nodes()[1].id@ == "task2"@,
        r.nodes()[2].id@ == "task3"@,
        r.edges() == seq![(0nat, 1nat), (1nat, 2nat)],
{
    proof {
        reveal_strlit("task1");
        reveal_strlit("task2");
        reveal_strlit("task3");
    }
    let mut w = Workflow::new();
    w.add_task(TaskNode::new("task1", "Cancellation Aware Task 1"));
    w.add_task(TaskNode::new("task2", "Cancellation Aware Task 2"));
    w.add_task(TaskNode::new("task3", "Cancellation Aware Task 3"));
    proof {
        assert(w.nodes()[0].id@ == "task1"@);
        assert(w.nodes()[1].id@ == "task2"@);
        assert(w.nodes()[2].id@ == "task3"@);
        assert(w.has_task("task1"@));
        assert(w.has_task("task2"@));
        assert(w.has_task("task3"@));
        assert("task1"@[4] != "task2"@[4]);
        assert("task1"@[4] != "task3"@[4]);
        assert("task2"@[4] != "task3"@[4]);
        assert("task1"@ != "task2"@);
        assert("task1"@ != "task3"@);
        assert("task2"@ != "task3"@);
        crate::dag::lemma_last_index_of(w.nodes(), "task1"@);
        crate::dag::lemma_last_index_of(w.nodes(), "task2"@);
        crate::dag::lemma_last_index_of(w.nodes(), "task3"@);
        assert(w.index_of("task1"@) == 0);
        assert(w.index_of("task2"@) == 1);
        assert(w.index_of("task3"@) == 2);
        lemma_forward_edges_acyclic(seq![(0nat, 1nat)]);
        lemma_forward_edges_acyclic(seq![(0nat, 1nat), (1nat, 2nat)]);
        assert(seq![(0nat, 1nat)] =~= Seq::<(nat, nat)>::empty().push((0nat, 1nat)));
        assert(seq![(0nat, 1nat), (1nat, 2nat)] =~= seq![(0nat, 1nat)].push((1nat, 2nat)));
    }
    let _ = w.add_dependency(TaskId::new("task1"), TaskId::new("task2"));
    let _ = w.add_dependency(TaskId::new("task2"), TaskId::new("task3"));
    w
}

} // verus!
