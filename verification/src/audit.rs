//! The audit log of a workflow run: the events of the run, in the order
//! they happened, under the run's transaction identifier.

use crate::checkpoint::{is_uuid_v4, uuid_text, CheckpointId};
use vstd::prelude::*;

verus! {

/// An event of a workflow run.
#[derive(Debug)]
pub enum AuditEvent {
    /// The run started on a workflow of `task_count` tasks
    WorkflowStarted { workflow_id: String, task_count: usize },
    /// A task started
    WorkflowTaskStarted { workflow_id: String, task_id: String, task_name: String },
    /// A task completed
    WorkflowTaskCompleted { workflow_id: String, task_id: String, task_name: String, result: String },
    /// A task failed
    WorkflowTaskFailed { workflow_id: String, task_id: String, task_name: String, error: String },
    /// A task ran past its time limit
    WorkflowTaskTimedOut { workflow_id: String, task_id: String, task_name: String, timeout_secs: u64 },
    /// The run ended, with this many of its tasks completed
    WorkflowCompleted { workflow_id: String, total_tasks: usize, completed_tasks: usize },
    /// The run was cancelled
    WorkflowCancelled { workflow_id: String },
    /// A task was rolled back
    WorkflowTaskRolledBack { workflow_id: String, task_id: String, compensation: String },
    /// The run was rolled back
    WorkflowRolledBack { workflow_id: String, reason: String, rolled_back_tasks: Vec<String> },
    /// A parallel layer started
    WorkflowTaskParallelStarted { workflow_id: String, layer_index: usize, task_count: usize },
    /// A parallel layer finished
    WorkflowTaskParallelCompleted { workflow_id: String, layer_index: usize, task_count: usize },
}

/// An audit event with its texts as character sequences.
pub enum AuditEventView {
    WorkflowStarted { workflow_id: Seq<char>, task_count: nat },
    WorkflowTaskStarted { workflow_id: Seq<char>, task_id: Seq<char>, task_name: Seq<char> },
    WorkflowTaskCompleted { workflow_id: Seq<char>, task_id: Seq<char>, task_name: Seq<char>, result: Seq<char> },
    WorkflowTaskFailed { workflow_id: Seq<char>, task_id: Seq<char>, task_name: Seq<char>, error: Seq<char> },
    WorkflowTaskTimedOut { workflow_id: Seq<char>, task_id: Seq<char>, task_name: Seq<char>, timeout_secs: nat },
    WorkflowCompleted { workflow_id: Seq<char>, total_tasks: nat, completed_tasks: nat },
    WorkflowCancelled { workflow_id: Seq<char> },
    WorkflowTaskRolledBack { workflow_id: Seq<char>, task_id: Seq<char>, compensation: Seq<char> },
    WorkflowRolledBack { workflow_id: Seq<char>, reason: Seq<char>, rolled_back_tasks: Seq<Seq<char>> },
    WorkflowTaskParallelStarted { workflow_id: Seq<char>, layer_index: nat, task_count: nat },
    WorkflowTaskParallelCompleted { workflow_id: Seq<char>, layer_index: nat, task_count: nat },
}

/// The texts of a list of strings.
pub open spec fn strings_view(v: Seq<String>) -> Seq<Seq<char>> {
    v.map_values(|s: String| s@)
}

impl View for AuditEvent {
    type V = AuditEventView;

    open spec fn view(&self) -> AuditEventView {
        match self {
            AuditEvent::WorkflowStarted { workflow_id, task_count } => AuditEventView::WorkflowStarted {
                workflow_id: workflow_id@,
                task_count: *task_count as nat,
            },
            AuditEvent::WorkflowTaskStarted { workflow_id, task_id, task_name } => AuditEventView::WorkflowTaskStarted {
                workflow_id: workflow_id@,
                task_id: task_id@,
                task_name: task_name@,
            },
            AuditEvent::WorkflowTaskCompleted { workflow_id, task_id, task_name, result } =>
                AuditEventView::WorkflowTaskCompleted {
                workflow_id: workflow_id@,
                task_id: task_id@,
                task_name: task_name@,
                result: result@,
            },
            AuditEvent::WorkflowTaskFailed { workflow_id, task_id, task_name, error } => AuditEventView::WorkflowTaskFailed {
                workflow_id: workflow_id@,
                task_id: task_id@,
                task_name: task_name@,
                error: error@,
            },
            AuditEvent::WorkflowTaskTimedOut { workflow_id, task_id, task_name, timeout_secs } =>
                AuditEventView::WorkflowTaskTimedOut {
                workflow_id: workflow_id@,
                task_id: task_id@,
                task_name: task_name@,
                timeout_secs: *timeout_secs as nat,
            },
            AuditEvent::WorkflowCompleted { workflow_id, total_tasks, completed_tasks } =>
                AuditEventView::WorkflowCompleted {
                workflow_id: workflow_id@,
                total_tasks: *total_tasks as nat,
                completed_tasks: *completed_tasks as nat,
            },
            AuditEvent::WorkflowCancelled { workflow_id } => AuditEventView::WorkflowCancelled {
                workflow_id: workflow_id@,
            },
            AuditEvent::WorkflowTaskRolledBack { workflow_id, task_id, compensation } =>
                AuditEventView::WorkflowTaskRolledBack {
                workflow_id: workflow_id@,
                task_id: task_id@,
                compensation: compensation@,
            },
            AuditEvent::WorkflowRolledBack { workflow_id, reason, rolled_back_tasks } =>
                AuditEventView::WorkflowRolledBack {
                workflow_id: workflow_id@,
                reason: reason@,
                rolled_back_tasks: strings_view(rolled_back_tasks@),
            },
            AuditEvent::WorkflowTaskParallelStarted { workflow_id, layer_index, task_count } =>
                AuditEventView::WorkflowTaskParallelStarted {
                workflow_id: workflow_id@,
                layer_index: *layer_index as nat,
                task_count: *task_count as nat,
            },
            AuditEvent::WorkflowTaskParallelCompleted { workflow_id, layer_index, task_count } =>
                AuditEventView::WorkflowTaskParallelCompleted {
                workflow_id: workflow_id@,
                layer_index: *layer_index as nat,
                task_count: *task_count as nat,
            },
        }
    }
}

/// The events of a list, as views.
pub open spec fn events_view(v: Seq<AuditEvent>) -> Seq<AuditEventView> {
    v.map_values(|e: AuditEvent| e@)
}

/// The audit log of one run: its transaction identifier and its events.
pub struct AuditLog {
    tx_id: String,
    events: Vec<AuditEvent>,
}

impl AuditLog {
    /// The run's transaction identifier.
    pub closed spec fn tx(&self) -> Seq<char> {
        self.tx_id@
    }

    /// The recorded events, in order.
    pub closed spec fn entries(&self) -> Seq<AuditEventView> {
        events_view(self.events@)
    }

    /// An empty log under a fresh identifier: the text of a random version-4 UUID.
    pub fn new() -> (r: AuditLog)
        ensures
            r.entries().len() == 0,
            exists|v: u128| is_uuid_v4(v) && r.tx() == uuid_text(v),
    {
        let id = CheckpointId::new();
        let tx_id = id.to_display_string();
        let r = AuditLog { tx_id, events: Vec::new() };
        assert(r.entries() =~= Seq::<AuditEventView>::empty());
        r
    }

    /// The run's transaction identifier.
    pub fn tx_id(&self) -> (r: &String)
        ensures
            r@ == self.tx(),
    {
        &self.tx_id
    }

    /// Appends an event.
    pub fn record(&mut self, event: AuditEvent)
        ensures
            final(self).entries() == old(self).entries().push(event@),
            final(self).tx() == old(self).tx(),
    {
        let ghost before = self.events@;
        self.events.push(event);
        assert(events_view(self.events@) =~= events_view(before).push(self.events@.last()@));
    }

    /// The recorded events, in order.
    pub fn replay(&self) -> (r: &Vec<AuditEvent>)
        ensures
            events_view(r@) == self.entries(),
    {
        &self.events
    }

    /// How many events were recorded.
    pub fn len(&self) -> (r: usize)
        ensures
            r == self.entries().len(),
    {
        self.events.len()
    }
}

} // verus!
