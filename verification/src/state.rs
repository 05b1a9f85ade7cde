//! Workflow state inspection: task and workflow status, task summaries and
//! snapshots of a workflow's progress, and a lock-protected shared state for
//! parallel execution.

use std::sync::{Arc, RwLock, RwLockReadGuard, RwLockWriteGuard};
use vstd::prelude::*;

verus! {

#[verifier::external_type_specification]
#[verifier::external_body]
#[verifier::reject_recursive_types(T)]
pub struct ExRwLock<T: ?Sized>(RwLock<T>);

#[verifier::external_type_specification]
#[verifier::external_body]
#[verifier::reject_recursive_types(T)]
pub struct ExRwLockReadGuard<'a, T: ?Sized>(RwLockReadGuard<'a, T>);

#[verifier::external_type_specification]
#[verifier::external_body]
#[verifier::reject_recursive_types(T)]
pub struct ExRwLockWriteGuard<'a, T: ?Sized + 'a>(RwLockWriteGuard<'a, T>);

/// Status of a workflow execution.
#[derive(Clone, Copy, Debug, PartialEq, Eq, Structural)]
pub enum WorkflowStatus {
    /// Workflow is pending execution
    Pending,
    /// Workflow is currently running
    Running,
    /// Workflow completed successfully
    Completed,
    /// Workflow failed
    Failed,
    /// Workflow was rolled back
    RolledBack,
}

/// Status of an individual task.
#[derive(Clone, Copy, Debug, PartialEq, Eq, Structural)]
pub enum TaskStatus {
    /// Task is pending execution
    Pending,
    /// Task is currently running
    Running,
    /// Task completed successfully
    Completed,
    /// Task failed
    Failed,
    /// Task was skipped
    Skipped,
}

impl TaskStatus {
    /// The status a task ends in after a parallel run: completed on
    /// success, failed otherwise.
    pub fn from_parallel_result(success: bool) -> (r: TaskStatus)
        ensures
            success ==> r == TaskStatus::Completed,
            !success ==> r == TaskStatus::Failed,
    {
        if success {
            TaskStatus::Completed
        } else {
            TaskStatus::Failed
        }
    }
}

/// Summary of a task's state.
#[derive(Clone, Debug)]
pub struct TaskSummary {
    /// Task identifier
    pub id: String,
    /// Task name
    pub name: String,
    /// Current task status
    pub status: TaskStatus,
}

impl TaskSummary {
    /// Creates a new task summary.
    pub fn new(id: &str, name: &str, status: TaskStatus) -> (r: TaskSummary)
        ensures
            r.id@ == id@,
            r.name@ == name@,
            r.status == status,
    {
        TaskSummary { id: id.to_string(), name: name.to_string(), status }
    }
}

/// Snapshot of workflow execution state: the workflow's status and the
/// completed, pending and failed tasks.
#[derive(Clone, Debug)]
pub struct WorkflowState {
    /// Workflow identifier
    pub workflow_id: String,
    /// Current workflow status
    pub status: WorkflowStatus,
    /// Currently executing task (if any)
    pub current_task: Option<TaskSummary>,
    /// Tasks that have completed
    pub completed_tasks: Vec<TaskSummary>,
    /// Tasks that are pending execution
    pub pending_tasks: Vec<TaskSummary>,
    /// Tasks that have failed
    pub failed_tasks: Vec<TaskSummary>,
}

impl WorkflowState {
    /// Creates a pending state with no tasks listed.
    pub fn new(workflow_id: &str) -> (r: WorkflowState)
        ensures
            r.workflow_id@ == workflow_id@,
            r.status == WorkflowStatus::Pending,
            r.current_task is None,
            r.completed_tasks@.len() == 0,
            r.pending_tasks@.len() == 0,
            r.failed_tasks@.len() == 0,
    {
        WorkflowState {
            workflow_id: workflow_id.to_string(),
            status: WorkflowStatus::Pending,
            current_task: None,
            completed_tasks: Vec::new(),
            pending_tasks: Vec::new(),
            failed_tasks: Vec::new(),
        }
    }

    /// Sets the workflow status.
    pub fn with_status(self, status: WorkflowStatus) -> (r: WorkflowState)
        ensures
            r == (WorkflowState { status, ..self }),
    {
        let mut s = self;
        s.status = status;
        s
    }

    /// Appends a completed task.
    pub fn with_completed_task(self, task: TaskSummary) -> (r: WorkflowState)
        ensures
            r.completed_tasks@ == self.completed_tasks@.push(task),
            r.workflow_id == self.workflow_id,
            r.status == self.status,
            r.current_task == self.current_task,
            r.pending_tasks == self.pending_tasks,
            r.failed_tasks == self.failed_tasks,
    {
        let mut s = self;
        s.completed_tasks.push(task);
        s
    }

    /// Appends a pending task.
    pub fn with_pending_task(self, task: TaskSummary) -> (r: WorkflowState)
        ensures
            r.pending_tasks@ == self.pending_tasks@.push(task),
            r.workflow_id == self.workflow_id,
            r.status == self.status,
            r.current_task == self.current_task,
            r.completed_tasks == self.completed_tasks,
            r.failed_tasks == self.failed_tasks,
    {
        let mut s = self;
        s.pending_tasks.push(task);
        s
    }

    /// Appends a failed task.
    pub fn with_failed_task(self, task: TaskSummary) -> (r: WorkflowState)
        ensures
            r.failed_tasks@ == self.failed_tasks@.push(task),
            r.workflow_id == self.workflow_id,
            r.status == self.status,
            r.current_task == self.current_task,
            r.completed_tasks == self.completed_tasks,
            r.pending_tasks == self.pending_tasks,
    {
        let mut s = self;
        s.failed_tasks.push(task);
        s
    }

    /// Sets the current task.
    pub fn with_current_task(self, task: TaskSummary) -> (r: WorkflowState)
        ensures
            r == (WorkflowState { current_task: Some(task), ..self }),
    {
        let mut s = self;
        s.current_task = Some(task);
        s
    }
}

/// A workflow state shared between threads behind a reader-writer lock:
/// any number of concurrent readers, one writer at a time. Clones share
/// the same state.
#[derive(Clone)]
pub struct ConcurrentState {
    inner: Arc<RwLock<WorkflowState>>,
}

/// `RwLock::new`: an unlocked lock holding `state`.
#[verifier::external_body]
fn lock_new(state: WorkflowState) -> (r: RwLock<WorkflowState>) {
    RwLock::new(state)
}

/// `RwLock::try_read`: shared access if it is available right now, with the
/// error (held elsewhere, or poisoned) turned into `None`. Not stated.
#[verifier::external_body]
fn lock_try_read(lock: &RwLock<WorkflowState>) -> (r: Option<RwLockReadGuard<'_, WorkflowState>>) {
    lock.try_read().ok()
}

/// `RwLock::try_write`: exclusive access if it is available right now, with
/// the error turned into `None`. Not stated.
#[verifier::external_body]
fn lock_try_write(lock: &RwLock<WorkflowState>) -> (r: Option<RwLockWriteGuard<'_, WorkflowState>>) {
    lock.try_write().ok()
}

/// `Arc::strong_count`: the number of `Arc`s sharing the allocation, which
/// includes the one passed in. How many others exist is not stated.
#[verifier::external_body]
fn arc_strong_count(a: &Arc<RwLock<WorkflowState>>) -> (r: usize)
    ensures
        r >= 1,
{
    Arc::strong_count(a)
}

impl ConcurrentState {
    /// The shared lock.
    pub closed spec fn spec_lock(&self) -> Arc<RwLock<WorkflowState>> {
        self.inner
    }

    /// Wraps a workflow state for shared access.
    pub fn new(state: WorkflowState) -> (r: ConcurrentState) {
        ConcurrentState { inner: Arc::new(lock_new(state)) }
    }

    /// The shared lock itself. Blocking `read` and `write` on it may panic
    /// or deadlock when the calling thread already holds it, so they are
    /// left to the caller.
    pub fn shared(&self) -> (r: &Arc<RwLock<WorkflowState>>)
        ensures
            *r == self.spec_lock(),
    {
        &self.inner
    }

    /// Acquires read access if that is possible without waiting.
    pub fn try_read(&self) -> (r: Option<RwLockReadGuard<'_, WorkflowState>>) {
        lock_try_read(&self.inner)
    }

    /// Acquires write access if that is possible without waiting.
    pub fn try_write(&self) -> (r: Option<RwLockWriteGuard<'_, WorkflowState>>) {
        lock_try_write(&self.inner)
    }

    /// The number of handles sharing this state (at least this one).
    pub fn ref_count(&self) -> (r: usize)
        ensures
            r >= 1,
    {
        arc_strong_count(&self.inner)
    }
}

} // verus!
