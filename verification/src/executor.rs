//! Bookkeeping and decisions of the workflow executor.
//!
//! The executor runs a workflow's tasks in execution order, or layer by
//! layer. This module keeps what it has learned (which tasks completed or
//! failed, the checkpoint sequence, the run's audit log), answers what a
//! snapshot of the run looks like, decides what runs next and what a
//! failure rolls back, and records each of these steps as an audit event.
//! Running the tasks and timing them are done by the caller.

use crate::checkpoint::{
    checkpoint_checksum, consistency_error, consistent_with, id_texts, lemma_same_consistency, same_checkpoint, uuid_text,
    validate_workflow_consistency, CheckpointId, WorkflowCheckpoint,
};
use crate::cancellation::{CancellationToken, CancellationTokenSource};
use std::sync::atomic::AtomicBool;
use std::sync::Arc;
use crate::checkpoint_service::{summary_of, WorkflowCheckpointService};
use crate::audit::{strings_view, AuditEvent, AuditEventView, AuditLog};
use crate::deadlock::{DeadlockError, RESOURCE_DEADLOCK_TIMEOUT_SECS};
use crate::text::{decimal_u128, push_decimal};
use crate::dag::{lists_id, workflow_error_text, TimeoutError, Workflow, WorkflowError};
use crate::rollback::{is_dependent_id, is_rollback_plan, RollbackEngine, RollbackReport, RollbackStrategy};
use crate::state::{TaskStatus, TaskSummary, WorkflowState, WorkflowStatus};
use crate::combinators::effective;
use crate::task::{clone_ids, task_error_text, TaskError, TaskId, TaskResult};
use crate::graph::{is_acyclic, reaches};
use vstd::prelude::*;
use vstd::string::StringExecFns;

verus! {

/// Result of a workflow execution.
#[derive(Debug)]
pub struct WorkflowResult {
    /// Whether the workflow completed successfully
    pub success: bool,
    /// Tasks that completed successfully
    pub completed_tasks: Vec<TaskId>,
    /// Tasks that failed
    pub failed_tasks: Vec<TaskId>,
    /// Error message if workflow failed
    pub error: Option<String>,
    /// Rollback report if rollback was executed
    pub rollback_report: Option<RollbackReport>,
}

impl WorkflowResult {
    /// A successful result.
    pub fn new(completed_tasks: Vec<TaskId>) -> (r: WorkflowResult)
        ensures
            r.success,
            r.completed_tasks@ == completed_tasks@,
            r.failed_tasks@.len() == 0,
            r.error is None,
            r.rollback_report is None,
    {
        WorkflowResult {
            success: true,
            completed_tasks,
            failed_tasks: Vec::new(),
            error: None,
            rollback_report: None,
        }
    }

    /// A failed result naming the task that failed.
    pub fn new_failed(completed_tasks: Vec<TaskId>, failed_task: TaskId, error: String) -> (r: WorkflowResult)
        ensures
            !r.success,
            r.completed_tasks@ == completed_tasks@,
            r.failed_tasks@ == seq![failed_task],
            r.error == Some(error),
            r.rollback_report is None,
    {
        let mut failed: Vec<TaskId> = Vec::new();
        failed.push(failed_task);
        WorkflowResult { success: false, completed_tasks, failed_tasks: failed, error: Some(error), rollback_report: None }
    }

    /// A failed result with the report of the rollback that followed.
    pub fn new_failed_with_rollback(
        completed_tasks: Vec<TaskId>,
        failed_task: TaskId,
        error: String,
        rollback_report: RollbackReport,
    ) -> (r: WorkflowResult)
        ensures
            !r.success,
            r.completed_tasks@ == completed_tasks@,
            r.failed_tasks@ == seq![failed_task],
            r.error == Some(error),
            r.rollback_report == Some(rollback_report),
    {
        let mut failed: Vec<TaskId> = Vec::new();
        failed.push(failed_task);
        WorkflowResult {
            success: false,
            completed_tasks,
            failed_tasks: failed,
            error: Some(error),
            rollback_report: Some(rollback_report),
        }
    }

    /// The result of a run stopped by cancellation.
    pub fn new_cancelled(completed_tasks: Vec<TaskId>) -> (r: WorkflowResult)
        ensures
            !r.success,
            r.completed_tasks@ == completed_tasks@,
            r.failed_tasks@.len() == 0,
            r.error matches Some(e) && e@ == "Workflow cancelled"@,
            r.rollback_report is None,
    {
        WorkflowResult {
            success: false,
            completed_tasks,
            failed_tasks: Vec::new(),
            error: Some("Workflow cancelled".to_string()),
            rollback_report: None,
        }
    }
}

/// The status a run reports: pending before anything finished, failed once
/// a task failed, completed once every task completed, running otherwise.
pub open spec fn status_of(completed: nat, failed: nat, tasks: nat) -> WorkflowStatus {
    if failed == 0 && completed == 0 {
        WorkflowStatus::Pending
    } else if failed != 0 {
        WorkflowStatus::Failed
    } else if completed == tasks {
        WorkflowStatus::Completed
    } else {
        WorkflowStatus::Running
    }
}

/// The name shown for identifier `id`: the task's name, or "Unknown".
pub open spec fn name_shown(w: &Workflow, id: Seq<char>) -> Seq<char> {
    if w.has_task(id) {
        w.nodes()[w.index_of(id)].name@
    } else {
        "Unknown"@
    }
}

/// `s` summarizes the task with identifier `id` in status `status`.
pub open spec fn summarizes(w: &Workflow, s: TaskSummary, id: Seq<char>, status: TaskStatus) -> bool {
    &&& s.id@ == id
    &&& s.name@ == name_shown(w, id)
    &&& s.status == status
}

/// `sums` summarizes the identifiers `ids` one for one, in order.
pub open spec fn summarizes_all(w: &Workflow, sums: Seq<TaskSummary>, ids: Seq<TaskId>, status: TaskStatus) -> bool {
    &&& sums.len() == ids.len()
    &&& forall|i: int| 0 <= i < ids.len() ==> summarizes(w, #[trigger] sums[i], ids[i]@, status)
}

/// No identifier occurs twice.
pub open spec fn no_repeated_ids(s: Seq<TaskId>) -> bool {
    forall|i: int, k: int| 0 <= i < s.len() && 0 <= k < s.len() && i != k ==> #[trigger] s[i]@ != #[trigger] s[k]@
}

/// Sequential workflow executor: the workflow, the tasks completed and
/// failed so far, and the rollback and checkpoint settings.
pub struct WorkflowExecutor {
    pub(crate) workflow: Workflow,
    completed_tasks: Vec<TaskId>,
    failed_tasks: Vec<TaskId>,
    rollback_engine: RollbackEngine,
    rollback_strategy: RollbackStrategy,
    checkpoint_service: Option<WorkflowCheckpointService>,
    checkpoint_sequence: u64,
    cancellation_source: Option<CancellationTokenSource>,
    audit_log: AuditLog,
}

impl WorkflowExecutor {
    /// The workflow being run.
    pub closed spec fn spec_workflow(&self) -> &Workflow {
        &self.workflow
    }

    /// The completed tasks, each once, in the order they completed.
    pub closed spec fn completed(&self) -> Seq<TaskId> {
        self.completed_tasks@
    }

    /// The failed tasks, in the order they were recorded.
    pub closed spec fn failed(&self) -> Seq<TaskId> {
        self.failed_tasks@
    }

    /// The strategy applied on failure.
    pub closed spec fn strategy(&self) -> RollbackStrategy {
        self.rollback_strategy
    }

    /// The sequence number the next checkpoint gets.
    pub closed spec fn sequence(&self) -> u64 {
        self.checkpoint_sequence
    }

    /// The events the run recorded, in order.
    pub closed spec fn audit(&self) -> Seq<AuditEventView> {
        self.audit_log.entries()
    }

    /// The run's transaction identifier, under which its events are recorded.
    pub closed spec fn run_id(&self) -> Seq<char> {
        self.audit_log.tx()
    }

    /// `self` holds the same run as `other`: the same workflow, progress,
    /// settings and run identifier (its events aside).
    pub open spec fn same_run(&self, other: &WorkflowExecutor) -> bool {
        &&& self.spec_workflow() == other.spec_workflow()
        &&& self.completed() == other.completed()
        &&& self.failed() == other.failed()
        &&& self.strategy() == other.strategy()
        &&& self.sequence() == other.sequence()
        &&& self.service() == other.service()
        &&& self.cancellable() == other.cancellable()
        &&& self.cancellation_flag() == other.cancellation_flag()
        &&& self.run_id() == other.run_id()
    }

    /// Where checkpoints are stored, if anywhere.
    pub closed spec fn service(&self) -> Option<WorkflowCheckpointService> {
        self.checkpoint_service
    }

    /// Whether a cancellation source is configured.
    pub closed spec fn cancellable(&self) -> bool {
        self.cancellation_source is Some
    }

    /// The flag of the configured cancellation source, if any.
    pub closed spec fn cancellation_flag(&self) -> Option<Arc<AtomicBool>> {
        match self.cancellation_source {
            Some(source) => Some(source.flag()),
            None => None,
        }
    }

    /// The workflow is well formed and no task is counted complete twice.
    pub open spec fn wf(&self) -> bool {
        &&& self.spec_workflow().wf()
        &&& no_repeated_ids(self.completed())
        &&& self.service() matches Some(s) ==> s.wf()
    }

    /// An executor that has run nothing yet, rolling back all dependents on failure.
    pub fn new(workflow: Workflow) -> (r: WorkflowExecutor)
        requires
            workflow.wf(),
        ensures
            r.wf(),
            *r.spec_workflow() == workflow,
            r.completed().len() == 0,
            r.failed().len() == 0,
            r.strategy() == RollbackStrategy::AllDependent,
            r.sequence() == 0,
            r.service() is None,
            !r.cancellable(),
            r.audit().len() == 0,
    {
        WorkflowExecutor {
            workflow,
            completed_tasks: Vec::new(),
            failed_tasks: Vec::new(),
            rollback_engine: RollbackEngine::new(),
            rollback_strategy: RollbackStrategy::AllDependent,
            checkpoint_service: None,
            checkpoint_sequence: 0,
            cancellation_source: None,
            audit_log: AuditLog::new(),
        }
    }

    /// The run's audit log.
    pub fn audit_log(&self) -> (r: &AuditLog)
        ensures
            r.entries() == self.audit(),
            r.tx() == self.run_id(),
    {
        &self.audit_log
    }

    /// The same executor with another rollback strategy.
    pub fn with_rollback_strategy(self, strategy: RollbackStrategy) -> (r: WorkflowExecutor)
        ensures
            r.strategy() == strategy,
            r.spec_workflow() == self.spec_workflow(),
            r.completed() == self.completed(),
            r.failed() == self.failed(),
            r.sequence() == self.sequence(),
            r.service() == self.service(),
            r.cancellable() == self.cancellable(),
    {
        let mut s = self;
        s.rollback_strategy = strategy;
        s
    }

    /// The same executor, cancelled through `source`.
    pub fn with_cancellation_source(self, source: CancellationTokenSource) -> (r: WorkflowExecutor)
        ensures
            r.cancellable(),
            r.cancellation_flag() == Some(source.flag()),
            r.strategy() == self.strategy(),
            r.spec_workflow() == self.spec_workflow(),
            r.completed() == self.completed(),
            r.failed() == self.failed(),
            r.sequence() == self.sequence(),
            r.service() == self.service(),
    {
        let mut s = self;
        s.cancellation_source = Some(source);
        s
    }

    /// A token of the configured cancellation source, if there is one.
    pub fn cancellation_token(&self) -> (r: Option<CancellationToken>)
        ensures
            r is Some <==> self.cancellable(),
            r matches Some(t) ==> self.cancellation_flag() == Some(t.flag()),
    {
        match &self.cancellation_source {
            Some(source) => Some(source.token()),
            None => None,
        }
    }

    /// Cancels the configured source; without one, does nothing.
    pub fn cancel(&self) {
        if let Some(source) = &self.cancellation_source {
            source.cancel();
        }
    }

    /// The rollback strategy.
    pub fn rollback_strategy(&self) -> (r: RollbackStrategy)
        ensures
            r == self.strategy(),
    {
        self.rollback_strategy
    }

    /// The workflow being run.
    pub fn workflow(&self) -> (r: &Workflow)
        ensures
            r == self.spec_workflow(),
    {
        &self.workflow
    }

    /// The number of completed tasks.
    pub fn completed_count(&self) -> (r: usize)
        ensures
            r == self.completed().len(),
    {
        self.completed_tasks.len()
    }

    /// The number of failed tasks.
    pub fn failed_count(&self) -> (r: usize)
        ensures
            r == self.failed().len(),
    {
        self.failed_tasks.len()
    }

    /// The number of tasks in the workflow.
    pub fn task_count(&self) -> (r: usize)
        ensures
            r == self.spec_workflow().nodes().len(),
    {
        self.workflow.task_count()
    }

    /// The identifiers of the workflow's tasks, each once.
    pub fn task_ids(&self) -> (r: Vec<TaskId>)
        requires
            self.wf(),
        ensures
            forall|k: int| 0 <= k < r@.len() ==> self.spec_workflow().has_task(#[trigger] r@[k]@),
            forall|x: Seq<char>| self.spec_workflow().has_task(x) ==> #[trigger] lists_id(r@, x),
            no_repeated_ids(r@),
    {
        let r = self.workflow.task_ids();
        proof {
            assert forall|x: Seq<char>| self.spec_workflow().has_task(x) implies #[trigger] lists_id(r@, x) by {
                let j = choose|j: int| 0 <= j < self.workflow.nodes().len() && #[trigger] self.workflow.nodes()[j].id@ == x;
                assert(lists_id(r@, self.workflow.nodes()[j].id@));
            }
        }
        r
    }

    /// The completed task identifiers, in completion order.
    pub fn completed_task_ids(&self) -> (r: Vec<TaskId>)
        ensures
            r@.len() == self.completed().len(),
            forall|i: int| 0 <= i < r@.len() ==> #[trigger] r@[i]@ == self.completed()[i]@,
    {
        clone_ids(&self.completed_tasks)
    }

    /// The failed task identifiers.
    pub fn failed_task_ids(&self) -> (r: Vec<TaskId>)
        ensures
            r@.len() == self.failed().len(),
            forall|i: int| 0 <= i < r@.len() ==> #[trigger] r@[i]@ == self.failed()[i]@,
    {
        clone_ids(&self.failed_tasks)
    }

    /// Whether the task with this identifier has completed.
    pub fn is_task_completed(&self, id: &TaskId) -> (r: bool)
        ensures
            r == lists_id(self.completed(), id@),
    {
        contains_id(&self.completed_tasks, id)
    }

    /// Whether the task with this identifier has failed.
    pub fn is_task_failed(&self, id: &TaskId) -> (r: bool)
        ensures
            r == lists_id(self.failed(), id@),
    {
        contains_id(&self.failed_tasks, id)
    }

    /// Records that a task completed; a task already recorded stays recorded once.
    pub fn mark_task_completed(&mut self, id: TaskId)
        requires
            old(self).wf(),
        ensures
            final(self).wf(),
            lists_id(old(self).completed(), id@) ==> final(self).completed() == old(self).completed(),
            !lists_id(old(self).completed(), id@) ==> final(self).completed() == old(self).completed().push(id),
            final(self).spec_workflow() == old(self).spec_workflow(),
            final(self).failed() == old(self).failed(),
            final(self).strategy() == old(self).strategy(),
            final(self).sequence() == old(self).sequence(),
            final(self).service() == old(self).service(),
            final(self).cancellable() == old(self).cancellable(),
            final(self).cancellation_flag() == old(self).cancellation_flag(),
            final(self).audit() == old(self).audit(),
            final(self).run_id() == old(self).run_id(),
    {
        if !contains_id(&self.completed_tasks, &id) {
            let ghost c0 = self.completed_tasks@;
            self.completed_tasks.push(id);
            proof {
                assert forall|i: int, k: int|
                    0 <= i < self.completed_tasks@.len() && 0 <= k < self.completed_tasks@.len() && i != k implies #[trigger] self.completed_tasks@[i]@
                    != #[trigger] self.completed_tasks@[k]@ by {
                    if i < c0.len() && k < c0.len() {
                        assert(self.completed_tasks@[i] == c0[i] && self.completed_tasks@[k] == c0[k]);
                    } else if i < c0.len() {
                        assert(self.completed_tasks@[i] == c0[i]);
                    } else {
                        assert(self.completed_tasks@[k] == c0[k]);
                    }
                }
            }
        }
    }

    /// Records that a task failed.
    pub fn mark_task_failed(&mut self, id: TaskId)
        ensures
            final(self).failed() == old(self).failed().push(id),
            final(self).spec_workflow() == old(self).spec_workflow(),
            final(self).completed() == old(self).completed(),
            final(self).strategy() == old(self).strategy(),
            final(self).sequence() == old(self).sequence(),
            final(self).service() == old(self).service(),
    {
        self.failed_tasks.push(id);
    }

    /// The sequence number the next checkpoint gets.
    pub fn checkpoint_sequence(&self) -> (r: u64)
        ensures
            r == self.sequence(),
    {
        self.checkpoint_sequence
    }

    /// Moves to the next checkpoint sequence number, after a checkpoint was stored.
    pub fn advance_checkpoint_sequence(&mut self)
        requires
            old(self).sequence() < u64::MAX,
        ensures
            final(self).sequence() == old(self).sequence() + 1,
            final(self).spec_workflow() == old(self).spec_workflow(),
            final(self).completed() == old(self).completed(),
            final(self).failed() == old(self).failed(),
            final(self).strategy() == old(self).strategy(),
            final(self).service() == old(self).service(),
    {
        self.checkpoint_sequence = self.checkpoint_sequence + 1;
    }

    /// The order the tasks run in (see `Workflow::execution_order`).
    pub fn execution_order(&self) -> (r: Result<Vec<TaskId>, WorkflowError>)
        requires
            self.wf(),
        ensures
            r is Ok <==> self.spec_workflow().nodes().len() > 0 && is_acyclic(self.spec_workflow().edges()),
            r matches Ok(order) ==> self.spec_workflow().is_execution_order(order@),
    {
        self.workflow.execution_order()
    }

    /// The tasks to roll back after `task_id` failed, under the executor's
    /// strategy; a failure to plan is reported as the task not being found.
    pub fn rollback_set_for(&self, task_id: &TaskId) -> (r: Result<Vec<TaskId>, WorkflowError>)
        requires
            self.wf(),
        ensures
            r is Err <==> !self.spec_workflow().has_task(task_id@) || (self.strategy()
                != RollbackStrategy::FailedOnly && !is_acyclic(self.spec_workflow().edges())),
            r matches Err(e) ==> (e matches WorkflowError::TaskNotFound(x) && x@ == task_id@),
            self.strategy() == RollbackStrategy::FailedOnly ==> (r matches Ok(v) ==> v@.len() == 1 && v@[0]@
                == task_id@),
            self.strategy() != RollbackStrategy::FailedOnly ==> (r matches Ok(v) ==> is_rollback_plan(
                self.spec_workflow(),
                self.spec_workflow().index_of(task_id@) as nat,
                v@,
            )),
    {
        match self.rollback_engine.find_rollback_set(&self.workflow, task_id, self.rollback_strategy) {
            Ok(v) => Ok(v),
            Err(_) => Err(WorkflowError::TaskNotFound(task_id.clone())),
        }
    }

    /// Replaces the run's progress with the checkpoint's: its completed tasks
    /// (each once), its failed tasks, and the sequence after its own.
    fn restore_state_from_checkpoint(&mut self, checkpoint: &WorkflowCheckpoint)
        requires
            old(self).wf(),
            checkpoint.sequence < u64::MAX,
        ensures
            final(self).wf(),
            forall|x: Seq<char>| #[trigger] lists_id(final(self).completed(), x) == lists_id(
                checkpoint.completed_tasks@,
                x,
            ),
            final(self).failed().len() == checkpoint.failed_tasks@.len(),
            forall|i: int| 0 <= i < final(self).failed().len() ==> #[trigger] final(self).failed()[i]@
                == checkpoint.failed_tasks@[i]@,
            final(self).sequence() == checkpoint.sequence + 1,
            final(self).spec_workflow() == old(self).spec_workflow(),
            final(self).strategy() == old(self).strategy(),
            final(self).service() == old(self).service(),
    {
        self.completed_tasks = Vec::new();
        let mut i: usize = 0;
        while i < checkpoint.completed_tasks.len()
            invariant
                self.workflow.wf(),
                self.workflow == old(self).workflow,
                self.rollback_strategy == old(self).rollback_strategy,
                self.checkpoint_service == old(self).checkpoint_service,
                old(self).wf(),
                i <= checkpoint.completed_tasks@.len(),
                no_repeated_ids(self.completed_tasks@),
                forall|x: Seq<char>| #[trigger] lists_id(self.completed_tasks@, x) == lists_id(
                    checkpoint.completed_tasks@.subrange(0, i as int),
                    x,
                ),
            decreases checkpoint.completed_tasks@.len() - i,
        {
            let id = checkpoint.completed_tasks[i].clone();
            let ghost c0 = self.completed_tasks@;
            let ghost sub0 = checkpoint.completed_tasks@.subrange(0, i as int);
            let ghost sub1 = checkpoint.completed_tasks@.subrange(0, i + 1);
            assert(sub1 == sub0.push(checkpoint.completed_tasks@[i as int]));
            self.mark_task_completed(id);
            proof {
                let c1 = self.completed_tasks@;
                assert forall|x: Seq<char>| #[trigger] lists_id(c1, x) == lists_id(sub1, x) by {
                    lemma_lists_id_push(sub0, checkpoint.completed_tasks@[i as int], x);
                    lemma_lists_id_push(c0, id, x);
                    if lists_id(c0, id@) {
                        assert(c1 == c0);
                    }
                }
            }
            i = i + 1;
        }
        proof {
            assert(checkpoint.completed_tasks@.subrange(0, i as int) == checkpoint.completed_tasks@);
        }
        self.failed_tasks = clone_ids(&checkpoint.failed_tasks);
        self.checkpoint_sequence = checkpoint.sequence + 1;
    }

    /// Checks that the checkpoint fits this workflow (see
    /// `validate_workflow_consistency`) and, if it does, restores the run's
    /// progress from it; otherwise nothing changes.
    pub fn restore_checkpoint_state(&mut self, checkpoint: &WorkflowCheckpoint) -> (r: Result<(), WorkflowError>)
        requires
            old(self).wf(),
            checkpoint.sequence < u64::MAX,
        ensures
            final(self).wf(),
            r is Ok <==> consistent_with(old(self).spec_workflow(), *checkpoint),
            r matches Err(e) ==> consistency_error(old(self).spec_workflow(), *checkpoint, e),
            r is Err ==> final(self).completed() == old(self).completed() && final(self).failed() == old(
                self,
            ).failed() && final(self).sequence() == old(self).sequence(),
            r is Ok ==> forall|x: Seq<char>| #[trigger] lists_id(final(self).completed(), x) == lists_id(
                checkpoint.completed_tasks@,
                x,
            ),
            r is Ok ==> final(self).failed().len() == checkpoint.failed_tasks@.len() && forall|i: int|
                0 <= i < final(self).failed().len() ==> #[trigger] final(self).failed()[i]@
                    == checkpoint.failed_tasks@[i]@,
            r is Ok ==> final(self).sequence() == checkpoint.sequence + 1,
            final(self).spec_workflow() == old(self).spec_workflow(),
            final(self).strategy() == old(self).strategy(),
            final(self).service() == old(self).service(),
    {
        match validate_workflow_consistency(&self.workflow, checkpoint) {
            Ok(()) => {},
            Err(e) => {
                return Err(e);
            },
        }
        self.restore_state_from_checkpoint(checkpoint);
        Ok(())
    }

    /// Where a resumed run continues: nowhere when the checkpoint recorded
    /// every task as completed, otherwise right after the checkpoint's position.
    pub fn resume_position(&self, checkpoint: &WorkflowCheckpoint) -> (r: Option<usize>)
        requires
            checkpoint.current_position < usize::MAX,
        ensures
            checkpoint.completed_tasks@.len() == checkpoint.total_tasks ==> r is None,
            checkpoint.completed_tasks@.len() != checkpoint.total_tasks ==> r == Some(
                (checkpoint.current_position + 1) as usize,
            ),
    {
        if checkpoint.completed_tasks.len() == checkpoint.total_tasks {
            None
        } else {
            Some(checkpoint.current_position + 1)
        }
    }

    /// A snapshot of the run. `tx_id` is the text of the run's audit
    /// transaction, which names the workflow as `workflow-<tx_id>`.
    pub fn state(&self, tx_id: &str) -> (r: WorkflowState)
        requires
            self.wf(),
        ensures
            r.workflow_id@ == "workflow-"@ + tx_id@,
            r.status == status_of(self.completed().len(), self.failed().len(), self.spec_workflow().nodes().len()),
            r.current_task is None,
            summarizes_all(self.spec_workflow(), r.completed_tasks@, self.completed(), TaskStatus::Completed),
            summarizes_all(self.spec_workflow(), r.failed_tasks@, self.failed(), TaskStatus::Failed),
            forall|i: int|
                0 <= i < r.pending_tasks@.len() ==> summarizes(
                    self.spec_workflow(),
                    #[trigger] r.pending_tasks@[i],
                    r.pending_tasks@[i].id@,
                    TaskStatus::Pending,
                ),
            forall|x: Seq<char>|
                #[trigger] lists_summary_id(r.pending_tasks@, x) <==> (self.spec_workflow().has_task(x) && !lists_id(
                    self.completed(),
                    x,
                ) && !lists_id(self.failed(), x)),
            forall|i: int, k: int|
                0 <= i < r.pending_tasks@.len() && 0 <= k < r.pending_tasks@.len() && i != k ==> #[trigger] r.pending_tasks@[i].id@
                    != #[trigger] r.pending_tasks@[k].id@,
    {
        let n = self.workflow.task_count();
        let status = if self.failed_tasks.len() == 0 && self.completed_tasks.len() == 0 {
            WorkflowStatus::Pending
        } else if self.failed_tasks.len() != 0 {
            WorkflowStatus::Failed
        } else if self.completed_tasks.len() == n {
            WorkflowStatus::Completed
        } else {
            WorkflowStatus::Running
        };
        let completed = self.summaries(&self.completed_tasks, TaskStatus::Completed);
        let failed = self.summaries(&self.failed_tasks, TaskStatus::Failed);
        let pending = self.pending_summaries();
        let mut workflow_id = "workflow-".to_string();
        workflow_id.append(tx_id);
        WorkflowState {
            workflow_id,
            status,
            current_task: None,
            completed_tasks: completed,
            pending_tasks: pending,
            failed_tasks: failed,
        }
    }

    /// The summary of one task in the given status.
    fn summary_of(&self, id: &TaskId, status: TaskStatus) -> (r: TaskSummary)
        requires
            self.wf(),
        ensures
            summarizes(self.spec_workflow(), r, id@, status),
    {
        let name = match self.workflow.task_name(id) {
            Some(s) => s,
            None => "Unknown".to_string(),
        };
        TaskSummary { id: id.to_display_string(), name, status }
    }

    /// Summaries of the given tasks, one for one, in the given status.
    fn summaries(&self, ids: &Vec<TaskId>, status: TaskStatus) -> (r: Vec<TaskSummary>)
        requires
            self.wf(),
        ensures
            summarizes_all(self.spec_workflow(), r@, ids@, status),
    {
        let mut r: Vec<TaskSummary> = Vec::new();
        let mut i: usize = 0;
        while i < ids.len()
            invariant
                self.wf(),
                i <= ids@.len(),
                r@.len() == i,
                forall|k: int| 0 <= k < i ==> summarizes(self.spec_workflow(), #[trigger] r@[k], ids@[k]@, status),
            decreases ids@.len() - i,
        {
            let s = self.summary_of(&ids[i], status);
            r.push(s);
            i = i + 1;
        }
        r
    }

    /// Summaries of the tasks neither completed nor failed, each once.
    fn pending_summaries(&self) -> (r: Vec<TaskSummary>)
        requires
            self.wf(),
        ensures
            forall|i: int|
                0 <= i < r@.len() ==> summarizes(self.spec_workflow(), #[trigger] r@[i], r@[i].id@, TaskStatus::Pending),
            forall|x: Seq<char>|
                #[trigger] lists_summary_id(r@, x) <==> (self.spec_workflow().has_task(x) && !lists_id(self.completed(), x)
                    && !lists_id(self.failed(), x)),
            forall|i: int, k: int|
                0 <= i < r@.len() && 0 <= k < r@.len() && i != k ==> #[trigger] r@[i].id@ != #[trigger] r@[k].id@,
    {
        let ids = self.task_ids();
        let mut r: Vec<TaskSummary> = Vec::new();
        let mut j: usize = 0;
        while j < ids.len()
            invariant
                self.wf(),
                j <= ids@.len(),
                forall|k: int| 0 <= k < ids@.len() ==> self.spec_workflow().has_task(#[trigger] ids@[k]@),
                forall|x: Seq<char>| self.spec_workflow().has_task(x) ==> #[trigger] lists_id(ids@, x),
                no_repeated_ids(ids@),
                forall|i: int|
                    0 <= i < r@.len() ==> summarizes(self.spec_workflow(), #[trigger] r@[i], r@[i].id@, TaskStatus::Pending),
                forall|x: Seq<char>|
                    #[trigger] lists_summary_id(r@, x) <==> (lists_id(ids@.subrange(0, j as int), x) && !lists_id(
                        self.completed(),
                        x,
                    ) && !lists_id(self.failed(), x)),
                forall|i: int, k: int|
                    0 <= i < r@.len() && 0 <= k < r@.len() && i != k ==> #[trigger] r@[i].id@ != #[trigger] r@[k].id@,
            decreases ids@.len() - j,
        {
            let id = &ids[j];
            let ghost r0 = r@;
            let ghost sub0 = ids@.subrange(0, j as int);
            let ghost sub1 = ids@.subrange(0, j + 1);
            proof {
                assert(sub1 == sub0.push(ids@[j as int]));
                assert(!lists_id(sub0, id@)) by {
                    if lists_id(sub0, id@) {
                        let k = choose|k: int| 0 <= k < sub0.len() && #[trigger] sub0[k]@ == id@;
                        assert(ids@[k]@ == ids@[j as int]@);
                    }
                }
            }
            if !contains_id(&self.completed_tasks, id) && !contains_id(&self.failed_tasks, id) {
                let s = self.summary_of(id, TaskStatus::Pending);
                r.push(s);
                proof {
                    assert(r@ == r0.push(s));
                    assert(!lists_summary_id(r0, id@));
                    assert forall|x: Seq<char>|
                        #[trigger] lists_summary_id(r@, x) <==> (lists_id(sub1, x) && !lists_id(self.completed(), x)
                            && !lists_id(self.failed(), x)) by {
                        lemma_lists_summary_push(r0, s, x);
                        lemma_lists_id_push(sub0, ids@[j as int], x);
                        assert(lists_summary_id(r0, x) <==> (lists_id(sub0, x) && !lists_id(self.completed(), x)
                            && !lists_id(self.failed(), x)));
                    }
                    assert forall|i: int, k: int|
                        0 <= i < r@.len() && 0 <= k < r@.len() && i != k implies #[trigger] r@[i].id@ != #[trigger] r@[k].id@ by {
                        if i < r0.len() && k < r0.len() {
                            assert(r@[i] == r0[i] && r@[k] == r0[k]);
                        } else if i < r0.len() {
                            assert(r@[i] == r0[i]);
                            if r0[i].id@ == id@ {
                                assert(lists_summary_id(r0, id@));
                            }
                        } else {
                            assert(r@[k] == r0[k]);
                            if r0[k].id@ == id@ {
                                assert(lists_summary_id(r0, id@));
                            }
                        }
                    }
                    assert forall|i: int| 0 <= i < r@.len() implies summarizes(
                        self.spec_workflow(),
                        #[trigger] r@[i],
                        r@[i].id@,
                        TaskStatus::Pending,
                    ) by {
                        if i < r0.len() {
                            assert(r@[i] == r0[i]);
                        }
                    }
                }
            } else {
                proof {
                    assert forall|x: Seq<char>|
                        #[trigger] lists_summary_id(r@, x) <==> (lists_id(sub1, x) && !lists_id(self.completed(), x)
                            && !lists_id(self.failed(), x)) by {
                        lemma_lists_id_push(sub0, ids@[j as int], x);
                        assert(lists_summary_id(r0, x) <==> (lists_id(sub0, x) && !lists_id(self.completed(), x)
                            && !lists_id(self.failed(), x)));
                    }
                }
            }
            j = j + 1;
        }
        proof {
            assert(ids@.subrange(0, j as int) == ids@);
            assert forall|x: Seq<char>|
                #[trigger] lists_summary_id(r@, x) <==> (self.spec_workflow().has_task(x) && !lists_id(self.completed(), x)
                    && !lists_id(self.failed(), x)) by {
                if lists_id(ids@, x) {
                    let k = choose|k: int| 0 <= k < ids@.len() && #[trigger] ids@[k]@ == x;
                    assert(self.spec_workflow().has_task(ids@[k]@));
                }
            }
        }
        r
    }
}

/// `a` and `b` list the same identifiers in the same order.
pub open spec fn same_ids(a: Seq<TaskId>, b: Seq<TaskId>) -> bool {
    a.len() == b.len() && forall|i: int| 0 <= i < a.len() ==> #[trigger] a[i]@ == b[i]@
}

/// The name a task is recorded under: its name in the workflow, or its
/// identifier when the workflow has no task with it.
pub open spec fn task_label(w: &Workflow, id: Seq<char>) -> Seq<char> {
    if w.has_task(id) {
        w.nodes()[w.index_of(id)].name@
    } else {
        id
    }
}

/// The event recording the end of `ex`'s run: its task count and how many
/// tasks completed.
pub open spec fn finished_event(ex: &WorkflowExecutor) -> AuditEventView {
    AuditEventView::WorkflowCompleted {
        workflow_id: ex.run_id(),
        total_tasks: ex.spec_workflow().nodes().len(),
        completed_tasks: ex.completed().len(),
    }
}

/// The texts of a list of task identifiers.
pub open spec fn ids_view(v: Seq<TaskId>) -> Seq<Seq<char>> {
    v.map_values(|t: TaskId| t@)
}

/// The event recording that task `t` was rolled back.
pub open spec fn rolled_back_event(wid: Seq<char>, t: Seq<char>) -> AuditEventView {
    AuditEventView::WorkflowTaskRolledBack { workflow_id: wid, task_id: t, compensation: "Compensation executed"@ }
}

/// The events recording that the tasks were rolled back, in order.
pub open spec fn rolled_back_events(wid: Seq<char>, tasks: Seq<Seq<char>>) -> Seq<AuditEventView> {
    tasks.map_values(|t: Seq<char>| rolled_back_event(wid, t))
}

/// The events a run records when it stops after `failed` failed with
/// `message`, having rolled back `tasks`: each rolled-back task, the
/// rollback, the failure, and the end of the run.
pub open spec fn rollback_events(
    wid: Seq<char>,
    tasks: Seq<Seq<char>>,
    failed: Seq<char>,
    message: Seq<char>,
    finish: AuditEventView,
) -> Seq<AuditEventView> {
    rolled_back_events(wid, tasks) + seq![
        AuditEventView::WorkflowRolledBack {
            workflow_id: wid,
            reason: "Task failure triggered rollback"@,
            rolled_back_tasks: tasks,
        },
        AuditEventView::WorkflowTaskFailed { workflow_id: wid, task_id: failed, task_name: failed, error: message },
        finish,
    ]
}

/// What one task of a parallel layer reported when it was joined.
pub enum LayerTaskOutcome {
    /// The task finished: its identifier and name
    Completed(TaskId, String),
    /// The task returned an error: the task and the error
    Failed(TaskId, WorkflowError),
    /// The task's runner panicked or was aborted before it finished
    Panicked(TaskId),
}

/// What a parallel run does next.
pub enum LayerStep {
    /// The tasks of the layer to run now
    Run(Vec<TaskId>),
    /// The run is over, with this result
    Finish(WorkflowResult),
}

/// What a run does next.
pub enum RunStep {
    /// The task to execute now
    Execute(TaskId),
    /// The run is over, with this result
    Finish(WorkflowResult),
}

/// How a resumed run goes on.
pub enum ResumePlan {
    /// The checkpoint had every task completed: the run's result
    Done(WorkflowResult),
    /// Run the tasks of this execution order from this position on
    Continue(Vec<TaskId>, usize),
}

/// The completed tasks after recording each of `ids` in turn (a task
/// already recorded stays recorded once).
pub open spec fn record_all(done: Seq<TaskId>, ids: Seq<TaskId>) -> Seq<TaskId>
    decreases ids.len(),
{
    if ids.len() == 0 {
        done
    } else {
        let d = record_all(done, ids.drop_last());
        if lists_id(d, ids.last()@) {
            d
        } else {
            d.push(ids.last())
        }
    }
}

/// The identifiers of the outcomes that completed, in order.
pub open spec fn completed_ids(outs: Seq<LayerTaskOutcome>) -> Seq<TaskId>
    decreases outs.len(),
{
    if outs.len() == 0 {
        Seq::empty()
    } else {
        let r = completed_ids(outs.drop_last());
        match outs.last() {
            LayerTaskOutcome::Completed(id, _) => r.push(id),
            _ => r,
        }
    }
}

/// How a layer fails: the task of its last outcome that did not complete,
/// with `Task execution failed` for an error or `Task panicked` for a
/// runner that did not finish; none when every task completed.
pub open spec fn layer_failure(outs: Seq<LayerTaskOutcome>) -> Option<(Seq<char>, Seq<char>)>
    decreases outs.len(),
{
    if outs.len() == 0 {
        None
    } else {
        match outs.last() {
            LayerTaskOutcome::Completed(..) => layer_failure(outs.drop_last()),
            LayerTaskOutcome::Failed(id, _) => Some((id@, "Task execution failed"@)),
            LayerTaskOutcome::Panicked(id) => Some((id@, "Task panicked"@)),
        }
    }
}

impl WorkflowExecutor {
    /// A failure after which the run cannot plan a rollback for `failed`: the
    /// task is unknown, or its dependents cannot be ordered.
    pub open spec fn rollback_blocked(&self, failed: Seq<char>) -> bool {
        !self.spec_workflow().has_task(failed) || (self.strategy() != RollbackStrategy::FailedOnly && !is_acyclic(
            self.spec_workflow().edges(),
        ))
    }

    /// `res` reports a run stopped after `failed` failed with `message`, with
    /// the executor's completed tasks and the report of rolling back the
    /// tasks its strategy picks, latest-executed first.
    pub open spec fn reports_rollback(&self, res: WorkflowResult, failed: Seq<char>, message: Seq<char>) -> bool {
        &&& !res.success
        &&& same_ids(res.completed_tasks@, self.completed())
        &&& res.failed_tasks@.len() == 1 && res.failed_tasks@[0]@ == failed
        &&& res.error matches Some(m) && m@ == message
        &&& res.rollback_report matches Some(rep) && {
            &&& rep.skipped_tasks@.len() == 0
            &&& rep.failed_compensations@.len() == 0
            &&& self.strategy() == RollbackStrategy::FailedOnly ==> rep.rolled_back_tasks@.len() == 1
                && rep.rolled_back_tasks@[0]@ == failed
            &&& self.strategy() != RollbackStrategy::FailedOnly ==> is_rollback_plan(
                self.spec_workflow(),
                self.spec_workflow().index_of(failed) as nat,
                rep.rolled_back_tasks@,
            )
        }
    }

    /// `cp` records this executor's progress for run `workflow_id`, with
    /// sequence `sequence`, at position `position`.
    pub open spec fn records_progress(&self, cp: WorkflowCheckpoint, workflow_id: Seq<char>, sequence: u64, position: usize) -> bool {
        &&& cp.workflow_id@ == workflow_id
        &&& cp.sequence == sequence
        &&& cp.current_position == position
        &&& cp.total_tasks == self.spec_workflow().nodes().len()
        &&& same_ids(cp.completed_tasks@, self.completed())
        &&& same_ids(cp.failed_tasks@, self.failed())
    }

    /// The same executor, storing checkpoints in `service`.
    pub fn with_checkpoint_service(self, service: WorkflowCheckpointService) -> (r: WorkflowExecutor)
        requires
            self.wf(),
            service.wf(),
        ensures
            r.wf(),
            r.service() == Some(service),
            r.spec_workflow() == self.spec_workflow(),
            r.completed() == self.completed(),
            r.failed() == self.failed(),
            r.strategy() == self.strategy(),
            r.sequence() == self.sequence(),
            r.cancellable() == self.cancellable(),
    {
        let mut s = self;
        s.checkpoint_service = Some(service);
        s
    }

    /// Where checkpoints are stored, if anywhere.
    pub fn checkpoint_service(&self) -> (r: Option<&WorkflowCheckpointService>)
        ensures
            r matches Some(s) ==> self.service() == Some(*s),
            r is None <==> self.service() is None,
    {
        match &self.checkpoint_service {
            Some(s) => Some(s),
            None => None,
        }
    }

    /// Checkpoints the run after the task at `position` completed: with a
    /// store, saves a checkpoint of the progress under the current sequence
    /// number, which then advances; without one, nothing happens. An error
    /// of the store is returned with the sequence unchanged.
    pub fn create_checkpoint(&mut self, workflow_id: &str, position: usize) -> (r: Result<(), WorkflowError>)
        requires
            old(self).wf(),
            old(self).sequence() < u64::MAX,
        ensures
            final(self).wf(),
            r is Ok,
            old(self).service() is None ==> final(self).service() is None && final(self).sequence() == old(
                self,
            ).sequence(),
            old(self).service() is Some ==> final(self).sequence() == old(self).sequence() + 1,
            old(self).service() is Some ==> (final(self).service() matches Some(s) && s.has_latest(workflow_id@)
                && s.holds(s.latest(workflow_id@).id) && s.latest(workflow_id@) == summary_of(
                s.entry(s.latest(workflow_id@).id),
            ) && old(self).records_progress(
                s.entry(s.latest(workflow_id@).id),
                workflow_id@,
                old(self).sequence(),
                position,
            )),
            final(self).spec_workflow() == old(self).spec_workflow(),
            final(self).completed() == old(self).completed(),
            final(self).failed() == old(self).failed(),
            final(self).strategy() == old(self).strategy(),
    {
        if self.checkpoint_service.is_none() {
            return Ok(());
        }
        let cp = WorkflowCheckpoint::from_executor(workflow_id, self.checkpoint_sequence, self, position);
        let mut service = self.checkpoint_service.take().unwrap();
        let saved = service.save(&cp);
        proof {
            if saved is Ok {
                let id = service.latest(workflow_id@).id;
                assert(id == cp.id);
                assert(same_checkpoint(service.entry(cp.id), cp));
                let e = service.entry(cp.id);
                assert(e.completed_tasks@.len() == id_texts(e.completed_tasks@).len());
                assert(cp.completed_tasks@.len() == id_texts(cp.completed_tasks@).len());
                assert(e.failed_tasks@.len() == id_texts(e.failed_tasks@).len());
                assert(cp.failed_tasks@.len() == id_texts(cp.failed_tasks@).len());
                assert forall|i: int| 0 <= i < e.completed_tasks@.len() implies #[trigger] e.completed_tasks@[i]@
                    == self.completed()[i]@ by {
                    assert(id_texts(e.completed_tasks@)[i] == id_texts(cp.completed_tasks@)[i]);
                }
                assert forall|i: int| 0 <= i < e.failed_tasks@.len() implies #[trigger] e.failed_tasks@[i]@
                    == self.failed()[i]@ by {
                    assert(id_texts(e.failed_tasks@)[i] == id_texts(cp.failed_tasks@)[i]);
                }
            }
        }
        self.checkpoint_service = Some(service);
        match saved {
            Ok(()) => {
                self.checkpoint_sequence = self.checkpoint_sequence + 1;
                Ok(())
            },
            Err(e) => Err(e),
        }
    }

    /// Whether the run can resume: a checkpoint store is configured, it holds
    /// the checkpoint saved last for `workflow_id`, and that checkpoint fits
    /// this workflow.
    pub fn can_resume(&self, workflow_id: &str) -> (r: bool)
        requires
            self.wf(),
        ensures
            r <==> (self.service() matches Some(s) && s.has_latest(workflow_id@) && s.holds(s.latest(workflow_id@).id)
                && consistent_with(self.spec_workflow(), s.entry(s.latest(workflow_id@).id))),
    {
        let service = match &self.checkpoint_service {
            Some(s) => s,
            None => {
                return false;
            },
        };
        let checkpoint = match service.get_latest(workflow_id) {
            Ok(Some(cp)) => cp,
            _ => {
                return false;
            },
        };
        proof {
            let id = service.latest(workflow_id@).id;
            lemma_same_consistency(&self.workflow, checkpoint, service.entry(id));
        }
        if checkpoint.validate().is_err() {
            return false;
        }
        validate_workflow_consistency(&self.workflow, &checkpoint).is_ok()
    }

    /// The checkpoint saved last for `workflow_id`, to resume from.
    pub fn latest_checkpoint(&self, workflow_id: &str) -> (r: Result<WorkflowCheckpoint, WorkflowError>)
        requires
            self.wf(),
        ensures
            self.service() is None ==> (r matches Err(WorkflowError::CheckpointNotFound(m)) && m@
                == "No checkpoint service configured"@),
            self.service() matches Some(s) ==> {
                &&& s.has_latest(workflow_id@) && s.holds(s.latest(workflow_id@).id) ==> (r matches Ok(cp)
                    && same_checkpoint(cp, s.entry(s.latest(workflow_id@).id)))
                &&& !(s.has_latest(workflow_id@) && s.holds(s.latest(workflow_id@).id)) ==> (r matches Err(
                    WorkflowError::CheckpointNotFound(m),
                ) && m@ == "No checkpoint found for workflow: "@ + workflow_id@)
            },
    {
        let service = match &self.checkpoint_service {
            Some(s) => s,
            None => {
                return Err(WorkflowError::CheckpointNotFound("No checkpoint service configured".to_string()));
            },
        };
        match service.get_latest(workflow_id) {
            Ok(Some(cp)) => Ok(cp),
            Ok(None) => {
                let mut m = "No checkpoint found for workflow: ".to_string();
                m.append(workflow_id);
                Err(WorkflowError::CheckpointNotFound(m))
            },
            Err(e) => Err(e),
        }
    }

    /// The stored checkpoint with identifier `id`, to resume from.
    pub fn checkpoint_by_id(&self, id: &CheckpointId) -> (r: Result<WorkflowCheckpoint, WorkflowError>)
        requires
            self.wf(),
        ensures
            self.service() is None ==> (r matches Err(WorkflowError::CheckpointNotFound(m)) && m@
                == "No checkpoint service configured"@),
            self.service() matches Some(s) ==> {
                &&& s.holds(*id) ==> (r matches Ok(cp) && same_checkpoint(cp, s.entry(*id)))
                &&& !s.holds(*id) ==> (r matches Err(WorkflowError::CheckpointNotFound(m)) && m@
                    == "Checkpoint not found: "@ + uuid_text(id.0))
            },
    {
        let service = match &self.checkpoint_service {
            Some(s) => s,
            None => {
                return Err(WorkflowError::CheckpointNotFound("No checkpoint service configured".to_string()));
            },
        };
        match service.load(id) {
            Ok(Some(cp)) => Ok(cp),
            Ok(None) => {
                let mut m = "Checkpoint not found: ".to_string();
                let t = id.to_display_string();
                m.append(t.as_str());
                Err(WorkflowError::CheckpointNotFound(m))
            },
            Err(e) => Err(e),
        }
    }

    /// The result of a run stopped by cancellation, with the tasks completed so far.
    pub fn cancelled_result(&self) -> (r: WorkflowResult)
        ensures
            !r.success,
            same_ids(r.completed_tasks@, self.completed()),
            r.failed_tasks@.len() == 0,
            r.error matches Some(e) && e@ == "Workflow cancelled"@,
            r.rollback_report is None,
    {
        WorkflowResult::new_cancelled(clone_ids(&self.completed_tasks))
    }

    /// The result of a run that finished every task.
    pub fn completed_result(&self) -> (r: WorkflowResult)
        ensures
            r.success,
            same_ids(r.completed_tasks@, self.completed()),
            r.failed_tasks@.len() == 0,
            r.error is None,
            r.rollback_report is None,
    {
        WorkflowResult::new(clone_ids(&self.completed_tasks))
    }

    /// The run's identifier, as text.
    fn run_text(&self) -> (r: String)
        ensures
            r@ == self.run_id(),
    {
        self.audit_log.tx_id().clone()
    }

    /// The name a task is recorded under.
    fn label_of(&self, id: &TaskId) -> (r: String)
        requires
            self.wf(),
        ensures
            r@ == task_label(self.spec_workflow(), id@),
    {
        match self.workflow.task_name(id) {
            Some(n) => n,
            None => id.0.clone(),
        }
    }

    /// Records an event of the run.
    fn record(&mut self, event: AuditEvent)
        ensures
            final(self).same_run(&*old(self)),
            final(self).audit() == old(self).audit().push(event@),
    {
        self.audit_log.record(event);
    }

    /// Records that the run ended, with how many tasks completed.
    fn record_finish(&mut self)
        ensures
            final(self).same_run(&*old(self)),
            final(self).audit() == old(self).audit().push(finished_event(&*old(self))),
    {
        let wid = self.run_text();
        let total = self.workflow.task_count();
        let done = self.completed_tasks.len();
        self.record(AuditEvent::WorkflowCompleted { workflow_id: wid, total_tasks: total, completed_tasks: done });
    }

    /// Starts a run: records that it started on the workflow's tasks.
    pub fn start_run(&mut self)
        ensures
            final(self).same_run(&*old(self)),
            final(self).audit() == old(self).audit().push(
                AuditEventView::WorkflowStarted {
                    workflow_id: old(self).run_id(),
                    task_count: old(self).spec_workflow().nodes().len(),
                },
            ),
    {
        let wid = self.run_text();
        let n = self.workflow.task_count();
        self.record(AuditEvent::WorkflowStarted { workflow_id: wid, task_count: n });
    }

    /// Records that a task ran past its time limit of `timeout_secs` seconds.
    pub fn record_task_timeout(&mut self, task_id: &TaskId, timeout_secs: u64)
        requires
            old(self).wf(),
        ensures
            final(self).same_run(&*old(self)),
            final(self).audit() == old(self).audit().push(
                AuditEventView::WorkflowTaskTimedOut {
                    workflow_id: old(self).run_id(),
                    task_id: task_id@,
                    task_name: task_label(old(self).spec_workflow(), task_id@),
                    timeout_secs: timeout_secs as nat,
                },
            ),
    {
        let wid = self.run_text();
        let name = self.label_of(task_id);
        self.record(
            AuditEvent::WorkflowTaskTimedOut { workflow_id: wid, task_id: task_id.0.clone(), task_name: name, timeout_secs },
        );
    }

    /// What a sequential run does at `position` of its execution order: stop
    /// when cancellation was requested (recording the cancellation and the
    /// end of the run), run the task there (recording that it started), or
    /// finish with success after the last task (recording the end of the run).
    pub fn next_step(&mut self, order: &Vec<TaskId>, position: usize, cancelled: bool) -> (r: RunStep)
        requires
            old(self).wf(),
        ensures
            final(self).same_run(&*old(self)),
            position < order@.len() && cancelled ==> (r matches RunStep::Finish(res) && !res.success && same_ids(
                res.completed_tasks@,
                old(self).completed(),
            ) && res.failed_tasks@.len() == 0 && (res.error matches Some(e) && e@ == "Workflow cancelled"@)
                && res.rollback_report is None),
            position < order@.len() && cancelled ==> final(self).audit() == old(self).audit() + seq![
                AuditEventView::WorkflowCancelled { workflow_id: old(self).run_id() },
                finished_event(&*old(self)),
            ],
            position < order@.len() && !cancelled ==> (r matches RunStep::Execute(id) && id@ == order@[position as int]@),
            position < order@.len() && !cancelled ==> final(self).audit() == old(self).audit().push(
                AuditEventView::WorkflowTaskStarted {
                    workflow_id: old(self).run_id(),
                    task_id: order@[position as int]@,
                    task_name: task_label(old(self).spec_workflow(), order@[position as int]@),
                },
            ),
            position >= order@.len() ==> (r matches RunStep::Finish(res) && res.success && same_ids(
                res.completed_tasks@,
                old(self).completed(),
            ) && res.failed_tasks@.len() == 0 && res.error is None && res.rollback_report is None),
            position >= order@.len() ==> final(self).audit() == old(self).audit().push(finished_event(&*old(self))),
    {
        if position < order.len() {
            if cancelled {
                let res = self.cancelled_result();
                let wid = self.run_text();
                self.record(AuditEvent::WorkflowCancelled { workflow_id: wid });
                self.record_finish();
                RunStep::Finish(res)
            } else {
                let id = order[position].clone();
                let wid = self.run_text();
                let name = self.label_of(&id);
                self.record(AuditEvent::WorkflowTaskStarted { workflow_id: wid, task_id: id.0.clone(), task_name: name });
                RunStep::Execute(id)
            }
        } else {
            let res = self.completed_result();
            self.record_finish();
            RunStep::Finish(res)
        }
    }

    /// Stops the run after `failed_task` failed with `message`: plans the
    /// rollback under the executor's strategy and reports it. When no
    /// rollback can be planned, the failure is reported as the task not
    /// being found.
    pub fn rollback_result(&self, failed_task: TaskId, message: String) -> (r: Result<WorkflowResult, WorkflowError>)
        requires
            self.wf(),
        ensures
            r is Err <==> self.rollback_blocked(failed_task@),
            r matches Err(e) ==> (e matches WorkflowError::TaskNotFound(x) && x@ == failed_task@),
            r matches Ok(res) ==> self.reports_rollback(res, failed_task@, message@),
    {
        let set = match self.rollback_set_for(&failed_task) {
            Ok(v) => v,
            Err(e) => {
                return Err(e);
            },
        };
        let ghost plan = set@;
        proof {
            assert forall|i: int| 0 <= i < plan.len() implies self.spec_workflow().has_task(#[trigger] plan[i]@) by {
                if self.strategy() != RollbackStrategy::FailedOnly {
                    let f = self.spec_workflow().index_of(failed_task@) as nat;
                    assert(lists_id(plan, plan[i]@));
                    assert(is_dependent_id(self.spec_workflow(), f, plan[i]@));
                    let j = choose|j: nat|
                        j < self.spec_workflow().nodes().len() && #[trigger] reaches(self.spec_workflow().edges(), f, j)
                            && self.spec_workflow().nodes()[j as int].id@ == plan[i]@;
                    assert(self.spec_workflow().nodes()[j as int].id@ == plan[i]@);
                }
            }
        }
        let report = match self.rollback_engine.rollback_report(&self.workflow, set) {
            Ok(rep) => rep,
            Err(_) => {
                return Err(WorkflowError::TaskNotFound(failed_task));
            },
        };
        Ok(WorkflowResult::new_failed_with_rollback(clone_ids(&self.completed_tasks), failed_task, message, report))
    }

    /// Stops the run after `failed_task` failed with `message` (see
    /// `rollback_result`) and records it: each rolled-back task, the
    /// rollback, the failure and the end of the run. On an error nothing is
    /// recorded.
    pub fn fail_run(&mut self, failed_task: TaskId, message: String) -> (r: Result<WorkflowResult, WorkflowError>)
        requires
            old(self).wf(),
        ensures
            final(self).same_run(&*old(self)),
            r is Err <==> old(self).rollback_blocked(failed_task@),
            r matches Err(e) ==> (e matches WorkflowError::TaskNotFound(x) && x@ == failed_task@) && final(self).audit()
                == old(self).audit(),
            r matches Ok(res) ==> old(self).reports_rollback(res, failed_task@, message@) && final(self).audit()
                == old(self).audit() + rollback_events(
                old(self).run_id(),
                ids_view(res.rollback_report->Some_0.rolled_back_tasks@),
                failed_task@,
                message@,
                finished_event(&*old(self)),
            ),
    {
        let failed_text = failed_task.0.clone();
        let msg = message.clone();
        let res = match self.rollback_result(failed_task, message) {
            Ok(res) => res,
            Err(e) => {
                return Err(e);
            },
        };
        let ghost a0 = self.audit();
        let wid = self.run_text();
        let ghost tasks = match &res.rollback_report {
            Some(rep) => ids_view(rep.rolled_back_tasks@),
            None => Seq::empty(),
        };
        let mut names: Vec<String> = Vec::new();
        match &res.rollback_report {
            Some(rep) => {
                let mut i: usize = 0;
                while i < rep.rolled_back_tasks.len()
                    invariant
                        i <= rep.rolled_back_tasks@.len(),
                        tasks == ids_view(rep.rolled_back_tasks@),
                        wid@ == self.run_id(),
                        self.same_run(&*old(self)),
                        strings_view(names@) == tasks.subrange(0, i as int),
                        self.audit() == a0 + rolled_back_events(wid@, tasks.subrange(0, i as int)),
                    decreases rep.rolled_back_tasks@.len() - i,
                {
                    let t = rep.rolled_back_tasks[i].0.clone();
                    let ghost n0 = names@;
                    names.push(rep.rolled_back_tasks[i].0.clone());
                    proof {
                        assert(strings_view(names@) =~= strings_view(n0).push(tasks[i as int]));
                        assert(tasks.subrange(0, i + 1) =~= tasks.subrange(0, i as int).push(tasks[i as int]));
                        assert(rolled_back_events(wid@, tasks.subrange(0, i + 1)) =~= rolled_back_events(
                            wid@,
                            tasks.subrange(0, i as int),
                        ).push(rolled_back_event(wid@, tasks[i as int])));
                    }
                    self.record(
                        AuditEvent::WorkflowTaskRolledBack {
                            workflow_id: wid.clone(),
                            task_id: t,
                            compensation: "Compensation executed".to_string(),
                        },
                    );
                    proof {
                        reveal_strlit("Compensation executed");
                    }
                    i = i + 1;
                }
                proof {
                    assert(tasks.subrange(0, tasks.len() as int) =~= tasks);
                }
            },
            None => {},
        }
        proof {
            reveal_strlit("Task failure triggered rollback");
        }
        self.record(
            AuditEvent::WorkflowRolledBack {
                workflow_id: wid.clone(),
                reason: "Task failure triggered rollback".to_string(),
                rolled_back_tasks: names,
            },
        );
        self.record(
            AuditEvent::WorkflowTaskFailed {
                workflow_id: wid,
                task_id: failed_text.clone(),
                task_name: failed_text,
                error: msg,
            },
        );
        self.record_finish();
        Ok(res)
    }

    /// Settles what a task returned. An outcome that reports failure (the
    /// task's error, or a result that is `Failed`, looking through an
    /// attached compensation) ends the run: the result of `fail_run` after
    /// the task, with the failure's message. Any other outcome records the
    /// task as completed (and the event of its completion), and the run goes
    /// on (`None`).
    pub fn settle_task(&mut self, task_id: &TaskId, outcome: &Result<TaskResult, TaskError>) -> (r: Result<
        Option<WorkflowResult>,
        WorkflowError,
    >)
        requires
            old(self).wf(),
        ensures
            final(self).wf(),
            outcome_failure(*outcome) is Some ==> final(self).same_run(&*old(self)) && (r is Err <==> old(
                self,
            ).rollback_blocked(task_id@)) && (r matches Err(e) ==> (e matches WorkflowError::TaskNotFound(x) && x@
                == task_id@) && final(self).audit() == old(self).audit()) && (r matches Ok(x) ==> (x is Some
                && old(self).reports_rollback(
                x->Some_0,
                task_id@,
                "Task execution failed: "@ + outcome_failure(*outcome)->Some_0,
            ) && final(self).audit() == old(self).audit() + rollback_events(
                old(self).run_id(),
                ids_view(x->Some_0.rollback_report->Some_0.rolled_back_tasks@),
                task_id@,
                "Task execution failed: "@ + outcome_failure(*outcome)->Some_0,
                finished_event(&*old(self)),
            ))),
            outcome_failure(*outcome) is None ==> (r matches Ok(None)) && final(self).spec_workflow() == old(
                self,
            ).spec_workflow() && final(self).failed() == old(self).failed() && final(self).strategy() == old(
                self,
            ).strategy() && final(self).sequence() == old(self).sequence() && final(self).run_id() == old(
                self,
            ).run_id() && (lists_id(old(self).completed(), task_id@) ==> final(self).completed() == old(
                self,
            ).completed()) && (!lists_id(old(self).completed(), task_id@) ==> final(self).completed().len() == old(
                self,
            ).completed().len() + 1 && final(self).completed().drop_last() == old(self).completed()
                && final(self).completed().last()@ == task_id@) && final(self).audit() == old(self).audit().push(
                AuditEventView::WorkflowTaskCompleted {
                    workflow_id: old(self).run_id(),
                    task_id: task_id@,
                    task_name: task_label(old(self).spec_workflow(), task_id@),
                    result: "Success"@,
                },
            ),
    {
        match task_outcome_error(outcome) {
            Some(e) => {
                match self.task_failure_result(task_id, &e) {
                    Ok(res) => Ok(Some(res)),
                    Err(err) => Err(err),
                }
            },
            None => {
                let id = task_id.clone();
                let ghost c0 = self.completed();
                let wid = self.run_text();
                let name = self.label_of(task_id);
                self.mark_task_completed(id);
                proof {
                    if !lists_id(c0, task_id@) {
                        assert(self.completed().drop_last() =~= c0);
                    }
                    reveal_strlit("Success");
                }
                self.audit_log.record(
                    AuditEvent::WorkflowTaskCompleted {
                        workflow_id: wid,
                        task_id: task_id.0.clone(),
                        task_name: name,
                        result: "Success".to_string(),
                    },
                );
                Ok(None)
            },
        }
    }

    /// Stops a sequential run after `task_id` failed with `error`: `fail_run`
    /// with the error's message.
    pub fn task_failure_result(&mut self, task_id: &TaskId, error: &WorkflowError) -> (r: Result<
        WorkflowResult,
        WorkflowError,
    >)
        requires
            old(self).wf(),
        ensures
            final(self).same_run(&*old(self)),
            r is Err <==> old(self).rollback_blocked(task_id@),
            r matches Err(e) ==> (e matches WorkflowError::TaskNotFound(x) && x@ == task_id@) && final(self).audit()
                == old(self).audit(),
            r matches Ok(res) ==> old(self).reports_rollback(res, task_id@, workflow_error_text(*error))
                && final(self).audit() == old(self).audit() + rollback_events(
                old(self).run_id(),
                ids_view(res.rollback_report->Some_0.rolled_back_tasks@),
                task_id@,
                workflow_error_text(*error),
                finished_event(&*old(self)),
            ),
    {
        let message = error.to_display_string();
        self.fail_run(task_id.clone(), message)
    }

    /// Records what the tasks of a parallel layer reported: each task that
    /// completed is recorded as completed. Returns the task the layer fails
    /// under and the failure message (see `layer_failure`), none when every
    /// task completed.
    pub fn settle_layer(&mut self, layer_index: usize, outcomes: Vec<LayerTaskOutcome>) -> (r: Option<(TaskId, String)>)
        requires
            old(self).wf(),
        ensures
            final(self).run_id() == old(self).run_id(),
            final(self).audit() == old(self).audit().push(
                AuditEventView::WorkflowTaskParallelCompleted {
                    workflow_id: old(self).run_id(),
                    layer_index: layer_index as nat,
                    task_count: outcomes@.len(),
                },
            ),
            final(self).wf(),
            final(self).completed() == record_all(old(self).completed(), completed_ids(outcomes@)),
            r is None <==> layer_failure(outcomes@) is None,
            r matches Some((id, m)) ==> layer_failure(outcomes@) == Some((id@, m@)),
            final(self).spec_workflow() == old(self).spec_workflow(),
            final(self).failed() == old(self).failed(),
            final(self).strategy() == old(self).strategy(),
            final(self).sequence() == old(self).sequence(),
            final(self).service() == old(self).service(),
    {
        let ghost outs = outcomes@;
        let ghost c0 = self.completed();
        let total = outcomes.len();
        assert(outs.len() == total);
        let mut rest = outcomes;
        let mut items: Vec<LayerTaskOutcome> = Vec::new();
        while rest.len() > 0
            invariant
                items@.len() + rest@.len() == outs.len(),
                forall|t: int| 0 <= t < items@.len() ==> #[trigger] items@[t] == outs[outs.len() - 1 - t],
                forall|t: int| 0 <= t < rest@.len() ==> #[trigger] rest@[t] == outs[t],
            decreases rest@.len(),
        {
            let x = rest.pop().unwrap();
            items.push(x);
        }
        let mut message: Option<(TaskId, String)> = None;
        let mut k: usize = 0;
        while items.len() > 0
            invariant
                self.wf(),
                outs.len() <= usize::MAX,
                k + items@.len() == outs.len(),
                forall|t: int| 0 <= t < items@.len() ==> #[trigger] items@[t] == outs[outs.len() - 1 - t],
                self.completed() == record_all(c0, completed_ids(outs.subrange(0, k as int))),
                message is None <==> layer_failure(outs.subrange(0, k as int)) is None,
                message matches Some((id, m)) ==> layer_failure(outs.subrange(0, k as int)) == Some((id@, m@)),
                self.spec_workflow() == old(self).spec_workflow(),
                self.failed() == old(self).failed(),
                self.strategy() == old(self).strategy(),
                self.sequence() == old(self).sequence(),
                self.service() == old(self).service(),
                self.audit() == old(self).audit(),
                self.run_id() == old(self).run_id(),
            decreases items@.len(),
        {
            let o = items.pop().unwrap();
            let ghost pre = outs.subrange(0, k as int);
            let ghost next = outs.subrange(0, k + 1);
            proof {
                assert(next.drop_last() =~= pre);
                assert(next.last() == o);
            }
            match o {
                LayerTaskOutcome::Completed(id, _name) => {
                    proof {
                        assert(completed_ids(next) == completed_ids(pre).push(id));
                        assert(completed_ids(next).drop_last() =~= completed_ids(pre));
                    }
                    self.mark_task_completed(id);
                },
                LayerTaskOutcome::Failed(id, _) => {
                    message = Some((id, "Task execution failed".to_string()));
                    proof {
                        assert(completed_ids(next) == completed_ids(pre));
                    }
                },
                LayerTaskOutcome::Panicked(id) => {
                    message = Some((id, "Task panicked".to_string()));
                    proof {
                        assert(completed_ids(next) == completed_ids(pre));
                    }
                },
            }
            k = k + 1;
        }
        proof {
            assert(outs.subrange(0, outs.len() as int) =~= outs);
        }
        let wid = self.run_text();
        self.audit_log.record(
            AuditEvent::WorkflowTaskParallelCompleted { workflow_id: wid, layer_index, task_count: total },
        );
        message
    }

    /// What a parallel run does at layer `index`: stop when cancellation was
    /// requested (recording the cancellation and the end of the run), run the
    /// tasks of that layer (recording that the layer started, with its index
    /// and task count), or finish with success after the last layer
    /// (recording the end of the run).
    pub fn next_layer(&mut self, layers: &Vec<Vec<TaskId>>, index: usize, cancelled: bool) -> (r: LayerStep)
        requires
            old(self).wf(),
        ensures
            final(self).same_run(&*old(self)),
            index < layers@.len() && cancelled ==> (r matches LayerStep::Finish(res) && !res.success && same_ids(
                res.completed_tasks@,
                old(self).completed(),
            ) && res.failed_tasks@.len() == 0 && (res.error matches Some(e) && e@ == "Workflow cancelled"@)
                && res.rollback_report is None),
            index < layers@.len() && cancelled ==> final(self).audit() == old(self).audit() + seq![
                AuditEventView::WorkflowCancelled { workflow_id: old(self).run_id() },
                finished_event(&*old(self)),
            ],
            index < layers@.len() && !cancelled ==> (r matches LayerStep::Run(ids) && same_ids(
                ids@,
                layers@[index as int]@,
            )),
            index < layers@.len() && !cancelled ==> final(self).audit() == old(self).audit().push(
                AuditEventView::WorkflowTaskParallelStarted {
                    workflow_id: old(self).run_id(),
                    layer_index: index as nat,
                    task_count: layers@[index as int]@.len(),
                },
            ),
            index >= layers@.len() ==> (r matches LayerStep::Finish(res) && res.success && same_ids(
                res.completed_tasks@,
                old(self).completed(),
            ) && res.failed_tasks@.len() == 0 && res.error is None && res.rollback_report is None),
            index >= layers@.len() ==> final(self).audit() == old(self).audit().push(finished_event(&*old(self))),
    {
        if index < layers.len() {
            if cancelled {
                let res = self.cancelled_result();
                let wid = self.run_text();
                self.record(AuditEvent::WorkflowCancelled { workflow_id: wid });
                self.record_finish();
                LayerStep::Finish(res)
            } else {
                let ids = clone_ids(&layers[index]);
                let wid = self.run_text();
                let n = layers[index].len();
                self.record(AuditEvent::WorkflowTaskParallelStarted { workflow_id: wid, layer_index: index, task_count: n });
                LayerStep::Run(ids)
            }
        } else {
            let res = self.completed_result();
            self.record_finish();
            LayerStep::Finish(res)
        }
    }

    /// Checks a checkpoint for resuming and, when it holds, restores the
    /// run's progress from it: its checksum must match, and it must fit this
    /// workflow (see `validate_workflow_consistency`). A checkpoint with every
    /// task completed ends the run with success; otherwise the run goes on in
    /// execution order right after the checkpoint's position. On an error
    /// nothing is restored unless the execution order alone failed.
    pub fn resume_plan(&mut self, checkpoint: &WorkflowCheckpoint) -> (r: Result<ResumePlan, WorkflowError>)
        requires
            old(self).wf(),
            checkpoint.sequence < u64::MAX,
            checkpoint.current_position < usize::MAX,
        ensures
            final(self).wf(),
            checkpoint.checksum@ != checkpoint_checksum(*checkpoint) ==> (r matches Err(
                WorkflowError::CheckpointCorrupted(_),
            ) && final(self).completed() == old(self).completed() && final(self).failed() == old(self).failed()
                && final(self).sequence() == old(self).sequence()),
            checkpoint.checksum@ == checkpoint_checksum(*checkpoint) && !consistent_with(
                old(self).spec_workflow(),
                *checkpoint,
            ) ==> ((r matches Err(e) && consistency_error(old(self).spec_workflow(), *checkpoint, e))
                && final(self).completed() == old(self).completed() && final(self).failed() == old(self).failed()
                && final(self).sequence() == old(self).sequence()),
            checkpoint.checksum@ == checkpoint_checksum(*checkpoint) && consistent_with(
                old(self).spec_workflow(),
                *checkpoint,
            ) ==> {
                &&& forall|x: Seq<char>| #[trigger] lists_id(final(self).completed(), x) == lists_id(
                    checkpoint.completed_tasks@,
                    x,
                )
                &&& same_ids(final(self).failed(), checkpoint.failed_tasks@)
                &&& final(self).sequence() == checkpoint.sequence + 1
                &&& checkpoint.completed_tasks@.len() == checkpoint.total_tasks ==> (r matches Ok(ResumePlan::Done(res))
                    && res.success && same_ids(res.completed_tasks@, checkpoint.completed_tasks@)
                    && res.failed_tasks@.len() == 0 && res.error is None && res.rollback_report is None)
                &&& checkpoint.completed_tasks@.len() != checkpoint.total_tasks && is_acyclic(
                    old(self).spec_workflow().edges(),
                ) ==> (r matches Ok(ResumePlan::Continue(order, start))
                    && old(self).spec_workflow().is_execution_order(order@) && start == checkpoint.current_position
                    + 1)
                &&& checkpoint.completed_tasks@.len() != checkpoint.total_tasks && !is_acyclic(
                    old(self).spec_workflow().edges(),
                ) ==> (r matches Err(WorkflowError::CycleDetected(_)))
            },
            final(self).spec_workflow() == old(self).spec_workflow(),
            final(self).strategy() == old(self).strategy(),
            final(self).service() == old(self).service(),
    {
        match checkpoint.validate() {
            Ok(()) => {},
            Err(e) => {
                return Err(e);
            },
        }
        match self.restore_checkpoint_state(checkpoint) {
            Ok(()) => {},
            Err(e) => {
                return Err(e);
            },
        }
        if checkpoint.completed_tasks.len() == checkpoint.total_tasks {
            return Ok(ResumePlan::Done(WorkflowResult::new(clone_ids(&checkpoint.completed_tasks))));
        }
        match self.workflow.execution_order() {
            Ok(order) => Ok(ResumePlan::Continue(order, checkpoint.current_position + 1)),
            Err(e) => Err(e),
        }
    }
}

/// The failure message a task result carries, looking through an attached
/// compensation; none for success or a skip.
fn failure_message(r: &TaskResult) -> (m: Option<String>)
    ensures
        effective(*r) matches TaskResult::Failed(x) ==> (m matches Some(y) && y@ == x@),
        !(effective(*r) is Failed) ==> m is None,
    decreases r,
{
    match r {
        TaskResult::Failed(x) => Some(x.clone()),
        TaskResult::WithCompensation { result, .. } => failure_message(result),
        _ => None,
    }
}

/// The message with which what a task returned stops the run, if it does:
/// the text of the task's error, or the message of a result that is
/// `Failed` (looking through an attached compensation).
pub open spec fn outcome_failure(outcome: Result<TaskResult, TaskError>) -> Option<Seq<char>> {
    match outcome {
        Err(e) => Some(task_error_text(e)),
        Ok(t) => match effective(t) {
            TaskResult::Failed(m) => Some(m@),
            _ => None,
        },
    }
}

/// The error with which what a task returned stops the run: the task's
/// error, or the message of a result that reports failure (looking through
/// an attached compensation); none when the task succeeded or was skipped.
pub fn task_outcome_error(outcome: &Result<TaskResult, TaskError>) -> (r: Option<WorkflowError>)
    ensures
        *outcome matches Err(e) ==> (r matches Some(WorkflowError::TaskFailed(m)) && m@ == task_error_text(e)),
        *outcome matches Ok(t) ==> (effective(t) matches TaskResult::Failed(x) ==> (r matches Some(
            WorkflowError::TaskFailed(m),
        ) && m@ == x@)),
        *outcome matches Ok(t) ==> (!(effective(t) is Failed) ==> r is None),
{
    match outcome {
        Err(e) => Some(WorkflowError::TaskFailed(e.to_display_string())),
        Ok(t) => match failure_message(t) {
            Some(m) => Some(WorkflowError::TaskFailed(m)),
            None => None,
        },
    }
}

/// How a task of a parallel layer ended: an error is a failure of the task
/// with the error's text; whatever result the task returned, one that
/// reports failure too, counts as the task having finished.
pub fn layer_task_outcome(task_id: TaskId, name: String, outcome: Result<TaskResult, TaskError>) -> (r:
    LayerTaskOutcome)
    ensures
        outcome is Ok ==> r == LayerTaskOutcome::Completed(task_id, name),
        outcome matches Err(e) ==> (r matches LayerTaskOutcome::Failed(id, WorkflowError::TaskFailed(m)) && id
            == task_id && m@ == task_error_text(e)),
{
    match outcome {
        Ok(_) => LayerTaskOutcome::Completed(task_id, name),
        Err(e) => LayerTaskOutcome::Failed(task_id, WorkflowError::TaskFailed(e.to_display_string())),
    }
}

/// The error a parallel layer that ran past its deadlock timeout ends the
/// run with: a resource deadlock naming the layer and the timeout, which
/// the workflow reports as a timeout.
pub fn layer_deadlock_error(layer_index: usize, timeout_secs: u64) -> (r: WorkflowError)
    ensures
        r == WorkflowError::Timeout(TimeoutError::WorkflowTimeout { timeout_secs: RESOURCE_DEADLOCK_TIMEOUT_SECS }),
{
    let mut m = "Layer ".to_string();
    push_decimal(&mut m, layer_index);
    m.append(" exceeded deadlock timeout of ");
    let secs = decimal_u128(timeout_secs as u128);
    m.append(secs.as_str());
    m.append(" seconds");
    DeadlockError::ResourceDeadlock(m).to_workflow_error()
}

/// Some summary in `sums` has identifier `x`.
pub open spec fn lists_summary_id(sums: Seq<TaskSummary>, x: Seq<char>) -> bool {
    exists|i: int| 0 <= i < sums.len() && #[trigger] sums[i].id@ == x
}

/// Appending `t` adds exactly its identifier.
proof fn lemma_lists_id_push(s: Seq<TaskId>, t: TaskId, x: Seq<char>)
    ensures
        lists_id(s.push(t), x) <==> lists_id(s, x) || t@ == x,
{
    let s1 = s.push(t);
    if lists_id(s, x) {
        let k = choose|k: int| 0 <= k < s.len() && #[trigger] s[k]@ == x;
        assert(s1[k] == s[k]);
    }
    if t@ == x {
        assert(s1[s.len() as int] == t);
    }
    if lists_id(s1, x) {
        let k = choose|k: int| 0 <= k < s1.len() && #[trigger] s1[k]@ == x;
        if k < s.len() {
            assert(s1[k] == s[k]);
        }
    }
}

/// Appending `t` adds exactly its identifier.
proof fn lemma_lists_summary_push(s: Seq<TaskSummary>, t: TaskSummary, x: Seq<char>)
    ensures
        lists_summary_id(s.push(t), x) <==> lists_summary_id(s, x) || t.id@ == x,
{
    let s1 = s.push(t);
    if lists_summary_id(s, x) {
        let k = choose|k: int| 0 <= k < s.len() && #[trigger] s[k].id@ == x;
        assert(s1[k] == s[k]);
        assert(s1[k].id@ == x);
        assert(lists_summary_id(s1, x));
    }
    if t.id@ == x {
        assert(s1[s.len() as int] == t);
        assert(s1[s.len() as int].id@ == x);
        assert(lists_summary_id(s1, x));
    }
    if lists_summary_id(s1, x) {
        let k = choose|k: int| 0 <= k < s1.len() && #[trigger] s1[k].id@ == x;
        if k < s.len() {
            assert(s1[k] == s[k]);
            assert(s[k].id@ == x);
            assert(lists_summary_id(s, x));
        } else {
            assert(s1[k] == t);
        }
    }
}

/// Whether an identifier equal to `id` occurs in `v`.
fn contains_id(v: &Vec<TaskId>, id: &TaskId) -> (r: bool)
    ensures
        r == lists_id(v@, id@),
{
    let mut i: usize = 0;
    while i < v.len()
        invariant
            i <= v@.len(),
            forall|k: int| 0 <= k < i ==> #[trigger] v@[k]@ != id@,
        decreases v@.len() - i,
    {
        if v[i] == *id {
            return true;
        }
        i = i + 1;
    }
    false
}

} // verus!
