use forge_agent::checkpoint::{CheckpointId, WorkflowCheckpoint};
use forge_agent::checkpoint_service::WorkflowCheckpointService;
use forge_agent::dag::{TaskNode, TimeoutError, Workflow, WorkflowError};
use forge_agent::executor::{
    layer_deadlock_error, layer_task_outcome, task_outcome_error, LayerStep, LayerTaskOutcome, ResumePlan, RunStep, WorkflowExecutor,
};
use forge_agent::audit::AuditEvent;
use forge_agent::rollback::{RollbackEngine, RollbackError, RollbackStrategy};
use forge_agent::task::{TaskError, TaskId, TaskResult};

fn chain() -> Workflow {
    let mut workflow = Workflow::new();
    workflow.add_task(TaskNode::new("a", "Task A"));
    workflow.add_task(TaskNode::new("b", "Task B"));
    workflow.add_task(TaskNode::new("c", "Task C"));
    workflow.add_dependency(TaskId::new("a"), TaskId::new("b")).unwrap();
    workflow.add_dependency(TaskId::new("b"), TaskId::new("c")).unwrap();
    workflow
}

fn ids(v: &[&str]) -> Vec<TaskId> {
    v.iter().map(|s| TaskId::new(s)).collect()
}

#[test]
fn next_step_runs_the_order_then_finishes() {
    let mut executor = WorkflowExecutor::new(chain());
    let order = executor.execution_order().unwrap();
    assert_eq!(order, ids(&["a", "b", "c"]));

    for (position, expected) in ["a", "b", "c"].iter().enumerate() {
        match executor.next_step(&order, position, false) {
            RunStep::Execute(id) => assert_eq!(id, TaskId::new(expected)),
            RunStep::Finish(_) => panic!("run ended early"),
        }
        executor.mark_task_completed(TaskId::new(expected));
    }
    match executor.next_step(&order, 3, false) {
        RunStep::Finish(result) => {
            assert!(result.success);
            assert_eq!(result.completed_tasks, ids(&["a", "b", "c"]));
            assert!(result.failed_tasks.is_empty());
            assert!(result.error.is_none());
        }
        RunStep::Execute(_) => panic!("nothing is left to run"),
    }
}

#[test]
fn next_step_stops_on_cancellation() {
    let mut executor = WorkflowExecutor::new(chain());
    executor.mark_task_completed(TaskId::new("a"));
    let order = executor.execution_order().unwrap();
    match executor.next_step(&order, 1, true) {
        RunStep::Finish(result) => {
            assert!(!result.success);
            assert_eq!(result.completed_tasks, ids(&["a"]));
            assert_eq!(result.error.as_deref(), Some("Workflow cancelled"));
            assert!(result.rollback_report.is_none());
        }
        RunStep::Execute(_) => panic!("a cancelled run runs nothing"),
    }
}

#[test]
fn task_failure_rolls_back_dependents() {
    let mut executor = WorkflowExecutor::new(chain());
    executor.mark_task_completed(TaskId::new("a"));
    let error = WorkflowError::TaskFailed("boom".to_string());
    let result = executor.task_failure_result(&TaskId::new("b"), &error).unwrap();
    assert!(!result.success);
    assert_eq!(result.completed_tasks, ids(&["a"]));
    assert_eq!(result.failed_tasks, ids(&["b"]));
    assert_eq!(result.error.as_deref(), Some("Task execution failed: boom"));
    let report = result.rollback_report.unwrap();
    assert_eq!(report.rolled_back_tasks, ids(&["c", "b"]));
    assert!(report.skipped_tasks.is_empty());
    assert!(report.failed_compensations.is_empty());
}

#[test]
fn task_failure_with_failed_only_rolls_back_one_task() {
    let mut executor = WorkflowExecutor::new(chain()).with_rollback_strategy(RollbackStrategy::FailedOnly);
    let error = WorkflowError::TaskNotFound(TaskId::new("x"));
    let result = executor.task_failure_result(&TaskId::new("a"), &error).unwrap();
    assert_eq!(result.error.as_deref(), Some("Task not found: x"));
    assert_eq!(result.rollback_report.unwrap().rolled_back_tasks, ids(&["a"]));
}

#[test]
fn failure_of_an_unknown_task_is_task_not_found() {
    let mut executor = WorkflowExecutor::new(chain());
    let error = WorkflowError::EmptyWorkflow;
    match executor.task_failure_result(&TaskId::new("zzz"), &error) {
        Err(WorkflowError::TaskNotFound(id)) => assert_eq!(id, TaskId::new("zzz")),
        _ => panic!("expected task not found"),
    }
}

#[test]
fn settle_layer_records_completions_and_last_failure() {
    let mut executor = WorkflowExecutor::new(chain());
    let outcomes = vec![
        LayerTaskOutcome::Completed(TaskId::new("a"), "Task A".to_string()),
        LayerTaskOutcome::Panicked(TaskId::new("c")),
        LayerTaskOutcome::Completed(TaskId::new("b"), "Task B".to_string()),
        LayerTaskOutcome::Failed(TaskId::new("c"), WorkflowError::TaskFailed("x".to_string())),
        LayerTaskOutcome::Completed(TaskId::new("a"), "Task A".to_string()),
    ];
    let failure = executor.settle_layer(0, outcomes).unwrap();
    assert_eq!(failure.0, TaskId::new("c"));
    assert_eq!(failure.1, "Task execution failed");
    assert_eq!(executor.completed_task_ids(), ids(&["a", "b"]));

    let failure = executor
        .settle_layer(1, vec![
            LayerTaskOutcome::Failed(TaskId::new("b"), WorkflowError::EmptyWorkflow),
            LayerTaskOutcome::Panicked(TaskId::new("c")),
        ])
        .unwrap();
    assert_eq!(failure.0, TaskId::new("c"));
    assert_eq!(failure.1, "Task panicked");
}

#[test]
fn settle_layer_of_successes_reports_nothing() {
    let mut executor = WorkflowExecutor::new(chain());
    let message = executor.settle_layer(0, vec![
        LayerTaskOutcome::Completed(TaskId::new("a"), "Task A".to_string()),
        LayerTaskOutcome::Completed(TaskId::new("c"), "Task C".to_string()),
    ]);
    assert!(message.is_none());
    assert_eq!(executor.completed_task_ids(), ids(&["a", "c"]));
    assert!(executor.settle_layer(2, Vec::new()).is_none());
}

#[test]
fn layer_failure_is_reported_under_the_failed_task() {
    let mut executor = WorkflowExecutor::new(diamond_layer());
    let failure = executor
        .settle_layer(1, vec![
            LayerTaskOutcome::Completed(TaskId::new("x"), "Task X".to_string()),
            LayerTaskOutcome::Failed(TaskId::new("y"), WorkflowError::TaskFailed("boom".to_string())),
        ])
        .unwrap();
    let result = executor.rollback_result(failure.0, failure.1).unwrap();
    assert!(!result.success);
    assert_eq!(result.failed_tasks, ids(&["y"]));
    assert_eq!(result.completed_tasks, ids(&["x"]));
    assert_eq!(result.error.as_deref(), Some("Task execution failed"));
    assert!(result.rollback_report.is_some());
}

#[test]
fn failed_results_and_errors_stop_the_run() {
    assert!(task_outcome_error(&Ok(TaskResult::Success)).is_none());
    assert!(task_outcome_error(&Ok(TaskResult::Skipped)).is_none());
    match task_outcome_error(&Ok(TaskResult::Failed("Task failed".to_string()))) {
        Some(WorkflowError::TaskFailed(m)) => assert_eq!(m, "Task failed"),
        _ => panic!("a failed result stops the run"),
    }
    match task_outcome_error(&Err(TaskError::ExecutionFailed("io".to_string()))) {
        Some(WorkflowError::TaskFailed(m)) => assert_eq!(m, "Task execution failed: io"),
        _ => panic!("an error stops the run"),
    }
}

fn diamond_layer() -> Workflow {
    let mut w = Workflow::new();
    w.add_task(TaskNode::new("x", "Task X"));
    w.add_task(TaskNode::new("y", "Task Y"));
    w
}

#[test]
fn deadlock_timeout_becomes_workflow_timeout() {
    match layer_deadlock_error(2, 30) {
        WorkflowError::Timeout(TimeoutError::WorkflowTimeout { timeout_secs }) => assert_eq!(timeout_secs, 300),
        _ => panic!("expected a workflow timeout"),
    }
}

#[test]
fn rollback_report_lists_the_tasks() {
    let engine = RollbackEngine::new();
    let workflow = chain();
    let report = engine.rollback_report(&workflow, ids(&["c", "b"])).unwrap();
    assert_eq!(report.rolled_back_tasks, ids(&["c", "b"]));
    assert_eq!(report.total_processed(), 2);
    match engine.rollback_report(&workflow, ids(&["c", "q", "r"])) {
        Err(RollbackError::TaskNotFound(id)) => assert_eq!(id, TaskId::new("q")),
        _ => panic!("expected the first unknown task"),
    }
}

#[test]
fn create_checkpoint_stores_progress_and_advances() {
    let service = WorkflowCheckpointService::new_default();
    let mut executor = WorkflowExecutor::new(chain()).with_checkpoint_service(service);
    executor.mark_task_completed(TaskId::new("a"));
    assert!(executor.create_checkpoint("run-1", 0).is_ok());
    assert_eq!(executor.checkpoint_sequence(), 1);

    let latest = executor.checkpoint_service().unwrap().get_latest("run-1").unwrap().unwrap();
    assert_eq!(latest.sequence, 0);
    assert_eq!(latest.current_position, 0);
    assert_eq!(latest.completed_tasks, ids(&["a"]));
    assert_eq!(latest.total_tasks, 3);
    assert!(executor.can_resume("run-1"));
    assert!(!executor.can_resume("run-2"));
}

#[test]
fn create_checkpoint_without_service_does_nothing() {
    let mut executor = WorkflowExecutor::new(chain());
    assert!(executor.create_checkpoint("run-1", 0).is_ok());
    assert_eq!(executor.checkpoint_sequence(), 0);
    assert!(!executor.can_resume("run-1"));
    match executor.latest_checkpoint("run-1") {
        Err(WorkflowError::CheckpointNotFound(m)) => assert_eq!(m, "No checkpoint service configured"),
        _ => panic!("expected checkpoint not found"),
    }
}

#[test]
fn missing_checkpoints_are_named() {
    let executor = WorkflowExecutor::new(chain()).with_checkpoint_service(WorkflowCheckpointService::new_default());
    match executor.latest_checkpoint("run-9") {
        Err(WorkflowError::CheckpointNotFound(m)) => assert_eq!(m, "No checkpoint found for workflow: run-9"),
        _ => panic!("expected checkpoint not found"),
    }
    let id = CheckpointId(1);
    match executor.checkpoint_by_id(&id) {
        Err(WorkflowError::CheckpointNotFound(m)) => {
            assert_eq!(m, "Checkpoint not found: 00000000-0000-0000-0000-000000000001")
        }
        _ => panic!("expected checkpoint not found"),
    }
}

#[test]
fn resume_plan_continues_after_the_checkpoint() {
    let mut source = WorkflowExecutor::new(chain()).with_checkpoint_service(WorkflowCheckpointService::new_default());
    source.mark_task_completed(TaskId::new("a"));
    source.create_checkpoint("run-1", 0).unwrap();
    let checkpoint = source.latest_checkpoint("run-1").unwrap();

    let mut resumed = WorkflowExecutor::new(chain());
    match resumed.resume_plan(&checkpoint).unwrap() {
        ResumePlan::Continue(order, start) => {
            assert_eq!(order, ids(&["a", "b", "c"]));
            assert_eq!(start, 1);
        }
        ResumePlan::Done(_) => panic!("tasks are left"),
    }
    assert_eq!(resumed.completed_task_ids(), ids(&["a"]));
    assert_eq!(resumed.checkpoint_sequence(), 1);
}

#[test]
fn resume_plan_of_a_finished_run_is_done() {
    let mut source = WorkflowExecutor::new(chain());
    for t in ["a", "b", "c"] {
        source.mark_task_completed(TaskId::new(t));
    }
    let checkpoint = WorkflowCheckpoint::from_executor("run-1", 4, &source, 2);
    let mut resumed = WorkflowExecutor::new(chain());
    match resumed.resume_plan(&checkpoint).unwrap() {
        ResumePlan::Done(result) => {
            assert!(result.success);
            assert_eq!(result.completed_tasks, ids(&["a", "b", "c"]));
        }
        ResumePlan::Continue(..) => panic!("nothing is left"),
    }
    assert_eq!(resumed.checkpoint_sequence(), 5);
}

#[test]
fn resume_plan_refuses_a_corrupted_checkpoint() {
    let source = WorkflowExecutor::new(chain());
    let mut checkpoint = WorkflowCheckpoint::from_executor("run-1", 0, &source, 0);
    checkpoint.checksum = "bad".to_string();
    let mut resumed = WorkflowExecutor::new(chain());
    assert!(matches!(resumed.resume_plan(&checkpoint), Err(WorkflowError::CheckpointCorrupted(_))));
    assert_eq!(resumed.checkpoint_sequence(), 0);
}

#[test]
fn workflow_error_messages() {
    assert_eq!(WorkflowError::EmptyWorkflow.to_display_string(), "Workflow cannot be empty");
    assert_eq!(WorkflowError::TaskNotFound(TaskId::new("t")).to_display_string(), "Task not found: t");
    assert_eq!(WorkflowError::MissingDependency(TaskId::new("d")).to_display_string(), "Missing dependency: d");
    assert_eq!(
        WorkflowError::CheckpointCorrupted("x".to_string()).to_display_string(),
        "Checkpoint corrupted: x"
    );
    assert_eq!(WorkflowError::CheckpointNotFound("y".to_string()).to_display_string(), "Checkpoint not found: y");
    assert_eq!(
        WorkflowError::WorkflowChanged("z".to_string()).to_display_string(),
        "Workflow structure changed: z"
    );
    assert_eq!(WorkflowError::TaskFailed("f".to_string()).to_display_string(), "Task execution failed: f");
    assert_eq!(
        WorkflowError::CycleDetected(ids(&["a", "b\"c"])).to_display_string(),
        "Cycle detected in workflow involving tasks: [TaskId(\"a\"), TaskId(\"b\\\"c\")]"
    );
    assert_eq!(
        WorkflowError::CycleDetected(Vec::new()).to_display_string(),
        "Cycle detected in workflow involving tasks: []"
    );
    assert_eq!(
        WorkflowError::Timeout(TimeoutError::WorkflowTimeout { timeout_secs: 300 }).to_display_string(),
        "Timeout: Workflow timed out after 300s"
    );
    assert_eq!(
        WorkflowError::Timeout(TimeoutError::TaskTimeout { task_id: "t1".to_string(), timeout_secs: 5 })
            .to_display_string(),
        "Timeout: Task t1 timed out after 5s"
    );
}

#[test]
fn cycle_message_matches_debug_format() {
    let list = ids(&["x", "y"]);
    let expected = format!("Cycle detected in workflow involving tasks: {:?}", list);
    assert_eq!(WorkflowError::CycleDetected(list).to_display_string(), expected);
}

#[test]
fn a_task_that_reports_failure_stops_the_run() {
    let mut executor = WorkflowExecutor::new(chain());
    assert!(executor.settle_task(&TaskId::new("a"), &Ok(TaskResult::Success)).unwrap().is_none());
    let failed = Ok(TaskResult::Failed("Task failed".to_string()));
    let result = executor.settle_task(&TaskId::new("b"), &failed).unwrap().unwrap();
    assert!(!result.success);
    assert_eq!(result.failed_tasks, ids(&["b"]));
    assert_eq!(result.completed_tasks, ids(&["a"]));
    assert_eq!(result.error.as_deref(), Some("Task execution failed: Task failed"));
    assert_eq!(result.rollback_report.unwrap().rolled_back_tasks, ids(&["c", "b"]));
    assert_eq!(executor.completed_task_ids(), ids(&["a"]));
    let err = Err(TaskError::ExecutionFailed("x".to_string()));
    let result = executor.settle_task(&TaskId::new("c"), &err).unwrap().unwrap();
    assert_eq!(result.error.as_deref(), Some("Task execution failed: Task execution failed: x"));
}

fn diamond4() -> Workflow {
    let mut workflow = Workflow::new();
    for id in ["a", "b", "c", "d"] {
        workflow.add_task(TaskNode::new(id, id));
    }
    workflow.add_dependency(TaskId::new("a"), TaskId::new("b")).unwrap();
    workflow.add_dependency(TaskId::new("a"), TaskId::new("c")).unwrap();
    workflow.add_dependency(TaskId::new("b"), TaskId::new("d")).unwrap();
    workflow.add_dependency(TaskId::new("c"), TaskId::new("d")).unwrap();
    workflow
}

#[test]
fn parallel_diamond_records_each_layer() {
    let mut executor = WorkflowExecutor::new(diamond4());
    executor.start_run();
    let layers = executor.workflow().execution_layers().unwrap();
    let mut index = 0;
    let result = loop {
        match executor.next_layer(&layers, index, false) {
            LayerStep::Finish(result) => break result,
            LayerStep::Run(layer) => {
                let outcomes =
                    layer.iter().map(|id| LayerTaskOutcome::Completed(id.clone(), id.as_str().to_string())).collect();
                assert!(executor.settle_layer(index, outcomes).is_none());
            }
        }
        index += 1;
    };
    assert!(result.success);
    assert_eq!(result.completed_tasks.len(), 4);
    let events = executor.audit_log().replay();
    let started: Vec<(usize, usize)> = events
        .iter()
        .filter_map(|e| match e {
            AuditEvent::WorkflowTaskParallelStarted { layer_index, task_count, .. } => Some((*layer_index, *task_count)),
            _ => None,
        })
        .collect();
    assert_eq!(started, vec![(0, 1), (1, 2), (2, 1)]);
    assert!(matches!(events[0], AuditEvent::WorkflowStarted { task_count: 4, .. }));
    assert!(matches!(events.last().unwrap(), AuditEvent::WorkflowCompleted { total_tasks: 4, completed_tasks: 4, .. }));
    let id = executor.audit_log().tx_id().clone();
    assert!(events.iter().all(|e| match e {
        AuditEvent::WorkflowStarted { workflow_id, .. } => *workflow_id == id,
        _ => true,
    }));
}

#[test]
fn cancelled_run_records_the_cancellation() {
    let mut executor = WorkflowExecutor::new(chain());
    let order = executor.execution_order().unwrap();
    match executor.next_step(&order, 0, true) {
        RunStep::Finish(result) => assert!(result.completed_tasks.is_empty()),
        RunStep::Execute(_) => panic!("a cancelled run runs nothing"),
    }
    let events = executor.audit_log().replay();
    assert_eq!(events.len(), 2);
    assert!(matches!(events[0], AuditEvent::WorkflowCancelled { .. }));
    assert!(matches!(events[1], AuditEvent::WorkflowCompleted { total_tasks: 3, completed_tasks: 0, .. }));
}

#[test]
fn failed_task_records_the_rollback() {
    let mut executor = WorkflowExecutor::new(chain());
    let order = executor.execution_order().unwrap();
    assert!(matches!(executor.next_step(&order, 0, false), RunStep::Execute(_)));
    assert!(executor.settle_task(&TaskId::new("a"), &Ok(TaskResult::Success)).unwrap().is_none());
    let failed = Ok(TaskResult::Failed("Task failed".to_string()));
    executor.settle_task(&TaskId::new("b"), &failed).unwrap().unwrap();
    let events = executor.audit_log().replay();
    match &events[0] {
        AuditEvent::WorkflowTaskStarted { task_id, task_name, .. } => {
            assert_eq!(task_id, "a");
            assert_eq!(task_name, "Task A");
        }
        _ => panic!("expected the task start"),
    }
    assert!(matches!(&events[1], AuditEvent::WorkflowTaskCompleted { result, .. } if result == "Success"));
    let rolled: Vec<&String> = events
        .iter()
        .filter_map(|e| match e {
            AuditEvent::WorkflowTaskRolledBack { task_id, .. } => Some(task_id),
            _ => None,
        })
        .collect();
    assert_eq!(rolled, vec!["c", "b"]);
    assert!(events.iter().any(|e| matches!(e, AuditEvent::WorkflowRolledBack { rolled_back_tasks, .. } if rolled_back_tasks.len() == 2)));
    assert!(matches!(&events[events.len() - 2], AuditEvent::WorkflowTaskFailed { error, .. } if error == "Task execution failed: Task failed"));
    assert!(matches!(events.last().unwrap(), AuditEvent::WorkflowCompleted { completed_tasks: 1, .. }));
}

#[test]
fn timeout_is_recorded_under_the_task_name() {
    let mut executor = WorkflowExecutor::new(chain());
    executor.record_task_timeout(&TaskId::new("c"), 30);
    assert!(matches!(&executor.audit_log().replay()[0],
        AuditEvent::WorkflowTaskTimedOut { task_name, timeout_secs: 30, .. } if task_name == "Task C"));
}

#[test]
fn a_parallel_task_that_reports_failure_still_finishes() {
    let reported = layer_task_outcome(
        TaskId::new("a"),
        "Task A".to_string(),
        Ok(TaskResult::Failed("Task failed".to_string())),
    );
    assert!(matches!(&reported, LayerTaskOutcome::Completed(id, name) if *id == TaskId::new("a") && name == "Task A"));
    let errored = layer_task_outcome(
        TaskId::new("b"),
        "Task B".to_string(),
        Err(TaskError::ExecutionFailed("boom".to_string())),
    );
    match &errored {
        LayerTaskOutcome::Failed(id, WorkflowError::TaskFailed(m)) => {
            assert_eq!(*id, TaskId::new("b"));
            assert_eq!(m, "Task execution failed: boom");
        }
        _ => panic!("an error is a failure"),
    }
    let mut executor = WorkflowExecutor::new(chain());
    assert!(executor.settle_layer(0, vec![reported]).is_none());
    assert_eq!(executor.completed_task_ids(), ids(&["a"]));
    let failure = executor.settle_layer(1, vec![errored]).unwrap();
    assert_eq!(failure.0, TaskId::new("b"));
}
