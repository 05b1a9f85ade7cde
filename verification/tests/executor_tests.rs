use forge_agent::cancellation::CancellationTokenSource;
use forge_agent::checkpoint::WorkflowCheckpoint;
use forge_agent::dag::{TaskNode, Workflow, WorkflowError};
use forge_agent::executor::{WorkflowExecutor, WorkflowResult};
use forge_agent::rollback::{RollbackReport, RollbackStrategy};
use forge_agent::task::TaskId;

fn diamond() -> Workflow {
    let mut workflow = Workflow::new();
    for t in ["a", "b", "c", "d"] {
        workflow.add_task(TaskNode::new(t, &format!("Task {}", t.to_uppercase())));
    }
    workflow.add_dependency(TaskId::new("a"), TaskId::new("b")).unwrap();
    workflow.add_dependency(TaskId::new("a"), TaskId::new("c")).unwrap();
    workflow.add_dependency(TaskId::new("b"), TaskId::new("d")).unwrap();
    workflow.add_dependency(TaskId::new("c"), TaskId::new("d")).unwrap();
    workflow
}

#[test]
fn workflow_result_constructors() {
    let ok = WorkflowResult::new(vec![TaskId::new("a")]);
    assert!(ok.success);
    assert_eq!(ok.completed_tasks, vec![TaskId::new("a")]);
    assert!(ok.failed_tasks.is_empty());
    assert!(ok.error.is_none());

    let failed = WorkflowResult::new_failed(vec![], TaskId::new("b"), "boom".to_string());
    assert!(!failed.success);
    assert_eq!(failed.failed_tasks, vec![TaskId::new("b")]);
    assert_eq!(failed.error, Some("boom".to_string()));
    assert!(failed.rollback_report.is_none());

    let rolled = WorkflowResult::new_failed_with_rollback(vec![], TaskId::new("b"), "boom".to_string(), RollbackReport::new());
    assert!(rolled.rollback_report.is_some());

    let cancelled = WorkflowResult::new_cancelled(vec![TaskId::new("a")]);
    assert!(!cancelled.success);
    assert_eq!(cancelled.error, Some("Workflow cancelled".to_string()));
}

#[test]
fn executor_bookkeeping() {
    let mut executor = WorkflowExecutor::new(diamond());
    assert_eq!(executor.task_count(), 4);
    assert_eq!(executor.completed_count(), 0);
    assert_eq!(executor.rollback_strategy(), RollbackStrategy::AllDependent);
    executor.mark_task_completed(TaskId::new("a"));
    executor.mark_task_completed(TaskId::new("a"));
    assert_eq!(executor.completed_count(), 1);
    assert!(executor.is_task_completed(&TaskId::new("a")));
    assert!(!executor.is_task_completed(&TaskId::new("b")));
    executor.mark_task_failed(TaskId::new("b"));
    assert!(executor.is_task_failed(&TaskId::new("b")));
    assert_eq!(executor.failed_task_ids(), vec![TaskId::new("b")]);
    assert_eq!(executor.completed_task_ids(), vec![TaskId::new("a")]);
    assert_eq!(executor.task_ids().len(), 4);
    let order = executor.execution_order().unwrap();
    assert_eq!(order[0], TaskId::new("a"));
    assert_eq!(order[3], TaskId::new("d"));
}

#[test]
fn executor_rollback_set_follows_strategy() {
    let executor = WorkflowExecutor::new(diamond());
    let set = executor.rollback_set_for(&TaskId::new("b")).unwrap();
    assert_eq!(set, vec![TaskId::new("d"), TaskId::new("b")]);

    let executor = WorkflowExecutor::new(diamond()).with_rollback_strategy(RollbackStrategy::FailedOnly);
    assert_eq!(executor.rollback_set_for(&TaskId::new("b")).unwrap(), vec![TaskId::new("b")]);
    assert!(matches!(
        executor.rollback_set_for(&TaskId::new("zzz")),
        Err(WorkflowError::TaskNotFound(ref t)) if t == &TaskId::new("zzz")
    ));
}

#[test]
fn executor_restores_checkpoint_state() {
    let mut source = WorkflowExecutor::new(diamond());
    source.mark_task_completed(TaskId::new("a"));
    source.mark_task_completed(TaskId::new("b"));
    let checkpoint = WorkflowCheckpoint::from_executor("w", 7, &source, 1);

    let mut executor = WorkflowExecutor::new(diamond());
    executor.restore_checkpoint_state(&checkpoint).unwrap();
    assert_eq!(executor.completed_count(), 2);
    assert!(executor.is_task_completed(&TaskId::new("b")));
    assert_eq!(executor.checkpoint_sequence(), 8);
    // restoring twice gives the same state
    executor.restore_checkpoint_state(&checkpoint).unwrap();
    assert_eq!(executor.completed_count(), 2);
    assert_eq!(executor.resume_position(&checkpoint), Some(2));

    let mut other = Workflow::new();
    other.add_task(TaskNode::new("x", "X"));
    let mut wrong = WorkflowExecutor::new(other);
    assert!(wrong.restore_checkpoint_state(&checkpoint).is_err());
    assert_eq!(wrong.completed_count(), 0);
}

#[test]
fn resume_position_when_everything_completed() {
    let mut workflow = Workflow::new();
    workflow.add_task(TaskNode::new("a", "A"));
    let mut executor = WorkflowExecutor::new(workflow);
    executor.mark_task_completed(TaskId::new("a"));
    let checkpoint = WorkflowCheckpoint::from_executor("w", 0, &executor, 0);
    assert_eq!(executor.resume_position(&checkpoint), None);
    executor.advance_checkpoint_sequence();
    assert_eq!(executor.checkpoint_sequence(), 1);
}

fn single_task_workflow() -> Workflow {
    let mut workflow = Workflow::new();
    workflow.add_task(TaskNode::new("a", "Task A"));
    workflow
}

#[test]
fn executor_test_executor_without_cancellation_source() {
    let executor = WorkflowExecutor::new(single_task_workflow());
    assert!(executor.cancellation_token().is_none());
    executor.cancel();
}

#[test]
fn executor_test_executor_cancellation_token_access() {
    let source = CancellationTokenSource::new();
    let executor = WorkflowExecutor::new(single_task_workflow()).with_cancellation_source(source);
    assert!(executor.cancellation_token().is_some());
    let token = executor.cancellation_token().unwrap();
    assert!(!token.is_cancelled());
}

#[test]
fn tests_test_executor_without_cancellation_source() {
    let executor = WorkflowExecutor::new(single_task_workflow());
    assert!(executor.cancellation_token().is_none());
    executor.cancel();
}

#[test]
fn tests_test_executor_cancellation_token_access() {
    let source = CancellationTokenSource::new();
    let executor = WorkflowExecutor::new(single_task_workflow()).with_cancellation_source(source);
    assert!(executor.cancellation_token().is_some());
    let token = executor.cancellation_token().unwrap();
    assert!(!token.is_cancelled());
}

#[test]
fn cancellation_test_executor_without_cancellation_source() {
    let executor = WorkflowExecutor::new(single_task_workflow());
    assert!(executor.cancellation_token().is_none());
    executor.cancel();
}

#[test]
fn cancellation_test_executor_cancellation_token_access() {
    let source = CancellationTokenSource::new();
    let executor = WorkflowExecutor::new(single_task_workflow()).with_cancellation_source(source);
    assert!(executor.cancellation_token().is_some());
    let token = executor.cancellation_token().unwrap();
    assert!(!token.is_cancelled());
}

#[test]
fn executor_cancel_reaches_its_tokens() {
    let source = CancellationTokenSource::new();
    let executor = WorkflowExecutor::new(single_task_workflow()).with_cancellation_source(source);
    let token = executor.cancellation_token().unwrap();
    executor.cancel();
    assert!(token.is_cancelled());
    assert!(executor.cancellation_token().unwrap().is_cancelled());
}

#[test]
fn taken_checkpoint_validates_and_restores_on_its_workflow() {
    let mut executor = WorkflowExecutor::new(diamond());
    executor.mark_task_completed(TaskId::new("a"));
    executor.mark_task_completed(TaskId::new("b"));
    let checkpoint = WorkflowCheckpoint::from_executor("run-1", 4, &executor, 1);
    assert!(checkpoint.validate().is_ok());

    let mut fresh = WorkflowExecutor::new(diamond());
    fresh.restore_checkpoint_state(&checkpoint).unwrap();
    assert_eq!(fresh.completed_task_ids(), vec![TaskId::new("a"), TaskId::new("b")]);
    assert_eq!(fresh.checkpoint_sequence(), 5);
}
