use forge_agent::cancellation::CancellationTokenSource;
use forge_agent::task::TaskContext;
use std::time::Duration;
use forge_agent::task::{CompensationAction, CompensationType, Dependency, TaskError, TaskId, TaskResult};
use std::collections::HashSet;

#[test]
fn test_task_id_equality() {
    let id1 = TaskId::new("task-1");
    let id2 = TaskId::new("task-1");
    let id3 = TaskId::new("task-2");

    assert_eq!(id1, id2);
    assert_ne!(id1, id3);
}

#[test]
fn test_task_id_hash() {
    let mut set = HashSet::new();

    set.insert(TaskId::new("task-1"));
    set.insert(TaskId::new("task-1"));
    set.insert(TaskId::new("task-2"));

    assert_eq!(set.len(), 2);
}

#[test]
fn test_task_id_from_string() {
    let id1: TaskId = "task-1".into();
    let id2: TaskId = TaskId::from(String::from("task-1"));

    assert_eq!(id1, id2);
    assert_eq!(id1.as_str(), "task-1");
}

#[test]
fn test_task_id_display() {
    let id = TaskId::new("task-1");
    assert_eq!(id.to_display_string(), "task-1");
}

#[test]
fn test_dependency_variants() {
    let hard = Dependency::Hard;
    let soft = Dependency::Soft;

    assert_ne!(hard, soft);
}

#[test]
fn test_task_result_variants() {
    let success = TaskResult::Success;
    let failed = TaskResult::Failed("error".to_string());
    let skipped = TaskResult::Skipped;

    assert_eq!(success, TaskResult::Success);
    assert_eq!(failed, TaskResult::Failed("error".to_string()));
    assert_eq!(skipped, TaskResult::Skipped);
}

#[test]
fn task_id_into_inner_and_new_compensation() {
    assert_eq!(TaskId::new("x").into_inner(), "x".to_string());
    let c = CompensationAction::new(CompensationType::Skip, "nothing");
    assert_eq!(c.action_type, CompensationType::Skip);
    assert_eq!(c.description, "nothing");
    assert_eq!(c.clone(), c);
}

#[test]
fn task_error_messages() {
    assert_eq!(TaskError::ExecutionFailed("boom".to_string()).to_display_string(), "Task execution failed: boom");
    assert_eq!(
        TaskError::DependencyFailed { dependency: "a".to_string(), reason: "gone".to_string() }.to_display_string(),
        "Dependency a failed: gone"
    );
    assert_eq!(TaskError::Skipped("why".to_string()).to_display_string(), "Task skipped: why");
    assert_eq!(TaskError::Timeout("5s".to_string()).to_display_string(), "Task timeout: 5s");
}

#[test]
fn test_context_without_cancellation_token() {
    let task_id = TaskId::new("task-1");
    let context = TaskContext::new("workflow-1", task_id);

    // Cancellation token should be None by default
    assert!(context.cancellation_token().is_none());
}

#[test]
fn test_context_with_cancellation_token() {
    let task_id = TaskId::new("task-1");
    let source = CancellationTokenSource::new();
    let token = source.token();

    let context = TaskContext::new("workflow-1", task_id).with_cancellation_token(token.clone());

    // Cancellation token should be accessible
    assert!(context.cancellation_token().is_some());
    let retrieved_token = context.cancellation_token().unwrap();
    assert!(!retrieved_token.is_cancelled());

    // Cancel source
    source.cancel();

    // Retrieved token should see cancellation
    assert!(retrieved_token.is_cancelled());
}

#[test]
fn test_context_builder_pattern() {
    let task_id = TaskId::new("task-1");
    let source = CancellationTokenSource::new();

    let context = TaskContext::new("workflow-1", task_id).with_cancellation_token(source.token());

    assert!(context.cancellation_token().is_some());
    assert_eq!(context.workflow_id, "workflow-1");
}

#[test]
fn test_context_without_task_timeout() {
    let task_id = TaskId::new("task-1");
    let context = TaskContext::new("workflow-1", task_id);

    // Task timeout should be None by default
    assert!(context.task_timeout().is_none());
}

#[test]
fn test_context_with_task_timeout() {
    let task_id = TaskId::new("task-1");
    let timeout = Duration::from_secs(30);

    let context = TaskContext::new("workflow-1", task_id).with_task_timeout(timeout);

    // Task timeout should be accessible
    assert!(context.task_timeout().is_some());
    assert_eq!(context.task_timeout().unwrap(), timeout);
}

#[test]
fn test_context_task_timeout_accessor() {
    let task_id = TaskId::new("task-1");
    let timeout = Duration::from_millis(5000);

    let context = TaskContext::new("workflow-1", task_id).with_task_timeout(timeout);

    // Verify accessor returns correct value
    assert_eq!(context.task_timeout, Some(timeout));
    assert_eq!(context.task_timeout().unwrap(), Duration::from_millis(5000));
}

#[test]
fn context_keeps_its_task_and_workflow() {
    let context = TaskContext::new("workflow-1", TaskId::new("task-1"));
    assert_eq!(context.workflow_id, "workflow-1");
    assert_eq!(context.task_id, TaskId::new("task-1"));
}
