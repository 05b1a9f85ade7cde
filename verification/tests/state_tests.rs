use forge_agent::dag::{TaskNode, Workflow};
use forge_agent::executor::WorkflowExecutor;
use forge_agent::state::{ConcurrentState, TaskStatus, TaskSummary, WorkflowState, WorkflowStatus};
use forge_agent::task::TaskId;

#[test]
fn test_concurrent_state_creation() {
    let state = WorkflowState::new("workflow-1");
    let concurrent = ConcurrentState::new(state);

    let reader = concurrent.shared().read().unwrap();
    assert_eq!(reader.workflow_id, "workflow-1");
    assert_eq!(reader.status, WorkflowStatus::Pending);
}

#[test]
fn test_concurrent_state_clone_is_cheap() {
    let state = WorkflowState::new("workflow-1");
    let concurrent = ConcurrentState::new(state);

    let cloned = concurrent.clone();
    assert_eq!(concurrent.ref_count(), 2);

    let _cloned2 = cloned.clone();
    assert_eq!(concurrent.ref_count(), 3);
}

#[test]
fn test_concurrent_read_write() {
    let state = WorkflowState::new("workflow-1");
    let concurrent = ConcurrentState::new(state);

    {
        let reader = concurrent.shared().read().unwrap();
        assert_eq!(reader.status, WorkflowStatus::Pending);
    }

    {
        let mut writer = concurrent.shared().write().unwrap();
        writer.status = WorkflowStatus::Completed;
    }

    {
        let reader = concurrent.shared().read().unwrap();
        assert_eq!(reader.status, WorkflowStatus::Completed);
    }
}

#[test]
fn test_try_read_write() {
    let state = WorkflowState::new("workflow-1");
    let concurrent = ConcurrentState::new(state);

    assert!(concurrent.try_read().is_some());

    assert!(concurrent.try_write().is_some());
}

#[test]
fn test_task_summary_creation() {
    let summary = TaskSummary::new("task-1", "Task 1", TaskStatus::Pending);
    assert_eq!(summary.id, "task-1");
    assert_eq!(summary.name, "Task 1");
    assert_eq!(summary.status, TaskStatus::Pending);
}

#[test]
fn test_workflow_state_creation() {
    let state = WorkflowState::new("workflow-1");
    assert_eq!(state.workflow_id, "workflow-1");
    assert_eq!(state.status, WorkflowStatus::Pending);
    assert!(state.completed_tasks.is_empty());
    assert!(state.pending_tasks.is_empty());
    assert!(state.failed_tasks.is_empty());
}

#[test]
fn test_workflow_state_builder() {
    let state = WorkflowState::new("workflow-1")
        .with_status(WorkflowStatus::Running)
        .with_completed_task(TaskSummary::new("task-1", "Task 1", TaskStatus::Completed))
        .with_pending_task(TaskSummary::new("task-2", "Task 2", TaskStatus::Pending));

    assert_eq!(state.status, WorkflowStatus::Running);
    assert_eq!(state.completed_tasks.len(), 1);
    assert_eq!(state.pending_tasks.len(), 1);
}

#[test]
fn test_task_status_equality() {
    assert_eq!(TaskStatus::Pending, TaskStatus::Pending);
    assert_ne!(TaskStatus::Pending, TaskStatus::Running);
    assert_eq!(WorkflowStatus::Completed, WorkflowStatus::Completed);
    assert_ne!(WorkflowStatus::Completed, WorkflowStatus::Failed);
}

#[test]
fn test_workflow_state_snapshot() {
    let mut workflow = Workflow::new();
    workflow.add_task(TaskNode::new("task-1", "Task 1"));
    workflow.add_task(TaskNode::new("task-2", "Task 2"));
    workflow.add_task(TaskNode::new("task-3", "Task 3"));

    let executor = WorkflowExecutor::new(workflow);
    let state = executor.state("tx");

    // Before execution, all tasks are pending
    assert_eq!(state.status, WorkflowStatus::Pending);
    assert_eq!(state.pending_tasks.len(), 3);
    assert_eq!(state.completed_tasks.len(), 0);
}

#[test]
fn state_snapshot_tracks_progress() {
    let mut workflow = Workflow::new();
    workflow.add_task(TaskNode::new("a", "Task A"));
    workflow.add_task(TaskNode::new("b", "Task B"));
    let mut executor = WorkflowExecutor::new(workflow);
    executor.mark_task_completed(TaskId::new("a"));
    let state = executor.state("42");
    assert_eq!(state.workflow_id, "workflow-42");
    assert_eq!(state.status, WorkflowStatus::Running);
    assert_eq!(state.completed_tasks.len(), 1);
    assert_eq!(state.completed_tasks[0].id, "a");
    assert_eq!(state.completed_tasks[0].name, "Task A");
    assert_eq!(state.completed_tasks[0].status, TaskStatus::Completed);
    assert_eq!(state.pending_tasks.len(), 1);
    assert_eq!(state.pending_tasks[0].id, "b");
    assert!(state.current_task.is_none());

    executor.mark_task_completed(TaskId::new("b"));
    assert_eq!(executor.state("42").status, WorkflowStatus::Completed);

    executor.mark_task_failed(TaskId::new("ghost"));
    let state = executor.state("42");
    assert_eq!(state.status, WorkflowStatus::Failed);
    assert_eq!(state.failed_tasks[0].name, "Unknown");
    assert!(state.pending_tasks.is_empty());
}

#[test]
fn parallel_result_status() {
    assert_eq!(TaskStatus::from_parallel_result(true), TaskStatus::Completed);
    assert_eq!(TaskStatus::from_parallel_result(false), TaskStatus::Failed);
}

#[test]
fn state_builders_set_current_and_failed() {
    let state = WorkflowState::new("w")
        .with_current_task(TaskSummary::new("t", "T", TaskStatus::Running))
        .with_failed_task(TaskSummary::new("f", "F", TaskStatus::Failed));
    assert_eq!(state.current_task.unwrap().id, "t");
    assert_eq!(state.failed_tasks.len(), 1);
}
