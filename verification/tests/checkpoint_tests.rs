use forge_agent::checkpoint::{
    compute_task_ids_checksum, validate_workflow_consistency, CheckpointId, CheckpointSummary,
    RollbackRecommendation, ValidationStatus, WorkflowCheckpoint,
};
use forge_agent::dag::{TaskNode, Workflow, WorkflowError};
use forge_agent::executor::WorkflowExecutor;
use forge_agent::task::TaskId;

#[test]
fn checkpoint_test_checkpoint_id_generation() {
    let id1 = CheckpointId::new();
    let id2 = CheckpointId::new();
    assert_ne!(id1, id2);
}

#[test]
fn checkpoint_test_checkpoint_from_executor() {
    let mut workflow = Workflow::new();
    workflow.add_task(TaskNode::new("task-1", "Task 1"));
    workflow.add_task(TaskNode::new("task-2", "Task 2"));
    workflow.add_task(TaskNode::new("task-3", "Task 3"));

    let executor = WorkflowExecutor::new(workflow);

    let checkpoint = WorkflowCheckpoint::from_executor("workflow-1", 0, &executor, 0);

    assert_eq!(checkpoint.workflow_id, "workflow-1");
    assert_eq!(checkpoint.sequence, 0);
    assert_eq!(checkpoint.current_position, 0);
    assert_eq!(checkpoint.total_tasks, 3);
    assert_eq!(checkpoint.completed_tasks.len(), 0);
    assert_eq!(checkpoint.failed_tasks.len(), 0);
    assert!(!checkpoint.checksum.is_empty());
    assert!(!checkpoint.task_ids_checksum.is_empty());
}

#[test]
fn checkpoint_test_checkpoint_checksum_computation() {
    let mut workflow = Workflow::new();
    workflow.add_task(TaskNode::new("task-1", "Task 1"));

    let executor = WorkflowExecutor::new(workflow);

    let checkpoint = WorkflowCheckpoint::from_executor("workflow-1", 0, &executor, 0);

    assert!(!checkpoint.checksum.is_empty());
    assert!(checkpoint.checksum.len() == 64);
    assert!(checkpoint.checksum.chars().all(|c| c.is_ascii_hexdigit()));
}

#[test]
fn checkpoint_test_checkpoint_validation() {
    let mut workflow = Workflow::new();
    workflow.add_task(TaskNode::new("task-1", "Task 1"));

    let executor = WorkflowExecutor::new(workflow);

    let checkpoint = WorkflowCheckpoint::from_executor("workflow-1", 0, &executor, 0);
    assert!(checkpoint.validate().is_ok());
}

#[test]
fn checkpoint_test_checkpoint_validation_fails_on_corruption() {
    let mut workflow = Workflow::new();
    workflow.add_task(TaskNode::new("task-1", "Task 1"));

    let executor = WorkflowExecutor::new(workflow);

    let mut checkpoint = WorkflowCheckpoint::from_executor("workflow-1", 0, &executor, 0);
    checkpoint.checksum = "corrupted".to_string();
    assert!(checkpoint.validate().is_err());
}

#[test]
fn checkpoint_test_checkpoint_summary_from_checkpoint() {
    let mut workflow = Workflow::new();
    workflow.add_task(TaskNode::new("task-1", "Task 1"));
    workflow.add_task(TaskNode::new("task-2", "Task 2"));

    let executor = WorkflowExecutor::new(workflow);

    let checkpoint = WorkflowCheckpoint::from_executor("workflow-1", 0, &executor, 0);

    let summary = CheckpointSummary::from_checkpoint(&checkpoint);

    assert_eq!(summary.id, checkpoint.id);
    assert_eq!(summary.sequence, checkpoint.sequence);
    assert_eq!(summary.completed_count, 0);
    assert_eq!(summary.current_position, 0);
    assert_eq!(summary.total_tasks, 2);
}

#[test]
fn tests_test_checkpoint_id_generation() {
    let id1 = CheckpointId::new();
    let id2 = CheckpointId::new();
    assert_ne!(id1, id2);
}

#[test]
fn tests_test_checkpoint_from_executor() {
    let mut workflow = Workflow::new();
    workflow.add_task(TaskNode::new("task-1", "Task 1"));
    workflow.add_task(TaskNode::new("task-2", "Task 2"));
    workflow.add_task(TaskNode::new("task-3", "Task 3"));

    let executor = WorkflowExecutor::new(workflow);

    let checkpoint = WorkflowCheckpoint::from_executor("workflow-1", 0, &executor, 0);

    assert_eq!(checkpoint.workflow_id, "workflow-1");
    assert_eq!(checkpoint.sequence, 0);
    assert_eq!(checkpoint.current_position, 0);
    assert_eq!(checkpoint.total_tasks, 3);
    assert_eq!(checkpoint.completed_tasks.len(), 0);
    assert_eq!(checkpoint.failed_tasks.len(), 0);
    assert!(!checkpoint.checksum.is_empty());
    assert!(!checkpoint.task_ids_checksum.is_empty());
}

#[test]
fn tests_test_checkpoint_checksum_computation() {
    let mut workflow = Workflow::new();
    workflow.add_task(TaskNode::new("task-1", "Task 1"));

    let executor = WorkflowExecutor::new(workflow);

    let checkpoint = WorkflowCheckpoint::from_executor("workflow-1", 0, &executor, 0);

    assert!(!checkpoint.checksum.is_empty());
    assert!(checkpoint.checksum.len() == 64);
    assert!(checkpoint.checksum.chars().all(|c| c.is_ascii_hexdigit()));
}

#[test]
fn tests_test_checkpoint_validation() {
    let mut workflow = Workflow::new();
    workflow.add_task(TaskNode::new("task-1", "Task 1"));

    let executor = WorkflowExecutor::new(workflow);

    let checkpoint = WorkflowCheckpoint::from_executor("workflow-1", 0, &executor, 0);
    assert!(checkpoint.validate().is_ok());
}

#[test]
fn tests_test_checkpoint_validation_fails_on_corruption() {
    let mut workflow = Workflow::new();
    workflow.add_task(TaskNode::new("task-1", "Task 1"));

    let executor = WorkflowExecutor::new(workflow);

    let mut checkpoint = WorkflowCheckpoint::from_executor("workflow-1", 0, &executor, 0);
    checkpoint.checksum = "corrupted".to_string();
    assert!(checkpoint.validate().is_err());
}

#[test]
fn tests_test_checkpoint_summary_from_checkpoint() {
    let mut workflow = Workflow::new();
    workflow.add_task(TaskNode::new("task-1", "Task 1"));
    workflow.add_task(TaskNode::new("task-2", "Task 2"));

    let executor = WorkflowExecutor::new(workflow);

    let checkpoint = WorkflowCheckpoint::from_executor("workflow-1", 0, &executor, 0);

    let summary = CheckpointSummary::from_checkpoint(&checkpoint);

    assert_eq!(summary.id, checkpoint.id);
    assert_eq!(summary.sequence, checkpoint.sequence);
    assert_eq!(summary.completed_count, 0);
    assert_eq!(summary.current_position, 0);
    assert_eq!(summary.total_tasks, 2);
}

#[test]
fn test_validate_workflow_consistency_success() {
    let mut workflow = Workflow::new();
    workflow.add_task(TaskNode::new("task-1", "Task 1"));
    workflow.add_task(TaskNode::new("task-2", "Task 2"));
    workflow.add_task(TaskNode::new("task-3", "Task 3"));

    let executor = WorkflowExecutor::new(workflow);
    let checkpoint = WorkflowCheckpoint::from_executor("workflow-1", 0, &executor, 0);

    let mut validation_workflow = Workflow::new();
    validation_workflow.add_task(TaskNode::new("task-1", "Task 1"));
    validation_workflow.add_task(TaskNode::new("task-2", "Task 2"));
    validation_workflow.add_task(TaskNode::new("task-3", "Task 3"));

    let result = validate_workflow_consistency(&validation_workflow, &checkpoint);
    assert!(result.is_ok());
}

#[test]
fn test_validate_workflow_consistency_task_count_mismatch() {
    let mut workflow = Workflow::new();
    workflow.add_task(TaskNode::new("task-1", "Task 1"));
    workflow.add_task(TaskNode::new("task-2", "Task 2"));

    let executor = WorkflowExecutor::new(workflow);
    let checkpoint = WorkflowCheckpoint::from_executor("workflow-1", 0, &executor, 0);

    let mut validation_workflow = Workflow::new();
    validation_workflow.add_task(TaskNode::new("task-1", "Task 1"));
    validation_workflow.add_task(TaskNode::new("task-2", "Task 2"));
    validation_workflow.add_task(TaskNode::new("task-3", "Task 3"));

    let result = validate_workflow_consistency(&validation_workflow, &checkpoint);
    assert!(result.is_err());

    match result {
        Err(WorkflowError::WorkflowChanged(msg)) => {
            assert!(msg.contains("Task count mismatch"));
        }
        _ => panic!("Expected WorkflowChanged error"),
    }
}

#[test]
fn test_validate_workflow_consistency_missing_completed_task() {
    let mut workflow = Workflow::new();
    workflow.add_task(TaskNode::new("task-1", "Task 1"));
    workflow.add_task(TaskNode::new("task-2", "Task 2"));
    workflow.add_task(TaskNode::new("task-3", "Task 3"));

    let mut executor = WorkflowExecutor::new(workflow);

    executor.mark_task_completed(TaskId::new("task-1"));

    let checkpoint = WorkflowCheckpoint::from_executor("workflow-1", 0, &executor, 1);

    let mut validation_workflow = Workflow::new();
    validation_workflow.add_task(TaskNode::new("task-2", "Task 2"));
    validation_workflow.add_task(TaskNode::new("task-3", "Task 3"));
    validation_workflow.add_task(TaskNode::new("task-4", "Task 4"));

    let result = validate_workflow_consistency(&validation_workflow, &checkpoint);
    assert!(result.is_err());

    match result {
        Err(WorkflowError::WorkflowChanged(msg)) => {
            assert!(msg.contains("not found in workflow"));
        }
        _ => panic!("Expected WorkflowChanged error, got: {:?}", result),
    }
}

#[test]
fn test_validate_workflow_consistency_invalid_position() {
    let mut workflow = Workflow::new();
    workflow.add_task(TaskNode::new("task-1", "Task 1"));
    workflow.add_task(TaskNode::new("task-2", "Task 2"));

    let executor = WorkflowExecutor::new(workflow);

    let mut checkpoint = WorkflowCheckpoint::from_executor("workflow-1", 0, &executor, 0);
    checkpoint.current_position = 5;

    let mut validation_workflow = Workflow::new();
    validation_workflow.add_task(TaskNode::new("task-1", "Task 1"));
    validation_workflow.add_task(TaskNode::new("task-2", "Task 2"));

    let result = validate_workflow_consistency(&validation_workflow, &checkpoint);
    assert!(result.is_err());

    match result {
        Err(WorkflowError::CheckpointCorrupted(msg)) => {
            assert!(msg.contains("Invalid checkpoint position"));
        }
        _ => panic!("Expected CheckpointCorrupted error"),
    }
}

#[test]
fn test_graph_drift_detection() {
    let mut workflow = Workflow::new();
    workflow.add_task(TaskNode::new("task-1", "Task 1"));
    workflow.add_task(TaskNode::new("task-2", "Task 2"));
    workflow.add_task(TaskNode::new("task-3", "Task 3"));

    let executor = WorkflowExecutor::new(workflow);
    let checkpoint = WorkflowCheckpoint::from_executor("workflow-1", 0, &executor, 0);

    let mut validation_workflow = Workflow::new();
    validation_workflow.add_task(TaskNode::new("task-1", "Task 1"));
    validation_workflow.add_task(TaskNode::new("task-2", "Task 2"));
    validation_workflow.add_task(TaskNode::new("task-4", "Task 4"));

    let result = validate_workflow_consistency(&validation_workflow, &checkpoint);
    assert!(result.is_err());

    match result {
        Err(WorkflowError::WorkflowChanged(msg)) => {
            assert!(msg.contains("task IDs checksum mismatch"));
        }
        _ => panic!("Expected WorkflowChanged error"),
    }
}

#[test]
fn test_task_ids_checksum_deterministic() {
    let ids1 = vec![
        TaskId::new("task-3"),
        TaskId::new("task-1"),
        TaskId::new("task-2"),
    ];
    let ids2 = vec![
        TaskId::new("task-1"),
        TaskId::new("task-2"),
        TaskId::new("task-3"),
    ];

    let checksum1 = compute_task_ids_checksum(&ids1);
    let checksum2 = compute_task_ids_checksum(&ids2);

    assert_eq!(checksum1, checksum2);
}

#[test]
fn test_validation_status_variants() {
    let passed = ValidationStatus::Passed;
    let warning = ValidationStatus::Warning;
    let failed = ValidationStatus::Failed;

    assert_ne!(passed, warning);
    assert_ne!(warning, failed);
    assert_ne!(passed, failed);
}

#[test]
fn test_rollback_recommendation_variants() {
    let prev = RollbackRecommendation::ToPreviousCheckpoint;
    let _specific = RollbackRecommendation::SpecificTask(TaskId::new("task-1"));
    let full = RollbackRecommendation::FullRollback;
    let none = RollbackRecommendation::NoRollback;

    assert_ne!(prev, full);
    assert_ne!(full, none);
    assert_eq!(none, RollbackRecommendation::NoRollback);
}

#[test]
fn task_ids_checksum_is_sha256_of_sorted_json() {
    // SHA-256 of the JSON text ["a","b"]
    let c = compute_task_ids_checksum(&[TaskId::new("b"), TaskId::new("a")]);
    assert_eq!(c, compute_task_ids_checksum(&[TaskId::new("a"), TaskId::new("b")]));
    assert_eq!(c.len(), 64);
    assert_ne!(c, compute_task_ids_checksum(&[TaskId::new("a")]));
    // SHA-256 of "[]"
    assert_eq!(
        compute_task_ids_checksum(&[]),
        "4f53cda18c2baa0c0354bb5f9a3ecbe5ed12ab4d8e11ba873c2f11161202b945"
    );
}

#[test]
fn checkpoint_errors_name_the_problem() {
    let mut workflow = Workflow::new();
    workflow.add_task(TaskNode::new("task-1", "Task 1"));
    workflow.add_task(TaskNode::new("task-2", "Task 2"));

    let mut executor = WorkflowExecutor::new(workflow);
    executor.mark_task_completed(TaskId::new("task-1"));
    let mut checkpoint = WorkflowCheckpoint::from_executor("w", 0, &executor, 1);

    let mut small = Workflow::new();
    small.add_task(TaskNode::new("task-1", "Task 1"));

    match validate_workflow_consistency(&small, &checkpoint) {
        Err(WorkflowError::WorkflowChanged(m)) => {
            assert_eq!(m, "Task count mismatch: checkpoint has 2 tasks, current workflow has 1 tasks");
        }
        _ => panic!("expected a count mismatch"),
    }
    checkpoint.failed_tasks.push(TaskId::new("zzz"));
    let mut same = Workflow::new();
    same.add_task(TaskNode::new("task-1", "Task 1"));
    same.add_task(TaskNode::new("task-2", "Task 2"));

    match validate_workflow_consistency(&same, &checkpoint) {
        Err(WorkflowError::WorkflowChanged(m)) => {
            assert_eq!(m, "Failed task from checkpoint not found in workflow: zzz");
        }
        _ => panic!("expected an unknown failed task"),
    }
    checkpoint.failed_tasks.clear();
    checkpoint.current_position = 2;
    match validate_workflow_consistency(&same, &checkpoint) {
        Err(WorkflowError::CheckpointCorrupted(m)) => {
            assert_eq!(m, "Invalid checkpoint position: 2 exceeds total tasks 2");
        }
        _ => panic!("expected an invalid position"),
    }
}

#[test]
fn corrupted_checksum_message() {
    let mut workflow = Workflow::new();
    workflow.add_task(TaskNode::new("task-1", "Task 1"));

    let executor = WorkflowExecutor::new(workflow);
    let mut checkpoint = WorkflowCheckpoint::from_executor("w", 3, &executor, 0);
    let good = checkpoint.checksum.clone();
    assert_eq!(checkpoint.compute_checksum(), good);
    checkpoint.sequence = 4;
    match checkpoint.validate() {
        Err(WorkflowError::CheckpointCorrupted(m)) => {
            assert!(m.starts_with("Checksum mismatch: expected "));
            assert!(m.ends_with(&format!(", got {}", good)));
        }
        _ => panic!("expected a checksum mismatch"),
    }
}

#[test]
fn checkpoint_test_checkpoint_id_display() {
    let id = CheckpointId::new();
    let display = id.to_display_string();

    // Should format as UUID
    assert!(display.len() > 0);
}

#[test]
fn tests_test_checkpoint_id_display() {
    let id = CheckpointId::new();
    let display = id.to_display_string();
    assert!(!display.is_empty());
}
