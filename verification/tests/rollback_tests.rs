use forge_agent::dag::{TaskNode, Workflow};
use forge_agent::rollback::{RollbackEngine, RollbackError, RollbackReport, RollbackStrategy};
use forge_agent::task::{CompensationAction, CompensationType, TaskId};

#[test]
fn rollback_test_compensation_action_creation() {
    let skip = CompensationAction::skip("Read-only operation");
    assert_eq!(skip.action_type, CompensationType::Skip);
    assert_eq!(skip.description, "Read-only operation");

    let retry = CompensationAction::retry("Transient network error");
    assert_eq!(retry.action_type, CompensationType::Retry);

    let undo = CompensationAction::undo("Delete file");
    assert_eq!(undo.action_type, CompensationType::UndoFunction);
}

#[test]
fn tests_test_compensation_action_creation() {
    let skip = CompensationAction::skip("Read-only operation");
    assert_eq!(skip.action_type, CompensationType::Skip);
    assert_eq!(skip.description, "Read-only operation");

    let retry = CompensationAction::retry("Transient network error");
    assert_eq!(retry.action_type, CompensationType::Retry);

    let undo = CompensationAction::undo("Delete file");
    assert_eq!(undo.action_type, CompensationType::UndoFunction);
}

#[test]
fn rollback_test_rollback_engine_creation() {
    let engine = RollbackEngine::new();
    let _ = &engine;
}

#[test]
fn tests_test_rollback_engine_creation() {
    let engine = RollbackEngine::new();
    let _ = &engine;
}

#[test]
fn rollback_test_rollback_report_creation() {
    let report = RollbackReport::new();
    assert_eq!(report.total_processed(), 0);
    assert!(report.rolled_back_tasks.is_empty());
    assert!(report.skipped_tasks.is_empty());
    assert!(report.failed_compensations.is_empty());
}

#[test]
fn test_find_dependent_tasks() {
    let mut workflow = Workflow::new();
    workflow.add_task(TaskNode::new("a", "Task A"));
    workflow.add_task(TaskNode::new("b", "Task B"));
    workflow.add_task(TaskNode::new("c", "Task C"));
    workflow.add_task(TaskNode::new("d", "Task D"));
    workflow.add_dependency(TaskId::new("a"), TaskId::new("b")).unwrap();
    workflow.add_dependency(TaskId::new("a"), TaskId::new("c")).unwrap();
    workflow.add_dependency(TaskId::new("b"), TaskId::new("d")).unwrap();
    workflow.add_dependency(TaskId::new("c"), TaskId::new("d")).unwrap();

    let engine = RollbackEngine::new();
    let failed_idx = workflow.find_task(&TaskId::new("d")).unwrap();

    // Find dependents of d (none in the forward direction)
    let dependents = engine.find_dependent_tasks(&workflow, failed_idx).unwrap();

    // So the rollback set only contains d itself
    assert_eq!(dependents.len(), 1);
    assert!(dependents.contains(&TaskId::new("d")));
}

#[test]
fn rollback_test_diamond_dependency_rollback() {
    let mut workflow = Workflow::new();
    workflow.add_task(TaskNode::new("a", "Task A"));
    workflow.add_task(TaskNode::new("b", "Task B"));
    workflow.add_task(TaskNode::new("c", "Task C"));
    workflow.add_task(TaskNode::new("d", "Task D"));
    workflow.add_dependency(TaskId::new("a"), TaskId::new("b")).unwrap();
    workflow.add_dependency(TaskId::new("a"), TaskId::new("c")).unwrap();
    workflow.add_dependency(TaskId::new("b"), TaskId::new("d")).unwrap();
    workflow.add_dependency(TaskId::new("c"), TaskId::new("d")).unwrap();

    let engine = RollbackEngine::new();

    // When d fails, only d is rolled back (no dependents)
    let rollback_set = engine
        .find_rollback_set(&workflow, &TaskId::new("d"), RollbackStrategy::AllDependent)
        .unwrap();

    assert_eq!(rollback_set.len(), 1);
    assert_eq!(rollback_set[0], TaskId::new("d"));
}

#[test]
fn rollback_test_reverse_execution_order() {
    let mut workflow = Workflow::new();
    workflow.add_task(TaskNode::new("a", "Task A"));
    workflow.add_task(TaskNode::new("b", "Task B"));
    workflow.add_task(TaskNode::new("c", "Task C"));
    workflow.add_dependency(TaskId::new("a"), TaskId::new("b")).unwrap();
    workflow.add_dependency(TaskId::new("b"), TaskId::new("c")).unwrap();

    let engine = RollbackEngine::new();
    let failed_idx = workflow.find_task(&TaskId::new("c")).unwrap();

    let dependents = engine.find_dependent_tasks(&workflow, failed_idx).unwrap();
    let rollback_order = engine.reverse_execution_order(&workflow, dependents).unwrap();

    // Execution order: a, b, c; rollback order is the reverse: c
    assert_eq!(rollback_order.len(), 1);
    assert_eq!(rollback_order[0], TaskId::new("c"));
}

#[test]
fn rollback_of_root_undoes_dependents_latest_first() {
    let mut workflow = Workflow::new();
    workflow.add_task(TaskNode::new("a", "Task A"));
    workflow.add_task(TaskNode::new("b", "Task B"));
    workflow.add_task(TaskNode::new("c", "Task C"));
    workflow.add_dependency(TaskId::new("a"), TaskId::new("b")).unwrap();
    workflow.add_dependency(TaskId::new("b"), TaskId::new("c")).unwrap();

    let engine = RollbackEngine::new();
    let set = engine
        .find_rollback_set(&workflow, &TaskId::new("a"), RollbackStrategy::AllDependent)
        .unwrap();
    assert_eq!(set, vec![TaskId::new("c"), TaskId::new("b"), TaskId::new("a")]);
}

#[test]
fn rollback_leaves_independent_tasks() {
    let mut workflow = Workflow::new();
    workflow.add_task(TaskNode::new("a", "Task A"));
    workflow.add_task(TaskNode::new("b", "Task B"));
    workflow.add_task(TaskNode::new("c", "Task C"));
    workflow.add_task(TaskNode::new("d", "Task D"));
    workflow.add_dependency(TaskId::new("a"), TaskId::new("b")).unwrap();
    workflow.add_dependency(TaskId::new("c"), TaskId::new("d")).unwrap();

    let engine = RollbackEngine::new();
    let set = engine
        .find_rollback_set(&workflow, &TaskId::new("a"), RollbackStrategy::AllDependent)
        .unwrap();
    assert_eq!(set, vec![TaskId::new("b"), TaskId::new("a")]);
}

#[test]
fn rollback_failed_only_and_unknown_task() {
    let mut workflow = Workflow::new();
    workflow.add_task(TaskNode::new("a", "Task A"));
    workflow.add_task(TaskNode::new("b", "Task B"));
    workflow.add_dependency(TaskId::new("a"), TaskId::new("b")).unwrap();

    let engine = RollbackEngine::new();
    let set = engine
        .find_rollback_set(&workflow, &TaskId::new("a"), RollbackStrategy::FailedOnly)
        .unwrap();
    assert_eq!(set, vec![TaskId::new("a")]);
    let custom = engine
        .find_rollback_set(&workflow, &TaskId::new("a"), RollbackStrategy::Custom)
        .unwrap();
    assert_eq!(custom, vec![TaskId::new("b"), TaskId::new("a")]);
    let missing = engine.find_rollback_set(&workflow, &TaskId::new("zzz"), RollbackStrategy::AllDependent);
    assert!(matches!(missing, Err(RollbackError::TaskNotFound(ref t)) if t == &TaskId::new("zzz")));
}

#[test]
fn rollback_on_cyclic_workflow_is_a_traversal_error() {
    let mut workflow = Workflow::new();
    workflow.add_task(TaskNode::new("a", "Task A"));
    workflow.add_task(TaskNode::new("b", "Task B"));

    workflow.add_edge_unchecked(&TaskId::new("a"), &TaskId::new("b")).unwrap();
    workflow.add_edge_unchecked(&TaskId::new("b"), &TaskId::new("a")).unwrap();
    let engine = RollbackEngine::new();
    let r = engine.find_rollback_set(&workflow, &TaskId::new("a"), RollbackStrategy::AllDependent);
    assert!(matches!(r, Err(RollbackError::TraversalError(_))));
}

#[test]
fn dependent_tasks_of_index_without_node_is_empty() {
    let mut workflow = Workflow::new();
    workflow.add_task(TaskNode::new("a", "Task A"));

    let engine = RollbackEngine::new();
    assert!(engine.find_dependent_tasks(&workflow, 5).unwrap().is_empty());
}

#[test]
fn rollback_set_follows_the_execution_order_backwards() {
    let mut workflow = Workflow::new();
    for id in ["a", "b", "c", "d"] {
        workflow.add_task(TaskNode::new(id, id));
    }
    workflow.add_dependency(TaskId::new("a"), TaskId::new("b")).unwrap();
    workflow.add_dependency(TaskId::new("a"), TaskId::new("c")).unwrap();
    workflow.add_dependency(TaskId::new("c"), TaskId::new("d")).unwrap();
    let order = workflow.execution_order().unwrap();
    let engine = RollbackEngine::new();
    let set = engine.find_rollback_set(&workflow, &TaskId::new("a"), RollbackStrategy::AllDependent).unwrap();
    let mut backwards = order.clone();
    backwards.reverse();
    assert_eq!(set, backwards);
}
