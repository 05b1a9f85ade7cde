use forge_agent::dag::{TaskNode, Workflow, WorkflowError};
use forge_agent::deadlock::{DeadlockDetector, DeadlockError, DeadlockWarning, DeadlockWarningType};
use forge_agent::task::TaskId;
use std::collections::HashSet;

#[test]
fn test_deadlock_detector_creation() {
    let _detector = DeadlockDetector::new();
    let _detector2 = DeadlockDetector::default();
}

#[test]
fn test_detect_cycle_simple() {
    let mut workflow = Workflow::new();
    workflow.add_task(TaskNode::new("a", "Task A"));
    workflow.add_task(TaskNode::new("b", "Task B"));
    workflow.add_task(TaskNode::new("c", "Task C"));
    workflow.add_dependency(TaskId::new("a"), TaskId::new("b")).unwrap();
    workflow.add_dependency(TaskId::new("b"), TaskId::new("c")).unwrap();
    workflow.add_edge_unchecked(&TaskId::new("c"), &TaskId::new("a")).unwrap();

    let detector = DeadlockDetector::new();
    let result = detector.detect_dependency_cycles(&workflow);

    assert!(result.is_err());
    match result {
        Err(DeadlockError::DependencyCycle(cycle)) => {
            assert!(!cycle.is_empty());
        }
        _ => panic!("Expected DependencyCycle error"),
    }
}

#[test]
fn test_detect_cycle_none_diamond() {
    let mut workflow = Workflow::new();
    workflow.add_task(TaskNode::new("a", "Task A"));
    workflow.add_task(TaskNode::new("b", "Task B"));
    workflow.add_task(TaskNode::new("c", "Task C"));
    workflow.add_task(TaskNode::new("d", "Task D"));
    workflow.add_dependency(TaskId::new("a"), TaskId::new("b")).unwrap();
    workflow.add_dependency(TaskId::new("a"), TaskId::new("c")).unwrap();
    workflow.add_dependency(TaskId::new("b"), TaskId::new("d")).unwrap();
    workflow.add_dependency(TaskId::new("c"), TaskId::new("d")).unwrap();

    let detector = DeadlockDetector::new();
    let result = detector.detect_dependency_cycles(&workflow);

    assert!(result.is_ok());
}

#[test]
fn test_detect_cycle_complex() {
    let mut workflow = Workflow::new();
    workflow.add_task(TaskNode::new("a", "Task A"));
    workflow.add_task(TaskNode::new("b", "Task B"));
    workflow.add_task(TaskNode::new("c", "Task C"));
    workflow.add_task(TaskNode::new("d", "Task D"));
    workflow.add_dependency(TaskId::new("a"), TaskId::new("b")).unwrap();
    workflow.add_dependency(TaskId::new("b"), TaskId::new("c")).unwrap();
    workflow.add_edge_unchecked(&TaskId::new("c"), &TaskId::new("d")).unwrap();
    workflow.add_edge_unchecked(&TaskId::new("d"), &TaskId::new("b")).unwrap();

    let detector = DeadlockDetector::new();
    let result = detector.detect_dependency_cycles(&workflow);

    assert!(result.is_err());
    match result {
        Err(DeadlockError::DependencyCycle(cycle)) => {
            assert!(!cycle.is_empty());
            // The cycle should involve b, c, d
            let cycle_ids: HashSet<_> = cycle.iter().collect();
            assert!(cycle_ids.contains(&TaskId::new("b")));
            assert!(cycle_ids.contains(&TaskId::new("c")));
            assert!(cycle_ids.contains(&TaskId::new("d")));
        }
        _ => panic!("Expected DependencyCycle error"),
    }
}

#[test]
fn test_detect_self_loop() {
    let mut workflow = Workflow::new();
    workflow.add_task(TaskNode::new("a", "Task A"));
    workflow.add_edge_unchecked(&TaskId::new("a"), &TaskId::new("a")).unwrap();

    let detector = DeadlockDetector::new();
    let result = detector.detect_dependency_cycles(&workflow);

    assert!(result.is_err());
    match result {
        Err(DeadlockError::DependencyCycle(cycle)) => {
            assert_eq!(cycle, vec![TaskId::new("a")]);
        }
        _ => panic!("Expected DependencyCycle error"),
    }
}

#[test]
fn test_detect_long_chain_warning() {
    let mut workflow = Workflow::new();
    for i in 0..7 {
        workflow.add_task(TaskNode::new(&format!("task-{}", i), &format!("Task {}", i)));
    }
    for i in 0..6 {
        workflow
            .add_dependency(TaskId::new(&format!("task-{}", i)), TaskId::new(&format!("task-{}", i + 1)))
            .unwrap();
    }

    let detector = DeadlockDetector::new();
    let warnings = detector.detect_resource_deadlocks(&workflow).unwrap();

    // Should warn about the last task being too deep
    assert!(!warnings.is_empty());
    assert!(warnings.iter().any(|w| matches!(
        w.warning_type,
        DeadlockWarningType::LongDependencyChain { length: 7 }
    )));
}

#[test]
fn test_validate_workflow_no_issues() {
    let mut workflow = Workflow::new();
    workflow.add_task(TaskNode::new("a", "Task A"));
    workflow.add_task(TaskNode::new("b", "Task B"));
    workflow.add_task(TaskNode::new("c", "Task C"));
    workflow.add_dependency(TaskId::new("a"), TaskId::new("b")).unwrap();

    let detector = DeadlockDetector::new();
    let result = detector.validate_workflow(&workflow);

    assert!(result.is_ok());
    let warnings = result.unwrap();
    assert!(warnings.is_empty());
}

#[test]
fn test_validate_workflow_with_cycle() {
    let mut workflow = Workflow::new();
    workflow.add_task(TaskNode::new("a", "Task A"));
    workflow.add_task(TaskNode::new("b", "Task B"));
    workflow.add_task(TaskNode::new("c", "Task C"));
    workflow.add_dependency(TaskId::new("a"), TaskId::new("b")).unwrap();
    workflow.add_dependency(TaskId::new("b"), TaskId::new("c")).unwrap();
    workflow.add_edge_unchecked(&TaskId::new("c"), &TaskId::new("a")).unwrap();

    let detector = DeadlockDetector::new();
    let result = detector.validate_workflow(&workflow);

    assert!(result.is_err());
}

#[test]
fn test_warning_description() {
    let warning = DeadlockWarning::new(
        TaskId::new("task-1"),
        DeadlockWarningType::LongDependencyChain { length: 10 },
        "Consider splitting the workflow".to_string(),
    );

    let desc = warning.description();
    assert!(desc.contains("task-1"));
    assert!(desc.contains("10"));
    assert!(desc.contains("splitting"));
}

#[test]
fn test_no_warning_for_short_chain() {
    let mut workflow = Workflow::new();
    for i in 0..3 {
        workflow.add_task(TaskNode::new(&format!("task-{}", i), &format!("Task {}", i)));
    }
    for i in 0..2 {
        workflow
            .add_dependency(TaskId::new(&format!("task-{}", i)), TaskId::new(&format!("task-{}", i + 1)))
            .unwrap();
    }

    let detector = DeadlockDetector::new();
    let warnings = detector.detect_resource_deadlocks(&workflow).unwrap();

    assert!(warnings.is_empty());
}

#[test]
fn test_warning_boundary_at_depth_6() {
    let mut workflow = Workflow::new();
    for i in 0..6 {
        workflow.add_task(TaskNode::new(&format!("task-{}", i), &format!("Task {}", i)));
    }
    for i in 0..5 {
        workflow
            .add_dependency(TaskId::new(&format!("task-{}", i)), TaskId::new(&format!("task-{}", i + 1)))
            .unwrap();
    }

    let detector = DeadlockDetector::new();
    let warnings = detector.detect_resource_deadlocks(&workflow).unwrap();

    // Should warn about depth >= 5
    assert!(!warnings.is_empty());
}

#[test]
fn chain_of_five_draws_no_warning() {
    let mut workflow = Workflow::new();
    for i in 0..5 {
        workflow.add_task(TaskNode::new(&format!("task-{}", i), &format!("Task {}", i)));
    }
    for i in 0..4 {
        workflow
            .add_dependency(TaskId::new(&format!("task-{}", i)), TaskId::new(&format!("task-{}", i + 1)))
            .unwrap();
    }

    let detector = DeadlockDetector::new();
    assert!(detector.detect_resource_deadlocks(&workflow).unwrap().is_empty());
}

#[test]
fn warning_description_texts() {
    let w = DeadlockWarning::new(
        TaskId::new("t"),
        DeadlockWarningType::LongDependencyChain { length: 7 },
        "split".to_string(),
    );
    assert_eq!(w.description(), "Task 't' has a long dependency chain (7 tasks): split");
    let w = DeadlockWarning::new(TaskId::new("t"), DeadlockWarningType::NoTimeout, "add one".to_string());
    assert_eq!(w.description(), "Task 't' has no timeout: add one");
    let w = DeadlockWarning::new(
        TaskId::new("t"),
        DeadlockWarningType::SharedResource("db".to_string()),
        "serialize".to_string(),
    );
    assert_eq!(w.description(), "Task 't' shares resource 'db': serialize");
}

#[test]
fn deadlock_errors_become_workflow_errors() {
    let e: WorkflowError = DeadlockError::DependencyCycle(vec![TaskId::new("a")]).into();
    assert!(matches!(e, WorkflowError::CycleDetected(ref ids) if ids == &vec![TaskId::new("a")]));
    let e: WorkflowError = DeadlockError::PotentialDeadlock("x".to_string()).into();
    assert!(matches!(e, WorkflowError::CycleDetected(ref ids) if ids.is_empty()));
    let e: WorkflowError = DeadlockError::ResourceDeadlock("x".to_string()).into();
    assert!(matches!(e, WorkflowError::Timeout(_)));
}

#[test]
fn cycle_report_is_one_component_and_validation_reports_the_same() {
    let mut workflow = Workflow::new();
    for id in ["a", "b", "c", "d", "e"] {
        workflow.add_task(TaskNode::new(id, id));
    }
    workflow.add_dependency(TaskId::new("a"), TaskId::new("b")).unwrap();
    workflow.add_dependency(TaskId::new("b"), TaskId::new("c")).unwrap();
    workflow.add_edge_unchecked(&TaskId::new("c"), &TaskId::new("b")).unwrap();
    workflow.add_edge_unchecked(&TaskId::new("e"), &TaskId::new("e")).unwrap();

    let detector = DeadlockDetector::new();
    let detected = match detector.detect_dependency_cycles(&workflow) {
        Err(DeadlockError::DependencyCycle(c)) => c,
        _ => panic!("Expected DependencyCycle error"),
    };
    let set: HashSet<TaskId> = detected.iter().cloned().collect();
    let want: HashSet<TaskId> = vec![TaskId::new("b"), TaskId::new("c")].into_iter().collect();
    assert_eq!(set, want);
    assert_eq!(detected.len(), 2);
    match detector.validate_workflow(&workflow) {
        Err(DeadlockError::DependencyCycle(c)) => assert_eq!(c, detected),
        _ => panic!("Expected DependencyCycle error"),
    }
}

#[test]
fn lone_self_loop_is_reported_alone() {
    let mut workflow = Workflow::new();
    workflow.add_task(TaskNode::new("a", "A"));
    workflow.add_task(TaskNode::new("b", "B"));
    workflow.add_dependency(TaskId::new("a"), TaskId::new("b")).unwrap();
    workflow.add_edge_unchecked(&TaskId::new("b"), &TaskId::new("b")).unwrap();
    let detector = DeadlockDetector::new();
    match detector.validate_workflow(&workflow) {
        Err(DeadlockError::DependencyCycle(c)) => assert_eq!(c, vec![TaskId::new("b")]),
        _ => panic!("Expected DependencyCycle error"),
    }
}
