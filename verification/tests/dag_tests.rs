use forge_agent::dag::{TaskNode, Workflow, WorkflowError};
use forge_agent::task::TaskId;

#[test]
fn tests_test_workflow_creation() {
    let workflow = Workflow::new();
    assert_eq!(workflow.task_count(), 0);
    assert!(workflow.execution_order().is_err());
}

#[test]
fn tests_test_add_task() {
    let mut workflow = Workflow::new();
    let task = TaskNode::new("task-1", "Task 1");

    workflow.add_task(task);

    assert_eq!(workflow.task_count(), 1);
    assert!(workflow.contains_task(&TaskId::new("task-1")));
}

#[test]
fn tests_test_add_multiple_tasks() {
    let mut workflow = Workflow::new();
    workflow.add_task(TaskNode::new("a", "Task A"));
    workflow.add_task(TaskNode::new("b", "Task B"));
    workflow.add_task(TaskNode::new("c", "Task C"));

    assert_eq!(workflow.task_count(), 3);
}

#[test]
fn tests_test_add_dependency() {
    let mut workflow = Workflow::new();
    workflow.add_task(TaskNode::new("a", "Task A"));
    workflow.add_task(TaskNode::new("b", "Task B"));

    let result = workflow.add_dependency(TaskId::new("a"), TaskId::new("b"));
    assert!(result.is_ok());
}

#[test]
fn tests_test_cycle_detection_on_add() {
    let mut workflow = Workflow::new();
    workflow.add_task(TaskNode::new("a", "Task A"));
    workflow.add_task(TaskNode::new("b", "Task B"));
    workflow.add_task(TaskNode::new("c", "Task C"));
    workflow.add_dependency(TaskId::new("a"), TaskId::new("b")).unwrap();
    workflow.add_dependency(TaskId::new("b"), TaskId::new("c")).unwrap();

    let result = workflow.add_dependency(TaskId::new("c"), TaskId::new("a"));
    assert!(matches!(result, Err(WorkflowError::CycleDetected(_))));
}

#[test]
fn tests_test_topological_sort() {
    let mut workflow = Workflow::new();
    workflow.add_task(TaskNode::new("a", "Task A"));
    workflow.add_task(TaskNode::new("b", "Task B"));
    workflow.add_task(TaskNode::new("c", "Task C"));
    workflow.add_dependency(TaskId::new("a"), TaskId::new("b")).unwrap();
    workflow.add_dependency(TaskId::new("a"), TaskId::new("c")).unwrap();

    let order = workflow.execution_order().unwrap();
    assert_eq!(order.len(), 3);

    // 'a' must come first (no dependencies)
    assert_eq!(order[0], TaskId::new("a"));
}

#[test]
fn tests_test_ready_tasks() {
    let mut workflow = Workflow::new();
    workflow.add_task(TaskNode::new("a", "Task A"));
    workflow.add_task(TaskNode::new("b", "Task B"));
    workflow.add_task(TaskNode::new("c", "Task C"));
    workflow.add_dependency(TaskId::new("a"), TaskId::new("b")).unwrap();

    let ready = workflow.ready_tasks();
    assert_eq!(ready.len(), 2); // 'a' and 'c' have no dependencies

    assert!(ready.contains(&TaskId::new("a")));
    assert!(ready.contains(&TaskId::new("c")));
}

#[test]
fn tests_test_execution_order_with_complex_dag() {
    let mut workflow = Workflow::new();
    workflow.add_task(TaskNode::new("a", "Task A"));
    workflow.add_task(TaskNode::new("b", "Task B"));
    workflow.add_task(TaskNode::new("c", "Task C"));
    workflow.add_task(TaskNode::new("d", "Task D"));
    workflow.add_dependency(TaskId::new("a"), TaskId::new("b")).unwrap();
    workflow.add_dependency(TaskId::new("a"), TaskId::new("c")).unwrap();
    workflow.add_dependency(TaskId::new("b"), TaskId::new("d")).unwrap();
    workflow.add_dependency(TaskId::new("c"), TaskId::new("d")).unwrap();

    let order = workflow.execution_order().unwrap();
    assert_eq!(order.len(), 4);

    let pos_a = order.iter().position(|id| id == &TaskId::new("a")).unwrap();
    let pos_b = order.iter().position(|id| id == &TaskId::new("b")).unwrap();
    let pos_c = order.iter().position(|id| id == &TaskId::new("c")).unwrap();
    let pos_d = order.iter().position(|id| id == &TaskId::new("d")).unwrap();

    assert!(pos_a < pos_b);
    assert!(pos_a < pos_c);
    assert!(pos_b < pos_d);
    assert!(pos_c < pos_d);
}

#[test]
fn tests_test_dependency_nonexistent_task() {
    let mut workflow = Workflow::new();
    workflow.add_task(TaskNode::new("a", "Task A"));

    let result = workflow.add_dependency(TaskId::new("a"), TaskId::new("nonexistent"));
    assert!(matches!(result, Err(WorkflowError::TaskNotFound(_))));

    let result = workflow.add_dependency(TaskId::new("nonexistent"), TaskId::new("a"));
    assert!(matches!(result, Err(WorkflowError::TaskNotFound(_))));
}

#[test]
fn tests_test_self_cycle_detection() {
    let mut workflow = Workflow::new();
    workflow.add_task(TaskNode::new("a", "Task A"));

    // A task depending on itself is a cycle; it must not panic
    let result = workflow.add_dependency(TaskId::new("a"), TaskId::new("a"));
    let _ = result;
}

#[test]
fn dag_test_workflow_creation() {
    let workflow = Workflow::new();
    assert_eq!(workflow.task_count(), 0);
    assert!(workflow.execution_order().is_err());
}

#[test]
fn dag_test_add_task() {
    let mut workflow = Workflow::new();
    let task = TaskNode::new("task-1", "Task 1");

    workflow.add_task(task);

    assert_eq!(workflow.task_count(), 1);
    assert!(workflow.contains_task(&TaskId::new("task-1")));
}

#[test]
fn dag_test_add_multiple_tasks() {
    let mut workflow = Workflow::new();
    workflow.add_task(TaskNode::new("a", "Task A"));
    workflow.add_task(TaskNode::new("b", "Task B"));
    workflow.add_task(TaskNode::new("c", "Task C"));

    assert_eq!(workflow.task_count(), 3);
}

#[test]
fn dag_test_add_dependency() {
    let mut workflow = Workflow::new();
    workflow.add_task(TaskNode::new("a", "Task A"));
    workflow.add_task(TaskNode::new("b", "Task B"));

    let result = workflow.add_dependency(TaskId::new("a"), TaskId::new("b"));
    assert!(result.is_ok());
}

#[test]
fn dag_test_cycle_detection_on_add() {
    let mut workflow = Workflow::new();
    workflow.add_task(TaskNode::new("a", "Task A"));
    workflow.add_task(TaskNode::new("b", "Task B"));
    workflow.add_task(TaskNode::new("c", "Task C"));
    workflow.add_dependency(TaskId::new("a"), TaskId::new("b")).unwrap();
    workflow.add_dependency(TaskId::new("b"), TaskId::new("c")).unwrap();

    let result = workflow.add_dependency(TaskId::new("c"), TaskId::new("a"));
    assert!(matches!(result, Err(WorkflowError::CycleDetected(_))));
}

#[test]
fn dag_test_topological_sort() {
    let mut workflow = Workflow::new();
    workflow.add_task(TaskNode::new("a", "Task A"));
    workflow.add_task(TaskNode::new("b", "Task B"));
    workflow.add_task(TaskNode::new("c", "Task C"));
    workflow.add_dependency(TaskId::new("a"), TaskId::new("b")).unwrap();
    workflow.add_dependency(TaskId::new("a"), TaskId::new("c")).unwrap();

    let order = workflow.execution_order().unwrap();
    assert_eq!(order.len(), 3);

    // 'a' must come first (no dependencies)
    assert_eq!(order[0], TaskId::new("a"));
}

#[test]
fn dag_test_ready_tasks() {
    let mut workflow = Workflow::new();
    workflow.add_task(TaskNode::new("a", "Task A"));
    workflow.add_task(TaskNode::new("b", "Task B"));
    workflow.add_task(TaskNode::new("c", "Task C"));
    workflow.add_dependency(TaskId::new("a"), TaskId::new("b")).unwrap();

    let ready = workflow.ready_tasks();
    assert_eq!(ready.len(), 2); // 'a' and 'c' have no dependencies

    assert!(ready.contains(&TaskId::new("a")));
    assert!(ready.contains(&TaskId::new("c")));
}

#[test]
fn dag_test_execution_order_with_complex_dag() {
    let mut workflow = Workflow::new();
    workflow.add_task(TaskNode::new("a", "Task A"));
    workflow.add_task(TaskNode::new("b", "Task B"));
    workflow.add_task(TaskNode::new("c", "Task C"));
    workflow.add_task(TaskNode::new("d", "Task D"));
    workflow.add_dependency(TaskId::new("a"), TaskId::new("b")).unwrap();
    workflow.add_dependency(TaskId::new("a"), TaskId::new("c")).unwrap();
    workflow.add_dependency(TaskId::new("b"), TaskId::new("d")).unwrap();
    workflow.add_dependency(TaskId::new("c"), TaskId::new("d")).unwrap();

    let order = workflow.execution_order().unwrap();
    assert_eq!(order.len(), 4);

    let pos_a = order.iter().position(|id| id == &TaskId::new("a")).unwrap();
    let pos_b = order.iter().position(|id| id == &TaskId::new("b")).unwrap();
    let pos_c = order.iter().position(|id| id == &TaskId::new("c")).unwrap();
    let pos_d = order.iter().position(|id| id == &TaskId::new("d")).unwrap();

    assert!(pos_a < pos_b);
    assert!(pos_a < pos_c);
    assert!(pos_b < pos_d);
    assert!(pos_c < pos_d);
}

#[test]
fn dag_test_dependency_nonexistent_task() {
    let mut workflow = Workflow::new();
    workflow.add_task(TaskNode::new("a", "Task A"));

    let result = workflow.add_dependency(TaskId::new("a"), TaskId::new("nonexistent"));
    assert!(matches!(result, Err(WorkflowError::TaskNotFound(_))));

    let result = workflow.add_dependency(TaskId::new("nonexistent"), TaskId::new("a"));
    assert!(matches!(result, Err(WorkflowError::TaskNotFound(_))));
}

#[test]
fn dag_test_self_cycle_detection() {
    let mut workflow = Workflow::new();
    workflow.add_task(TaskNode::new("a", "Task A"));

    // A task depending on itself is a cycle; it must not panic
    let result = workflow.add_dependency(TaskId::new("a"), TaskId::new("a"));
    let _ = result;
}

#[test]
fn test_apply_suggestions() {
    let mut workflow = Workflow::new();
    workflow.add_task(TaskNode::new("a", "Task A"));
    workflow.add_task(TaskNode::new("b", "Task B"));
    workflow.add_task(TaskNode::new("c", "Task C"));

    let suggestions = vec![
        (TaskId::new("a"), TaskId::new("b")),
        (TaskId::new("b"), TaskId::new("c")),
    ];

    let applied = workflow.apply_suggestions(suggestions).unwrap();
    assert_eq!(applied, 2);

    // Verify dependencies were added
    let deps_b = workflow.task_dependencies(&TaskId::new("b")).unwrap();
    assert!(deps_b.contains(&TaskId::new("a")));

    let deps_c = workflow.task_dependencies(&TaskId::new("c")).unwrap();
    assert!(deps_c.contains(&TaskId::new("b")));
}

#[test]
fn test_apply_suggestions_skips_existing() {
    let mut workflow = Workflow::new();
    workflow.add_task(TaskNode::new("a", "Task A"));
    workflow.add_task(TaskNode::new("b", "Task B"));
    workflow.add_dependency(TaskId::new("a"), TaskId::new("b")).unwrap();

    let suggestions = vec![(TaskId::new("a"), TaskId::new("b"))];

    let applied = workflow.apply_suggestions(suggestions).unwrap();
    assert_eq!(applied, 0); // Should skip existing dependency
}

#[test]
fn test_execution_layers_empty_workflow() {
    let workflow = Workflow::new();
    let result = workflow.execution_layers();
    assert!(matches!(result, Err(WorkflowError::EmptyWorkflow)));
}

#[test]
fn test_execution_layers_single_task() {
    let mut workflow = Workflow::new();
    workflow.add_task(TaskNode::new("a", "Task A"));

    let layers = workflow.execution_layers().unwrap();
    assert_eq!(layers.len(), 1);
    assert_eq!(layers[0].len(), 1);
    assert_eq!(layers[0][0], TaskId::new("a"));
}

#[test]
fn test_execution_layers_two_independent_tasks() {
    let mut workflow = Workflow::new();
    workflow.add_task(TaskNode::new("a", "Task A"));
    workflow.add_task(TaskNode::new("b", "Task B"));

    let layers = workflow.execution_layers().unwrap();
    assert_eq!(layers.len(), 1);
    assert_eq!(layers[0].len(), 2);
    assert!(layers[0].contains(&TaskId::new("a")));
    assert!(layers[0].contains(&TaskId::new("b")));
}

#[test]
fn test_execution_layers_linear_chain() {
    let mut workflow = Workflow::new();
    workflow.add_task(TaskNode::new("a", "Task A"));
    workflow.add_task(TaskNode::new("b", "Task B"));
    workflow.add_task(TaskNode::new("c", "Task C"));
    workflow.add_dependency(TaskId::new("a"), TaskId::new("b")).unwrap();
    workflow.add_dependency(TaskId::new("b"), TaskId::new("c")).unwrap();

    let layers = workflow.execution_layers().unwrap();
    assert_eq!(layers.len(), 3);
    assert_eq!(layers[0], vec![TaskId::new("a")]);
    assert_eq!(layers[1], vec![TaskId::new("b")]);
    assert_eq!(layers[2], vec![TaskId::new("c")]);
}

#[test]
fn test_execution_layers_diamond_pattern() {
    let mut workflow = Workflow::new();
    workflow.add_task(TaskNode::new("a", "Task A"));
    workflow.add_task(TaskNode::new("b", "Task B"));
    workflow.add_task(TaskNode::new("c", "Task C"));
    workflow.add_task(TaskNode::new("d", "Task D"));
    workflow.add_dependency(TaskId::new("a"), TaskId::new("b")).unwrap();
    workflow.add_dependency(TaskId::new("a"), TaskId::new("c")).unwrap();
    workflow.add_dependency(TaskId::new("b"), TaskId::new("d")).unwrap();
    workflow.add_dependency(TaskId::new("c"), TaskId::new("d")).unwrap();

    let layers = workflow.execution_layers().unwrap();
    assert_eq!(layers.len(), 3);

    // Layer 0: only 'a' (root)
    assert_eq!(layers[0], vec![TaskId::new("a")]);

    // Layer 1: 'b' and 'c'
    assert_eq!(layers[1].len(), 2);
    assert!(layers[1].contains(&TaskId::new("b")));
    assert!(layers[1].contains(&TaskId::new("c")));

    // Layer 2: only 'd'
    assert_eq!(layers[2], vec![TaskId::new("d")]);
}

#[test]
fn test_execution_layers_fan_out() {
    let mut workflow = Workflow::new();
    workflow.add_task(TaskNode::new("a", "Task A"));
    workflow.add_task(TaskNode::new("b", "Task B"));
    workflow.add_task(TaskNode::new("c", "Task C"));
    workflow.add_task(TaskNode::new("d", "Task D"));
    workflow.add_dependency(TaskId::new("a"), TaskId::new("b")).unwrap();
    workflow.add_dependency(TaskId::new("a"), TaskId::new("c")).unwrap();
    workflow.add_dependency(TaskId::new("a"), TaskId::new("d")).unwrap();

    let layers = workflow.execution_layers().unwrap();
    assert_eq!(layers.len(), 2);
    assert_eq!(layers[0], vec![TaskId::new("a")]);
    assert_eq!(layers[1].len(), 3);
}

#[test]
fn test_execution_layers_fan_in() {
    let mut workflow = Workflow::new();
    workflow.add_task(TaskNode::new("a", "Task A"));
    workflow.add_task(TaskNode::new("b", "Task B"));
    workflow.add_task(TaskNode::new("c", "Task C"));
    workflow.add_task(TaskNode::new("d", "Task D"));
    workflow.add_dependency(TaskId::new("a"), TaskId::new("d")).unwrap();
    workflow.add_dependency(TaskId::new("b"), TaskId::new("d")).unwrap();
    workflow.add_dependency(TaskId::new("c"), TaskId::new("d")).unwrap();

    let layers = workflow.execution_layers().unwrap();
    assert_eq!(layers.len(), 2);
    assert_eq!(layers[0].len(), 3); // a, b, c are independent
    assert_eq!(layers[1], vec![TaskId::new("d")]);
}

#[test]
fn test_execution_layers_complex_dag() {
    let mut workflow = Workflow::new();
    workflow.add_task(TaskNode::new("a", "Task A"));
    workflow.add_task(TaskNode::new("b", "Task B"));
    workflow.add_task(TaskNode::new("c", "Task C"));
    workflow.add_task(TaskNode::new("d", "Task D"));
    workflow.add_task(TaskNode::new("e", "Task E"));
    workflow.add_task(TaskNode::new("f", "Task F"));
    workflow.add_dependency(TaskId::new("a"), TaskId::new("b")).unwrap();
    workflow.add_dependency(TaskId::new("a"), TaskId::new("c")).unwrap();
    workflow.add_dependency(TaskId::new("b"), TaskId::new("d")).unwrap();
    workflow.add_dependency(TaskId::new("c"), TaskId::new("e")).unwrap();
    workflow.add_dependency(TaskId::new("d"), TaskId::new("f")).unwrap();
    workflow.add_dependency(TaskId::new("e"), TaskId::new("f")).unwrap();

    let layers = workflow.execution_layers().unwrap();
    assert_eq!(layers.len(), 4);
    assert_eq!(layers[0], vec![TaskId::new("a")]);
    assert_eq!(layers[1].len(), 2); // b and c
    assert_eq!(layers[2].len(), 2); // d and e
    assert_eq!(layers[3], vec![TaskId::new("f")]);
}

#[test]
fn test_execution_layers_with_cycle() {
    let mut workflow = Workflow::new();
    workflow.add_task(TaskNode::new("a", "Task A"));
    workflow.add_task(TaskNode::new("b", "Task B"));
    workflow.add_task(TaskNode::new("c", "Task C"));

    // Create a cycle a -> b -> c -> a, bypassing the cycle check
    workflow.add_edge_unchecked(&TaskId::new("a"), &TaskId::new("b")).unwrap();
    workflow.add_edge_unchecked(&TaskId::new("b"), &TaskId::new("c")).unwrap();
    workflow.add_edge_unchecked(&TaskId::new("c"), &TaskId::new("a")).unwrap();

    let result = workflow.execution_layers();
    assert!(matches!(result, Err(WorkflowError::CycleDetected(_))));
}

#[test]
fn add_dependency_keeps_graph_unchanged_on_cycle() {
    let mut workflow = Workflow::new();
    workflow.add_task(TaskNode::new("a", "Task A"));
    workflow.add_task(TaskNode::new("b", "Task B"));
    workflow.add_dependency(TaskId::new("a"), TaskId::new("b")).unwrap();

    assert!(workflow.add_dependency(TaskId::new("b"), TaskId::new("a")).is_err());
    // The refused edge is not kept: the order still exists and starts with 'a'
    let order = workflow.execution_order().unwrap();
    assert_eq!(order, vec![TaskId::new("a"), TaskId::new("b")]);
}

#[test]
fn execution_order_reports_cycle_members() {
    let mut workflow = Workflow::new();
    workflow.add_task(TaskNode::new("a", "Task A"));
    workflow.add_task(TaskNode::new("b", "Task B"));
    workflow.add_task(TaskNode::new("c", "Task C"));

    workflow.add_edge_unchecked(&TaskId::new("a"), &TaskId::new("b")).unwrap();
    workflow.add_edge_unchecked(&TaskId::new("b"), &TaskId::new("a")).unwrap();
    match workflow.execution_order() {
        Err(WorkflowError::CycleDetected(ids)) => {
            assert!(ids.contains(&TaskId::new("a")));
            assert!(ids.contains(&TaskId::new("b")));
            assert!(!ids.contains(&TaskId::new("c")));
        }
        _ => panic!("expected a cycle"),
    }
}

#[test]
fn task_dependencies_of_unknown_task_is_none() {
    let mut workflow = Workflow::new();
    workflow.add_task(TaskNode::new("a", "Task A"));

    assert!(workflow.task_dependencies(&TaskId::new("zzz")).is_none());
    assert_eq!(workflow.task_dependencies(&TaskId::new("a")).unwrap().len(), 0);
}

#[test]
fn task_name_and_ids() {
    let mut workflow = Workflow::new();
    workflow.add_task(TaskNode::new("a", "Task A"));
    workflow.add_task(TaskNode::new("b", "Task B"));

    assert_eq!(workflow.task_name(&TaskId::new("b")), Some("Task B".to_string()));
    assert_eq!(workflow.task_name(&TaskId::new("x")), None);
    let ids = workflow.task_ids();
    assert_eq!(ids.len(), 2);
    assert!(ids.contains(&TaskId::new("a")));
    assert!(ids.contains(&TaskId::new("b")));
}

#[test]
fn later_task_with_same_id_answers_for_it() {
    let mut workflow = Workflow::new();
    workflow.add_task(TaskNode::new("a", "First"));
    workflow.add_task(TaskNode::new("a", "Second"));
    assert_eq!(workflow.task_count(), 2);
    assert_eq!(workflow.task_name(&TaskId::new("a")), Some("Second".to_string()));
    assert_eq!(workflow.task_ids().len(), 1);
}

#[test]
fn apply_suggestions_stops_at_cycle() {
    let mut workflow = Workflow::new();
    workflow.add_task(TaskNode::new("a", "Task A"));
    workflow.add_task(TaskNode::new("b", "Task B"));
    workflow.add_dependency(TaskId::new("a"), TaskId::new("b")).unwrap();

    let result = workflow.apply_suggestions(vec![(TaskId::new("b"), TaskId::new("a"))]);
    assert!(matches!(result, Err(WorkflowError::CycleDetected(_))));
}

#[test]
fn apply_suggestions_adds_exactly_the_missing_edges() {
    let mut workflow = Workflow::new();
    workflow.add_task(TaskNode::new("a", "Task A"));
    workflow.add_task(TaskNode::new("b", "Task B"));
    workflow.add_task(TaskNode::new("c", "Task C"));
    workflow.add_dependency(TaskId::new("a"), TaskId::new("b")).unwrap();
    let suggestions = vec![
        (TaskId::new("a"), TaskId::new("b")),
        (TaskId::new("b"), TaskId::new("c")),
        (TaskId::new("b"), TaskId::new("c")),
    ];
    assert_eq!(workflow.apply_suggestions(suggestions).unwrap(), 1);
    assert_eq!(workflow.dependency_count(), 2);
    assert_eq!(workflow.task_dependencies(&TaskId::new("c")).unwrap(), vec![TaskId::new("b")]);
}

#[test]
fn dependency_is_refused_exactly_when_it_would_close_a_cycle() {
    let mut w = Workflow::new();
    for id in ["a", "b", "c", "d"] {
        w.add_task(TaskNode::new(id, id));
    }
    w.add_dependency(TaskId::new("a"), TaskId::new("b")).unwrap();
    w.add_dependency(TaskId::new("b"), TaskId::new("c")).unwrap();
    // c reaches nothing that reaches a: a -> c is fine, and so is d -> a.
    assert!(w.add_dependency(TaskId::new("a"), TaskId::new("c")).is_ok());
    assert!(w.add_dependency(TaskId::new("d"), TaskId::new("a")).is_ok());
    // a reaches c, so c -> d (d reaches a) and c -> a close cycles.
    assert!(matches!(w.add_dependency(TaskId::new("c"), TaskId::new("d")), Err(WorkflowError::CycleDetected(_))));
    assert!(matches!(w.add_dependency(TaskId::new("c"), TaskId::new("a")), Err(WorkflowError::CycleDetected(_))));
    assert!(matches!(w.add_dependency(TaskId::new("b"), TaskId::new("b")), Err(WorkflowError::CycleDetected(_))));
    assert_eq!(w.dependency_count(), 4);
}

#[test]
fn execution_layers_partition_the_tasks() {
    let mut w = Workflow::new();
    for id in ["a", "b", "c", "d", "e"] {
        w.add_task(TaskNode::new(id, id));
    }
    w.add_dependency(TaskId::new("a"), TaskId::new("b")).unwrap();
    w.add_dependency(TaskId::new("a"), TaskId::new("c")).unwrap();
    w.add_dependency(TaskId::new("b"), TaskId::new("d")).unwrap();
    w.add_dependency(TaskId::new("c"), TaskId::new("d")).unwrap();
    let layers = w.execution_layers().unwrap();
    assert!(layers.iter().all(|l| !l.is_empty()));
    assert_eq!(layers.iter().map(|l| l.len()).sum::<usize>(), 5);
    let mut all: Vec<String> = layers.iter().flatten().map(|t| t.as_str().to_string()).collect();
    all.sort();
    assert_eq!(all, vec!["a", "b", "c", "d", "e"]);
    assert_eq!(layers.len(), 3);
}

#[test]
fn an_added_task_has_its_name_and_no_dependencies() {
    let mut w = Workflow::new();
    w.add_task(TaskNode::new("a", "Task A"));
    w.add_task(TaskNode::new("b", "Task B"));
    w.add_dependency(TaskId::new("a"), TaskId::new("b")).unwrap();
    let index = w.add_task(TaskNode::new("c", "Task C"));
    assert_eq!(index, 2);
    assert_eq!(w.task_count(), 3);
    assert!(w.contains_task(&TaskId::new("c")));
    assert_eq!(w.task_name(&TaskId::new("c")), Some("Task C".to_string()));
    assert_eq!(w.task_dependencies(&TaskId::new("c")), Some(Vec::new()));
    assert_eq!(w.task_dependencies(&TaskId::new("b")), Some(vec![TaskId::new("a")]));
}
