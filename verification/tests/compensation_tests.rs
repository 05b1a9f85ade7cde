use forge_agent::compensation::CompensationRegistry;
use forge_agent::task::TaskId;

#[test]
fn registry_registers_replaces_and_removes() {
    let mut registry: CompensationRegistry<String> = CompensationRegistry::new();
    assert!(registry.is_empty());
    registry.register(TaskId::new("a"), "delete a.txt".to_string());
    registry.register(TaskId::new("b"), "kill 42".to_string());
    registry.register(TaskId::new("a"), "delete a2.txt".to_string());
    assert_eq!(registry.len(), 2);
    assert!(registry.has_compensation(&TaskId::new("a")));
    assert_eq!(registry.get(&TaskId::new("a")).map(|s| s.as_str()), Some("delete a2.txt"));
    assert!(registry.get(&TaskId::new("z")).is_none());

    let mut ids = registry.task_ids();
    ids.sort_by(|x, y| x.as_str().cmp(y.as_str()));
    assert_eq!(ids, vec![TaskId::new("a"), TaskId::new("b")]);

    assert_eq!(registry.remove(&TaskId::new("b")).as_deref(), Some("kill 42"));
    assert!(registry.remove(&TaskId::new("b")).is_none());
    assert!(!registry.has_compensation(&TaskId::new("b")));
    assert_eq!(registry.len(), 1);
}

#[test]
fn coverage_splits_tasks_in_order() {
    let mut registry: CompensationRegistry<u32> = CompensationRegistry::new();
    registry.register(TaskId::new("b"), 1);
    registry.register(TaskId::new("d"), 2);
    let tasks = vec![TaskId::new("a"), TaskId::new("b"), TaskId::new("c"), TaskId::new("d")];
    let (with, without) = registry.coverage(&tasks);
    assert_eq!(with, vec![TaskId::new("b"), TaskId::new("d")]);
    assert_eq!(without, vec![TaskId::new("a"), TaskId::new("c")]);
    let (with, without) = registry.coverage(&[]);
    assert!(with.is_empty() && without.is_empty());
}

#[test]
fn rollback_test_compensation_registry_new() {
    let registry: CompensationRegistry<String> = CompensationRegistry::new();
    assert!(registry.is_empty());
    assert_eq!(registry.len(), 0);
}

#[test]
fn rollback_test_compensation_registry_register() {
    let mut registry = CompensationRegistry::new();
    let task_id = TaskId::new("task-1");
    let comp = "Test".to_string();

    registry.register(task_id.clone(), comp);

    assert_eq!(registry.len(), 1);
    assert!(registry.has_compensation(&task_id));
}

#[test]
fn rollback_test_compensation_registry_get() {
    let mut registry = CompensationRegistry::new();
    let task_id = TaskId::new("task-1");
    let comp = "Test".to_string();

    registry.register(task_id.clone(), comp);

    let retrieved = registry.get(&task_id);
    assert!(retrieved.is_some());
    assert_eq!(retrieved.unwrap(), "Test");

    let missing = registry.get(&TaskId::new("missing"));
    assert!(missing.is_none());
}

#[test]
fn rollback_test_compensation_registry_remove() {
    let mut registry = CompensationRegistry::new();
    let task_id = TaskId::new("task-1");
    let comp = "Test".to_string();

    registry.register(task_id.clone(), comp);
    assert_eq!(registry.len(), 1);

    let removed = registry.remove(&task_id);
    assert!(removed.is_some());
    assert_eq!(registry.len(), 0);
    assert!(!registry.has_compensation(&task_id));

    let removed_again = registry.remove(&task_id);
    assert!(removed_again.is_none());
}

#[test]
fn rollback_test_compensation_registry_validate_coverage() {
    let mut registry = CompensationRegistry::new();

    let task1 = TaskId::new("task-1");
    let task2 = TaskId::new("task-2");
    let task3 = TaskId::new("task-3");

    registry.register(task1.clone(), "Test 1".to_string());
    registry.register(task2.clone(), "Test 2".to_string());

    let all = [task1.clone(), task2.clone(), task3.clone()];
    let (with, without) = registry.coverage(&all);

    assert_eq!(with.len(), 2);
    assert!(with.contains(&task1));
    assert!(with.contains(&task2));

    assert_eq!(without.len(), 1);
    assert!(without.contains(&task3));

    let coverage = with.len() as f64 / all.len() as f64;
    assert!((coverage - 0.666).abs() < 0.01);
}

#[test]
fn rollback_test_compensation_registry_task_ids() {
    let mut registry = CompensationRegistry::new();

    let task1 = TaskId::new("task-1");
    let task2 = TaskId::new("task-2");

    registry.register(task1.clone(), "Test 1".to_string());
    registry.register(task2.clone(), "Test 2".to_string());

    let ids = registry.task_ids();
    assert_eq!(ids.len(), 2);
    assert!(ids.contains(&task1));
    assert!(ids.contains(&task2));
}

#[test]
fn rollback_test_compensation_registry_default() {
    let registry: CompensationRegistry<String> = CompensationRegistry::default();
    assert!(registry.is_empty());
}

#[test]
fn tests_test_compensation_registry_new() {
    let registry: CompensationRegistry<String> = CompensationRegistry::new();
    assert!(registry.is_empty());
    assert_eq!(registry.len(), 0);
}

#[test]
fn tests_test_compensation_registry_register() {
    let mut registry = CompensationRegistry::new();
    let task_id = TaskId::new("task-1");
    let comp = "Test".to_string();

    registry.register(task_id.clone(), comp);

    assert_eq!(registry.len(), 1);
    assert!(registry.has_compensation(&task_id));
}

#[test]
fn tests_test_compensation_registry_get() {
    let mut registry = CompensationRegistry::new();
    let task_id = TaskId::new("task-1");
    let comp = "Test".to_string();

    registry.register(task_id.clone(), comp);

    let retrieved = registry.get(&task_id);
    assert!(retrieved.is_some());
    assert_eq!(retrieved.unwrap(), "Test");

    let missing = registry.get(&TaskId::new("missing"));
    assert!(missing.is_none());
}

#[test]
fn tests_test_compensation_registry_remove() {
    let mut registry = CompensationRegistry::new();
    let task_id = TaskId::new("task-1");
    let comp = "Test".to_string();

    registry.register(task_id.clone(), comp);
    assert_eq!(registry.len(), 1);

    let removed = registry.remove(&task_id);
    assert!(removed.is_some());
    assert_eq!(registry.len(), 0);
    assert!(!registry.has_compensation(&task_id));

    let removed_again = registry.remove(&task_id);
    assert!(removed_again.is_none());
}

#[test]
fn tests_test_compensation_registry_validate_coverage() {
    let mut registry = CompensationRegistry::new();

    let task1 = TaskId::new("task-1");
    let task2 = TaskId::new("task-2");
    let task3 = TaskId::new("task-3");

    registry.register(task1.clone(), "Test 1".to_string());
    registry.register(task2.clone(), "Test 2".to_string());

    let all = [task1.clone(), task2.clone(), task3.clone()];
    let (with, without) = registry.coverage(&all);

    assert_eq!(with.len(), 2);
    assert!(with.contains(&task1));
    assert!(with.contains(&task2));

    assert_eq!(without.len(), 1);
    assert!(without.contains(&task3));

    let coverage = with.len() as f64 / all.len() as f64;
    assert!((coverage - 0.666).abs() < 0.01);
}

#[test]
fn tests_test_compensation_registry_task_ids() {
    let mut registry = CompensationRegistry::new();

    let task1 = TaskId::new("task-1");
    let task2 = TaskId::new("task-2");

    registry.register(task1.clone(), "Test 1".to_string());
    registry.register(task2.clone(), "Test 2".to_string());

    let ids = registry.task_ids();
    assert_eq!(ids.len(), 2);
    assert!(ids.contains(&task1));
    assert!(ids.contains(&task2));
}

#[test]
fn tests_test_compensation_registry_default() {
    let registry: CompensationRegistry<String> = CompensationRegistry::default();
    assert!(registry.is_empty());
}
