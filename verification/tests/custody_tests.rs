use forge_agent::custody::{
    children_in, count_from, custody_chain, custody_parent_in, custody_tree, gaps_in, knowledge_in, parent_in,
    timeline_in, CustodyEdges, EntityTable,
};

fn row(id: i64, kind: &str, data: &str) -> (i64, String, String) {
    (id, kind.to_string(), data.to_string())
}

/// A requirement (1) of a plan (2) with two sections (3: order 2, 4: order 1);
/// section 4 holds task 5, run 6 of it logged entry 7 and produced file 8.
fn small_table() -> EntityTable {
    EntityTable {
        rows: vec![
            row(1, "Requirement", r#"{"title":"auth"}"#),
            row(2, "Plan", r#"{"name":"p"}"#),
            row(3, "PlanSection", r#"{"order":2}"#),
            row(4, "PlanSection", r#"{"order":1}"#),
            row(5, "Task", r#"{"title":"t"}"#),
            row(6, "SubagentRun", r#"{"started_at":"2024-01-01T00:00:05Z"}"#),
            row(7, "LogEntry", r#"{"timestamp":"2024-01-01T00:00:07Z"}"#),
            row(8, "Deliverable", r#"{"file_path":"src/auth.rs"}"#),
        ],
    }
}

fn small_edges() -> CustodyEdges {
    CustodyEdges {
        has_requirement: vec![(2, 10, 1)],
        decomposes_into: vec![(2, 11, 3), (2, 12, 4), (4, 13, 5)],
        executed_by: vec![(5, 14, 6)],
        logged: vec![(6, 15, 7)],
        called: vec![],
        reasoned: vec![],
        produced: vec![(6, 16, 8)],
    }
}

#[test]
fn custody_tree_orders_sections_and_keeps_what_runs_recorded() {
    let t = custody_tree(&small_table(), &small_edges(), 1).unwrap();
    assert_eq!(t.requirement_id, 1);
    let ids: Vec<i64> = t.sections.iter().map(|s| s.section.id).collect();
    assert_eq!(ids, vec![4, 3]);
    assert_eq!(t.sections[0].tasks.len(), 1);
    assert!(t.sections[1].tasks.is_empty());
    let task = &t.sections[0].tasks[0];
    assert_eq!(task.task.id, 5);
    assert_eq!(task.runs.len(), 1);
    let run = &task.runs[0];
    assert_eq!(run.run.id, 6);
    assert_eq!(run.run.timestamp, Some((1704067205, 0)));
    assert_eq!(run.logs.iter().map(|n| n.id).collect::<Vec<_>>(), vec![7]);
    assert!(run.calls.is_empty());
    assert!(run.reasoning.is_empty());
    assert_eq!(run.deliverables[0].data, r#"{"file_path":"src/auth.rs"}"#);
}

#[test]
fn custody_tree_refuses_a_section_without_order() {
    let mut table = small_table();
    table.rows[2] = row(3, "PlanSection", r#"{"title":"no order"}"#);
    assert!(custody_tree(&table, &small_edges(), 1).is_err());
}

#[test]
fn custody_tree_of_an_unlinked_requirement_is_empty() {
    let t = custody_tree(&small_table(), &small_edges(), 99).unwrap();
    assert_eq!(t.requirement_id, 99);
    assert!(t.sections.is_empty());
}

#[test]
fn children_in_passes_over_missing_and_other_kinds() {
    let ms = vec![(2, 1, 3), (2, 2, 42), (2, 3, 5), (2, 4, 4), (9, 5, 3)];
    let v = children_in(&small_table(), &ms, 2, "PlanSection");
    assert_eq!(v.iter().map(|n| n.id).collect::<Vec<_>>(), vec![3, 4]);
    assert_eq!(v[0].kind, "PlanSection");
    assert_eq!(v[1].data, r#"{"order":1}"#);
    assert_eq!(v[0].timestamp, None);
}

#[test]
fn parent_in_takes_the_first_source_of_the_kind() {
    let ms = vec![(5, 1, 7), (6, 2, 7), (2, 3, 7)];
    let p = parent_in(&small_table(), &ms, 7, "SubagentRun").unwrap();
    assert_eq!(p.id, 6);
    assert!(parent_in(&small_table(), &ms, 7, "Requirement").is_none());
}

#[test]
fn count_from_counts_every_match_from_the_node() {
    let ms = vec![(1, 1, 2), (3, 2, 4), (1, 3, 42), (1, 4, 2)];
    assert_eq!(count_from(&ms, 1), 3);
    assert_eq!(count_from(&ms, 3), 1);
    assert_eq!(count_from(&ms, 4), 0);
}

#[test]
fn knowledge_in_returns_knowledge_data_in_match_order() {
    let mut table = small_table();
    table.rows.push(row(20, "DiscoveredKnowledge", r#"{"title":"b"}"#));
    table.rows.push(row(21, "DiscoveredKnowledge", r#"{"title":"a"}"#));
    let ms = vec![(2, 1, 21), (2, 2, 5), (3, 3, 20), (2, 4, 20)];
    assert_eq!(knowledge_in(&table, &ms, 2), vec![r#"{"title":"a"}"#.to_string(), r#"{"title":"b"}"#.to_string()]);
}

#[test]
fn gaps_in_lists_tasks_without_runs() {
    let mut table = small_table();
    table.rows.push(row(30, "Task", "{}"));
    table.rows.push(row(31, "Task", "{}"));
    let di = vec![(2, 1, 3), (2, 2, 4), (4, 3, 5), (3, 4, 30), (3, 5, 31)];
    let eb = vec![(5, 6, 6), (31, 7, 6)];
    assert_eq!(gaps_in(&table, &di, &eb, 2), vec![30]);
    assert_eq!(gaps_in(&table, &di, &vec![], 2), vec![30, 31, 5]);
}

#[test]
fn timeline_in_orders_by_time_untimed_last() {
    let mut table = small_table();
    table.rows.push(row(9, "ToolCall", r#"{"timestamp":"2024-01-01T00:00:01Z"}"#));
    let steps = vec![(5, 1, 6), (6, 2, 7), (6, 3, 9), (1, 4, 5), (3, 5, 8)];
    let v = timeline_in(&table, &steps, 5);
    assert_eq!(v.iter().map(|n| n.id).collect::<Vec<_>>(), vec![9, 6, 7, 5]);
    assert_eq!(v[0].timestamp, Some((1704067201, 0)));
    assert_eq!(v[3].timestamp, None);
}

#[test]
fn timeline_in_of_a_missing_root_is_empty() {
    let steps = vec![(50, 1, 6)];
    assert!(timeline_in(&small_table(), &steps, 50).is_empty());
}

fn rule_lists(e: &CustodyEdges) -> Vec<Vec<(i64, i64, i64)>> {
    vec![
        e.executed_by.clone(),
        e.decomposes_into.clone(),
        e.has_requirement.clone(),
        vec![],
        e.logged.clone(),
        e.called.clone(),
        e.reasoned.clone(),
        e.produced.clone(),
    ]
}

#[test]
fn custody_chain_walks_back_to_the_start() {
    let rules = rule_lists(&small_edges());
    let chain = custody_chain(&small_table(), &rules, 7);
    assert_eq!(chain.iter().map(|n| n.id).collect::<Vec<_>>(), vec![4, 5, 6]);
    assert_eq!(custody_parent_in(&small_table(), &rules, 8).unwrap().id, 6);
    assert!(custody_parent_in(&small_table(), &rules, 4).is_none());
    assert!(custody_chain(&small_table(), &rules, 4).is_empty());
}
