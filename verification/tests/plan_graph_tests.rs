use forge_agent::plan::{LogLevel, PlanEdgeKind, PlanNodeKind};
use forge_agent::plan_graph::{order_positions, PlanGraph};
use serde_json::Value;

fn object(fields: Vec<(&str, Value)>) -> Value {
    let mut m = serde_json::Map::new();
    for (k, v) in fields {
        m.insert(k.to_string(), v);
    }
    Value::Object(m)
}

fn text(v: &Value) -> String {
    serde_json::to_string(v).unwrap()
}

fn now() -> Value {
    serde_json::to_value(chrono::Utc::now()).unwrap()
}

fn discovered_knowledge() -> (String, String) {
    let v = object(vec![
        ("title", Value::from("Sparse inference pattern")),
        ("kind", Value::from("Knowledge")),
        ("summary", Value::from("4D spatial graph traversal pattern")),
        ("source", Value::from("wiki")),
        ("discovery_method", Value::from("semantic")),
        ("relevance", Value::from(0.92)),
        ("related", Value::Array(vec![Value::from("memoria")])),
        ("is_historical", Value::from(false)),
    ]);
    ("Sparse inference pattern".to_string(), text(&v))
}

fn gate_result(passed: bool) -> (String, String) {
    let v = object(vec![
        ("gate_name", Value::from("semgrep")),
        ("passed", Value::from(passed)),
        ("exit_code", Value::from(if passed { 0 } else { 1 })),
        ("stdout", Value::from("")),
        ("structured_output", Value::Null),
        ("errors", Value::from(if passed { 0 } else { 3 })),
        ("warnings", Value::from(0)),
        ("duration_ms", Value::from(500)),
    ]);
    ("semgrep".to_string(), text(&v))
}

fn semgrep_finding() -> (String, String, String) {
    let v = object(vec![
        ("check_id", Value::from("llm-sql-injection")),
        ("file", Value::from("src/db.py")),
        ("start_line", Value::from(10)),
        ("end_line", Value::from(12)),
        ("message", Value::from("SQL injection via string concatenation")),
        ("severity", Value::from("ERROR")),
        ("category", Value::from("security")),
    ]);
    ("llm-sql-injection".to_string(), "src/db.py".to_string(), text(&v))
}

fn section(order: usize) -> (String, String) {
    let title = format!("Section {}", order);
    let v = object(vec![
        ("order", Value::from(order)),
        ("title", Value::from(title.clone())),
        ("description", Value::from("Test section")),
    ]);
    (title, text(&v))
}

fn run_data(agent: &str, run_id: &str) -> String {
    text(&object(vec![
        ("run_id", Value::from(run_id)),
        ("agent_name", Value::from(agent)),
        ("started_at", now()),
        ("completed_at", Value::Null),
        ("status", Value::from("Running")),
        ("input_prompt", Value::from("do work")),
        ("output_summary", Value::Null),
    ]))
}

fn log_data() -> String {
    text(&object(vec![
        ("level", Value::from("Info")),
        ("message", Value::from("Starting operation")),
        ("timestamp", now()),
    ]))
}

fn tool_call_data() -> String {
    text(&object(vec![
        ("tool", Value::from("sed")),
        ("args", object(vec![("file", Value::from("src/lib.rs"))])),
        ("result", object(vec![("success", Value::from(true))])),
        ("exit_code", Value::from(0)),
        ("duration_ms", Value::from(12)),
        ("timestamp", now()),
    ]))
}

fn reasoning_data() -> String {
    text(&object(vec![
        ("thinking", Value::from("I should check the graph first")),
        ("decision", Value::from("Query magellan before editing")),
        ("timestamp", now()),
    ]))
}

fn deliverable_data(path: &str, hash: &str) -> String {
    text(&object(vec![
        ("file_path", Value::from(path)),
        ("sha256", Value::from(hash)),
        ("diff_summary", Value::from("+10 -2 lines")),
        ("timestamp", now()),
    ]))
}

fn task_entity(name: &str) -> sqlitegraph::GraphEntity {
    sqlitegraph::GraphEntity {
        id: 0,
        kind: "Task".to_string(),
        name: name.to_string(),
        file_path: None,
        data: Value::Object(serde_json::Map::new()),
    }
}

fn parse(s: &str) -> Value {
    serde_json::from_str(s).unwrap()
}

#[test]
fn test_add_requirement_creates_node() {
    let mut pg = PlanGraph::open_in_memory().unwrap();
    let id = pg.add_requirement("Auth system", "Implement OAuth2 login").unwrap();
    assert!(id > 0);

    let entity = pg.graph().get_entity(id).unwrap();
    assert_eq!(entity.kind, "Requirement");
    assert_eq!(entity.name, "Auth system");
    assert_eq!(entity.data["description"], "Implement OAuth2 login");
}

#[test]
fn test_add_plan_links_to_requirements() {
    let mut pg = PlanGraph::open_in_memory().unwrap();
    let req1 = pg.add_requirement("Req 1", "First").unwrap();
    let req2 = pg.add_requirement("Req 2", "Second").unwrap();
    let plan_id = pg.add_plan("My plan", &[req1, req2]).unwrap();

    let entity = pg.graph().get_entity(plan_id).unwrap();
    assert_eq!(entity.kind, "Plan");

    let count = pg.count_outgoing(plan_id, "HAS_REQUIREMENT").unwrap();
    assert_eq!(count, 2);
}

#[test]
fn test_link_knowledge_creates_informed_by_edge() {
    let mut pg = PlanGraph::open_in_memory().unwrap();
    let req = pg.add_requirement("Req", "Need").unwrap();
    let plan_id = pg.add_plan("Plan", &[req]).unwrap();
    let (title, dk) = discovered_knowledge();
    let knowledge_id = pg.link_knowledge(plan_id, &title, &dk).unwrap();

    let entity = pg.graph().get_entity(knowledge_id).unwrap();
    assert_eq!(entity.kind, "DiscoveredKnowledge");
    assert_eq!(entity.name, "Sparse inference pattern");

    let count = pg.count_outgoing(plan_id, "INFORMED_BY").unwrap();
    assert_eq!(count, 1);
}

#[test]
fn test_get_plan_knowledge_roundtrip() {
    let mut pg = PlanGraph::open_in_memory().unwrap();
    let req = pg.add_requirement("Req", "Need").unwrap();
    let plan_id = pg.add_plan("Plan", &[req]).unwrap();
    let (title, dk) = discovered_knowledge();
    pg.link_knowledge(plan_id, &title, &dk).unwrap();

    let retrieved = pg.get_plan_knowledge(plan_id).unwrap();
    assert_eq!(retrieved.len(), 1);
    let first = parse(&retrieved[0]);
    assert_eq!(first["title"], "Sparse inference pattern");
    assert!((first["relevance"].as_f64().unwrap() - 0.92).abs() < f64::EPSILON);
}

#[test]
fn test_gate_result_links_to_task() {
    let mut pg = PlanGraph::open_in_memory().unwrap();
    let task_id = pg.graph().insert_entity(&task_entity("Implement auth")).unwrap();

    let (name, result) = gate_result(true);
    let result_id = pg.add_gate_result(task_id, &name, &result).unwrap();

    let entity = pg.graph().get_entity(result_id).unwrap();
    assert_eq!(entity.kind, "GateResult");
    assert_eq!(entity.name, "semgrep");

    let count = pg.count_outgoing(task_id, "VALIDATED_BY").unwrap();
    assert_eq!(count, 1);
}

#[test]
fn test_semgrep_finding_links_to_gate_result() {
    let mut pg = PlanGraph::open_in_memory().unwrap();
    let task_id = pg.graph().insert_entity(&task_entity("Task")).unwrap();
    let (name, gate) = gate_result(false);
    let result_id = pg.add_gate_result(task_id, &name, &gate).unwrap();

    let (check, file, finding) = semgrep_finding();
    let finding_id = pg.add_semgrep_finding(result_id, &check, &file, &finding).unwrap();

    let entity = pg.graph().get_entity(finding_id).unwrap();
    assert_eq!(entity.kind, "SemgrepFinding");
    assert_eq!(entity.name, "llm-sql-injection:src/db.py");
    assert_eq!(entity.file_path.as_deref(), Some("src/db.py"));

    let count = pg.count_outgoing(result_id, "FOUND_IN").unwrap();
    assert_eq!(count, 1);
}

#[test]
fn test_approve_creates_approval_edge() {
    let mut pg = PlanGraph::open_in_memory().unwrap();
    let req = pg.add_requirement("Req", "Need").unwrap();
    let plan_id = pg.add_plan("Plan", &[req]).unwrap();
    let approval_id = pg.approve(plan_id, "user").unwrap();

    let entity = pg.graph().get_entity(approval_id).unwrap();
    assert_eq!(entity.kind, "Approval");
    assert_eq!(entity.data["approver"], "user");
    assert_eq!(entity.name, "approved_by_user");

    let count = pg.count_outgoing(plan_id, "APPROVED").unwrap();
    assert_eq!(count, 1);
}

#[test]
fn test_reject_creates_rejection_edge() {
    let mut pg = PlanGraph::open_in_memory().unwrap();
    let req = pg.add_requirement("Req", "Need").unwrap();
    let plan_id = pg.add_plan("Plan", &[req]).unwrap();
    let rejection_id = pg.reject(plan_id, "Too complex").unwrap();

    let entity = pg.graph().get_entity(rejection_id).unwrap();
    assert_eq!(entity.kind, "Rejection");
    assert_eq!(entity.data["reason"], "Too complex");

    let count = pg.count_outgoing(plan_id, "REJECTED").unwrap();
    assert_eq!(count, 1);
}

#[test]
fn test_full_plan_graph_roundtrip() {
    let mut pg = PlanGraph::open_in_memory().unwrap();
    let req = pg.add_requirement("Auth", "OAuth2 login").unwrap();
    let (title, dk) = discovered_knowledge();
    let plan_id = pg.add_plan("Auth plan", &[req]).unwrap();
    pg.link_knowledge(plan_id, &title, &dk).unwrap();
    pg.approve(plan_id, "user").unwrap();

    let task_id = pg.graph().insert_entity(&task_entity("Implement OAuth2")).unwrap();
    let (name, gate) = gate_result(false);
    let result_id = pg.add_gate_result(task_id, &name, &gate).unwrap();
    let (check, file, finding) = semgrep_finding();
    pg.add_semgrep_finding(result_id, &check, &file, &finding).unwrap();

    let plan_entity = pg.graph().get_entity(plan_id).unwrap();
    assert_eq!(plan_entity.kind, "Plan");

    assert_eq!(pg.count_outgoing(plan_id, "HAS_REQUIREMENT").unwrap(), 1);
    assert_eq!(pg.count_outgoing(plan_id, "INFORMED_BY").unwrap(), 1);
    assert_eq!(pg.count_outgoing(plan_id, "APPROVED").unwrap(), 1);

    let knowledge = pg.get_plan_knowledge(plan_id).unwrap();
    assert_eq!(knowledge.len(), 1);
}

#[test]
fn test_add_section_creates_ordered_nodes() {
    let mut pg = PlanGraph::open_in_memory().unwrap();
    let req = pg.add_requirement("Req", "Need").unwrap();
    let plan_id = pg.add_plan("Plan", &[req]).unwrap();

    let (t2, d2) = section(2);
    let (t1, d1) = section(1);
    let s1 = pg.add_section(plan_id, req, &t2, 2, &d2).unwrap();
    let s0 = pg.add_section(plan_id, req, &t1, 1, &d1).unwrap();
    assert!(s1 > 0);
    assert!(s0 > 0);

    let nodes = pg.sections_of(plan_id).unwrap();
    let data: Vec<Value> = nodes.iter().map(|n| parse(&n.data)).collect();
    let orders: Vec<usize> = data.iter().map(|d| d["order"].as_u64().unwrap() as usize).collect();
    let sections: Vec<&Value> = order_positions(&orders).into_iter().map(|i| &data[i]).collect();
    assert_eq!(sections.len(), 2);
    assert_eq!(sections[0]["order"], 1);
    assert_eq!(sections[1]["order"], 2);
    assert_eq!(sections[0]["title"], "Section 1");

    let dec_count = pg.count_outgoing(plan_id, "DECOMPOSES_INTO").unwrap();
    assert_eq!(dec_count, 2);
}

#[test]
fn test_begin_and_complete_subagent_run() {
    let mut pg = PlanGraph::open_in_memory().unwrap();
    let task_id = pg.graph().insert_entity(&task_entity("Implement")).unwrap();

    let run_node_id = pg.begin_subagent_run(task_id, "agent-x", "run-001", &run_data("agent-x", "run-001")).unwrap();

    let entity = pg.graph().get_entity(run_node_id).unwrap();
    assert_eq!(entity.kind, "SubagentRun");
    assert_eq!(entity.name, "agent-x_run-001");

    let exec_count = pg.count_outgoing(task_id, "EXECUTED_BY").unwrap();
    assert_eq!(exec_count, 1);

    let mut data = parse(&pg.entity_data(run_node_id).unwrap());
    data["status"] = Value::from("Completed");
    data["completed_at"] = now();
    data["output_summary"] = Value::from("Done");
    pg.rewrite_entity_data(run_node_id, &text(&data)).unwrap();

    let updated = pg.graph().get_entity(run_node_id).unwrap();
    assert_eq!(updated.data["status"], "Completed");
    assert_eq!(updated.data["output_summary"], "Done");
    assert!(!updated.data["completed_at"].is_null());
    assert_eq!(updated.kind, "SubagentRun");
    assert_eq!(updated.name, "agent-x_run-001");
}

#[test]
fn test_record_log_tool_call_reasoning_deliverable() {
    let mut pg = PlanGraph::open_in_memory().unwrap();
    let task_id = pg.graph().insert_entity(&task_entity("Task")).unwrap();
    let run_id = pg.begin_subagent_run(task_id, "gpt-4", "run-002", &run_data("gpt-4", "run-002")).unwrap();

    let log_id = pg.record_log(run_id, LogLevel::Info, chrono::Utc::now().timestamp(), &log_data()).unwrap();
    let tool_id = pg.record_tool_call(run_id, "sed", &tool_call_data()).unwrap();
    let reason_id = pg.record_reasoning(run_id, "Query magellan before editing", &reasoning_data()).unwrap();
    let deliv_id = pg.record_deliverable(run_id, "src/lib.rs", &deliverable_data("src/lib.rs", "abc123")).unwrap();

    assert!(log_id > 0);
    assert!(tool_id > 0);
    assert!(reason_id > 0);
    assert!(deliv_id > 0);

    assert_eq!(pg.count_outgoing(run_id, "LOGGED").unwrap(), 1);
    assert_eq!(pg.count_outgoing(run_id, "CALLED").unwrap(), 1);
    assert_eq!(pg.count_outgoing(run_id, "REASONED").unwrap(), 1);
    assert_eq!(pg.count_outgoing(run_id, "PRODUCED").unwrap(), 1);

    assert_eq!(pg.graph().get_entity(log_id).unwrap().kind, "LogEntry");
    assert_eq!(pg.graph().get_entity(tool_id).unwrap().kind, "ToolCall");
    assert_eq!(pg.graph().get_entity(reason_id).unwrap().kind, "ReasoningStep");
    assert_eq!(pg.graph().get_entity(deliv_id).unwrap().kind, "Deliverable");
}

#[test]
fn test_trace_backward_from_tool_call_to_task() {
    let mut pg = PlanGraph::open_in_memory().unwrap();
    let task_id = pg.graph().insert_entity(&task_entity("Task")).unwrap();
    let run_id = pg.begin_subagent_run(task_id, "agent", "run-003", &run_data("agent", "run-003")).unwrap();
    let tool_id = pg.record_tool_call(run_id, "sed", &tool_call_data()).unwrap();

    let path = pg.trace_backward(tool_id).unwrap();
    assert!(!path.is_empty());
    assert_eq!(path[0].kind, "Task");
    assert_eq!(path[0].id, task_id);
}

#[test]
fn test_timeline_sorted() {
    let mut pg = PlanGraph::open_in_memory().unwrap();
    let req = pg.add_requirement("Req", "Desc").unwrap();
    let plan_id = pg.add_plan("Plan", &[req]).unwrap();
    let (t1, d1) = section(1);
    let _s = pg.add_section(plan_id, req, &t1, 1, &d1).unwrap();

    let timeline = pg.timeline(plan_id).unwrap();
    assert!(!timeline.is_empty());
    assert!(timeline.iter().any(|n| n.kind == "Plan"));
    assert!(timeline.iter().any(|n| n.kind == "PlanSection"));
}

#[test]
fn test_find_gaps_returns_unrun_tasks() {
    let mut pg = PlanGraph::open_in_memory().unwrap();
    let req = pg.add_requirement("Req", "Need").unwrap();
    let plan_id = pg.add_plan("Plan", &[req]).unwrap();
    let (t1, d1) = section(1);
    let section_id = pg.add_section(plan_id, req, &t1, 1, &d1).unwrap();

    let task_id = pg.graph().insert_entity(&task_entity("Unrun task")).unwrap();
    let edge = sqlitegraph::GraphEdge {
        id: 0,
        from_id: section_id,
        to_id: task_id,
        edge_type: PlanEdgeKind::DecomposesInto.as_str().to_string(),
        data: Value::Object(serde_json::Map::new()),
    };
    pg.graph().insert_edge(&edge).unwrap();

    let gaps = pg.find_gaps(plan_id).unwrap();
    assert_eq!(gaps.len(), 1);
    assert_eq!(gaps[0], task_id);

    pg.begin_subagent_run(task_id, "agent", "run-004", &run_data("agent", "run-004")).unwrap();
    let gaps2 = pg.find_gaps(plan_id).unwrap();
    assert!(gaps2.is_empty());
}

#[test]
fn test_full_custody_chain_roundtrip() {
    let mut pg = PlanGraph::open_in_memory().unwrap();
    let req = pg.add_requirement("Auth", "OAuth2").unwrap();
    let plan_id = pg.add_plan("Auth Plan", &[req]).unwrap();
    let (t1, d1) = section(1);
    let section_id = pg.add_section(plan_id, req, &t1, 1, &d1).unwrap();

    let task_id = pg.graph().insert_entity(&task_entity("Implement login")).unwrap();
    let edge = sqlitegraph::GraphEdge {
        id: 0,
        from_id: section_id,
        to_id: task_id,
        edge_type: PlanEdgeKind::DecomposesInto.as_str().to_string(),
        data: Value::Object(serde_json::Map::new()),
    };
    pg.graph().insert_edge(&edge).unwrap();

    let run_id = pg.begin_subagent_run(task_id, "agent-x", "run-auth", &run_data("agent-x", "run-auth")).unwrap();
    pg.record_log(run_id, LogLevel::Info, chrono::Utc::now().timestamp(), &log_data()).unwrap();
    pg.record_tool_call(run_id, "sed", &tool_call_data()).unwrap();
    pg.record_reasoning(run_id, "Query magellan before editing", &reasoning_data()).unwrap();
    pg.record_deliverable(run_id, "src/auth.rs", &deliverable_data("src/auth.rs", "sha256abc")).unwrap();

    let chain = pg.trace_forward(req).unwrap();
    assert_eq!(chain.requirement_id, req);
    assert_eq!(chain.sections.len(), 1);
    assert_eq!(parse(&chain.sections[0].section.data)["order"], 1);
    assert_eq!(chain.sections[0].tasks.len(), 1);
    assert_eq!(chain.sections[0].tasks[0].task.id, task_id);
    assert_eq!(chain.sections[0].tasks[0].runs.len(), 1);

    let run = &chain.sections[0].tasks[0].runs[0];
    assert_eq!(parse(&run.run.data)["agent_name"], "agent-x");
    assert_eq!(run.logs.len(), 1);
    assert_eq!(run.calls.len(), 1);
    assert_eq!(run.reasoning.len(), 1);
    assert_eq!(run.deliverables.len(), 1);
    assert_eq!(parse(&run.deliverables[0].data)["file_path"], "src/auth.rs");

    let deliv_nodes = pg
        .children(run_id, PlanEdgeKind::Produced.as_str(), PlanNodeKind::Deliverable.as_str())
        .unwrap();
    assert_eq!(deliv_nodes.len(), 1);
    let path = pg.trace_backward(deliv_nodes[0].id).unwrap();
    assert!(path.iter().any(|n| n.kind == "Task"));
}

#[test]
fn requirement_description_is_escaped_json() {
    let mut pg = PlanGraph::open_in_memory().unwrap();
    let tricky = "quote \" backslash \\ newline \n tab \t bell \u{7}";
    let id = pg.add_requirement("R", tricky).unwrap();
    let entity = pg.graph().get_entity(id).unwrap();
    assert_eq!(entity.data["description"], tricky);
    let stored = pg.entity_data(id).unwrap();
    assert_eq!(parse(&stored)["description"], tricky);
}

#[test]
fn log_entry_name_carries_level_and_seconds() {
    let mut pg = PlanGraph::open_in_memory().unwrap();
    let task_id = pg.graph().insert_entity(&task_entity("T")).unwrap();
    let run_id = pg.begin_subagent_run(task_id, "a", "r", &run_data("a", "r")).unwrap();
    let warn = pg.record_log(run_id, LogLevel::Warn, -5, &log_data()).unwrap();
    let debug = pg.record_log(run_id, LogLevel::Debug, 1700000000, &log_data()).unwrap();
    assert_eq!(pg.graph().get_entity(warn).unwrap().name, "Warn_-5");
    assert_eq!(pg.graph().get_entity(debug).unwrap().name, "Debug_1700000000");
}

#[test]
fn blank_names_are_refused() {
    let mut pg = PlanGraph::open_in_memory().unwrap();
    assert!(pg.add_requirement("   ", "x").is_err());
    assert!(pg.add_plan("", &[]).is_err());
    assert!(pg.entity_data(12345).is_err());
}

#[test]
fn plan_links_to_unknown_requirement_fail() {
    let mut pg = PlanGraph::open_in_memory().unwrap();
    assert!(pg.add_plan("Plan", &[999]).is_err());
}

#[test]
fn timeline_orders_by_time_and_visits_each_node_once() {
    let mut pg = PlanGraph::open_in_memory().unwrap();
    let task_id = pg.graph().insert_entity(&task_entity("T")).unwrap();
    let late = text(&object(vec![("timestamp", Value::from("2030-01-01T00:00:00Z"))]));
    let early = text(&object(vec![("timestamp", Value::from("2020-01-01T00:00:00Z"))]));
    let started = text(&object(vec![("started_at", Value::from("2025-06-01T00:00:00Z"))]));
    let run = pg.begin_subagent_run(task_id, "a", "r", &started).unwrap();
    let l1 = pg.record_log(run, LogLevel::Info, 0, &late).unwrap();
    let l2 = pg.record_log(run, LogLevel::Info, 0, &early).unwrap();

    let timeline = pg.timeline(task_id).unwrap();
    let ids: Vec<i64> = timeline.iter().map(|n| n.id).collect();
    assert_eq!(ids, vec![l2, run, l1, task_id]);
    assert_eq!(timeline[0].timestamp, Some((1577836800, 0)));
    assert!(timeline[3].timestamp.is_none());
}

#[test]
fn order_positions_is_stable() {
    assert_eq!(order_positions(&vec![3, 1, 2, 1]), vec![1, 3, 2, 0]);
    assert_eq!(order_positions(&Vec::new()), Vec::<usize>::new());
}

#[test]
fn parent_finds_the_linking_node() {
    let mut pg = PlanGraph::open_in_memory().unwrap();
    let req = pg.add_requirement("Req", "Need").unwrap();
    let plan_id = pg.add_plan("Plan", &[req]).unwrap();
    let found = pg.parent(req, "HAS_REQUIREMENT", "Plan").unwrap().unwrap();
    assert_eq!(found.id, plan_id);
    assert!(pg.parent(req, "HAS_REQUIREMENT", "Task").unwrap().is_none());
    assert!(pg.parent(req, " ", "Plan").is_err());
}

#[test]
fn store_refuses_blank_names_and_unknown_endpoints() {
    let mut pg = PlanGraph::open_in_memory().unwrap();
    assert!(pg.add_requirement("   ", "desc").is_err());
    assert!(pg.add_plan("", &[]).is_err());
    assert!(pg.approve(0, "user").is_err());
    assert!(pg.record_tool_call(-3, "cargo", "{}").is_err());
    assert!(pg.count_outgoing(1, "").is_err());
    assert!(pg.children(1, " ", "Task").is_err());
    let req = pg.add_requirement("R", "d").unwrap();
    assert!(pg.add_section(0, req, "S", 1, "{}").is_err());
}

fn link(pg: &PlanGraph, from: i64, to: i64, kind: PlanEdgeKind) {
    let edge = sqlitegraph::GraphEdge {
        id: 0,
        from_id: from,
        to_id: to,
        edge_type: kind.as_str().to_string(),
        data: Value::Object(serde_json::Map::new()),
    };
    pg.graph().insert_edge(&edge).unwrap();
}

#[test]
fn trace_backward_follows_the_rules_in_order_until_a_node_has_no_parent() {
    let mut pg = PlanGraph::open_in_memory().unwrap();
    let req = pg.add_requirement("Req", "Need").unwrap();
    let plan_id = pg.add_plan("Plan", &[req]).unwrap();
    let (t1, d1) = section(1);
    let section_id = pg.add_section(plan_id, req, &t1, 1, &d1).unwrap();
    let task_id = pg.graph().insert_entity(&task_entity("T")).unwrap();
    link(&pg, section_id, task_id, PlanEdgeKind::DecomposesInto);
    let run_id = pg.begin_subagent_run(task_id, "a", "r", &run_data("a", "r")).unwrap();
    let log_id = pg.record_log(run_id, LogLevel::Info, 0, &log_data()).unwrap();

    let ids: Vec<i64> = pg.trace_backward(log_id).unwrap().iter().map(|n| n.id).collect();
    assert_eq!(ids, vec![section_id, task_id, run_id]);
    assert!(pg.trace_backward(section_id).unwrap().is_empty());
    let up: Vec<i64> = pg.trace_backward(req).unwrap().iter().map(|n| n.id).collect();
    assert_eq!(up, vec![plan_id]);
}

#[test]
fn timeline_lists_every_node_reachable_from_the_root() {
    let mut pg = PlanGraph::open_in_memory().unwrap();
    let req = pg.add_requirement("Req", "Need").unwrap();
    let plan_id = pg.add_plan("Plan", &[req]).unwrap();
    let (t1, d1) = section(1);
    let section_id = pg.add_section(plan_id, req, &t1, 1, &d1).unwrap();
    let task_id = pg.graph().insert_entity(&task_entity("T")).unwrap();
    link(&pg, section_id, task_id, PlanEdgeKind::DecomposesInto);
    let run_id = pg.begin_subagent_run(task_id, "a", "r", &run_data("a", "r")).unwrap();
    let log_id = pg.record_log(run_id, LogLevel::Info, 0, &log_data()).unwrap();
    let other = pg.add_requirement("Other", "Unrelated").unwrap();

    let mut ids: Vec<i64> = pg.timeline(plan_id).unwrap().iter().map(|n| n.id).collect();
    ids.sort();
    let mut want = vec![req, plan_id, section_id, task_id, run_id, log_id];
    want.sort();
    assert_eq!(ids, want);
    assert!(!ids.contains(&other));
    let from_req: Vec<i64> = pg.timeline(req).unwrap().iter().map(|n| n.id).collect();
    assert_eq!(from_req, vec![req]);
    assert!(pg.timeline(987654).unwrap().is_empty());
}

#[test]
fn find_gaps_lists_unexecuted_tasks_in_section_order() {
    let mut pg = PlanGraph::open_in_memory().unwrap();
    let req = pg.add_requirement("Req", "Need").unwrap();
    let plan_id = pg.add_plan("Plan", &[req]).unwrap();
    let (t1, d1) = section(1);
    let (t2, d2) = section(2);
    let s1 = pg.add_section(plan_id, req, &t1, 1, &d1).unwrap();
    let s2 = pg.add_section(plan_id, req, &t2, 2, &d2).unwrap();
    let a = pg.graph().insert_entity(&task_entity("A")).unwrap();
    let b = pg.graph().insert_entity(&task_entity("B")).unwrap();
    let c = pg.graph().insert_entity(&task_entity("C")).unwrap();
    link(&pg, s1, a, PlanEdgeKind::DecomposesInto);
    link(&pg, s1, b, PlanEdgeKind::DecomposesInto);
    link(&pg, s2, c, PlanEdgeKind::DecomposesInto);
    pg.begin_subagent_run(b, "a", "r", &run_data("a", "r")).unwrap();

    assert_eq!(pg.find_gaps(plan_id).unwrap(), vec![a, c]);
    assert!(pg.find_gaps(s1).unwrap().is_empty());
}

#[test]
fn trace_forward_orders_sections_and_lists_tasks_and_runs() {
    let mut pg = PlanGraph::open_in_memory().unwrap();
    let req = pg.add_requirement("Req", "Need").unwrap();
    let p1 = pg.add_plan("P1", &[req]).unwrap();
    let p2 = pg.add_plan("P2", &[req]).unwrap();
    let (t1, d1) = section(2);
    let (t2, d2) = section(1);
    let s1 = pg.add_section(p1, req, &t1, 2, &d1).unwrap();
    let s2 = pg.add_section(p2, req, &t2, 1, &d2).unwrap();
    let a = pg.graph().insert_entity(&task_entity("A")).unwrap();
    link(&pg, s2, a, PlanEdgeKind::DecomposesInto);
    let r1 = pg.begin_subagent_run(a, "x", "1", &run_data("x", "1")).unwrap();
    let r2 = pg.begin_subagent_run(a, "x", "2", &run_data("x", "2")).unwrap();

    let tree = pg.trace_forward(req).unwrap();
    let ids: Vec<i64> = tree.sections.iter().map(|s| s.section.id).collect();
    assert_eq!(ids, vec![s2, s1]);
    assert!(tree.sections[1].tasks.is_empty());
    assert_eq!(tree.sections[0].tasks[0].task.id, a);
    let runs: Vec<i64> = tree.sections[0].tasks[0].runs.iter().map(|r| r.run.id).collect();
    assert_eq!(runs, vec![r1, r2]);
    assert!(pg.trace_forward(p1).unwrap().sections.is_empty());
}

#[test]
fn reading_a_missing_entity_reports_the_store_message() {
    let mut pg = PlanGraph::open_in_memory().unwrap();
    assert_eq!(pg.entity_data(12345).unwrap_err().message, "entity not found: entity 12345");
    assert_eq!(pg.rewrite_entity_data(-7, "{}").unwrap_err().message, "entity not found: entity -7");
}

#[test]
fn trace_forward_keeps_equal_orders_in_match_order_and_refuses_sections_without_one() {
    let mut pg = PlanGraph::open_in_memory().unwrap();
    let req = pg.add_requirement("Req", "Need").unwrap();
    let plan_id = pg.add_plan("P", &[req]).unwrap();
    let (t1, d1) = section(3);
    let (t2, d2) = section(3);
    let s1 = pg.add_section(plan_id, req, &t1, 3, &d1).unwrap();
    let s2 = pg.add_section(plan_id, req, &t2, 3, &d2).unwrap();
    let ids: Vec<i64> = pg.trace_forward(req).unwrap().sections.iter().map(|s| s.section.id).collect();
    assert_eq!(ids, vec![s1, s2]);
    pg.add_section(plan_id, req, "No order", 1, "{}").unwrap();
    assert!(pg.trace_forward(req).is_err());
}
