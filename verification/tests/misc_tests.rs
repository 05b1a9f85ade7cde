use forge_agent::examples::{cooperative_cancellation_example, CancellationAwareTask, PollingTask};
use forge_agent::explorer::{ExploreQuery, KnowledgeExplorer};
use forge_agent::gate::{gate_result_from_output, gate_result_spawn_failed, stops_run, Gate, GateAction, GateLanguage, GateRunner};
use forge_agent::plan::{LogLevel, PlanEdgeKind, PlanNodeKind, PlanSectionData, SubagentStatus};
use forge_agent::semgrep::{SemgrepFinding, SemgrepRunner};
use forge_agent::task::TaskId;
use forge_agent::transaction::{FileSnapshot, RestoreStep, Transaction, TransactionState};
use forge_agent::combinators::{conditional_step, needs_catch, ConditionalStep};
use forge_agent::task::{CompensationAction, TaskError, TaskResult};
use forge_agent::verify::{compile_diagnostics, errors_prompt, errors_with_diffs_prompt, graph_unavailable, test_diagnostics, Diagnostic, DiagnosticLevel, VerificationReport};
use std::path::PathBuf;

fn make_gate(name: &str, priority: u32, on_fail: GateAction) -> Gate {
    Gate {
        name: name.to_string(),
        tool: "test-tool".to_string(),
        language: GateLanguage::Rust,
        priority,
        on_fail,
        config: None,
    }
}

#[test]
fn test_gate_priority_ordering() {
    let gates = vec![
        make_gate("low", 30, GateAction::Warn),
        make_gate("high", 10, GateAction::Block),
        make_gate("mid", 20, GateAction::Warn),
    ];
    let runner = GateRunner::new(gates);
    let names: Vec<&str> = runner.gates().iter().map(|g| g.name.as_str()).collect();
    assert_eq!(names, vec!["high", "mid", "low"]);
}

#[test]
fn gate_order_is_stable_for_equal_priorities() {
    let runner = GateRunner::new(vec![
        make_gate("x", 5, GateAction::Warn),
        make_gate("y", 1, GateAction::Warn),
        make_gate("z", 5, GateAction::Warn),
    ]);
    let names: Vec<&str> = runner.gates().iter().map(|g| g.name.as_str()).collect();
    assert_eq!(names, vec!["y", "x", "z"]);
}

#[test]
fn gate_results_count_error_and_warning_lines() {
    let gate = make_gate("lint", 1, GateAction::Block);
    let r = gate_result_from_output(&gate, false, Some(2), "error: a\nok\nwarning: b\n", "error: c", 9);
    assert_eq!(r.gate_name, "lint");
    assert!(!r.passed);
    assert_eq!(r.exit_code, 2);
    assert_eq!(r.errors, 2);
    assert_eq!(r.warnings, 1);
    assert_eq!(r.stdout, "error: a\nok\nwarning: b\n");
    assert_eq!(r.duration_ms, 9);
    assert!(stops_run(&gate, &r));
    let warn = make_gate("w", 1, GateAction::Warn);
    assert!(!stops_run(&warn, &r));
    let r = gate_result_from_output(&gate, true, None, "", "", 0);
    assert_eq!(r.exit_code, -1);
    assert!(!stops_run(&gate, &r));
    let r = gate_result_spawn_failed(&gate, "no such file", 3);
    assert_eq!(r.stdout, "failed to spawn command: no such file");
    assert_eq!(r.errors, 1);
    assert!(!r.passed);
}

#[test]
fn test_enum_variants_exist() {
    assert_eq!(PlanNodeKind::PlanSection.as_str(), "PlanSection");
    assert_eq!(PlanNodeKind::SubagentRun.as_str(), "SubagentRun");
    assert_eq!(PlanNodeKind::LogEntry.as_str(), "LogEntry");
    assert_eq!(PlanNodeKind::ToolCall.as_str(), "ToolCall");
    assert_eq!(PlanNodeKind::ReasoningStep.as_str(), "ReasoningStep");
    assert_eq!(PlanNodeKind::Deliverable.as_str(), "Deliverable");

    assert_eq!(PlanEdgeKind::ExecutedBy.as_str(), "EXECUTED_BY");
    assert_eq!(PlanEdgeKind::Logged.as_str(), "LOGGED");
    assert_eq!(PlanEdgeKind::Called.as_str(), "CALLED");
    assert_eq!(PlanEdgeKind::Reasoned.as_str(), "REASONED");
    assert_eq!(PlanEdgeKind::Produced.as_str(), "PRODUCED");
    assert_eq!(PlanEdgeKind::AddressesIn.as_str(), "ADDRESSES_IN");
}

#[test]
fn plan_kind_names() {
    assert_eq!(PlanNodeKind::Requirement.as_str(), "Requirement");
    assert_eq!(PlanNodeKind::DiscoveredKnowledge.as_str(), "DiscoveredKnowledge");
    assert_eq!(PlanEdgeKind::DecomposesInto.as_str(), "DECOMPOSES_INTO");
    assert_eq!(PlanEdgeKind::InformedBy.as_str(), "INFORMED_BY");
    assert_ne!(SubagentStatus::Running, SubagentStatus::Failed);
    assert_ne!(LogLevel::Info, LogLevel::Debug);
    let s = PlanSectionData { order: 1, title: "T".to_string(), description: "D".to_string() };
    assert_eq!(s.order, 1);
}

#[test]
fn test_new_returns_none_when_no_db() {
    let db_path = PathBuf::from("/tmp/absolutely_nonexistent_wiki_42.db");
    let explorer = KnowledgeExplorer::new(db_path);
    assert!(
        explorer.is_none(),
        "should return None when db file doesn't exist"
    );
}

#[test]
fn explorer_modes() {
    let e = KnowledgeExplorer::code_only(PathBuf::from("/tmp/project.db"));
    assert!(!e.has_wiki());
    let e = KnowledgeExplorer::with_wiki_if(PathBuf::from("/tmp/w.db"), true).unwrap();
    assert!(e.has_wiki());
    let e = e.with_project_db(PathBuf::from("/tmp/p.db"));
    assert!(e.has_wiki());
    assert!(KnowledgeExplorer::with_wiki_if(PathBuf::from("/tmp/w.db"), false).is_none());
    let q = ExploreQuery { topic: "t".to_string(), entity_kinds: vec![], depth: 2, limit: 10, include_history: true };
    assert_eq!(q.depth, 2);
}

#[test]
fn semgrep_types() {
    let _runner = SemgrepRunner::new(vec!["p/default".to_string()]);
    let f = SemgrepFinding {
        check_id: "x".to_string(),
        file: "f".to_string(),
        start_line: 1,
        end_line: 2,
        message: "m".to_string(),
        severity: "ERROR".to_string(),
        category: None,
    };
    assert_eq!(f.clone(), f);
}

#[test]
fn file_snapshot_checksum_is_byte_length() {
    let s = FileSnapshot::new(PathBuf::from("/tmp/a"), "héllo".to_string());
    assert_eq!(s.checksum, "6");
    assert_eq!(s.original_content, "héllo");
    let e = FileSnapshot::new_empty(PathBuf::from("/tmp/b"));
    assert_eq!(e.checksum, "0");
    assert!(e.original_content.is_empty());
    assert_ne!(TransactionState::Active, TransactionState::Committed("x".to_string()));
}

#[test]
fn test_diagnostic_level_equality() {
    assert_eq!(DiagnosticLevel::Error, DiagnosticLevel::Error);
    assert_ne!(DiagnosticLevel::Error, DiagnosticLevel::Warning);
}

#[test]
fn compile_output_becomes_diagnostics() {
    let d = compile_diagnostics("  error: expected `;`\nnote: x\n", "warning: unused\nerror: again");
    assert_eq!(d.len(), 3);
    assert_eq!(d[0].level, DiagnosticLevel::Error);
    assert_eq!(d[0].message, "error: expected `;`");
    assert_eq!(d[1].level, DiagnosticLevel::Warning);
    assert_eq!(d[1].message, "warning: unused");
    assert_eq!(d[2].message, "error: again");
    let t = test_diagnostics("test result: FAILED. 1 passed; 2 failed\ntest result: ok.\n", "");
    assert_eq!(t.len(), 1);
    assert_eq!(t[0].level, DiagnosticLevel::Error);
    assert_eq!(graph_unavailable().message, "Graph check: no Forge SDK available");
}

#[test]
fn report_and_prompts() {
    let diags = vec![
        Diagnostic { level: DiagnosticLevel::Error, message: "e1".to_string() },
        Diagnostic { level: DiagnosticLevel::Warning, message: "w".to_string() },
        Diagnostic { level: DiagnosticLevel::Error, message: "e2".to_string() },
    ];
    assert_eq!(
        errors_prompt(&diags).unwrap(),
        "The following compilation/test errors were detected:\n\ne1\ne2"
    );
    assert_eq!(
        errors_with_diffs_prompt(&diags, &vec!["d1".to_string(), "d2".to_string()]).unwrap(),
        "The following compilation/test errors were detected:\n\ne1\ne2\n\nRecent changes (diffs):\nd1\nd2"
    );
    let report = VerificationReport::from_diagnostics(diags, None);
    assert!(!report.passed);
    let clean = vec![Diagnostic { level: DiagnosticLevel::Info, message: "i".to_string() }];
    assert!(errors_prompt(&clean).is_none());
    assert!(VerificationReport::from_diagnostics(clean, None).passed);
}

#[test]
fn example_tasks_and_workflow() {
    let t = CancellationAwareTask::new(TaskId::new("t"), "T".to_string(), 3, 10);
    assert_eq!(t.id(), TaskId::new("t"));
    assert_eq!(t.name(), "T");
    assert_eq!(t.delay_ms(), 10);
    assert!(t.runs_another_iteration(2, false));
    assert!(!t.runs_another_iteration(3, false));
    assert!(!t.runs_another_iteration(0, true));
    let p = PollingTask::new(TaskId::new("p"), "P".to_string(), 500);
    assert_eq!(p.total_duration_ms(), 500);
    assert_eq!(p.name(), "P");
    let w = cooperative_cancellation_example();
    assert_eq!(w.task_count(), 3);
    let order = w.execution_order().unwrap();
    assert_eq!(order, vec![TaskId::new("task1"), TaskId::new("task2"), TaskId::new("task3")]);
}

#[test]
fn transaction_rollback_steps_undo_in_reverse() {
    let mut tx = Transaction::begin();
    assert_eq!(tx.snapshot_count(), 0);
    assert_eq!(*tx.state(), TransactionState::Active);
    tx.record_snapshot(FileSnapshot::new(PathBuf::from("a.rs"), "original".to_string())).unwrap();
    tx.record_snapshot(FileSnapshot::new_empty(PathBuf::from("new.rs"))).unwrap();
    tx.record_snapshot(FileSnapshot::new(PathBuf::from("empty.rs"), String::new())).unwrap();
    assert_eq!(tx.snapshot_count(), 3);

    let steps = tx.rollback_steps().unwrap();
    assert_eq!(steps.len(), 3);
    match &steps[0] {
        RestoreStep::Write(p, c) => {
            assert_eq!(p, &PathBuf::from("empty.rs"));
            assert_eq!(c, "");
        }
        _ => panic!("an existing empty file is written back, not removed"),
    }
    match &steps[1] {
        RestoreStep::Remove(p) => assert_eq!(p, &PathBuf::from("new.rs")),
        _ => panic!("a created file is removed"),
    }
    match &steps[2] {
        RestoreStep::Write(p, c) => {
            assert_eq!(p, &PathBuf::from("a.rs"));
            assert_eq!(c, "original");
        }
        _ => panic!("an existing file is written back"),
    }
    let id = tx.id();
    let commit = tx.commit().unwrap();
    assert_ne!(commit, 0);
    assert_ne!(commit, id);
}

#[test]
fn snapshot_checksum_is_byte_length() {
    let s = FileSnapshot::new(PathBuf::from("x"), "héllo".to_string());
    assert_eq!(s.checksum, "6");
}

#[test]
fn conditional_and_try_catch_decisions() {
    assert_eq!(conditional_step(&TaskResult::Success, false), ConditionalStep::RunThen);
    assert_eq!(conditional_step(&TaskResult::Failed("e".to_string()), true), ConditionalStep::RunElse);
    assert_eq!(conditional_step(&TaskResult::Skipped, false), ConditionalStep::ReturnCondition);
    let wrapped = TaskResult::WithCompensation {
        result: Box::new(TaskResult::Success),
        compensation: CompensationAction::skip("nothing"),
    };
    assert_eq!(conditional_step(&wrapped, true), ConditionalStep::RunThen);

    assert!(!needs_catch(&Ok(TaskResult::Success)));
    assert!(needs_catch(&Ok(TaskResult::Failed("f".to_string()))));
    assert!(needs_catch(&Ok(TaskResult::Skipped)));
    assert!(needs_catch(&Err(TaskError::Timeout("t".to_string()))));
}

#[test]
fn identifiers_are_version_4_uuids() {
    let tx = Transaction::begin();
    assert_eq!(uuid::Uuid::from_u128(tx.id()).get_version_num(), 4);
    assert_ne!(tx.id(), 0);
    let commit_id = tx.commit().unwrap();
    assert_eq!(uuid::Uuid::from_u128(commit_id).get_version_num(), 4);
    let cp = forge_agent::checkpoint::CheckpointId::new();
    assert_eq!(uuid::Uuid::from_u128(cp.0).get_version_num(), 4);
    assert_eq!(cp.to_display_string().chars().nth(14), Some('4'));
}

#[test]
fn diagnostics_are_trimmed_of_unicode_white_space() {
    let d = compile_diagnostics("\u{3000}\t error: wide space\u{A0}\u{2003}\n", "");
    assert_eq!(d.len(), 1);
    assert_eq!(d[0].message, "error: wide space");
}

#[test]
fn test_semgrep_finding_parse_from_json() {
    let json = r#"{"results":[{"check_id":"llm-sql-injection","path":"src/db.py","start":{"line":10},"end":{"line":12},"extra":{"message":"SQL injection","severity":"ERROR","metadata":{"category":"security"}}}]}"#;
    let findings = SemgrepRunner::parse_output(json).expect("parse should succeed");
    assert_eq!(findings.len(), 1);
    let f = &findings[0];
    assert_eq!(f.check_id, "llm-sql-injection");
    assert_eq!(f.file, "src/db.py");
    assert_eq!(f.start_line, 10);
    assert_eq!(f.end_line, 12);
    assert_eq!(f.message, "SQL injection");
    assert_eq!(f.severity, "ERROR");
    assert_eq!(f.category, Some("security".to_string()));
}

#[test]
fn test_semgrep_empty_results() {
    let findings = SemgrepRunner::parse_output(r#"{"results":[]}"#).expect("parse should succeed");
    assert!(findings.is_empty());
}

#[test]
fn test_semgrep_invalid_json() {
    assert!(SemgrepRunner::parse_output("not valid json {{{").is_err());
}

#[test]
fn semgrep_parse_skips_incomplete_entries_and_truncates_lines() {
    let json = r#"{"results":[{"check_id":"a","path":"p"},{"check_id":"b","path":"q","start":{"line":4294967297},"end":{"line":3},"extra":{"message":"m","severity":"WARNING","metadata":{"category":7}}}]}"#;
    let findings = SemgrepRunner::parse_output(json).unwrap();
    assert_eq!(findings.len(), 1);
    assert_eq!(findings[0].check_id, "b");
    assert_eq!(findings[0].start_line, 1);
    assert_eq!(findings[0].end_line, 3);
    assert_eq!(findings[0].category, None);
    assert!(SemgrepRunner::parse_output(r#"{"other":1}"#).unwrap().is_empty());
    assert!(SemgrepRunner::parse_output("[1,2]").unwrap().is_empty());
}

#[test]
fn split_lines_drops_crlf_endings_like_str_lines() {
    let got = forge_agent::text::split_lines("a\r\nb\r\n\nc\r");
    assert_eq!(got, vec!["a".to_string(), "b".to_string(), String::new(), "c\r".to_string()]);
    let want: Vec<String> = "a\r\nb\r\n\nc\r".lines().map(|l| l.to_string()).collect();
    assert_eq!(got, want);
}
