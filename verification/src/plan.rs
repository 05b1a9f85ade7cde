//! Kinds of the nodes and edges of the plan graph, and the small data
//! records stored on its chain-of-custody nodes.

use vstd::prelude::*;

verus! {

/// Node kinds for the plan graph.
#[derive(Clone, Copy, Debug, PartialEq, Eq, Structural)]
pub enum PlanNodeKind {
    Requirement,
    Plan,
    Task,
    Decision,
    Constraint,
    Gate,
    GateResult,
    SemgrepFinding,
    Approval,
    Rejection,
    DiscoveredKnowledge,
    // chain-of-custody kinds
    PlanSection,
    SubagentRun,
    LogEntry,
    ToolCall,
    ReasoningStep,
    Deliverable,
}

/// The name a node kind is stored under.
pub open spec fn node_kind_name(k: PlanNodeKind) -> Seq<char> {
    match k {
        PlanNodeKind::Requirement => "Requirement"@,
        PlanNodeKind::Plan => "Plan"@,
        PlanNodeKind::Task => "Task"@,
        PlanNodeKind::Decision => "Decision"@,
        PlanNodeKind::Constraint => "Constraint"@,
        PlanNodeKind::Gate => "Gate"@,
        PlanNodeKind::GateResult => "GateResult"@,
        PlanNodeKind::SemgrepFinding => "SemgrepFinding"@,
        PlanNodeKind::Approval => "Approval"@,
        PlanNodeKind::Rejection => "Rejection"@,
        PlanNodeKind::DiscoveredKnowledge => "DiscoveredKnowledge"@,
        PlanNodeKind::PlanSection => "PlanSection"@,
        PlanNodeKind::SubagentRun => "SubagentRun"@,
        PlanNodeKind::LogEntry => "LogEntry"@,
        PlanNodeKind::ToolCall => "ToolCall"@,
        PlanNodeKind::ReasoningStep => "ReasoningStep"@,
        PlanNodeKind::Deliverable => "Deliverable"@,
    }
}

impl PlanNodeKind {
    /// The name the node kind is stored under.
    pub fn as_str(&self) -> (r: &'static str)
        ensures
            r@ == node_kind_name(*self),
    {
        proof {
            reveal_strlit("Requirement");
            reveal_strlit("Plan");
            reveal_strlit("Task");
            reveal_strlit("Decision");
            reveal_strlit("Constraint");
            reveal_strlit("Gate");
            reveal_strlit("GateResult");
            reveal_strlit("SemgrepFinding");
            reveal_strlit("Approval");
            reveal_strlit("Rejection");
            reveal_strlit("DiscoveredKnowledge");
            reveal_strlit("PlanSection");
            reveal_strlit("SubagentRun");
            reveal_strlit("LogEntry");
            reveal_strlit("ToolCall");
            reveal_strlit("ReasoningStep");
            reveal_strlit("Deliverable");
        }
        match self {
            PlanNodeKind::Requirement => "Requirement",
            PlanNodeKind::Plan => "Plan",
            PlanNodeKind::Task => "Task",
            PlanNodeKind::Decision => "Decision",
            PlanNodeKind::Constraint => "Constraint",
            PlanNodeKind::Gate => "Gate",
            PlanNodeKind::GateResult => "GateResult",
            PlanNodeKind::SemgrepFinding => "SemgrepFinding",
            PlanNodeKind::Approval => "Approval",
            PlanNodeKind::Rejection => "Rejection",
            PlanNodeKind::DiscoveredKnowledge => "DiscoveredKnowledge",
            PlanNodeKind::PlanSection => "PlanSection",
            PlanNodeKind::SubagentRun => "SubagentRun",
            PlanNodeKind::LogEntry => "LogEntry",
            PlanNodeKind::ToolCall => "ToolCall",
            PlanNodeKind::ReasoningStep => "ReasoningStep",
            PlanNodeKind::Deliverable => "Deliverable",
        }
    }
}

/// Edge kinds for the plan graph.
#[derive(Clone, Copy, Debug, PartialEq, Eq, Structural)]
pub enum PlanEdgeKind {
    HasRequirement,
    DecomposesInto,
    Implements,
    DependsOn,
    ValidatedBy,
    AssignedTo,
    Approved,
    Rejected,
    FoundIn,
    DetectedBy,
    Checks,
    InformedBy,
    RelatedTo,
    // chain-of-custody kinds
    ExecutedBy,
    Logged,
    Called,
    Reasoned,
    Produced,
    AddressesIn,
}

/// The name an edge kind is stored under.
pub open spec fn edge_kind_name(k: PlanEdgeKind) -> Seq<char> {
    match k {
        PlanEdgeKind::HasRequirement => "HAS_REQUIREMENT"@,
        PlanEdgeKind::DecomposesInto => "DECOMPOSES_INTO"@,
        PlanEdgeKind::Implements => "IMPLEMENTS"@,
        PlanEdgeKind::DependsOn => "DEPENDS_ON"@,
        PlanEdgeKind::ValidatedBy => "VALIDATED_BY"@,
        PlanEdgeKind::AssignedTo => "ASSIGNED_TO"@,
        PlanEdgeKind::Approved => "APPROVED"@,
        PlanEdgeKind::Rejected => "REJECTED"@,
        PlanEdgeKind::FoundIn => "FOUND_IN"@,
        PlanEdgeKind::DetectedBy => "DETECTED_BY"@,
        PlanEdgeKind::Checks => "CHECKS"@,
        PlanEdgeKind::InformedBy => "INFORMED_BY"@,
        PlanEdgeKind::RelatedTo => "RELATED_TO"@,
        PlanEdgeKind::ExecutedBy => "EXECUTED_BY"@,
        PlanEdgeKind::Logged => "LOGGED"@,
        PlanEdgeKind::Called => "CALLED"@,
        PlanEdgeKind::Reasoned => "REASONED"@,
        PlanEdgeKind::Produced => "PRODUCED"@,
        PlanEdgeKind::AddressesIn => "ADDRESSES_IN"@,
    }
}

impl PlanEdgeKind {
    /// The name the edge kind is stored under.
    pub fn as_str(&self) -> (r: &'static str)
        ensures
            r@ == edge_kind_name(*self),
    {
        proof {
            reveal_strlit("HAS_REQUIREMENT");
            reveal_strlit("DECOMPOSES_INTO");
            reveal_strlit("IMPLEMENTS");
            reveal_strlit("DEPENDS_ON");
            reveal_strlit("VALIDATED_BY");
            reveal_strlit("ASSIGNED_TO");
            reveal_strlit("APPROVED");
            reveal_strlit("REJECTED");
            reveal_strlit("FOUND_IN");
            reveal_strlit("DETECTED_BY");
            reveal_strlit("CHECKS");
            reveal_strlit("INFORMED_BY");
            reveal_strlit("RELATED_TO");
            reveal_strlit("EXECUTED_BY");
            reveal_strlit("LOGGED");
            reveal_strlit("CALLED");
            reveal_strlit("REASONED");
            reveal_strlit("PRODUCED");
            reveal_strlit("ADDRESSES_IN");
        }
        match self {
            PlanEdgeKind::HasRequirement => "HAS_REQUIREMENT",
            PlanEdgeKind::DecomposesInto => "DECOMPOSES_INTO",
            PlanEdgeKind::Implements => "IMPLEMENTS",
            PlanEdgeKind::DependsOn => "DEPENDS_ON",
            PlanEdgeKind::ValidatedBy => "VALIDATED_BY",
            PlanEdgeKind::AssignedTo => "ASSIGNED_TO",
            PlanEdgeKind::Approved => "APPROVED",
            PlanEdgeKind::Rejected => "REJECTED",
            PlanEdgeKind::FoundIn => "FOUND_IN",
            PlanEdgeKind::DetectedBy => "DETECTED_BY",
            PlanEdgeKind::Checks => "CHECKS",
            PlanEdgeKind::InformedBy => "INFORMED_BY",
            PlanEdgeKind::RelatedTo => "RELATED_TO",
            PlanEdgeKind::ExecutedBy => "EXECUTED_BY",
            PlanEdgeKind::Logged => "LOGGED",
            PlanEdgeKind::Called => "CALLED",
            PlanEdgeKind::Reasoned => "REASONED",
            PlanEdgeKind::Produced => "PRODUCED",
            PlanEdgeKind::AddressesIn => "ADDRESSES_IN",
        }
    }
}

/// Status of a subagent run.
#[derive(Clone, Copy, Debug, PartialEq, Eq, Structural)]
pub enum SubagentStatus {
    Running,
    Completed,
    Failed,
    Cancelled,
}

/// Log severity.
#[derive(Clone, Copy, Debug, PartialEq, Eq, Structural)]
pub enum LogLevel {
    Info,
    Warn,
    Error,
    Debug,
}

/// Data stored on a plan section node.
#[derive(Clone, Debug)]
pub struct PlanSectionData {
    pub order: usize,
    pub title: String,
    pub description: String,
}

} // verus!
