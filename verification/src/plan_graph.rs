//! The plan graph: requirements, plans, sections, tasks, runs and their
//! artifacts as nodes of a store, linked by typed edges, and the
//! chain-of-custody queries over them.
//!
//! Node data is JSON text: the caller writes the records it stores and reads
//! the records it gets back. A query reads what it needs of the store (its
//! entities and the matches of some edge types) and computes its answer
//! from those values (see `custody`).

use crate::checkpoint::{decimal_i64, signed_decimal};
use crate::custody::{
    all_children, children_in, count_from, custody_chain, custody_step, parent_by_rules, custody_parent_id, custody_rule, custody_tree, first_source,
    gaps_in, has_match, ids_of, informs, is_custody_tree, is_gap, kind_targets, knowledge_in,
    lemma_rows_map, linked_from, lists_view, missing_order, parent_in, plan_gaps, positions, rows_map, shows_entity,
    subsequence_of, targets_from, time_key, timeline_in, CustodyEdges, CustodyMatches, EntityTable, Ents,
};
use crate::plan::{edge_kind_name, node_kind_name, LogLevel, PlanEdgeKind, PlanNodeKind};
use crate::plan_store::{
    canonical_json, json_quote, json_string, matches_of, open_store, opt_view, store_edges, store_entities,
    store_entity_ids, store_get_entity, store_insert_edge, store_insert_entity, store_match, store_update_entity,
};
use crate::sorting::{lemma_insert_by_key_at, lemma_sort_by_key, sort_by_key, sorted_by_key};
use crate::text::{push_decimal, trimmed};
use sqlitegraph::SqliteGraph;
use vstd::prelude::*;
use vstd::string::StringExecFns;

pub use crate::custody::{CustodyNode, CustodyRunNodes, CustodySectionNodes, CustodyTaskNodes, CustodyTree, PlanError};

verus! {

/// The `{:?}` text of a log level.
pub open spec fn level_name(l: LogLevel) -> Seq<char> {
    match l {
        LogLevel::Info => "Info"@,
        LogLevel::Warn => "Warn"@,
        LogLevel::Error => "Error"@,
        LogLevel::Debug => "Debug"@,
    }
}

/// The `{:?}` text of a log level.
fn level_string(l: LogLevel) -> (r: String)
    ensures
        r@ == level_name(l),
{
    proof {
        reveal_strlit("Info");
        reveal_strlit("Warn");
        reveal_strlit("Error");
        reveal_strlit("Debug");
    }
    match l {
        LogLevel::Info => "Info".to_string(),
        LogLevel::Warn => "Warn".to_string(),
        LogLevel::Error => "Error".to_string(),
        LogLevel::Debug => "Debug".to_string(),
    }
}

/// The edge and node kinds of custody rule `r`.
fn rule_at(r: usize) -> (res: (PlanEdgeKind, PlanNodeKind))
    requires
        r < 8,
    ensures
        edge_kind_name(res.0) == custody_rule(r as int).0,
        node_kind_name(res.1) == custody_rule(r as int).1,
{
    if r == 0 {
        (PlanEdgeKind::ExecutedBy, PlanNodeKind::Task)
    } else if r == 1 {
        (PlanEdgeKind::DecomposesInto, PlanNodeKind::PlanSection)
    } else if r == 2 {
        (PlanEdgeKind::HasRequirement, PlanNodeKind::Plan)
    } else if r == 3 {
        (PlanEdgeKind::AddressesIn, PlanNodeKind::Requirement)
    } else if r == 4 {
        (PlanEdgeKind::Logged, PlanNodeKind::SubagentRun)
    } else if r == 5 {
        (PlanEdgeKind::Called, PlanNodeKind::SubagentRun)
    } else if r == 6 {
        (PlanEdgeKind::Reasoned, PlanNodeKind::SubagentRun)
    } else {
        (PlanEdgeKind::Produced, PlanNodeKind::SubagentRun)
    }
}

/// The store's entities: identifier to kind and data (as JSON text written back).
pub open spec fn ents_of(g: SqliteGraph) -> Ents {
    Map::new(
        |id: i64| store_entities(g).contains_key(id),
        |id: i64| (store_entities(g)[id].0, canonical_json(store_entities(g)[id].3)),
    )
}

/// The store's matches of the edge types a forward trace reads.
pub open spec fn custody_matches_of(g: SqliteGraph) -> CustodyMatches {
    CustodyMatches {
        has_requirement: matches_of(g, "HAS_REQUIREMENT"@),
        decomposes_into: matches_of(g, "DECOMPOSES_INTO"@),
        executed_by: matches_of(g, "EXECUTED_BY"@),
        logged: matches_of(g, "LOGGED"@),
        called: matches_of(g, "CALLED"@),
        reasoned: matches_of(g, "REASONED"@),
        produced: matches_of(g, "PRODUCED"@),
    }
}

/// The store's matches of each custody rule's edge type, in rule order.
pub open spec fn rule_lists(g: SqliteGraph) -> Seq<Seq<(i64, i64, i64)>> {
    Seq::new(8, |r: int| matches_of(g, custody_rule(r).0))
}

/// The lists, one after another.
pub open spec fn concat_lists(ls: Seq<Seq<(i64, i64, i64)>>) -> Seq<(i64, i64, i64)>
    decreases ls.len(),
{
    if ls.len() == 0 {
        Seq::empty()
    } else {
        concat_lists(ls.drop_last()) + ls.last()
    }
}

/// The store's matches of the first `n` edge kinds a timeline follows.
pub open spec fn timeline_lists(g: SqliteGraph, n: nat) -> Seq<Seq<(i64, i64, i64)>> {
    Seq::new(n, |i: int| matches_of(g, edge_kind_name(timeline_kinds()[i])))
}

/// The steps a timeline walks: the store's matches of every plan-graph edge
/// kind, kind after kind in the order `timeline_kinds` gives.
pub open spec fn timeline_steps(g: SqliteGraph) -> Seq<(i64, i64, i64)> {
    concat_lists(timeline_lists(g, 19))
}

/// The edge kinds a timeline follows, in the order it follows them.
pub open spec fn timeline_kinds() -> Seq<PlanEdgeKind> {
    seq![
        PlanEdgeKind::HasRequirement,
        PlanEdgeKind::DecomposesInto,
        PlanEdgeKind::Implements,
        PlanEdgeKind::DependsOn,
        PlanEdgeKind::ValidatedBy,
        PlanEdgeKind::AssignedTo,
        PlanEdgeKind::Approved,
        PlanEdgeKind::Rejected,
        PlanEdgeKind::FoundIn,
        PlanEdgeKind::DetectedBy,
        PlanEdgeKind::Checks,
        PlanEdgeKind::InformedBy,
        PlanEdgeKind::RelatedTo,
        PlanEdgeKind::ExecutedBy,
        PlanEdgeKind::Logged,
        PlanEdgeKind::Called,
        PlanEdgeKind::Reasoned,
        PlanEdgeKind::Produced,
        PlanEdgeKind::AddressesIn,
    ]
}

/// The edge kind a timeline follows in turn `k`.
fn timeline_kind(k: usize) -> (r: PlanEdgeKind)
    requires
        k < 19,
    ensures
        r == timeline_kinds()[k as int],
{
    if k == 0 {
        PlanEdgeKind::HasRequirement
    } else if k == 1 {
        PlanEdgeKind::DecomposesInto
    } else if k == 2 {
        PlanEdgeKind::Implements
    } else if k == 3 {
        PlanEdgeKind::DependsOn
    } else if k == 4 {
        PlanEdgeKind::ValidatedBy
    } else if k == 5 {
        PlanEdgeKind::AssignedTo
    } else if k == 6 {
        PlanEdgeKind::Approved
    } else if k == 7 {
        PlanEdgeKind::Rejected
    } else if k == 8 {
        PlanEdgeKind::FoundIn
    } else if k == 9 {
        PlanEdgeKind::DetectedBy
    } else if k == 10 {
        PlanEdgeKind::Checks
    } else if k == 11 {
        PlanEdgeKind::InformedBy
    } else if k == 12 {
        PlanEdgeKind::RelatedTo
    } else if k == 13 {
        PlanEdgeKind::ExecutedBy
    } else if k == 14 {
        PlanEdgeKind::Logged
    } else if k == 15 {
        PlanEdgeKind::Called
    } else if k == 16 {
        PlanEdgeKind::Reasoned
    } else if k == 17 {
        PlanEdgeKind::Produced
    } else {
        PlanEdgeKind::AddressesIn
    }
}

/// The store's message for an identifier that names no entity.
fn missing_entity_message(id: i64) -> (r: String)
    ensures
        r@ == "entity not found: entity "@ + signed_decimal(id as int),
{
    let mut m = "entity not found: entity ".to_string();
    let d = decimal_i64(id);
    m.append(d.as_str());
    m
}

/// The plan graph over its store.
pub struct PlanGraph {
    graph: SqliteGraph,
}

impl PlanGraph {
    /// The store.
    pub closed spec fn store(&self) -> SqliteGraph {
        self.graph
    }

    /// The store's entities.
    pub open spec fn entities(&self) -> Map<i64, (Seq<char>, Seq<char>, Option<Seq<char>>, Seq<char>)> {
        store_entities(self.store())
    }

    /// The store's edges, in the order they were inserted.
    pub open spec fn edges(&self) -> Seq<(i64, i64, i64, Seq<char>)> {
        store_edges(self.store())
    }

    /// A plan graph over a new, empty in-memory store.
    pub fn open_in_memory() -> (r: Result<PlanGraph, PlanError>)
        ensures
            r matches Ok(pg) ==> pg.entities().dom() == Set::<i64>::empty() && pg.edges().len() == 0,
    {
        match open_store() {
            Ok(g) => Ok(PlanGraph { graph: g }),
            Err(m) => Err(PlanError { message: m }),
        }
    }

    /// A plan graph over an opened store.
    pub fn from_store(graph: SqliteGraph) -> (r: PlanGraph)
        ensures
            r.store() == graph,
    {
        PlanGraph { graph }
    }

    /// The underlying store.
    pub fn graph(&self) -> (r: &SqliteGraph)
        ensures
            *r == self.store(),
    {
        &self.graph
    }

    /// Adds a node; on success its identifier is above every identifier in use.
    fn add_node(&mut self, kind: &str, name: &str, file_path: Option<String>, data: &str) -> (r: Result<i64, PlanError>)
        ensures
            trimmed(kind@).len() == 0 || trimmed(name@).len() == 0 ==> r is Err,
            r matches Ok(id) ==> id > 0 && !old(self).entities().contains_key(id) && final(self).entities()
                == old(self).entities().insert(id, (kind@, name@, opt_view(file_path), canonical_json(data@)))
                && final(self).edges() == old(self).edges(),
    {
        match store_insert_entity(&mut self.graph, kind, name, file_path, data) {
            Ok(id) => Ok(id),
            Err(m) => Err(PlanError { message: m }),
        }
    }

    /// Adds an edge between existing nodes.
    fn add_link(&mut self, from: i64, to: i64, edge_type: &str, data: &str) -> (r: Result<i64, PlanError>)
        ensures
            from <= 0 || to <= 0 || trimmed(edge_type@).len() == 0 || !old(self).entities().contains_key(from)
                || !old(self).entities().contains_key(to) ==> r is Err,
            r is Ok ==> final(self).edges() == old(self).edges().push((r->Ok_0, from, to, edge_type@))
                && final(self).entities() == old(self).entities() && old(self).entities().contains_key(from)
                && old(self).entities().contains_key(to),
    {
        match store_insert_edge(&mut self.graph, from, to, edge_type, data) {
            Ok(id) => Ok(id),
            Err(m) => Err(PlanError { message: m }),
        }
    }

    /// Adds a node of kind `kind` linked from `from` by an edge of type
    /// `edge`, whose data is the empty object. Returns the node's identifier.
    fn add_linked_node(
        &mut self,
        from: i64,
        edge: PlanEdgeKind,
        kind: PlanNodeKind,
        name: &str,
        file_path: Option<String>,
        data: &str,
    ) -> (r: Result<i64, PlanError>)
        ensures
            trimmed(name@).len() == 0 || from <= 0 ==> r is Err,
            r matches Ok(id) ==> id > 0 && !old(self).entities().contains_key(id) && final(self).entities()
                == old(self).entities().insert(id, (node_kind_name(kind), name@, opt_view(file_path), canonical_json(data@)))
                && final(self).edges().len() == old(self).edges().len() + 1 && final(self).edges().drop_last()
                == old(self).edges() && final(self).edges().last().1 == from && final(self).edges().last().2 == id
                && final(self).edges().last().3 == edge_kind_name(edge),
    {
        let id = match self.add_node(kind.as_str(), name, file_path, data) {
            Ok(id) => id,
            Err(e) => {
                return Err(e);
            },
        };
        let ghost mid = self.edges();
        match self.add_link(from, id, edge.as_str(), "{}") {
            Ok(_) => {},
            Err(e) => {
                return Err(e);
            },
        }
        proof {
            assert(self.edges().drop_last() =~= mid);
        }
        Ok(id)
    }

    /// Adds a requirement node; its data records the description.
    pub fn add_requirement(&mut self, title: &str, description: &str) -> (r: Result<i64, PlanError>)
        ensures
            trimmed(title@).len() == 0 ==> r is Err,
            r matches Ok(id) ==> id > 0 && !old(self).entities().contains_key(id) && final(self).entities()
                == old(self).entities().insert(
                id,
                (
                    "Requirement"@,
                    title@,
                    None,
                    canonical_json("{\"description\":"@ + json_string(description@) + "}"@),
                ),
            ) && final(self).edges() == old(self).edges(),
    {
        let mut data = "{\"description\":".to_string();
        let q = json_quote(description);
        data.append(q.as_str());
        data.append("}");
        proof {
            reveal_strlit("Requirement");
        }
        self.add_node(PlanNodeKind::Requirement.as_str(), title, None, data.as_str())
    }

    /// Adds a plan node (with empty data) and links it to each requirement,
    /// in order.
    pub fn add_plan(&mut self, name: &str, requirement_ids: &[i64]) -> (r: Result<i64, PlanError>)
        ensures
            trimmed(name@).len() == 0 ==> r is Err,
            r matches Ok(id) ==> {
                &&& id > 0 && !old(self).entities().contains_key(id)
                &&& final(self).entities() == old(self).entities().insert(id, ("Plan"@, name@, None, canonical_json("{}"@)))
                &&& final(self).edges().len() == old(self).edges().len() + requirement_ids@.len()
                &&& final(self).edges().subrange(0, old(self).edges().len() as int) == old(self).edges()
                &&& forall|k: int|
                    0 <= k < requirement_ids@.len() ==> (#[trigger] final(self).edges()[old(self).edges().len() + k]).1
                        == id && final(self).edges()[old(self).edges().len() + k].2 == requirement_ids@[k]
                        && final(self).edges()[old(self).edges().len() + k].3 == "HAS_REQUIREMENT"@
            },
    {
        proof {
            reveal_strlit("Plan");
            reveal_strlit("HAS_REQUIREMENT");
        }
        let plan_id = match self.add_node(PlanNodeKind::Plan.as_str(), name, None, "{}") {
            Ok(id) => id,
            Err(e) => {
                return Err(e);
            },
        };
        let ghost e0 = old(self).edges();
        let ghost ents = self.entities();
        let mut i: usize = 0;
        while i < requirement_ids.len()
            invariant
                i <= requirement_ids@.len(),
                self.entities() == ents,
                self.edges().len() == e0.len() + i,
                self.edges().subrange(0, e0.len() as int) == e0,
                forall|k: int|
                    0 <= k < i ==> (#[trigger] self.edges()[e0.len() + k]).1 == plan_id && self.edges()[e0.len()
                        + k].2 == requirement_ids@[k] && self.edges()[e0.len() + k].3 == "HAS_REQUIREMENT"@,
            decreases requirement_ids@.len() - i,
        {
            let ghost before = self.edges();
            match self.add_link(plan_id, requirement_ids[i], PlanEdgeKind::HasRequirement.as_str(), "{}") {
                Ok(_) => {},
                Err(e) => {
                    return Err(e);
                },
            }
            proof {
                assert(self.edges().subrange(0, e0.len() as int) =~= before.subrange(0, e0.len() as int));
                assert forall|k: int| 0 <= k < i + 1 implies (#[trigger] self.edges()[e0.len() + k]).1 == plan_id
                    && self.edges()[e0.len() + k].2 == requirement_ids@[k] && self.edges()[e0.len() + k].3
                    == "HAS_REQUIREMENT"@ by {
                    if k < i {
                        assert(self.edges()[e0.len() + k] == before[e0.len() + k]);
                    }
                }
            }
            i = i + 1;
        }
        Ok(plan_id)
    }

    /// Records that a plan was informed by discovered knowledge (its JSON
    /// text given): a knowledge node named by the title, linked from the plan.
    pub fn link_knowledge(&mut self, plan_id: i64, title: &str, knowledge_json: &str) -> (r: Result<i64, PlanError>)
        ensures
            trimmed(title@).len() == 0 || plan_id <= 0 ==> r is Err,
            r matches Ok(id) ==> final(self).entities() == old(self).entities().insert(
                id,
                ("DiscoveredKnowledge"@, title@, None, canonical_json(knowledge_json@)),
            ) && !old(self).entities().contains_key(id) && final(self).edges() == old(self).edges().push(
                (final(self).edges().last().0, plan_id, id, "INFORMED_BY"@),
            ),
    {
        proof {
            reveal_strlit("DiscoveredKnowledge");
            reveal_strlit("INFORMED_BY");
        }
        let r = self.add_linked_node(
            plan_id,
            PlanEdgeKind::InformedBy,
            PlanNodeKind::DiscoveredKnowledge,
            title,
            None,
            knowledge_json,
        );
        proof {
            if r is Ok {
                assert(self.edges() =~= self.edges().drop_last().push(self.edges().last()));
            }
        }
        r
    }

    /// Adds a gate result (its JSON text given) named by its gate, linked from the task.
    pub fn add_gate_result(&mut self, task_id: i64, gate_name: &str, result_json: &str) -> (r: Result<i64, PlanError>)
        ensures
            trimmed(gate_name@).len() == 0 || task_id <= 0 ==> r is Err,
            r matches Ok(id) ==> final(self).entities() == old(self).entities().insert(
                id,
                ("GateResult"@, gate_name@, None, canonical_json(result_json@)),
            ) && !old(self).entities().contains_key(id) && final(self).edges() == old(self).edges().push(
                (final(self).edges().last().0, task_id, id, "VALIDATED_BY"@),
            ),
    {
        proof {
            reveal_strlit("GateResult");
            reveal_strlit("VALIDATED_BY");
        }
        let r = self.add_linked_node(task_id, PlanEdgeKind::ValidatedBy, PlanNodeKind::GateResult, gate_name, None, result_json);
        proof {
            if r is Ok {
                assert(self.edges() =~= self.edges().drop_last().push(self.edges().last()));
            }
        }
        r
    }

    /// Adds a semgrep finding (its JSON text given) named `check:file`; the
    /// node keeps the finding's location, and an edge leads to it from the result.
    pub fn add_semgrep_finding(&mut self, gate_result_id: i64, check_id: &str, file: &str, finding_json: &str) -> (r:
        Result<i64, PlanError>)
        ensures
            gate_result_id <= 0 ==> r is Err,
            r matches Ok(id) ==> final(self).entities() == old(self).entities().insert(
                id,
                ("SemgrepFinding"@, check_id@ + ":"@ + file@, Some(file@), canonical_json(finding_json@)),
            ) && !old(self).entities().contains_key(id) && final(self).edges() == old(self).edges().push(
                (final(self).edges().last().0, gate_result_id, id, "FOUND_IN"@),
            ),
    {
        proof {
            reveal_strlit("SemgrepFinding");
            reveal_strlit("FOUND_IN");
            reveal_strlit(":");
        }
        let mut name = check_id.to_string();
        name.append(":");
        name.append(file);
        let r = self.add_linked_node(
            gate_result_id,
            PlanEdgeKind::FoundIn,
            PlanNodeKind::SemgrepFinding,
            name.as_str(),
            Some(file.to_string()),
            finding_json,
        );
        proof {
            if r is Ok {
                assert(self.edges() =~= self.edges().drop_last().push(self.edges().last()));
            }
        }
        r
    }

    /// Approves a plan: an approval node named `approved_by_<approver>`,
    /// whose data records the approver, linked from the plan.
    pub fn approve(&mut self, plan_id: i64, approver: &str) -> (r: Result<i64, PlanError>)
        ensures
            plan_id <= 0 ==> r is Err,
            r matches Ok(id) ==> final(self).entities() == old(self).entities().insert(
                id,
                (
                    "Approval"@,
                    "approved_by_"@ + approver@,
                    None,
                    canonical_json("{\"approver\":"@ + json_string(approver@) + "}"@),
                ),
            ) && !old(self).entities().contains_key(id) && final(self).edges() == old(self).edges().push(
                (final(self).edges().last().0, plan_id, id, "APPROVED"@),
            ),
    {
        proof {
            reveal_strlit("Approval");
            reveal_strlit("APPROVED");
        }
        let mut name = "approved_by_".to_string();
        name.append(approver);
        let mut data = "{\"approver\":".to_string();
        let q = json_quote(approver);
        data.append(q.as_str());
        data.append("}");
        let r = self.add_linked_node(plan_id, PlanEdgeKind::Approved, PlanNodeKind::Approval, name.as_str(), None, data.as_str());
        proof {
            if r is Ok {
                assert(self.edges() =~= self.edges().drop_last().push(self.edges().last()));
            }
        }
        r
    }

    /// Rejects a plan: a rejection node named `rejected`, whose data records
    /// the reason, linked from the plan.
    pub fn reject(&mut self, plan_id: i64, reason: &str) -> (r: Result<i64, PlanError>)
        ensures
            plan_id <= 0 ==> r is Err,
            r matches Ok(id) ==> final(self).entities() == old(self).entities().insert(
                id,
                ("Rejection"@, "rejected"@, None, canonical_json("{\"reason\":"@ + json_string(reason@) + "}"@)),
            ) && !old(self).entities().contains_key(id) && final(self).edges() == old(self).edges().push(
                (final(self).edges().last().0, plan_id, id, "REJECTED"@),
            ),
    {
        proof {
            reveal_strlit("Rejection");
            reveal_strlit("REJECTED");
        }
        let mut data = "{\"reason\":".to_string();
        let q = json_quote(reason);
        data.append(q.as_str());
        data.append("}");
        let r = self.add_linked_node(plan_id, PlanEdgeKind::Rejected, PlanNodeKind::Rejection, "rejected", None, data.as_str());
        proof {
            if r is Ok {
                assert(self.edges() =~= self.edges().drop_last().push(self.edges().last()));
            }
        }
        r
    }

    /// Starts a subagent run for a task: a run node named
    /// `<agent>_<run id>` (its JSON text given), linked from the task.
    pub fn begin_subagent_run(&mut self, task_id: i64, agent_name: &str, run_id: &str, run_json: &str) -> (r: Result<
        i64,
        PlanError,
    >)
        ensures
            task_id <= 0 ==> r is Err,
            r matches Ok(id) ==> final(self).entities() == old(self).entities().insert(
                id,
                ("SubagentRun"@, agent_name@ + "_"@ + run_id@, None, canonical_json(run_json@)),
            ) && !old(self).entities().contains_key(id) && final(self).edges() == old(self).edges().push(
                (final(self).edges().last().0, task_id, id, "EXECUTED_BY"@),
            ),
    {
        proof {
            reveal_strlit("SubagentRun");
            reveal_strlit("EXECUTED_BY");
            reveal_strlit("_");
        }
        let mut name = agent_name.to_string();
        name.append("_");
        name.append(run_id);
        let r = self.add_linked_node(task_id, PlanEdgeKind::ExecutedBy, PlanNodeKind::SubagentRun, name.as_str(), None, run_json);
        proof {
            if r is Ok {
                assert(self.edges() =~= self.edges().drop_last().push(self.edges().last()));
            }
        }
        r
    }

    /// Records a log entry of a run (its JSON text given), named
    /// `<level>_<seconds>` after its level and its time in whole seconds.
    pub fn record_log(&mut self, run_node_id: i64, level: LogLevel, timestamp_secs: i64, log_json: &str) -> (r: Result<
        i64,
        PlanError,
    >)
        ensures
            run_node_id <= 0 ==> r is Err,
            r matches Ok(id) ==> final(self).entities() == old(self).entities().insert(
                id,
                (
                    "LogEntry"@,
                    level_name(level) + "_"@ + signed_decimal(timestamp_secs as int),
                    None,
                    canonical_json(log_json@),
                ),
            ) && !old(self).entities().contains_key(id) && final(self).edges() == old(self).edges().push(
                (final(self).edges().last().0, run_node_id, id, "LOGGED"@),
            ),
    {
        proof {
            reveal_strlit("LogEntry");
            reveal_strlit("LOGGED");
            reveal_strlit("_");
        }
        let mut name = level_string(level);
        name.append("_");
        let secs = decimal_i64(timestamp_secs);
        name.append(secs.as_str());
        let r = self.add_linked_node(run_node_id, PlanEdgeKind::Logged, PlanNodeKind::LogEntry, name.as_str(), None, log_json);
        proof {
            if r is Ok {
                assert(self.edges() =~= self.edges().drop_last().push(self.edges().last()));
            }
        }
        r
    }

    /// Records a tool call of a run (its JSON text given), named by the tool.
    pub fn record_tool_call(&mut self, run_node_id: i64, tool: &str, call_json: &str) -> (r: Result<i64, PlanError>)
        ensures
            trimmed(tool@).len() == 0 || run_node_id <= 0 ==> r is Err,
            r matches Ok(id) ==> final(self).entities() == old(self).entities().insert(
                id,
                ("ToolCall"@, tool@, None, canonical_json(call_json@)),
            ) && !old(self).entities().contains_key(id) && final(self).edges() == old(self).edges().push(
                (final(self).edges().last().0, run_node_id, id, "CALLED"@),
            ),
    {
        proof {
            reveal_strlit("ToolCall");
            reveal_strlit("CALLED");
        }
        let r = self.add_linked_node(run_node_id, PlanEdgeKind::Called, PlanNodeKind::ToolCall, tool, None, call_json);
        proof {
            if r is Ok {
                assert(self.edges() =~= self.edges().drop_last().push(self.edges().last()));
            }
        }
        r
    }

    /// Records a reasoning step of a run (its JSON text given), named by its decision.
    pub fn record_reasoning(&mut self, run_node_id: i64, decision: &str, step_json: &str) -> (r: Result<i64, PlanError>)
        ensures
            trimmed(decision@).len() == 0 || run_node_id <= 0 ==> r is Err,
            r matches Ok(id) ==> final(self).entities() == old(self).entities().insert(
                id,
                ("ReasoningStep"@, decision@, None, canonical_json(step_json@)),
            ) && !old(self).entities().contains_key(id) && final(self).edges() == old(self).edges().push(
                (final(self).edges().last().0, run_node_id, id, "REASONED"@),
            ),
    {
        proof {
            reveal_strlit("ReasoningStep");
            reveal_strlit("REASONED");
        }
        let r = self.add_linked_node(run_node_id, PlanEdgeKind::Reasoned, PlanNodeKind::ReasoningStep, decision, None, step_json);
        proof {
            if r is Ok {
                assert(self.edges() =~= self.edges().drop_last().push(self.edges().last()));
            }
        }
        r
    }

    /// Records a deliverable of a run (its JSON text given), named by and
    /// carrying its file's path.
    pub fn record_deliverable(&mut self, run_node_id: i64, file_path: &str, deliverable_json: &str) -> (r: Result<
        i64,
        PlanError,
    >)
        ensures
            trimmed(file_path@).len() == 0 || run_node_id <= 0 ==> r is Err,
            r matches Ok(id) ==> final(self).entities() == old(self).entities().insert(
                id,
                ("Deliverable"@, file_path@, Some(file_path@), canonical_json(deliverable_json@)),
            ) && !old(self).entities().contains_key(id) && final(self).edges() == old(self).edges().push(
                (final(self).edges().last().0, run_node_id, id, "PRODUCED"@),
            ),
    {
        proof {
            reveal_strlit("Deliverable");
            reveal_strlit("PRODUCED");
        }
        let r = self.add_linked_node(
            run_node_id,
            PlanEdgeKind::Produced,
            PlanNodeKind::Deliverable,
            file_path,
            Some(file_path.to_string()),
            deliverable_json,
        );
        proof {
            if r is Ok {
                assert(self.edges() =~= self.edges().drop_last().push(self.edges().last()));
            }
        }
        r
    }

    /// Adds a plan section (its JSON text given) named by its title: linked
    /// to the requirement it addresses, then from the plan with its order.
    pub fn add_section(&mut self, plan_id: i64, requirement_id: i64, title: &str, order: usize, section_json: &str) -> (r:
        Result<i64, PlanError>)
        ensures
            trimmed(title@).len() == 0 || plan_id <= 0 || requirement_id <= 0 ==> r is Err,
            r matches Ok(id) ==> {
                &&& !old(self).entities().contains_key(id)
                &&& final(self).entities() == old(self).entities().insert(
                    id,
                    ("PlanSection"@, title@, None, canonical_json(section_json@)),
                )
                &&& final(self).edges().len() == old(self).edges().len() + 2
                &&& final(self).edges().subrange(0, old(self).edges().len() as int) == old(self).edges()
                &&& final(self).edges()[old(self).edges().len() as int].1 == id
                &&& final(self).edges()[old(self).edges().len() as int].2 == requirement_id
                &&& final(self).edges()[old(self).edges().len() as int].3 == "ADDRESSES_IN"@
                &&& final(self).edges()[old(self).edges().len() + 1int].1 == plan_id
                &&& final(self).edges()[old(self).edges().len() + 1int].2 == id
                &&& final(self).edges()[old(self).edges().len() + 1int].3 == "DECOMPOSES_INTO"@
            },
    {
        proof {
            reveal_strlit("PlanSection");
            reveal_strlit("ADDRESSES_IN");
            reveal_strlit("DECOMPOSES_INTO");
        }
        let section_id = match self.add_node(PlanNodeKind::PlanSection.as_str(), title, None, section_json) {
            Ok(id) => id,
            Err(e) => {
                return Err(e);
            },
        };
        let ghost e0 = old(self).edges();
        match self.add_link(section_id, requirement_id, PlanEdgeKind::AddressesIn.as_str(), "{}") {
            Ok(_) => {},
            Err(e) => {
                return Err(e);
            },
        }
        let mut data = "{\"order\":".to_string();
        push_decimal(&mut data, order);
        data.append("}");
        let ghost e1 = self.edges();
        match self.add_link(plan_id, section_id, PlanEdgeKind::DecomposesInto.as_str(), data.as_str()) {
            Ok(_) => {},
            Err(e) => {
                return Err(e);
            },
        }
        proof {
            assert(self.edges().subrange(0, e0.len() as int) =~= e0);
            assert(self.edges()[e0.len() as int] == e1[e0.len() as int]);
        }
        Ok(section_id)
    }

    /// What the store holds of its entities.
    fn read_table(&self) -> (r: Result<EntityTable, PlanError>)
        ensures
            r matches Ok(t) ==> t.ents() == ents_of(self.store()),
    {
        let ghost g = self.store();
        let ids = match store_entity_ids(&self.graph) {
            Ok(v) => v,
            Err(m) => {
                return Err(PlanError { message: m });
            },
        };
        let mut rows: Vec<(i64, String, String)> = Vec::new();
        let mut i: usize = 0;
        while i < ids.len()
            invariant
                g == self.store(),
                i <= ids@.len(),
                rows@.len() == i,
                forall|a: int, b: int| 0 <= a < b < ids@.len() ==> ids@[a] < ids@[b],
                forall|x: i64| ids@.contains(x) <==> store_entities(g).contains_key(x),
                forall|k: int|
                    0 <= k < i ==> (#[trigger] rows@[k]).0 == ids@[k] && (rows@[k].1@, rows@[k].2@) == ents_of(g)[ids@[k]],
            decreases ids@.len() - i,
        {
            let id = ids[i];
            proof {
                assert(ids@.contains(id));
            }
            match store_get_entity(&self.graph, id) {
                Ok(Some((kind, _name, _path, data))) => {
                    let ghost rb = rows@;
                    rows.push((id, kind, data));
                    proof {
                        assert forall|k: int| 0 <= k < i + 1 implies (#[trigger] rows@[k]).0 == ids@[k] && (
                            rows@[k].1@,
                            rows@[k].2@,
                        ) == ents_of(g)[ids@[k]] by {
                            if k < i {
                                assert(rows@[k] == rb[k]);
                            }
                        }
                    }
                },
                Ok(None) => {
                    return Err(PlanError { message: missing_entity_message(id) });
                },
                Err(m) => {
                    return Err(PlanError { message: m });
                },
            }
            i = i + 1;
        }
        let table = EntityTable { rows };
        proof {
            let rs = table.rows@;
            assert forall|a: int, b: int| 0 <= a < b < rs.len() implies rs[a].0 != rs[b].0 by {
                assert(rs[a].0 == ids@[a] && rs[b].0 == ids@[b]);
            }
            lemma_rows_map(rs);
            assert forall|x: i64| #[trigger] rows_map(rs).contains_key(x) == ents_of(g).contains_key(x) by {
                if ents_of(g).contains_key(x) {
                    assert(ids@.contains(x));
                    let k = choose|k: int| 0 <= k < ids@.len() && ids@[k] == x;
                    assert(rs[k].0 == x);
                }
                if rows_map(rs).contains_key(x) {
                    let k = choose|k: int| 0 <= k < rs.len() && (#[trigger] rs[k]).0 == x;
                    assert(ids@[k] == x);
                    assert(ids@.contains(x));
                }
            }
            assert forall|x: i64| #[trigger] rows_map(rs).contains_key(x) implies rows_map(rs)[x] == ents_of(g)[x] by {
                let k = choose|k: int| 0 <= k < rs.len() && (#[trigger] rs[k]).0 == x;
                assert(rows_map(rs)[rs[k].0] == (rs[k].1@, rs[k].2@));
            }
            assert(rows_map(rs) =~= ents_of(g));
        }
        Ok(table)
    }

    /// The store's matches of edge type `edge_type`.
    fn read_matches(&self, edge_type: &str) -> (r: Result<Vec<(i64, i64, i64)>, PlanError>)
        ensures
            r matches Ok(v) ==> v@ == matches_of(self.store(), edge_type@),
            trimmed(edge_type@).len() == 0 ==> r is Err,
    {
        match store_match(&self.graph, edge_type) {
            Ok(v) => Ok(v),
            Err(m) => Err(PlanError { message: m }),
        }
    }

    /// How many edges of type `edge_type` leave `from_id` (see `count_from`).
    pub fn count_outgoing(&self, from_id: i64, edge_type: &str) -> (r: Result<usize, PlanError>)
        ensures
            trimmed(edge_type@).len() == 0 ==> r is Err,
            r matches Ok(n) ==> n == targets_from(matches_of(self.store(), edge_type@), from_id).len(),
    {
        let ms = self.read_matches(edge_type)?;
        Ok(count_from(&ms, from_id))
    }

    /// The nodes of kind `node_kind` that edges of type `edge_type` lead to
    /// from `parent_id`, in the store's match order (see `children_in`).
    pub fn children(&self, parent_id: i64, edge_type: &str, node_kind: &str) -> (r: Result<Vec<CustodyNode>, PlanError>)
        ensures
            trimmed(edge_type@).len() == 0 ==> r is Err,
            r matches Ok(v) ==> all_children(ents_of(self.store()), matches_of(self.store(), edge_type@), parent_id, node_kind@, v@),
            r matches Ok(v) ==> subsequence_of(ids_of(v@), targets_from(matches_of(self.store(), edge_type@), parent_id)),
    {
        let ms = self.read_matches(edge_type)?;
        let table = self.read_table()?;
        Ok(children_in(&table, &ms, parent_id, node_kind))
    }

    /// The first node of kind `node_kind` from which an edge of type
    /// `edge_type` leads to `child_id`, in the store's match order, or `None`
    /// when there is none (see `parent_in`).
    pub fn parent(&self, child_id: i64, edge_type: &str, node_kind: &str) -> (r: Result<Option<CustodyNode>, PlanError>)
        ensures
            trimmed(edge_type@).len() == 0 ==> r is Err,
            r matches Ok(None) ==> first_source(ents_of(self.store()), matches_of(self.store(), edge_type@), child_id, node_kind@)
                is None,
            r matches Ok(Some(n)) ==> Some(n.id) == first_source(
                ents_of(self.store()),
                matches_of(self.store(), edge_type@),
                child_id,
                node_kind@,
            ) && shows_entity(ents_of(self.store()), n) && n.kind@ == node_kind@ && n.timestamp == crate::plan_store::json_time(
                n.data@,
                "timestamp"@,
            ) && has_match(matches_of(self.store(), edge_type@), n.id, child_id),
    {
        let ms = self.read_matches(edge_type)?;
        let table = self.read_table()?;
        Ok(parent_in(&table, &ms, child_id, node_kind))
    }

    /// The data (JSON text) of the knowledge nodes that informed the plan,
    /// in the store's match order (see `knowledge_in`).
    pub fn get_plan_knowledge(&self, plan_id: i64) -> (r: Result<Vec<String>, PlanError>)
        ensures
            r matches Ok(v) ==> forall|i: int|
                0 <= i < v@.len() ==> #[trigger] informs(
                    ents_of(self.store()),
                    matches_of(self.store(), "INFORMED_BY"@),
                    plan_id,
                    v@[i]@,
                ),
            r matches Ok(v) ==> v@.map_values(|s: String| s@) == kind_targets(
                ents_of(self.store()),
                matches_of(self.store(), "INFORMED_BY"@),
                plan_id,
                "DiscoveredKnowledge"@,
            ).map_values(|k: i64| ents_of(self.store())[k].1),
    {
        proof {
            reveal_strlit("INFORMED_BY");
        }
        let ms = self.read_matches(PlanEdgeKind::InformedBy.as_str())?;
        let table = self.read_table()?;
        Ok(knowledge_in(&table, &ms, plan_id))
    }

    /// The sections of a plan, each with its data (JSON text), in the
    /// store's match order (see `order_positions` for their own order).
    pub fn sections_of(&self, plan_id: i64) -> (r: Result<Vec<CustodyNode>, PlanError>)
        ensures
            r matches Ok(v) ==> all_children(
                ents_of(self.store()),
                matches_of(self.store(), "DECOMPOSES_INTO"@),
                plan_id,
                "PlanSection"@,
                v@,
            ),
    {
        proof {
            reveal_strlit("PlanSection");
            reveal_strlit("DECOMPOSES_INTO");
        }
        self.children(plan_id, PlanEdgeKind::DecomposesInto.as_str(), PlanNodeKind::PlanSection.as_str())
    }

    /// The data (JSON text) of the node `id`.
    pub fn entity_data(&self, id: i64) -> (r: Result<String, PlanError>)
        ensures
            r matches Ok(d) ==> store_entities(self.store()).contains_key(id) && d@ == canonical_json(
                store_entities(self.store())[id].3,
            ),
            !store_entities(self.store()).contains_key(id) ==> r is Err,
    {
        match store_get_entity(&self.graph, id) {
            Ok(Some((_kind, _name, _path, data))) => Ok(data),
            Ok(None) => Err(PlanError { message: missing_entity_message(id) }),
            Err(m) => Err(PlanError { message: m }),
        }
    }

    /// Replaces the data (JSON text) of node `id`, keeping its kind, name
    /// and file path.
    pub fn rewrite_entity_data(&mut self, id: i64, data: &str) -> (r: Result<(), PlanError>)
        ensures
            r is Ok ==> old(self).entities().contains_key(id) && final(self).entities() == old(self).entities().insert(
                id,
                (
                    old(self).entities()[id].0,
                    old(self).entities()[id].1,
                    old(self).entities()[id].2,
                    canonical_json(data@),
                ),
            ) && final(self).edges() == old(self).edges(),
            !old(self).entities().contains_key(id) ==> r is Err,
    {
        let (kind, name, path) = match store_get_entity(&self.graph, id) {
            Ok(Some((k, n, p, _d))) => (k, n, p),
            Ok(None) => {
                return Err(PlanError { message: missing_entity_message(id) });
            },
            Err(m) => {
                return Err(PlanError { message: m });
            },
        };
        match store_update_entity(&mut self.graph, id, kind.as_str(), name.as_str(), path, data) {
            Ok(()) => Ok(()),
            Err(m) => Err(PlanError { message: m }),
        }
    }

    /// The plan's tasks that no run executed (see `gaps_in`).
    pub fn find_gaps(&self, plan_id: i64) -> (r: Result<Vec<i64>, PlanError>)
        ensures
            r matches Ok(v) ==> v@ == plan_gaps(
                ents_of(self.store()),
                matches_of(self.store(), "DECOMPOSES_INTO"@),
                matches_of(self.store(), "DECOMPOSES_INTO"@),
                matches_of(self.store(), "EXECUTED_BY"@),
                plan_id,
            ),
            r matches Ok(v) ==> forall|i: int|
                0 <= i < v@.len() ==> #[trigger] is_gap(
                    ents_of(self.store()),
                    matches_of(self.store(), "DECOMPOSES_INTO"@),
                    matches_of(self.store(), "EXECUTED_BY"@),
                    plan_id,
                    v@[i],
                ),
    {
        proof {
            reveal_strlit("DECOMPOSES_INTO");
            reveal_strlit("EXECUTED_BY");
        }
        let di = self.read_matches(PlanEdgeKind::DecomposesInto.as_str())?;
        let eb = self.read_matches(PlanEdgeKind::ExecutedBy.as_str())?;
        let table = self.read_table()?;
        Ok(gaps_in(&table, &di, &eb, plan_id))
    }

    /// Everything under a requirement (see `custody_tree`): the sections
    /// under it ordered by their order, with their tasks, the tasks' runs and
    /// what each run recorded. A section whose data gives no order is an
    /// error.
    pub fn trace_forward(&self, requirement_id: i64) -> (r: Result<CustodyTree, PlanError>)
        ensures
            r matches Ok(t) ==> is_custody_tree(ents_of(self.store()), custody_matches_of(self.store()), requirement_id, t),
            missing_order(ents_of(self.store()), custody_matches_of(self.store()), requirement_id) ==> r is Err,
    {
        proof {
            reveal_strlit("HAS_REQUIREMENT");
            reveal_strlit("DECOMPOSES_INTO");
            reveal_strlit("EXECUTED_BY");
            reveal_strlit("LOGGED");
            reveal_strlit("CALLED");
            reveal_strlit("REASONED");
            reveal_strlit("PRODUCED");
        }
        let has_requirement = self.read_matches(PlanEdgeKind::HasRequirement.as_str())?;
        let decomposes_into = self.read_matches(PlanEdgeKind::DecomposesInto.as_str())?;
        let executed_by = self.read_matches(PlanEdgeKind::ExecutedBy.as_str())?;
        let logged = self.read_matches(PlanEdgeKind::Logged.as_str())?;
        let called = self.read_matches(PlanEdgeKind::Called.as_str())?;
        let reasoned = self.read_matches(PlanEdgeKind::Reasoned.as_str())?;
        let produced = self.read_matches(PlanEdgeKind::Produced.as_str())?;
        let table = self.read_table()?;
        let ce = CustodyEdges { has_requirement, decomposes_into, executed_by, logged, called, reasoned, produced };
        proof {
            assert(ce@ == custody_matches_of(self.store()));
        }
        custody_tree(&table, &ce, requirement_id)
    }

    /// The store's matches of each custody rule's edge type, in rule order.
    fn read_rule_lists(&self) -> (r: Result<Vec<Vec<(i64, i64, i64)>>, PlanError>)
        ensures
            r matches Ok(v) ==> v@.len() == 8 && lists_view(v@) == rule_lists(self.store()),
    {
        let mut rules: Vec<Vec<(i64, i64, i64)>> = Vec::new();
        let mut k: usize = 0;
        while k < 8
            invariant
                k <= 8,
                rules@.len() == k,
                forall|r: int| 0 <= r < k ==> (#[trigger] rules@[r])@ == matches_of(self.store(), custody_rule(r).0),
            decreases 8 - k,
        {
            let (edge, _kind) = rule_at(k);
            let ms = self.read_matches(edge.as_str())?;
            let ghost rb = rules@;
            rules.push(ms);
            proof {
                assert forall|r: int| 0 <= r < k + 1 implies (#[trigger] rules@[r])@ == matches_of(
                    self.store(),
                    custody_rule(r).0,
                ) by {
                    if r < k {
                        assert(rules@[r] == rb[r]);
                    }
                }
            }
            k = k + 1;
        }
        proof {
            assert(lists_view(rules@) =~= rule_lists(self.store()));
        }
        Ok(rules)
    }

    /// Walks back from a node to where its chain of custody starts (see
    /// `custody_chain`): the custody parent of the node, then that node's,
    /// and so on until a node has none, from the start of the chain down.
    pub fn trace_backward(&self, node_id: i64) -> (r: Result<Vec<CustodyNode>, PlanError>)
        ensures
            r matches Ok(v) ==> forall|i: int|
                0 <= i < v@.len() ==> shows_entity(ents_of(self.store()), #[trigger] v@[i]) && v@[i].timestamp
                    == crate::plan_store::json_time(v@[i].data@, "timestamp"@),
            r matches Ok(v) ==> (v@.len() == 0 <==> custody_parent_id(
                ents_of(self.store()),
                rule_lists(self.store()),
                node_id,
            ) is None),
            r matches Ok(v) ==> v@.len() > 0 ==> custody_parent_id(ents_of(self.store()), rule_lists(self.store()), node_id)
                == Some(v@.last().id),
            r matches Ok(v) ==> forall|i: int|
                0 <= i < v@.len() - 1 ==> custody_parent_id(
                    ents_of(self.store()),
                    rule_lists(self.store()),
                    #[trigger] v@[i + 1].id,
                ) == Some(v@[i].id),
            r matches Ok(v) ==> 0 < v@.len() < u64::MAX ==> custody_parent_id(
                ents_of(self.store()),
                rule_lists(self.store()),
                v@[0].id,
            ) is None,
    {
        let rules = self.read_rule_lists()?;
        let table = self.read_table()?;
        Ok(custody_chain(&table, &rules, node_id))
    }

    /// The store's matches of every plan-graph edge kind, kind after kind.
    fn read_timeline_steps(&self) -> (r: Result<Vec<(i64, i64, i64)>, PlanError>)
        ensures
            r matches Ok(v) ==> v@ == timeline_steps(self.store()),
    {
        let mut steps: Vec<(i64, i64, i64)> = Vec::new();
        let mut k: usize = 0;
        proof {
            assert(timeline_lists(self.store(), 0) =~= Seq::<Seq<(i64, i64, i64)>>::empty());
        }
        while k < 19
            invariant
                k <= 19,
                steps@ == concat_lists(timeline_lists(self.store(), k as nat)),
            decreases 19 - k,
        {
            let kind_k = timeline_kind(k);
            let mut ms = self.read_matches(kind_k.as_str())?;
            proof {
                assert(timeline_lists(self.store(), (k + 1) as nat).drop_last() =~= timeline_lists(self.store(), k as nat));
                assert(timeline_lists(self.store(), (k + 1) as nat).last() == ms@);
            }
            steps.append(&mut ms);
            k = k + 1;
        }
        Ok(steps)
    }

    /// Every node under `root_id` (see `timeline_in`): a depth-first walk
    /// from it along the edges of every plan-graph kind, kind after kind,
    /// visiting each node once and keeping, and walking on from, those that
    /// are entities; then ordered by time, nodes without one last.
    pub fn timeline(&self, root_id: i64) -> (r: Result<Vec<CustodyNode>, PlanError>)
        ensures
            r matches Ok(v) ==> sorted_by_key(v@, time_key()),
            r matches Ok(v) ==> forall|i: int|
                0 <= i < v@.len() ==> shows_entity(ents_of(self.store()), #[trigger] v@[i]) && v@[i].timestamp
                    == crate::custody::node_time(v@[i].data@) && linked_from(
                    ents_of(self.store()),
                    timeline_steps(self.store()),
                    root_id,
                    v@[i].id,
                ),
            r matches Ok(v) ==> forall|x: i64|
                linked_from(ents_of(self.store()), timeline_steps(self.store()), root_id, x)
                    && #[trigger] ents_of(self.store()).contains_key(x) ==> ids_of(v@).contains(x),
            r matches Ok(v) ==> ids_of(v@).no_duplicates(),
    {
        let steps = self.read_timeline_steps()?;
        let table = self.read_table()?;
        Ok(timeline_in(&table, &steps, root_id))
    }
}

/// The positions of `orders`, ordered by the order at each position;
/// positions with equal orders keep their relative order.
pub fn order_positions(orders: &Vec<usize>) -> (r: Vec<usize>)
    ensures
        r@ == sort_by_key(positions(orders@.len()), |i: usize| orders@[i as int] as int),
        sorted_by_key(r@, |i: usize| orders@[i as int] as int),
        r@.to_multiset() == positions(orders@.len()).to_multiset(),
{
    let ghost key = |i: usize| orders@[i as int] as int;
    let ghost input = positions(orders@.len());
    let mut sorted: Vec<usize> = Vec::new();
    let mut done: usize = 0;
    while done < orders.len()
        invariant
            done <= orders@.len(),
            input == positions(orders@.len()),
            key == (|i: usize| orders@[i as int] as int),
            sorted@ == sort_by_key(input.subrange(0, done as int), key),
            forall|t: int| 0 <= t < sorted@.len() ==> #[trigger] sorted@[t] < done,
            sorted@.len() == done,
        decreases orders@.len() - done,
    {
        let o = orders[done];
        let mut pos: usize = 0;
        while pos < sorted.len() && orders[sorted[pos]] <= o
            invariant
                pos <= sorted@.len(),
                done < orders@.len(),
                forall|t: int| 0 <= t < sorted@.len() ==> #[trigger] sorted@[t] < done,
                forall|t: int| 0 <= t < pos ==> key(#[trigger] sorted@[t]) <= key(done),
                key == (|i: usize| orders@[i as int] as int),
                o == orders@[done as int],
            decreases sorted@.len() - pos,
        {
            pos = pos + 1;
        }
        proof {
            lemma_insert_by_key_at(sorted@, done, key, pos as int);
            assert(input.subrange(0, done + 1).drop_last() =~= input.subrange(0, done as int));
            assert(input.subrange(0, done + 1).last() == done);
        }
        let ghost before = sorted@;
        sorted.insert(pos, done);
        proof {
            assert forall|t: int| 0 <= t < sorted@.len() implies #[trigger] sorted@[t] < done + 1 by {
                if t < pos {
                    assert(sorted@[t] == before[t]);
                } else if t > pos {
                    assert(sorted@[t] == before[t - 1]);
                }
            }
        }
        done = done + 1;
    }
    proof {
        assert(input.subrange(0, input.len() as int) =~= input);
        lemma_sort_by_key(input, key);
    }
    sorted

}

/// A match in one of the lists is a match of the lists put one after another.
proof fn lemma_concat_contains(ls: Seq<Seq<(i64, i64, i64)>>, i: int, m: (i64, i64, i64))
    requires
        0 <= i < ls.len(),
        ls[i].contains(m),
    ensures
        concat_lists(ls).contains(m),
    decreases ls.len(),
{
    let c = concat_lists(ls);
    assert(c == concat_lists(ls.drop_last()) + ls.last());
    if i == ls.len() - 1 {
        let j = choose|j: int| 0 <= j < ls[i].len() && ls[i][j] == m;
        assert(c[concat_lists(ls.drop_last()).len() + j] == m);
    } else {
        assert(ls.drop_last()[i] == ls[i]);
        lemma_concat_contains(ls.drop_last(), i, m);
        let j = choose|j: int| 0 <= j < concat_lists(ls.drop_last()).len() && concat_lists(ls.drop_last())[j] == m;
        assert(c[j] == m);
    }
}

/// Where a kind stands among the edge kinds, in declaration order.
spec fn kind_position(k: PlanEdgeKind) -> int {
    match k {
        PlanEdgeKind::HasRequirement => 0,
        PlanEdgeKind::DecomposesInto => 1,
        PlanEdgeKind::Implements => 2,
        PlanEdgeKind::DependsOn => 3,
        PlanEdgeKind::ValidatedBy => 4,
        PlanEdgeKind::AssignedTo => 5,
        PlanEdgeKind::Approved => 6,
        PlanEdgeKind::Rejected => 7,
        PlanEdgeKind::FoundIn => 8,
        PlanEdgeKind::DetectedBy => 9,
        PlanEdgeKind::Checks => 10,
        PlanEdgeKind::InformedBy => 11,
        PlanEdgeKind::RelatedTo => 12,
        PlanEdgeKind::ExecutedBy => 13,
        PlanEdgeKind::Logged => 14,
        PlanEdgeKind::Called => 15,
        PlanEdgeKind::Reasoned => 16,
        PlanEdgeKind::Produced => 17,
        PlanEdgeKind::AddressesIn => 18,
    }
}

/// A timeline walks the edges of every plan-graph edge kind, each kind
/// once: the kinds it follows are nineteen distinct kinds, every kind is
/// among them, and so every match of an edge of any kind (a `PRODUCED` edge
/// as much as any other) is a step of the walk.
pub proof fn lemma_timeline_walks_every_kind(g: SqliteGraph, k: PlanEdgeKind)
    ensures
        timeline_kinds().len() == 19,
        timeline_kinds().no_duplicates(),
        timeline_kinds().contains(k),
        forall|m: (i64, i64, i64)| #[trigger]
            matches_of(g, edge_kind_name(k)).contains(m) ==> timeline_steps(g).contains(m),
        forall|a: i64, b: i64| #[trigger]
            has_match(matches_of(g, edge_kind_name(k)), a, b) ==> custody_step(timeline_steps(g), a, b),
{
    let ks = timeline_kinds();
    assert forall|i: int| 0 <= i < 19 implies #[trigger] kind_position(ks[i]) == i by {
        assert(kind_position(ks[0]) == 0);
        assert(kind_position(ks[1]) == 1);
        assert(kind_position(ks[2]) == 2);
        assert(kind_position(ks[3]) == 3);
        assert(kind_position(ks[4]) == 4);
        assert(kind_position(ks[5]) == 5);
        assert(kind_position(ks[6]) == 6);
        assert(kind_position(ks[7]) == 7);
        assert(kind_position(ks[8]) == 8);
        assert(kind_position(ks[9]) == 9);
        assert(kind_position(ks[10]) == 10);
        assert(kind_position(ks[11]) == 11);
        assert(kind_position(ks[12]) == 12);
        assert(kind_position(ks[13]) == 13);
        assert(kind_position(ks[14]) == 14);
        assert(kind_position(ks[15]) == 15);
        assert(kind_position(ks[16]) == 16);
        assert(kind_position(ks[17]) == 17);
        assert(kind_position(ks[18]) == 18);
    }
    assert forall|i: int, j: int| 0 <= i < ks.len() && 0 <= j < ks.len() && i != j implies ks[i] != ks[j] by {
        assert(kind_position(ks[i]) == i && kind_position(ks[j]) == j);
    }
    let i: int = kind_position(k);
    assert(ks[i] == k);
    let ls = timeline_lists(g, 19);
    assert(ls[i] == matches_of(g, edge_kind_name(k)));
    assert forall|m: (i64, i64, i64)| #[trigger] matches_of(g, edge_kind_name(k)).contains(m) implies timeline_steps(
        g,
    ).contains(m) by {
        lemma_concat_contains(ls, i, m);
    }
    assert forall|a: i64, b: i64| #[trigger] has_match(matches_of(g, edge_kind_name(k)), a, b) implies custody_step(
        timeline_steps(g),
        a,
        b,
    ) by {
        let ms = matches_of(g, edge_kind_name(k));
        let j = choose|j: int| 0 <= j < ms.len() && (#[trigger] ms[j]).0 == a && ms[j].2 == b;
        assert(ms.contains(ms[j]));
        lemma_concat_contains(ls, i, ms[j]);
        let st = timeline_steps(g);
        let q = choose|q: int| 0 <= q < st.len() && st[q] == ms[j];
        assert(st[q].0 == a && st[q].2 == b);
    }
}

/// The rules from `r` on find `p` when the rules before `r0` find nothing
/// and rule `r0` finds `p`.
proof fn lemma_parent_by_rules_at(g: SqliteGraph, c: i64, r: nat, r0: nat, p: i64)
    requires
        r <= r0 < 8,
        forall|q: int|
            r <= q < r0 ==> #[trigger] first_source(ents_of(g), matches_of(g, custody_rule(q).0), c, custody_rule(q).1)
                is None,
        first_source(ents_of(g), matches_of(g, custody_rule(r0 as int).0), c, custody_rule(r0 as int).1) == Some(p),
    ensures
        parent_by_rules(ents_of(g), rule_lists(g), c, r) == Some(p),
    decreases r0 - r,
{
    assert(rule_lists(g)[r as int] == matches_of(g, custody_rule(r as int).0));
    if r < r0 {
        assert(first_source(ents_of(g), matches_of(g, custody_rule(r as int).0), c, custody_rule(r as int).1) is None);
        lemma_parent_by_rules_at(g, c, r + 1, r0, p);
    }
}

/// The eight custody rules follow eight different edge kinds.
proof fn lemma_rule_edges_distinct(q1: int, q2: int)
    requires
        0 <= q1 < 8,
        0 <= q2 < 8,
        q1 != q2,
    ensures
        custody_rule(q1).0 != custody_rule(q2).0,
{
    reveal_strlit("EXECUTED_BY");
    reveal_strlit("DECOMPOSES_INTO");
    reveal_strlit("HAS_REQUIREMENT");
    reveal_strlit("ADDRESSES_IN");
    reveal_strlit("LOGGED");
    reveal_strlit("CALLED");
    reveal_strlit("REASONED");
    reveal_strlit("PRODUCED");
    assert(custody_rule(q1).0[0] != custody_rule(q2).0[0]);
}

/// Each custody rule follows one kind of edge back to one kind of node: a
/// task's runs (`EXECUTED_BY`), a section's tasks (`DECOMPOSES_INTO`), a
/// plan's requirements (`HAS_REQUIREMENT`), a requirement's addressees
/// (`ADDRESSES_IN`), and a run's log entries, tool calls, reasoning steps and
/// deliverables (`LOGGED`, `CALLED`, `REASONED`, `PRODUCED`). When a node is
/// reached by an edge of one of these kinds from a node of its kind, and by
/// no edge of another rule's kind from that rule's kind of node, its custody
/// parent is the first such node.
pub proof fn lemma_custody_parent_follows_rule(g: SqliteGraph, c: i64, edge: Seq<char>, kind: Seq<char>, p: i64)
    requires
        (edge == "EXECUTED_BY"@ && kind == "Task"@) || (edge == "DECOMPOSES_INTO"@ && kind == "PlanSection"@) || (
        edge == "HAS_REQUIREMENT"@ && kind == "Plan"@) || (edge == "ADDRESSES_IN"@ && kind == "Requirement"@) || (
        edge == "LOGGED"@ && kind == "SubagentRun"@) || (edge == "CALLED"@ && kind == "SubagentRun"@) || (edge
            == "REASONED"@ && kind == "SubagentRun"@) || (edge == "PRODUCED"@ && kind == "SubagentRun"@),
        first_source(ents_of(g), matches_of(g, edge), c, kind) == Some(p),
        forall|r: int|
            0 <= r < 8 && custody_rule(r).0 != edge ==> #[trigger] first_source(
                ents_of(g),
                matches_of(g, custody_rule(r).0),
                c,
                custody_rule(r).1,
            ) is None,
    ensures
        custody_parent_id(ents_of(g), rule_lists(g), c) == Some(p),
{
    reveal_strlit("EXECUTED_BY");
    reveal_strlit("DECOMPOSES_INTO");
    reveal_strlit("HAS_REQUIREMENT");
    reveal_strlit("ADDRESSES_IN");
    reveal_strlit("LOGGED");
    reveal_strlit("CALLED");
    reveal_strlit("REASONED");
    reveal_strlit("PRODUCED");
    let r0: nat = if edge == "EXECUTED_BY"@ && kind == "Task"@ {
        0
    } else if edge == "DECOMPOSES_INTO"@ && kind == "PlanSection"@ {
        1
    } else if edge == "HAS_REQUIREMENT"@ && kind == "Plan"@ {
        2
    } else if edge == "ADDRESSES_IN"@ && kind == "Requirement"@ {
        3
    } else if edge == "LOGGED"@ && kind == "SubagentRun"@ {
        4
    } else if edge == "CALLED"@ && kind == "SubagentRun"@ {
        5
    } else if edge == "REASONED"@ && kind == "SubagentRun"@ {
        6
    } else {
        7
    };
    assert(custody_rule(r0 as int) == (edge, kind));
    assert forall|q: int| 0 <= q < r0 implies #[trigger] first_source(
        ents_of(g),
        matches_of(g, custody_rule(q).0),
        c,
        custody_rule(q).1,
    ) is None by {
        lemma_rule_edges_distinct(q, r0 as int);
    }
    lemma_parent_by_rules_at(g, c, 0, r0, p);
}

} // verus!
