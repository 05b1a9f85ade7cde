//! Chain-of-custody queries over a plan graph, computed from what its store
//! holds: the entities (identifier, kind, data) and the matched edges of
//! each type. Every query here is a function of those values alone.

use crate::plan_store::{json_time, json_time_at, json_uint, json_uint_at};
use crate::sorting::{
    lemma_insert_by_key_at, lemma_sort_by_key, lemma_sort_by_key_members, lemma_sort_map, sort_by_key, sorted_by_key,
};
use vstd::prelude::*;
use vstd::string::StringExecFns;

verus! {

/// An error of the plan graph's store.
#[derive(Debug)]
pub struct PlanError {
    /// What the store reported
    pub message: String,
}

/// A node found by a query: its identifier, kind, data (JSON text) and,
/// when its data holds one, its time.
#[derive(Debug)]
pub struct CustodyNode {
    pub id: i64,
    pub kind: String,
    pub data: String,
    pub timestamp: Option<(i64, u32)>,
}

/// Some match of `ms` goes from `s` to `e`.
pub open spec fn has_match(ms: Seq<(i64, i64, i64)>, s: i64, e: i64) -> bool {
    exists|k: int| 0 <= k < ms.len() && (#[trigger] ms[k]).0 == s && ms[k].2 == e
}

/// The targets of the matches of `ms` that start at `s`, in order.
pub open spec fn targets_from(ms: Seq<(i64, i64, i64)>, s: i64) -> Seq<i64>
    decreases ms.len(),
{
    if ms.len() == 0 {
        Seq::empty()
    } else {
        let r = targets_from(ms.drop_last(), s);
        if ms.last().0 == s {
            r.push(ms.last().2)
        } else {
            r
        }
    }
}

/// `a` lists some of the elements of `b`, in the same order.
pub open spec fn subsequence_of(a: Seq<i64>, b: Seq<i64>) -> bool
    decreases b.len(),
{
    if a.len() == 0 {
        true
    } else if b.len() == 0 {
        false
    } else if a.last() == b.last() {
        subsequence_of(a.drop_last(), b.drop_last())
    } else {
        subsequence_of(a, b.drop_last())
    }
}

/// The identifiers of the nodes, in order.
pub open spec fn ids_of(v: Seq<CustodyNode>) -> Seq<i64> {
    v.map_values(|n: CustodyNode| n.id)
}

/// The time a node's data gives: its `timestamp`, or else its `started_at`.
pub open spec fn node_time(data: Seq<char>) -> Option<(i64, u32)> {
    match json_time(data, "timestamp"@) {
        Some(t) => Some(t),
        None => json_time(data, "started_at"@),
    }
}

/// A dropped last element keeps a subsequence a subsequence.
proof fn lemma_subsequence_drop(a: Seq<i64>, b: Seq<i64>)
    requires
        subsequence_of(a, b),
        a.len() > 0,
    ensures
        subsequence_of(a.drop_last(), b),
    decreases b.len(), 0int,
{
    if b.len() > 0 {
        if a.last() == b.last() {
            lemma_subsequence_extend(a.drop_last(), b.drop_last(), b.last());
        } else {
            lemma_subsequence_drop(a, b.drop_last());
            lemma_subsequence_extend(a.drop_last(), b.drop_last(), b.last());
        }
        assert(b.drop_last().push(b.last()) =~= b);
    }
}

/// Appending to the longer sequence keeps a subsequence a subsequence.
proof fn lemma_subsequence_extend(a: Seq<i64>, b: Seq<i64>, x: i64)
    requires
        subsequence_of(a, b),
    ensures
        subsequence_of(a, b.push(x)),
    decreases b.len(), 1int,
{
    assert(b.push(x).drop_last() =~= b);
    if a.len() > 0 && a.last() == x {
        lemma_subsequence_drop(a, b);
    }
}

/// What a run recorded: its log entries, tool calls, reasoning steps and
/// deliverables.
#[derive(Debug)]
pub struct CustodyRunNodes {
    pub run: CustodyNode,
    pub logs: Vec<CustodyNode>,
    pub calls: Vec<CustodyNode>,
    pub reasoning: Vec<CustodyNode>,
    pub deliverables: Vec<CustodyNode>,
}

/// A task and its runs.
#[derive(Debug)]
pub struct CustodyTaskNodes {
    pub task: CustodyNode,
    pub runs: Vec<CustodyRunNodes>,
}

/// A section and its tasks.
#[derive(Debug)]
pub struct CustodySectionNodes {
    pub section: CustodyNode,
    pub tasks: Vec<CustodyTaskNodes>,
}

/// Everything under a requirement: the sections of the plans that have it.
#[derive(Debug)]
pub struct CustodyTree {
    pub requirement_id: i64,
    pub sections: Vec<CustodySectionNodes>,
}

/// The identifiers of the runs, in order.
pub open spec fn run_ids(v: Seq<CustodyRunNodes>) -> Seq<i64> {
    v.map_values(|x: CustodyRunNodes| x.run.id)
}

/// The identifiers of the tasks, in order.
pub open spec fn task_ids(v: Seq<CustodyTaskNodes>) -> Seq<i64> {
    v.map_values(|x: CustodyTaskNodes| x.task.id)
}

/// The identifiers of the sections, in order.
pub open spec fn section_ids(v: Seq<CustodySectionNodes>) -> Seq<i64> {
    v.map_values(|x: CustodySectionNodes| x.section.id)
}

/// The positions `0 .. n` of a list.
pub open spec fn positions(n: nat) -> Seq<usize> {
    Seq::new(n, |i: int| i as usize)
}

/// The custody rules a backward trace tries, in order: the edge type to
/// follow back and the kind of node it must lead back to.
pub open spec fn custody_rule(r: int) -> (Seq<char>, Seq<char>) {
    if r == 0 {
        ("EXECUTED_BY"@, "Task"@)
    } else if r == 1 {
        ("DECOMPOSES_INTO"@, "PlanSection"@)
    } else if r == 2 {
        ("HAS_REQUIREMENT"@, "Plan"@)
    } else if r == 3 {
        ("ADDRESSES_IN"@, "Requirement"@)
    } else if r == 4 {
        ("LOGGED"@, "SubagentRun"@)
    } else if r == 5 {
        ("CALLED"@, "SubagentRun"@)
    } else if r == 6 {
        ("REASONED"@, "SubagentRun"@)
    } else {
        ("PRODUCED"@, "SubagentRun"@)
    }
}

/// The key a timeline orders nodes by: their time, nodes without one last.
pub open spec fn time_key() -> spec_fn(CustodyNode) -> int {
    |n: CustodyNode|
        match n.timestamp {
            Some(t) => t.0 as int * 0x1_0000_0000 + t.1 as int,
            None => 0x1_0000_0000_0000_0000_0000_0000int,
        }
}

/// A list without repeats, all of whose elements are in `s`, is no longer than `s`.
proof fn lemma_distinct_within(v: Seq<i64>, s: Seq<i64>)
    requires
        v.no_duplicates(),
        forall|i: int| 0 <= i < v.len() ==> s.contains(#[trigger] v[i]),
    ensures
        v.len() <= s.len(),
{
    broadcast use vstd::seq_lib::seq_to_set_is_finite;

    v.unique_seq_to_set();
    s.lemma_cardinality_of_set();
    assert(v.to_set().subset_of(s.to_set())) by {
        assert forall|x: i64| v.to_set().contains(x) implies s.to_set().contains(x) by {
            let i = choose|i: int| 0 <= i < v.len() && v[i] == x;
            assert(s.contains(v[i]));
        }
    }
    vstd::set_lib::lemma_len_subset(v.to_set(), s.to_set());
}

/// Whether `id` occurs in `v`.
fn contains_i64(v: &Vec<i64>, id: i64) -> (r: bool)
    ensures
        r == v@.contains(id),
{
    let mut i: usize = 0;
    while i < v.len()
        invariant
            i <= v@.len(),
            forall|k: int| 0 <= k < i ==> v@[k] != id,
        decreases v@.len() - i,
    {
        if v[i] == id {
            return true;
        }
        i = i + 1;
    }
    false
}

/// Whether node `a` comes no later than node `b` on a timeline.
fn time_no_later(a: &CustodyNode, b: &CustodyNode) -> (r: bool)
    ensures
        r == (time_key()(*a) <= time_key()(*b)),
{
    match (a.timestamp, b.timestamp) {
        (Some(x), Some(y)) => x.0 < y.0 || (x.0 == y.0 && x.1 <= y.1),
        (Some(_), None) => true,
        (None, Some(_)) => false,
        (None, None) => true,
    }
}

/// The nodes, stably ordered by `time_key`.
fn sort_by_time(nodes: Vec<CustodyNode>) -> (r: Vec<CustodyNode>)
    ensures
        r@ == sort_by_key(nodes@, time_key()),
{
    let ghost input = nodes@;
    let len0 = nodes.len();
    let mut rest = nodes;
    let mut reversed: Vec<CustodyNode> = Vec::new();
    while rest.len() > 0
        invariant
            reversed@.len() + rest@.len() == input.len(),
            input.len() == len0,
            forall|t: int| 0 <= t < reversed@.len() ==> #[trigger] reversed@[t] == input[input.len() - 1 - t],
            forall|t: int| 0 <= t < rest@.len() ==> #[trigger] rest@[t] == input[t],
        decreases rest@.len(),
    {
        let x = rest.pop().unwrap();
        reversed.push(x);
    }
    let mut sorted: Vec<CustodyNode> = Vec::new();
    let mut done: usize = 0;
    while reversed.len() > 0
        invariant
            done + reversed@.len() == input.len(),
            input.len() == len0,
            forall|t: int| 0 <= t < reversed@.len() ==> #[trigger] reversed@[t] == input[input.len() - 1 - t],
            sorted@ == sort_by_key(input.subrange(0, done as int), time_key()),
        decreases reversed@.len(),
    {
        let x = reversed.pop().unwrap();
        assert(x == input[done as int]);
        let mut pos: usize = 0;
        while pos < sorted.len() && time_no_later(&sorted[pos], &x)
            invariant
                pos <= sorted@.len(),
                forall|t: int| 0 <= t < pos ==> time_key()(#[trigger] sorted@[t]) <= time_key()(x),
            decreases sorted@.len() - pos,
        {
            pos = pos + 1;
        }
        proof {
            lemma_insert_by_key_at(sorted@, x, time_key(), pos as int);
            assert(input.subrange(0, done + 1).drop_last() =~= input.subrange(0, done as int));
            assert(input.subrange(0, done + 1).last() == x);
        }
        sorted.insert(pos, x);
        done = done + 1;
    }
    proof {
        assert(input.subrange(0, input.len() as int) =~= input);
    }
    sorted
}

/// The entities of a store as a map: identifier to kind and data (JSON text).
pub type Ents = Map<i64, (Seq<char>, Seq<char>)>;

/// The map the rows describe; of rows with one identifier the last counts.
pub open spec fn rows_map(rows: Seq<(i64, String, String)>) -> Ents
    decreases rows.len(),
{
    if rows.len() == 0 {
        Map::empty()
    } else {
        rows_map(rows.drop_last()).insert(rows.last().0, (rows.last().1@, rows.last().2@))
    }
}

/// The entities of a store, as rows of identifier, kind and data (JSON text).
pub struct EntityTable {
    pub rows: Vec<(i64, String, String)>,
}

impl EntityTable {
    /// The entities the rows describe.
    pub open spec fn ents(&self) -> Ents {
        rows_map(self.rows@)
    }

    /// The kind and data of entity `id`, if there is one.
    pub fn lookup(&self, id: i64) -> (r: Option<(String, String)>)
        ensures
            r is None <==> !self.ents().contains_key(id),
            r matches Some((k, d)) ==> self.ents()[id] == (k@, d@),
    {
        let ghost rows = self.rows@;
        let mut j: usize = self.rows.len();
        proof {
            assert(rows.subrange(0, rows.len() as int) =~= rows);
        }
        while j > 0
            invariant
                j <= rows.len(),
                rows == self.rows@,
                rows_map(rows).contains_key(id) == rows_map(rows.subrange(0, j as int)).contains_key(id),
                rows_map(rows).contains_key(id) ==> rows_map(rows)[id] == rows_map(rows.subrange(0, j as int))[id],
            decreases j,
        {
            proof {
                assert(rows.subrange(0, j as int).drop_last() =~= rows.subrange(0, j - 1));
                assert(rows.subrange(0, j as int).last() == rows[j - 1]);
            }
            if self.rows[j - 1].0 == id {
                let k = self.rows[j - 1].1.clone();
                let d = self.rows[j - 1].2.clone();
                return Some((k, d));
            }
            j = j - 1;
        }
        None
    }
}

/// `n` shows an entity: its kind and data are the entity's.
pub open spec fn shows_entity(ents: Ents, n: CustodyNode) -> bool {
    &&& ents.contains_key(n.id)
    &&& n.kind@ == ents[n.id].0
    &&& n.data@ == ents[n.id].1
}

/// The entity `id` exists and is of kind `kind`.
pub open spec fn has_kind(ents: Ents, id: i64, kind: Seq<char>) -> bool {
    ents.contains_key(id) && ents[id].0 == kind
}

/// The targets of the matches of `ms` that start at `s` and lead to an
/// entity of kind `kind`, in order.
pub open spec fn kind_targets(ents: Ents, ms: Seq<(i64, i64, i64)>, s: i64, kind: Seq<char>) -> Seq<i64>
    decreases ms.len(),
{
    if ms.len() == 0 {
        Seq::empty()
    } else {
        let r = kind_targets(ents, ms.drop_last(), s, kind);
        if ms.last().0 == s && has_kind(ents, ms.last().2, kind) {
            r.push(ms.last().2)
        } else {
            r
        }
    }
}

/// The start of the first match of `ms` (in order) that leads to `c` from an
/// entity of kind `kind`.
pub open spec fn first_source(ents: Ents, ms: Seq<(i64, i64, i64)>, c: i64, kind: Seq<char>) -> Option<i64>
    decreases ms.len(),
{
    if ms.len() == 0 {
        None
    } else if ms[0].2 == c && has_kind(ents, ms[0].0, kind) {
        Some(ms[0].0)
    } else {
        first_source(ents, ms.drop_first(), c, kind)
    }
}

/// `n` is a node of kind `kind` that a match of `ms` leads to from `from`,
/// timed by its data's `timestamp` or else `started_at`.
pub open spec fn child_node(ents: Ents, ms: Seq<(i64, i64, i64)>, from: i64, kind: Seq<char>, n: CustodyNode) -> bool {
    &&& shows_entity(ents, n)
    &&& n.kind@ == kind
    &&& n.timestamp == node_time(n.data@)
    &&& has_match(ms, from, n.id)
}

/// `v` holds the nodes of kind `kind` that matches of `ms` lead to from
/// `from`, in match order.
pub open spec fn all_children(ents: Ents, ms: Seq<(i64, i64, i64)>, from: i64, kind: Seq<char>, v: Seq<CustodyNode>) -> bool {
    &&& forall|i: int| 0 <= i < v.len() ==> #[trigger] child_node(ents, ms, from, kind, v[i])
    &&& ids_of(v) == kind_targets(ents, ms, from, kind)
}

/// Some knowledge node that a match of `ms` leads to from plan `p` carries data `d`.
pub open spec fn informs(ents: Ents, ms: Seq<(i64, i64, i64)>, p: i64, d: Seq<char>) -> bool {
    exists|k: i64|
        #![trigger ents[k]]
        ents.contains_key(k) && ents[k].0 == "DiscoveredKnowledge"@ && ents[k].1 == d && has_match(ms, p, k)
}

/// The nodes of kind `node_kind` that matches of `ms` lead to from
/// `parent_id`, in match order; a target that is no entity is passed over.
/// Each node's time is its data's `timestamp`, or else its `started_at`.
pub fn children_in(table: &EntityTable, ms: &Vec<(i64, i64, i64)>, parent_id: i64, node_kind: &str) -> (r: Vec<CustodyNode>)
    ensures
        all_children(table.ents(), ms@, parent_id, node_kind@, r@),
        subsequence_of(ids_of(r@), targets_from(ms@, parent_id)),
{
    let ghost ents = table.ents();
    let want = node_kind.to_string();
    let mut out: Vec<CustodyNode> = Vec::new();
    let mut i: usize = 0;
    while i < ms.len()
        invariant
            i <= ms@.len(),
            ents == table.ents(),
            want@ == node_kind@,
            forall|k: int| 0 <= k < out@.len() ==> #[trigger] child_node(ents, ms@, parent_id, node_kind@, out@[k]),
            subsequence_of(ids_of(out@), targets_from(ms@.subrange(0, i as int), parent_id)),
            ids_of(out@) == kind_targets(ents, ms@.subrange(0, i as int), parent_id, node_kind@),
        decreases ms@.len() - i,
    {
        let (start, _edge, end) = ms[i];
        let ghost pre = ms@.subrange(0, i as int);
        let ghost next = ms@.subrange(0, i + 1);
        proof {
            assert(next.drop_last() =~= pre);
        }
        if start != parent_id {
            proof {
                assert(targets_from(next, parent_id) == targets_from(pre, parent_id));
            }
        }
        if start == parent_id {
            proof {
                assert(targets_from(next, parent_id) == targets_from(pre, parent_id).push(end));
            }
            let mut taken = false;
            match table.lookup(end) {
                Some((kind, data)) => {
                    if kind == want {
                        let ts = match json_time_at(data.as_str(), "timestamp") {
                            Some(t) => Some(t),
                            None => json_time_at(data.as_str(), "started_at"),
                        };
                        proof {
                            reveal_strlit("timestamp");
                            reveal_strlit("started_at");
                        }
                        let ghost before = out@;
                        out.push(CustodyNode { id: end, kind, data, timestamp: ts });
                        proof {
                            assert(ids_of(out@).drop_last() =~= ids_of(before));
                            assert(ids_of(out@).last() == end);
                            assert(ms@[i as int].0 == parent_id && ms@[i as int].2 == end);
                            let t = targets_from(next, parent_id);
                            assert(t.last() == end);
                            assert(t.drop_last() =~= targets_from(pre, parent_id));
                            assert(subsequence_of(ids_of(out@), t));
                            assert forall|k: int| 0 <= k < out@.len() implies #[trigger] child_node(
                                ents,
                                ms@,
                                parent_id,
                                node_kind@,
                                out@[k],
                            ) by {
                                if k < before.len() {
                                    assert(out@[k] == before[k]);
                                }
                            }
                        }
                        taken = true;
                    }
                },
                None => {},
            }
            if !taken {
                proof {
                    lemma_subsequence_extend(ids_of(out@), targets_from(pre, parent_id), end);
                }
            }
        }
        i = i + 1;
    }
    proof {
        assert(ms@.subrange(0, ms@.len() as int) =~= ms@);
    }
    out
}

/// The first node of kind `node_kind` from which a match of `ms` leads to
/// `child_id`, in match order, or `None` when there is none. Its time is its
/// data's `timestamp`.
pub fn parent_in(table: &EntityTable, ms: &Vec<(i64, i64, i64)>, child_id: i64, node_kind: &str) -> (r: Option<CustodyNode>)
    ensures
        r is None <==> first_source(table.ents(), ms@, child_id, node_kind@) is None,
        r matches Some(n) ==> Some(n.id) == first_source(table.ents(), ms@, child_id, node_kind@) && shows_entity(
            table.ents(),
            n,
        ) && n.kind@ == node_kind@ && n.timestamp == json_time(n.data@, "timestamp"@) && has_match(
            ms@,
            n.id,
            child_id,
        ),
{
    let ghost ents = table.ents();
    let want = node_kind.to_string();
    let mut i: usize = 0;
    proof {
        assert(ms@.subrange(0, ms@.len() as int) =~= ms@);
    }
    while i < ms.len()
        invariant
            i <= ms@.len(),
            ents == table.ents(),
            want@ == node_kind@,
            first_source(ents, ms@, child_id, node_kind@) == first_source(
                ents,
                ms@.subrange(i as int, ms@.len() as int),
                child_id,
                node_kind@,
            ),
        decreases ms@.len() - i,
    {
        let (start, _edge, end) = ms[i];
        let ghost rest = ms@.subrange(i as int, ms@.len() as int);
        proof {
            assert(rest[0] == ms@[i as int]);
            assert(rest.drop_first() =~= ms@.subrange(i + 1, ms@.len() as int));
        }
        if end == child_id {
            match table.lookup(start) {
                Some((kind, data)) => {
                    if kind == want {
                        let ts = json_time_at(data.as_str(), "timestamp");
                        proof {
                            reveal_strlit("timestamp");
                            assert(ms@[i as int].0 == start && ms@[i as int].2 == child_id);
                            assert(has_kind(ents, start, node_kind@));
                        }
                        return Some(CustodyNode { id: start, kind, data, timestamp: ts });
                    }
                },
                None => {},
            }
        }
        i = i + 1;
    }
    proof {
        assert(ms@.subrange(ms@.len() as int, ms@.len() as int).len() == 0);
    }
    None
}

/// How many matches of `ms` start at `from_id`.
pub fn count_from(ms: &Vec<(i64, i64, i64)>, from_id: i64) -> (r: usize)
    ensures
        r == targets_from(ms@, from_id).len(),
{
    let mut count: usize = 0;
    let mut i: usize = 0;
    while i < ms.len()
        invariant
            i <= ms@.len(),
            count == targets_from(ms@.subrange(0, i as int), from_id).len(),
            count <= i,
        decreases ms@.len() - i,
    {
        proof {
            assert(ms@.subrange(0, i + 1).drop_last() =~= ms@.subrange(0, i as int));
        }
        if ms[i].0 == from_id {
            count = count + 1;
        }
        i = i + 1;
    }
    proof {
        assert(ms@.subrange(0, ms@.len() as int) =~= ms@);
    }
    count
}

/// The data (JSON text) of the knowledge nodes that matches of `ms` lead to
/// from plan `plan_id`, in match order.
pub fn knowledge_in(table: &EntityTable, ms: &Vec<(i64, i64, i64)>, plan_id: i64) -> (r: Vec<String>)
    ensures
        forall|i: int| 0 <= i < r@.len() ==> #[trigger] informs(table.ents(), ms@, plan_id, r@[i]@),
        r@.map_values(|s: String| s@) == kind_targets(table.ents(), ms@, plan_id, "DiscoveredKnowledge"@).map_values(
            |k: i64| table.ents()[k].1,
        ),
{
    proof {
        reveal_strlit("DiscoveredKnowledge");
    }
    let nodes = children_in(table, ms, plan_id, "DiscoveredKnowledge");
    let ghost ents = table.ents();
    let ghost data_of = |k: i64| ents[k].1;
    let mut out: Vec<String> = Vec::new();
    let mut i: usize = 0;
    while i < nodes.len()
        invariant
            ents == table.ents(),
            data_of == (|k: i64| ents[k].1),
            i <= nodes@.len(),
            out@.len() == i,
            forall|j: int|
                0 <= j < nodes@.len() ==> #[trigger] child_node(ents, ms@, plan_id, "DiscoveredKnowledge"@, nodes@[j]),
            forall|j: int| 0 <= j < i ==> #[trigger] informs(ents, ms@, plan_id, out@[j]@),
            out@.map_values(|s: String| s@) == ids_of(nodes@).subrange(0, i as int).map_values(data_of),
        decreases nodes@.len() - i,
    {
        let d = nodes[i].data.clone();
        proof {
            assert(child_node(ents, ms@, plan_id, "DiscoveredKnowledge"@, nodes@[i as int]));
            let k = nodes@[i as int].id;
            assert(ents.contains_key(k));
            assert(informs(ents, ms@, plan_id, d@));
        }
        let ghost ob = out@;
        out.push(d);
        proof {
            assert(out@.map_values(|s: String| s@) =~= ob.map_values(|s: String| s@).push(d@));
            assert(ids_of(nodes@).subrange(0, i + 1).map_values(data_of) =~= ids_of(nodes@).subrange(
                0,
                i as int,
            ).map_values(data_of).push(data_of(nodes@[i as int].id)));
            assert forall|j: int| 0 <= j < i + 1 implies #[trigger] informs(ents, ms@, plan_id, out@[j]@) by {
                if j < i {
                    assert(out@[j] == ob[j]);
                }
            }
        }
        i = i + 1;
    }
    proof {
        assert(ids_of(nodes@).subrange(0, nodes@.len() as int) =~= ids_of(nodes@));
    }
    out
}

/// Task `t` lies under a section of plan `p` (by matches of `di`), is a
/// task entity, and no match of `eb` leaves it.
pub open spec fn is_gap(ents: Ents, di: Seq<(i64, i64, i64)>, eb: Seq<(i64, i64, i64)>, p: i64, t: i64) -> bool {
    &&& exists|s: i64| #[trigger] has_match(di, p, s) && has_match(di, s, t)
    &&& has_kind(ents, t, "Task"@)
    &&& targets_from(eb, t).len() == 0
}

/// The tasks that matches of `ms` lead to from section `s` and that no match
/// of `eb` leaves, in order.
pub open spec fn section_gaps(ents: Ents, ms: Seq<(i64, i64, i64)>, eb: Seq<(i64, i64, i64)>, s: i64) -> Seq<i64>
    decreases ms.len(),
{
    if ms.len() == 0 {
        Seq::empty()
    } else {
        let r = section_gaps(ents, ms.drop_last(), eb, s);
        let t = ms.last().2;
        if ms.last().0 == s && has_kind(ents, t, "Task"@) && targets_from(eb, t).len() == 0 {
            r.push(t)
        } else {
            r
        }
    }
}

/// The gaps of plan `p`: for each match of `outer` from `p` to a section, in
/// order, the gaps of that section among the matches `ms`.
pub open spec fn plan_gaps(
    ents: Ents,
    outer: Seq<(i64, i64, i64)>,
    ms: Seq<(i64, i64, i64)>,
    eb: Seq<(i64, i64, i64)>,
    p: i64,
) -> Seq<i64>
    decreases outer.len(),
{
    if outer.len() == 0 {
        Seq::empty()
    } else {
        let r = plan_gaps(ents, outer.drop_last(), ms, eb, p);
        if outer.last().0 == p {
            r + section_gaps(ents, ms, eb, outer.last().2)
        } else {
            r
        }
    }
}

/// The plan's tasks that no run executed: for each section that a match of
/// `di` leads to from the plan, in match order, the tasks that matches of
/// `di` lead to from it, in match order, that are task entities and that no
/// match of `eb` leaves.
pub fn gaps_in(table: &EntityTable, di: &Vec<(i64, i64, i64)>, eb: &Vec<(i64, i64, i64)>, plan_id: i64) -> (r: Vec<
    i64,
>)
    ensures
        r@ == plan_gaps(table.ents(), di@, di@, eb@, plan_id),
        forall|i: int| 0 <= i < r@.len() ==> #[trigger] is_gap(table.ents(), di@, eb@, plan_id, r@[i]),
{
    proof {
        reveal_strlit("Task");
    }
    let ghost ents = table.ents();
    let task_kind = "Task".to_string();
    let mut gaps: Vec<i64> = Vec::new();
    let mut i: usize = 0;
    while i < di.len()
        invariant
            i <= di@.len(),
            ents == table.ents(),
            task_kind@ == "Task"@,
            gaps@ == plan_gaps(ents, di@.subrange(0, i as int), di@, eb@, plan_id),
            forall|k: int| 0 <= k < gaps@.len() ==> #[trigger] is_gap(ents, di@, eb@, plan_id, gaps@[k]),
        decreases di@.len() - i,
    {
        proof {
            assert(di@.subrange(0, i + 1).drop_last() =~= di@.subrange(0, i as int));
            assert(di@.subrange(0, i + 1).last() == di@[i as int]);
        }
        if di[i].0 == plan_id {
            let section = di[i].2;
            proof {
                assert(has_match(di@, plan_id, section)) by {
                    assert(di@[i as int].0 == plan_id && di@[i as int].2 == section);
                }
            }
            let ghost g0 = gaps@;
            let mut j: usize = 0;
            while j < di.len()
                invariant
                    j <= di@.len(),
                    ents == table.ents(),
                    has_match(di@, plan_id, section),
                    task_kind@ == "Task"@,
                    gaps@ == g0 + section_gaps(ents, di@.subrange(0, j as int), eb@, section),
                    forall|k: int| 0 <= k < gaps@.len() ==> #[trigger] is_gap(ents, di@, eb@, plan_id, gaps@[k]),
                decreases di@.len() - j,
            {
                let ghost tnext = di@.subrange(0, j + 1);
                proof {
                    assert(tnext.drop_last() =~= di@.subrange(0, j as int));
                    assert(tnext.last() == di@[j as int]);
                }
                if di[j].0 == section {
                    let task = di[j].2;
                    match table.lookup(task) {
                        Some((kind, _data)) => {
                            if kind == task_kind {
                                let exec = count_from(eb, task);
                                if exec == 0 {
                                    proof {
                                        assert(has_match(di@, section, task)) by {
                                            assert(di@[j as int].0 == section && di@[j as int].2 == task);
                                        }
                                        assert(is_gap(ents, di@, eb@, plan_id, task));
                                    }
                                    let ghost gb = gaps@;
                                    gaps.push(task);
                                    proof {
                                        assert(gaps@ =~= g0 + section_gaps(ents, tnext, eb@, section));
                                        assert forall|k: int| 0 <= k < gaps@.len() implies #[trigger] is_gap(
                                            ents,
                                            di@,
                                            eb@,
                                            plan_id,
                                            gaps@[k],
                                        ) by {
                                            if k < gb.len() {
                                                assert(gaps@[k] == gb[k]);
                                            }
                                        }
                                    }
                                }
                            }
                        },
                        None => {},
                    }
                }
                j = j + 1;
            }
            proof {
                assert(di@.subrange(0, di@.len() as int) =~= di@);
                assert(gaps@ =~= plan_gaps(ents, di@.subrange(0, i + 1), di@, eb@, plan_id));
            }
        }
        i = i + 1;
    }
    proof {
        assert(di@.subrange(0, di@.len() as int) =~= di@);
    }
    gaps
}

/// The matched edges a forward trace reads, one list per edge type.
pub struct CustodyMatches {
    pub has_requirement: Seq<(i64, i64, i64)>,
    pub decomposes_into: Seq<(i64, i64, i64)>,
    pub executed_by: Seq<(i64, i64, i64)>,
    pub logged: Seq<(i64, i64, i64)>,
    pub called: Seq<(i64, i64, i64)>,
    pub reasoned: Seq<(i64, i64, i64)>,
    pub produced: Seq<(i64, i64, i64)>,
}

/// The matched edges of the types `HAS_REQUIREMENT`, `DECOMPOSES_INTO`,
/// `EXECUTED_BY`, `LOGGED`, `CALLED`, `REASONED` and `PRODUCED`.
pub struct CustodyEdges {
    pub has_requirement: Vec<(i64, i64, i64)>,
    pub decomposes_into: Vec<(i64, i64, i64)>,
    pub executed_by: Vec<(i64, i64, i64)>,
    pub logged: Vec<(i64, i64, i64)>,
    pub called: Vec<(i64, i64, i64)>,
    pub reasoned: Vec<(i64, i64, i64)>,
    pub produced: Vec<(i64, i64, i64)>,
}

impl View for CustodyEdges {
    type V = CustodyMatches;

    open spec fn view(&self) -> CustodyMatches {
        CustodyMatches {
            has_requirement: self.has_requirement@,
            decomposes_into: self.decomposes_into@,
            executed_by: self.executed_by@,
            logged: self.logged@,
            called: self.called@,
            reasoned: self.reasoned@,
            produced: self.produced@,
        }
    }
}

/// `r` holds a run of task `task` and what that run recorded.
pub open spec fn run_recorded(ents: Ents, cm: CustodyMatches, task: i64, r: CustodyRunNodes) -> bool {
    &&& child_node(ents, cm.executed_by, task, "SubagentRun"@, r.run)
    &&& all_children(ents, cm.logged, r.run.id, "LogEntry"@, r.logs@)
    &&& all_children(ents, cm.called, r.run.id, "ToolCall"@, r.calls@)
    &&& all_children(ents, cm.reasoned, r.run.id, "ReasoningStep"@, r.reasoning@)
    &&& all_children(ents, cm.produced, r.run.id, "Deliverable"@, r.deliverables@)
}

/// `t` holds a task of section `section` and all runs of that task, in match order.
pub open spec fn task_recorded(ents: Ents, cm: CustodyMatches, section: i64, t: CustodyTaskNodes) -> bool {
    &&& child_node(ents, cm.decomposes_into, section, "Task"@, t.task)
    &&& forall|i: int| 0 <= i < t.runs@.len() ==> #[trigger] run_recorded(ents, cm, t.task.id, t.runs@[i])
    &&& run_ids(t.runs@) == kind_targets(ents, cm.executed_by, t.task.id, "SubagentRun"@)
}

/// `s` holds a section of a plan that has requirement `req`, and all tasks
/// of that section, in match order.
pub open spec fn section_recorded(ents: Ents, cm: CustodyMatches, req: i64, s: CustodySectionNodes) -> bool {
    &&& exists|p: i64| #[trigger]
        has_match(cm.has_requirement, p, req) && child_node(ents, cm.decomposes_into, p, "PlanSection"@, s.section)
    &&& forall|i: int| 0 <= i < s.tasks@.len() ==> #[trigger] task_recorded(ents, cm, s.section.id, s.tasks@[i])
    &&& task_ids(s.tasks@) == kind_targets(ents, cm.decomposes_into, s.section.id, "Task"@)
}

/// The order a section's data gives it (0 when it gives none).
pub open spec fn section_order(ents: Ents, id: i64) -> int {
    match json_uint(ents[id].1, "order"@) {
        Some(n) => n as int,
        None => 0,
    }
}

/// The sections under requirement `req`: for each match of `hr` from a plan
/// to `req`, in order, the plan's sections (by matches of `di`) in match order.
pub open spec fn requirement_sections(ents: Ents, hr: Seq<(i64, i64, i64)>, di: Seq<(i64, i64, i64)>, req: i64) -> Seq<
    i64,
>
    decreases hr.len(),
{
    if hr.len() == 0 {
        Seq::empty()
    } else {
        let r = requirement_sections(ents, hr.drop_last(), di, req);
        if hr.last().2 == req {
            r + kind_targets(ents, di, hr.last().0, "PlanSection"@)
        } else {
            r
        }
    }
}

/// Some section under requirement `req` has data that gives no order.
pub open spec fn missing_order(ents: Ents, cm: CustodyMatches, req: i64) -> bool {
    let rs = requirement_sections(ents, cm.has_requirement, cm.decomposes_into, req);
    exists|i: int| 0 <= i < rs.len() && json_uint(ents[#[trigger] rs[i]].1, "order"@) is None
}

/// `t` is the custody tree of requirement `req`: the sections under it,
/// stably ordered by their order, each with its tasks, their runs and what
/// the runs recorded, in match order.
pub open spec fn is_custody_tree(ents: Ents, cm: CustodyMatches, req: i64, t: CustodyTree) -> bool {
    &&& t.requirement_id == req
    &&& forall|i: int| 0 <= i < t.sections@.len() ==> #[trigger] section_recorded(ents, cm, req, t.sections@[i])
    &&& section_ids(t.sections@) == sort_by_key(
        requirement_sections(ents, cm.has_requirement, cm.decomposes_into, req),
        |id: i64| section_order(ents, id),
    )
    &&& forall|i: int|
        0 <= i < t.sections@.len() ==> #[trigger] json_uint(t.sections@[i].section.data@, "order"@) is Some
}

/// What a run recorded.
fn run_nodes(table: &EntityTable, ce: &CustodyEdges, task_id: i64, run: CustodyNode) -> (r: CustodyRunNodes)
    requires
        child_node(table.ents(), ce.executed_by@, task_id, "SubagentRun"@, run),
    ensures
        run_recorded(table.ents(), ce@, task_id, r),
        r.run == run,
{
    let logs = children_in(table, &ce.logged, run.id, "LogEntry");
    let calls = children_in(table, &ce.called, run.id, "ToolCall");
    let reasoning = children_in(table, &ce.reasoned, run.id, "ReasoningStep");
    let deliverables = children_in(table, &ce.produced, run.id, "Deliverable");
    proof {
        reveal_strlit("LogEntry");
        reveal_strlit("ToolCall");
        reveal_strlit("ReasoningStep");
        reveal_strlit("Deliverable");
    }
    CustodyRunNodes { run, logs, calls, reasoning, deliverables }
}

/// A task and all its runs.
fn task_nodes(table: &EntityTable, ce: &CustodyEdges, section_id: i64, task: CustodyNode) -> (r: CustodyTaskNodes)
    requires
        child_node(table.ents(), ce.decomposes_into@, section_id, "Task"@, task),
    ensures
        task_recorded(table.ents(), ce@, section_id, r),
        r.task == task,
{
    proof {
        reveal_strlit("SubagentRun");
    }
    let run_list = children_in(table, &ce.executed_by, task.id, "SubagentRun");
    let ghost ents = table.ents();
    let tid = task.id;
    let ghost want = kind_targets(ents, ce.executed_by@, tid, "SubagentRun"@);
    let mut rest = run_list;
    let mut runs: Vec<CustodyRunNodes> = Vec::new();
    proof {
        assert(run_ids(runs@) + ids_of(rest@) =~= want);
    }
    while rest.len() > 0
        invariant
            ents == table.ents(),
            forall|k: int|
                0 <= k < rest@.len() ==> #[trigger] child_node(ents, ce.executed_by@, tid, "SubagentRun"@, rest@[k]),
            forall|k: int| 0 <= k < runs@.len() ==> #[trigger] run_recorded(ents, ce@, tid, runs@[k]),
            run_ids(runs@) + ids_of(rest@) == want,
        decreases rest@.len(),
    {
        let ghost before = rest@;
        let ghost done = runs@;
        let run = rest.remove(0);
        proof {
            assert(child_node(ents, ce.executed_by@, tid, "SubagentRun"@, before[0]));
            assert forall|k: int| 0 <= k < rest@.len() implies #[trigger] child_node(
                ents,
                ce.executed_by@,
                tid,
                "SubagentRun"@,
                rest@[k],
            ) by {
                assert(rest@[k] == before[k + 1]);
            }
        }
        let rn = run_nodes(table, ce, tid, run);
        runs.push(rn);
        proof {
            assert(run_ids(runs@) =~= run_ids(done).push(before[0].id));
            assert(ids_of(rest@) =~= ids_of(before).drop_first());
            assert(run_ids(runs@) + ids_of(rest@) =~= run_ids(done) + ids_of(before));
            assert forall|k: int| 0 <= k < runs@.len() implies #[trigger] run_recorded(ents, ce@, tid, runs@[k]) by {
                if k < done.len() {
                    assert(runs@[k] == done[k]);
                }
            }
        }
    }
    proof {
        assert(run_ids(runs@) =~= run_ids(runs@) + ids_of(rest@));
    }
    CustodyTaskNodes { task, runs }
}

/// A section and all its tasks.
fn section_nodes(table: &EntityTable, ce: &CustodyEdges, req: i64, plan_id: i64, section: CustodyNode) -> (r:
    CustodySectionNodes)
    requires
        has_match(ce.has_requirement@, plan_id, req),
        child_node(table.ents(), ce.decomposes_into@, plan_id, "PlanSection"@, section),
    ensures
        section_recorded(table.ents(), ce@, req, r),
        r.section == section,
{
    proof {
        reveal_strlit("Task");
    }
    let task_list = children_in(table, &ce.decomposes_into, section.id, "Task");
    let ghost ents = table.ents();
    let sid = section.id;
    let ghost want = kind_targets(ents, ce.decomposes_into@, sid, "Task"@);
    let mut rest = task_list;
    let mut tasks: Vec<CustodyTaskNodes> = Vec::new();
    proof {
        assert(task_ids(tasks@) + ids_of(rest@) =~= want);
    }
    while rest.len() > 0
        invariant
            ents == table.ents(),
            forall|k: int| 0 <= k < rest@.len() ==> #[trigger] child_node(ents, ce.decomposes_into@, sid, "Task"@, rest@[k]),
            forall|k: int| 0 <= k < tasks@.len() ==> #[trigger] task_recorded(ents, ce@, sid, tasks@[k]),
            task_ids(tasks@) + ids_of(rest@) == want,
        decreases rest@.len(),
    {
        let ghost before = rest@;
        let ghost done = tasks@;
        let task = rest.remove(0);
        proof {
            assert(child_node(ents, ce.decomposes_into@, sid, "Task"@, before[0]));
            assert forall|k: int| 0 <= k < rest@.len() implies #[trigger] child_node(
                ents,
                ce.decomposes_into@,
                sid,
                "Task"@,
                rest@[k],
            ) by {
                assert(rest@[k] == before[k + 1]);
            }
        }
        let tn = task_nodes(table, ce, sid, task);
        tasks.push(tn);
        proof {
            assert(task_ids(tasks@) =~= task_ids(done).push(before[0].id));
            assert(ids_of(rest@) =~= ids_of(before).drop_first());
            assert(task_ids(tasks@) + ids_of(rest@) =~= task_ids(done) + ids_of(before));
            assert forall|k: int| 0 <= k < tasks@.len() implies #[trigger] task_recorded(ents, ce@, sid, tasks@[k]) by {
                if k < done.len() {
                    assert(tasks@[k] == done[k]);
                }
            }
        }
    }
    proof {
        assert(task_ids(tasks@) =~= task_ids(tasks@) + ids_of(rest@));
    }
    let sn = CustodySectionNodes { section, tasks };
    proof {
        let cm = ce@;
        assert(cm.has_requirement == ce.has_requirement@ && cm.decomposes_into == ce.decomposes_into@);
        assert(has_match(cm.has_requirement, plan_id, req) && child_node(
            ents,
            cm.decomposes_into,
            plan_id,
            "PlanSection"@,
            sn.section,
        ));
    }
    sn
}

/// Everything under requirement `requirement_id`: the sections of each plan
/// that a match of `has_requirement` leads from to it (plans in match order,
/// their sections in match order), then stably ordered by the `order` their
/// data gives; with each section its tasks, the tasks' runs and what each
/// run recorded, each list in match order. A section whose data gives no
/// order is an error.
pub fn custody_tree(table: &EntityTable, ce: &CustodyEdges, requirement_id: i64) -> (r: Result<CustodyTree, PlanError>)
    ensures
        r is Err <==> missing_order(table.ents(), ce@, requirement_id),
        r matches Ok(t) ==> is_custody_tree(table.ents(), ce@, requirement_id, t),
{
    proof {
        reveal_strlit("PlanSection");
    }
    let ghost ents = table.ents();
    let ghost cm = ce@;
    let plans = &ce.has_requirement;
    let mut sections: Vec<CustodySectionNodes> = Vec::new();
    let mut i: usize = 0;
    while i < plans.len()
        invariant
            i <= plans@.len(),
            ents == table.ents(),
            cm == ce@,
            plans@ == cm.has_requirement,
            forall|k: int| 0 <= k < sections@.len() ==> #[trigger] section_recorded(ents, cm, requirement_id, sections@[k]),
            section_ids(sections@) == requirement_sections(
                ents,
                plans@.subrange(0, i as int),
                cm.decomposes_into,
                requirement_id,
            ),
        decreases plans@.len() - i,
    {
        proof {
            assert(plans@.subrange(0, i + 1).drop_last() =~= plans@.subrange(0, i as int));
            assert(plans@.subrange(0, i + 1).last() == plans@[i as int]);
        }
        if plans[i].2 == requirement_id {
            let plan_id = plans[i].0;
            proof {
                assert(plans@[i as int].0 == plan_id && plans@[i as int].2 == requirement_id);
                assert(has_match(plans@, plan_id, requirement_id));
            }
            let section_list = children_in(table, &ce.decomposes_into, plan_id, "PlanSection");
            let ghost s0 = section_ids(sections@);
            let ghost want = s0 + kind_targets(ents, cm.decomposes_into, plan_id, "PlanSection"@);
            let mut rest = section_list;
            proof {
                assert(section_ids(sections@) + ids_of(rest@) =~= want);
            }
            while rest.len() > 0
                invariant
                    ents == table.ents(),
                    cm == ce@,
                    has_match(cm.has_requirement, plan_id, requirement_id),
                    forall|k: int|
                        0 <= k < rest@.len() ==> #[trigger] child_node(
                            ents,
                            cm.decomposes_into,
                            plan_id,
                            "PlanSection"@,
                            rest@[k],
                        ),
                    forall|k: int|
                        0 <= k < sections@.len() ==> #[trigger] section_recorded(ents, cm, requirement_id, sections@[k]),
                    section_ids(sections@) + ids_of(rest@) == want,
                decreases rest@.len(),
            {
                let ghost before = rest@;
                let ghost done = sections@;
                let section = rest.remove(0);
                proof {
                    assert(child_node(ents, cm.decomposes_into, plan_id, "PlanSection"@, before[0]));
                    assert forall|k: int| 0 <= k < rest@.len() implies #[trigger] child_node(
                        ents,
                        cm.decomposes_into,
                        plan_id,
                        "PlanSection"@,
                        rest@[k],
                    ) by {
                        assert(rest@[k] == before[k + 1]);
                    }
                }
                let sn = section_nodes(table, ce, requirement_id, plan_id, section);
                sections.push(sn);
                proof {
                    assert(section_ids(sections@) =~= section_ids(done).push(before[0].id));
                    assert(ids_of(rest@) =~= ids_of(before).drop_first());
                    assert(section_ids(sections@) + ids_of(rest@) =~= section_ids(done) + ids_of(before));
                    assert forall|k: int| 0 <= k < sections@.len() implies #[trigger] section_recorded(
                        ents,
                        cm,
                        requirement_id,
                        sections@[k],
                    ) by {
                        if k < done.len() {
                            assert(sections@[k] == done[k]);
                        }
                    }
                }
            }
            proof {
                assert(section_ids(sections@) =~= section_ids(sections@) + ids_of(rest@));
            }
        }
        i = i + 1;
    }
    proof {
        assert(plans@.subrange(0, plans@.len() as int) =~= plans@);
    }
    let ghost rs = requirement_sections(ents, cm.has_requirement, cm.decomposes_into, requirement_id);
    let n_sections = sections.len();
    let ghost input = sections@;
    assert(input.len() == n_sections);
    assert(section_ids(input) == rs);
    let ghost kt = |x: CustodySectionNodes| section_order(ents, x.section.id);
    let mut rest = sections;
    let mut reversed: Vec<CustodySectionNodes> = Vec::new();
    while rest.len() > 0
        invariant
            reversed@.len() + rest@.len() == input.len(),
            forall|t: int| 0 <= t < reversed@.len() ==> #[trigger] reversed@[t] == input[input.len() - 1 - t],
            forall|t: int| 0 <= t < rest@.len() ==> #[trigger] rest@[t] == input[t],
        decreases rest@.len(),
    {
        let x = rest.pop().unwrap();
        reversed.push(x);
    }
    let mut sorted: Vec<CustodySectionNodes> = Vec::new();
    let mut keys: Vec<u64> = Vec::new();
    let mut done: usize = 0;
    while reversed.len() > 0
        invariant
            ents == table.ents(),
            cm == ce@,
            kt == (|x: CustodySectionNodes| section_order(ents, x.section.id)),
            input.len() <= usize::MAX,
            rs == requirement_sections(ents, cm.has_requirement, cm.decomposes_into, requirement_id),
            section_ids(input) == rs,
            done + reversed@.len() == input.len(),
            forall|t: int| 0 <= t < reversed@.len() ==> #[trigger] reversed@[t] == input[input.len() - 1 - t],
            forall|k: int| 0 <= k < input.len() ==> #[trigger] section_recorded(ents, cm, requirement_id, input[k]),
            sorted@ == sort_by_key(input.subrange(0, done as int), kt),
            keys@.len() == sorted@.len(),
            forall|t: int| 0 <= t < keys@.len() ==> #[trigger] keys@[t] as int == kt(sorted@[t]),
            forall|t: int| 0 <= t < sorted@.len() ==> #[trigger] json_uint(sorted@[t].section.data@, "order"@) is Some,
            forall|t: int| 0 <= t < done ==> json_uint(ents[#[trigger] rs[t]].1, "order"@) is Some,
        decreases reversed@.len(),
    {
        let x = reversed.pop().unwrap();
        assert(x == input[done as int]);
        proof {
            assert(section_recorded(ents, cm, requirement_id, input[done as int]));
            assert(shows_entity(ents, x.section));
            assert(rs[done as int] == x.section.id);
            reveal_strlit("order");
        }
        let kx = match json_uint_at(x.section.data.as_str(), "order") {
            Some(k) => k,
            None => {
                proof {
                    assert(rs.len() == input.len());
                    assert(0 <= done < rs.len() && json_uint(ents[rs[done as int]].1, "order"@) is None);
                    assert(missing_order(ents, cm, requirement_id));
                }
                return Err(PlanError { message: "Section data gives no order".to_string() });
            },
        };
        proof {
            assert(kx as int == kt(x));
        }
        let mut pos: usize = 0;
        while pos < sorted.len() && keys[pos] <= kx
            invariant
                pos <= sorted@.len(),
                keys@.len() == sorted@.len(),
                forall|t: int| 0 <= t < keys@.len() ==> #[trigger] keys@[t] as int == kt(sorted@[t]),
                forall|t: int| 0 <= t < pos ==> kt(#[trigger] sorted@[t]) <= kt(x),
                kx as int == kt(x),
            decreases sorted@.len() - pos,
        {
            pos = pos + 1;
        }
        proof {
            lemma_insert_by_key_at(sorted@, x, kt, pos as int);
            assert(input.subrange(0, done + 1).drop_last() =~= input.subrange(0, done as int));
            assert(input.subrange(0, done + 1).last() == x);
        }
        let ghost sb = sorted@;
        let ghost kb = keys@;
        sorted.insert(pos, x);
        keys.insert(pos, kx);
        proof {
            assert forall|t: int| 0 <= t < keys@.len() implies #[trigger] keys@[t] as int == kt(sorted@[t]) by {
                if t < pos {
                    assert(keys@[t] == kb[t] && sorted@[t] == sb[t]);
                } else if t > pos {
                    assert(keys@[t] == kb[t - 1] && sorted@[t] == sb[t - 1]);
                }
            }
            assert forall|t: int| 0 <= t < sorted@.len() implies #[trigger] json_uint(
                sorted@[t].section.data@,
                "order"@,
            ) is Some by {
                if t < pos {
                    assert(sorted@[t] == sb[t]);
                } else if t > pos {
                    assert(sorted@[t] == sb[t - 1]);
                }
            }
        }
        done = done + 1;
    }
    proof {
        assert(input.subrange(0, input.len() as int) =~= input);
        let f = |x: CustodySectionNodes| x.section.id;
        let ku = |id: i64| section_order(ents, id);
        assert forall|y: CustodySectionNodes| #[trigger] kt(y) == ku(f(y)) by {}
        lemma_sort_map(input, kt, ku, f);
        assert(section_ids(sorted@) == sorted@.map_values(f));
        assert(section_ids(input) == input.map_values(f));
        lemma_sort_by_key_members(input, kt, f);
        assert forall|i: int| 0 <= i < sorted@.len() implies #[trigger] section_recorded(
            ents,
            cm,
            requirement_id,
            sorted@[i],
        ) by {
            assert(input.contains(sorted@[i]));
            let j = choose|j: int| 0 <= j < input.len() && input[j] == sorted@[i];
            assert(section_recorded(ents, cm, requirement_id, input[j]));
        }
        assert(!missing_order(ents, cm, requirement_id));
    }
    Ok(CustodyTree { requirement_id, sections: sorted })
}

/// One step of a walk: some match of `steps` leads from `a` to `b`.
pub open spec fn custody_step(steps: Seq<(i64, i64, i64)>, a: i64, b: i64) -> bool {
    has_match(steps, a, b)
}

/// The identifiers a walk from `root` along `steps` can meet: `root` and
/// the targets of the matches.
pub open spec fn reach_space(steps: Seq<(i64, i64, i64)>, root: i64) -> Seq<i64> {
    seq![root] + steps.map_values(|t: (i64, i64, i64)| t.2)
}

/// Node `x` is `root` or can be reached from it along matches of `steps`,
/// each leaving an entity.
pub open spec fn linked_from(ents: Ents, steps: Seq<(i64, i64, i64)>, root: i64, x: i64) -> bool {
    exists|p: Seq<i64>|
        #![trigger p.len(), p.last()]
        p.len() > 0 && p[0] == root && p.last() == x && forall|k: int|
            0 <= k < p.len() - 1 ==> #[trigger] custody_step(steps, p[k], p[k + 1]) && ents.contains_key(p[k])
}

/// Along a path from `root` whose steps leave entities, every node lies in
/// any set that holds `root` and is closed under steps from its entities.
#[verifier::spinoff_prover]
proof fn lemma_path_within(ents: Ents, steps: Seq<(i64, i64, i64)>, visited: Seq<i64>, p: Seq<i64>, k: int)
    requires
        p.len() > 0,
        visited.contains(p[0]),
        0 <= k < p.len(),
        forall|a: int|
            0 <= a < p.len() - 1 ==> #[trigger] custody_step(steps, p[a], p[a + 1]) && ents.contains_key(p[a]),
        forall|x: i64, y: i64|
            #![trigger custody_step(steps, x, y)]
            visited.contains(x) && ents.contains_key(x) && custody_step(steps, x, y) ==> visited.contains(y),
    ensures
        visited.contains(p[k]),
    decreases k,
{
    if k > 0 {
        let a = k - 1;
        lemma_path_within(ents, steps, visited, p, a);
        assert(0 <= a < p.len() - 1);
        assert(custody_step(steps, p[a], p[a + 1]) && ents.contains_key(p[a]));
        assert(p[a + 1] == p[k]);
    }
}

/// A step from an entity linked from `root` leads to a node linked from `root`.
proof fn lemma_link_step(ents: Ents, steps: Seq<(i64, i64, i64)>, root: i64, a: i64, b: i64)
    requires
        linked_from(ents, steps, root, a),
        ents.contains_key(a),
        custody_step(steps, a, b),
    ensures
        linked_from(ents, steps, root, b),
{
    let p = choose|p: Seq<i64>|
        #![trigger p.len(), p.last()]
        p.len() > 0 && p[0] == root && p.last() == a && forall|k: int|
            0 <= k < p.len() - 1 ==> #[trigger] custody_step(steps, p[k], p[k + 1]) && ents.contains_key(p[k]);
    let p2 = p.push(b);
    assert forall|k: int| 0 <= k < p2.len() - 1 implies #[trigger] custody_step(steps, p2[k], p2[k + 1])
        && ents.contains_key(p2[k]) by {
        if k < p.len() - 1 {
            assert(p2[k] == p[k] && p2[k + 1] == p[k + 1]);
        } else {
            assert(p2[k] == a && p2[k + 1] == b);
        }
    }
    assert(p2.len() > 0 && p2[0] == root && p2.last() == b);
}

/// Every node under `root_id`: a depth-first walk from it along the
/// matches of `steps` (in order), visiting each node once and keeping,
/// and walking on from, those that are entities; then ordered by time,
/// nodes without one last, ties in visiting order. Each node's time is
/// its data's `timestamp`, or else its `started_at`.
pub fn timeline_in(table: &EntityTable, steps: &Vec<(i64, i64, i64)>, root_id: i64) -> (r: Vec<CustodyNode>)
    ensures
        sorted_by_key(r@, time_key()),
        forall|i: int|
            0 <= i < r@.len() ==> shows_entity(table.ents(), #[trigger] r@[i]) && r@[i].timestamp == node_time(
                r@[i].data@,
            ) && linked_from(table.ents(), steps@, root_id, r@[i].id),
        forall|x: i64|
            linked_from(table.ents(), steps@, root_id, x) && #[trigger] table.ents().contains_key(x)
                ==> ids_of(r@).contains(x),
        ids_of(r@).no_duplicates(),
{
    let ghost ents = table.ents();
    let ghost st = steps@;
    let ghost space = reach_space(st, root_id);
    let mut visited: Vec<i64> = Vec::new();
    let mut queue: Vec<i64> = Vec::new();
    queue.push(root_id);
    let mut results: Vec<CustodyNode> = Vec::new();
    proof {
        assert(space[0] == root_id);
        assert(queue@[0] == root_id);
        let p = seq![root_id];
        assert(p.len() > 0 && p[0] == root_id && p.last() == root_id);
        assert(linked_from(ents, st, root_id, root_id));
    }
    while queue.len() > 0
        invariant
            ents == table.ents(),
            st == steps@,
            space == reach_space(st, root_id),
            visited@.no_duplicates(),
            forall|i: int| 0 <= i < visited@.len() ==> space.contains(#[trigger] visited@[i]),
            forall|i: int|
                0 <= i < queue@.len() ==> space.contains(#[trigger] queue@[i]) && linked_from(ents, st, root_id, queue@[i]),
            forall|i: int|
                0 <= i < results@.len() ==> shows_entity(ents, #[trigger] results@[i]) && results@[i].timestamp
                    == node_time(results@[i].data@) && linked_from(ents, st, root_id, results@[i].id) && visited@.contains(
                    results@[i].id,
                ),
            ids_of(results@).no_duplicates(),
            visited@.len() <= space.len(),
            visited@.contains(root_id) || queue@.contains(root_id),
            forall|x: i64, y: i64|
                #![trigger custody_step(st, x, y)]
                visited@.contains(x) && ents.contains_key(x) && custody_step(st, x, y)
                    ==> visited@.contains(y) || queue@.contains(y),
            forall|x: i64|
                visited@.contains(x) && #[trigger] ents.contains_key(x) ==> ids_of(results@).contains(x),
        decreases space.len() - visited@.len(), queue@.len(),
    {
        let ghost q0 = queue@;
        let id = queue.pop().unwrap();
        proof {
            assert(q0 =~= queue@.push(id));
            assert(q0[q0.len() - 1] == id);
        }
        if contains_i64(&visited, id) {
            proof {
                assert forall|y: i64| q0.contains(y) implies visited@.contains(y) || queue@.contains(y) by {
                    if y != id {
                        let j = choose|j: int| 0 <= j < q0.len() && q0[j] == y;
                        assert(queue@[j] == y);
                    }
                }
            }
            continue;
        }
        let ghost v_before = visited@;
        let ghost r_before = results@;
        visited.push(id);
        proof {
            assert(visited@.no_duplicates()) by {
                assert forall|a: int, b: int|
                    0 <= a < visited@.len() && 0 <= b < visited@.len() && a != b implies visited@[a]
                    != visited@[b] by {
                    if a < v_before.len() && b < v_before.len() {
                    } else if a < v_before.len() {
                        assert(v_before.contains(visited@[a]));
                    } else {
                        assert(v_before.contains(visited@[b]));
                    }
                }
            }
            assert forall|i: int| 0 <= i < visited@.len() implies space.contains(#[trigger] visited@[i]) by {
                if i < v_before.len() {
                    assert(visited@[i] == v_before[i]);
                }
            }
            lemma_distinct_within(visited@, space);
            assert forall|i: int| 0 <= i < results@.len() implies visited@.contains(#[trigger] results@[i].id) by {
                assert(v_before.contains(results@[i].id));
                let j = choose|j: int| 0 <= j < v_before.len() && v_before[j] == results@[i].id;
                assert(visited@[j] == v_before[j]);
            }
            assert(visited@[visited@.len() - 1] == id);
            assert forall|y: i64| v_before.contains(y) implies visited@.contains(y) by {
                let j = choose|j: int| 0 <= j < v_before.len() && v_before[j] == y;
                assert(visited@[j] == y);
            }
            assert forall|y: i64| q0.contains(y) implies visited@.contains(y) || queue@.contains(y) by {
                if y != id {
                    let j = choose|j: int| 0 <= j < q0.len() && q0[j] == y;
                    assert(queue@[j] == y);
                }
            }
        }
        let ghost q1 = queue@;
        match table.lookup(id) {
            Some((kind, data)) => {
                let ts = match json_time_at(data.as_str(), "timestamp") {
                    Some(t) => Some(t),
                    None => json_time_at(data.as_str(), "started_at"),
                };
                proof {
                    reveal_strlit("timestamp");
                    reveal_strlit("started_at");
                    assert(!v_before.contains(id));
                }
                results.push(CustodyNode { id, kind, data, timestamp: ts });
                proof {
                    assert(ids_of(results@) =~= ids_of(r_before).push(id));
                    assert forall|a: int, b: int|
                        0 <= a < ids_of(results@).len() && 0 <= b < ids_of(results@).len() && a != b implies ids_of(
                        results@,
                    )[a] != ids_of(results@)[b] by {
                        if a < r_before.len() && b < r_before.len() {
                            assert(ids_of(results@)[a] == ids_of(r_before)[a]);
                            assert(ids_of(results@)[b] == ids_of(r_before)[b]);
                        } else if a < r_before.len() {
                            assert(results@[a] == r_before[a]);
                            assert(v_before.contains(r_before[a].id));
                        } else {
                            assert(results@[b] == r_before[b]);
                            assert(v_before.contains(r_before[b].id));
                        }
                    }
                    assert forall|i: int| 0 <= i < results@.len() implies shows_entity(ents, #[trigger] results@[i])
                        && results@[i].timestamp == node_time(results@[i].data@) && linked_from(ents, st, root_id, results@[i].id)
                        && visited@.contains(results@[i].id) by {
                        if i < r_before.len() {
                            assert(results@[i] == r_before[i]);
                        } else {
                            assert(visited@[visited@.len() - 1] == id);
                        }
                    }
                    assert forall|x: i64| ids_of(r_before).contains(x) implies ids_of(results@).contains(x) by {
                        let j = choose|j: int| 0 <= j < ids_of(r_before).len() && ids_of(r_before)[j] == x;
                        assert(ids_of(results@)[j] == x);
                    }
                    assert(ids_of(results@)[r_before.len() as int] == id);
                }
                let mut j: usize = 0;
                while j < steps.len()
                    invariant
                        j <= st.len(),
                        ents == table.ents(),
                        st == steps@,
                        space == reach_space(st, root_id),
                        linked_from(ents, st, root_id, id),
                        ents.contains_key(id),
                        forall|i: int|
                            0 <= i < queue@.len() ==> space.contains(#[trigger] queue@[i]) && linked_from(
                                ents,
                                st,
                                root_id,
                                queue@[i],
                            ),
                        forall|y: i64| q1.contains(y) ==> #[trigger] queue@.contains(y),
                        forall|jj: int|
                            0 <= jj < j && (#[trigger] st[jj]).0 == id ==> visited@.contains(st[jj].2)
                                || queue@.contains(st[jj].2),
                    decreases st.len() - j,
                {
                    let (start, _edge, end) = steps[j];
                    if start == id && !contains_i64(&visited, end) {
                        proof {
                            assert(space[j + 1] == end);
                            assert(custody_step(st, id, end)) by {
                                assert(st[j as int].0 == id && st[j as int].2 == end);
                            }
                            lemma_link_step(ents, st, root_id, id, end);
                        }
                        let ghost qb = queue@;
                        queue.push(end);
                        proof {
                            assert forall|i: int| 0 <= i < queue@.len() implies space.contains(
                                #[trigger] queue@[i],
                            ) && linked_from(ents, st, root_id, queue@[i]) by {
                                if i < qb.len() {
                                    assert(queue@[i] == qb[i]);
                                }
                            }
                            assert forall|y: i64| qb.contains(y) implies #[trigger] queue@.contains(y) by {
                                let t = choose|t: int| 0 <= t < qb.len() && qb[t] == y;
                                assert(queue@[t] == y);
                            }
                            assert(queue@[qb.len() as int] == end);
                        }
                    }
                    j = j + 1;
                }
                proof {
                    assert forall|x: i64, y: i64|
                        #![trigger custody_step(st, x, y)]
                        visited@.contains(x) && ents.contains_key(x) && custody_step(st, x, y)
                            implies visited@.contains(y) || queue@.contains(y) by {
                        if x == id {
                            let t = choose|t: int| 0 <= t < st.len() && (#[trigger] st[t]).0 == x && st[t].2 == y;
                            assert(st[t].0 == id);
                        } else {
                            assert(v_before.contains(x)) by {
                                let j = choose|j: int| 0 <= j < visited@.len() && visited@[j] == x;
                                assert(j < v_before.len());
                                assert(v_before[j] == x);
                            }
                            assert(custody_step(st, x, y));
                            if q0.contains(y) {
                                if !visited@.contains(y) {
                                    assert(q1.contains(y));
                                }
                            }
                        }
                    }
                    assert forall|x: i64| visited@.contains(x) && #[trigger] ents.contains_key(x)
                        implies ids_of(results@).contains(x) by {
                        if x != id {
                            assert(v_before.contains(x)) by {
                                let j = choose|j: int| 0 <= j < visited@.len() && visited@[j] == x;
                                assert(j < v_before.len());
                                assert(v_before[j] == x);
                            }
                            assert(ids_of(r_before).contains(x));
                        }
                    }
                    if !visited@.contains(root_id) {
                        assert(q1.contains(root_id));
                    }
                }
            },
            None => {
                proof {
                    assert forall|x: i64, y: i64|
                        #![trigger custody_step(st, x, y)]
                        visited@.contains(x) && ents.contains_key(x) && custody_step(st, x, y)
                            implies visited@.contains(y) || queue@.contains(y) by {
                        if x != id {
                            assert(v_before.contains(x)) by {
                                let j = choose|j: int| 0 <= j < visited@.len() && visited@[j] == x;
                                assert(j < v_before.len());
                                assert(v_before[j] == x);
                            }
                            assert(custody_step(st, x, y));
                        }
                    }
                    assert forall|x: i64| visited@.contains(x) && #[trigger] ents.contains_key(x)
                        implies ids_of(results@).contains(x) by {
                        if x != id {
                            assert(v_before.contains(x)) by {
                                let j = choose|j: int| 0 <= j < visited@.len() && visited@[j] == x;
                                assert(j < v_before.len());
                                assert(v_before[j] == x);
                            }
                        }
                    }
                }
            },
        }
    }
    let ghost rs = results@;
    let sorted = sort_by_time(results);
    proof {
        broadcast use vstd::multiset::group_multiset_properties;
        broadcast use vstd::seq_lib::group_to_multiset_ensures;

        lemma_sort_by_key(rs, time_key());
        lemma_sort_by_key_members(rs, time_key(), |n: CustodyNode| n.id);
        assert(ids_of(rs) == rs.map_values(|n: CustodyNode| n.id));
        assert(ids_of(sorted@) == sorted@.map_values(|n: CustodyNode| n.id));
        assert forall|i: int| 0 <= i < sorted@.len() implies shows_entity(ents, #[trigger] sorted@[i])
            && sorted@[i].timestamp == node_time(sorted@[i].data@) && linked_from(ents, st, root_id, sorted@[i].id) by {
            assert(rs.contains(sorted@[i]));
            let j = choose|j: int| 0 <= j < rs.len() && rs[j] == sorted@[i];
            assert(shows_entity(ents, rs[j]));
        }
        assert forall|x: i64| linked_from(ents, st, root_id, x) && #[trigger] ents.contains_key(x)
            implies ids_of(sorted@).contains(x) by {
            let p = choose|p: Seq<i64>|
                #![trigger p.len(), p.last()]
                p.len() > 0 && p[0] == root_id && p.last() == x && forall|k: int|
                    0 <= k < p.len() - 1 ==> #[trigger] custody_step(st, p[k], p[k + 1])
                        && ents.contains_key(p[k]);
            lemma_path_within(ents, st, visited@, p, p.len() - 1);
            assert(ids_of(rs).contains(x));
            let j = choose|j: int| 0 <= j < ids_of(rs).len() && ids_of(rs)[j] == x;
            assert(rs[j].id == x);
            assert(rs.to_multiset().count(rs[j]) > 0);
            assert(sorted@.to_multiset().count(rs[j]) > 0);
            assert(sorted@.contains(rs[j]));
            let i = choose|i: int| 0 <= i < sorted@.len() && sorted@[i] == rs[j];
            assert(ids_of(sorted@)[i] == x);
        }
    }
    sorted
}


/// The custody parent of node `c` that the rules from `r` on find: the
/// first rule (in order) by which some node of the rule's kind leads to `c`
/// by a match of that rule's list, and by that rule the first such node in
/// match order.
pub open spec fn parent_by_rules(ents: Ents, rules: Seq<Seq<(i64, i64, i64)>>, c: i64, r: nat) -> Option<i64>
    decreases 8 - r,
{
    if r >= 8 {
        None
    } else {
        match first_source(ents, rules[r as int], c, custody_rule(r as int).1) {
            Some(p) => Some(p),
            None => parent_by_rules(ents, rules, c, r + 1),
        }
    }
}

/// The custody parent of node `c`, as the rules find it in their order.
pub open spec fn custody_parent_id(ents: Ents, rules: Seq<Seq<(i64, i64, i64)>>, c: i64) -> Option<i64> {
    parent_by_rules(ents, rules, c, 0)
}

/// The lists of matches, as sequences.
pub open spec fn lists_view(v: Seq<Vec<(i64, i64, i64)>>) -> Seq<Seq<(i64, i64, i64)>> {
    v.map_values(|l: Vec<(i64, i64, i64)>| l@)
}

/// The kind of node custody rule `r` leads back to.
fn rule_kind(r: usize) -> (s: &'static str)
    requires
        r < 8,
    ensures
        s@ == custody_rule(r as int).1,
{
    if r == 0 {
        "Task"
    } else if r == 1 {
        "PlanSection"
    } else if r == 2 {
        "Plan"
    } else if r == 3 {
        "Requirement"
    } else {
        "SubagentRun"
    }
}

/// The custody parent of `current` (see `custody_parent_id`), given the
/// matches of each rule's edge type in `rules`.
pub fn custody_parent_in(table: &EntityTable, rules: &Vec<Vec<(i64, i64, i64)>>, current: i64) -> (r: Option<CustodyNode>)
    requires
        rules@.len() == 8,
    ensures
        r is None <==> custody_parent_id(table.ents(), lists_view(rules@), current) is None,
        r matches Some(n) ==> custody_parent_id(table.ents(), lists_view(rules@), current) == Some(n.id)
            && shows_entity(table.ents(), n) && n.timestamp == json_time(n.data@, "timestamp"@),
{
    let ghost ls = lists_view(rules@);
    let mut k: usize = 0;
    while k < 8
        invariant
            k <= 8,
            rules@.len() == 8,
            ls == lists_view(rules@),
            custody_parent_id(table.ents(), ls, current) == parent_by_rules(table.ents(), ls, current, k as nat),
        decreases 8 - k,
    {
        let kind = rule_kind(k);
        proof {
            assert(ls[k as int] == rules@[k as int]@);
        }
        match parent_in(table, &rules[k], current, kind) {
            Some(n) => {
                return Some(n);
            },
            None => {},
        }
        k = k + 1;
    }
    None
}

/// Walks back from `node_id` to where its chain of custody starts: the
/// custody parent of the node, then that node's, and so on until a node has
/// none; returns them from the start of the chain down. (A chain that has
/// not ended after 2^64 - 1 steps is cut there.)
pub fn custody_chain(table: &EntityTable, rules: &Vec<Vec<(i64, i64, i64)>>, node_id: i64) -> (r: Vec<CustodyNode>)
    requires
        rules@.len() == 8,
    ensures
        forall|i: int|
            0 <= i < r@.len() ==> shows_entity(table.ents(), #[trigger] r@[i]) && r@[i].timestamp == json_time(
                r@[i].data@,
                "timestamp"@,
            ),
        r@.len() == 0 <==> custody_parent_id(table.ents(), lists_view(rules@), node_id) is None,
        r@.len() > 0 ==> custody_parent_id(table.ents(), lists_view(rules@), node_id) == Some(r@.last().id),
        forall|i: int|
            0 <= i < r@.len() - 1 ==> custody_parent_id(table.ents(), lists_view(rules@), #[trigger] r@[i + 1].id)
                == Some(r@[i].id),
        0 < r@.len() < u64::MAX ==> custody_parent_id(table.ents(), lists_view(rules@), r@[0].id) is None,
{
    let ghost ents = table.ents();
    let ghost ls = lists_view(rules@);
    let mut walk: Vec<CustodyNode> = Vec::new();
    let mut current = node_id;
    let mut steps: u64 = 0;
    let mut ended = false;
    while !ended && steps < u64::MAX
        invariant
            ents == table.ents(),
            ls == lists_view(rules@),
            rules@.len() == 8,
            walk@.len() == steps,
            walk@.len() == 0 ==> current == node_id,
            walk@.len() > 0 ==> current == walk@.last().id,
            forall|i: int|
                0 <= i < walk@.len() ==> shows_entity(ents, #[trigger] walk@[i]) && walk@[i].timestamp == json_time(
                    walk@[i].data@,
                    "timestamp"@,
                ),
            walk@.len() > 0 ==> custody_parent_id(ents, ls, node_id) == Some(walk@[0].id),
            forall|i: int| 0 < i < walk@.len() ==> custody_parent_id(ents, ls, walk@[i - 1].id) == Some(#[trigger] walk@[i].id),
            ended ==> custody_parent_id(ents, ls, current) is None,
        decreases u64::MAX - steps, (if ended { 0int } else { 1int }),
    {
        match custody_parent_in(table, rules, current) {
            Some(n) => {
                current = n.id;
                let ghost before = walk@;
                walk.push(n);
                steps = steps + 1;
                proof {
                    assert forall|i: int| 0 < i < walk@.len() implies custody_parent_id(ents, ls, walk@[i - 1].id) == Some(
                        #[trigger] walk@[i].id,
                    ) by {
                        if i < before.len() {
                            assert(walk@[i] == before[i] && walk@[i - 1] == before[i - 1]);
                        }
                    }
                }
            },
            None => {
                ended = true;
            },
        }
    }
    let mut path: Vec<CustodyNode> = Vec::new();
    let ghost w = walk@;
    while walk.len() > 0
        invariant
            walk@.len() + path@.len() == w.len(),
            forall|i: int| 0 <= i < walk@.len() ==> #[trigger] walk@[i] == w[i],
            forall|i: int| 0 <= i < path@.len() ==> #[trigger] path@[i] == w[w.len() - 1 - i],
        decreases walk@.len(),
    {
        let n = walk.pop().unwrap();
        path.push(n);
    }
    proof {
        assert forall|i: int| 0 <= i < path@.len() - 1 implies custody_parent_id(ents, ls, #[trigger] path@[i + 1].id)
            == Some(path@[i].id) by {
            assert(path@[i] == w[w.len() - 1 - i]);
            assert(path@[i + 1] == w[w.len() - 2 - i]);
        }
        if path@.len() > 0 {
            assert(path@.last() == w[0]);
            assert(path@[0] == w[w.len() - 1]);
        }
        assert forall|i: int| 0 <= i < path@.len() implies shows_entity(ents, #[trigger] path@[i]) && path@[i].timestamp
            == json_time(path@[i].data@, "timestamp"@) by {
            assert(path@[i] == w[w.len() - 1 - i]);
        }
    }
    path
}


/// Rows with distinct identifiers describe each of their entities.
pub proof fn lemma_rows_map(rows: Seq<(i64, String, String)>)
    requires
        forall|a: int, b: int| 0 <= a < b < rows.len() ==> rows[a].0 != rows[b].0,
    ensures
        forall|x: i64| rows_map(rows).contains_key(x) <==> exists|k: int| 0 <= k < rows.len() && (#[trigger] rows[k]).0 == x,
        forall|k: int| 0 <= k < rows.len() ==> rows_map(rows)[(#[trigger] rows[k]).0] == (rows[k].1@, rows[k].2@),
    decreases rows.len(),
{
    if rows.len() > 0 {
        let pre = rows.drop_last();
        lemma_rows_map(pre);
        assert(rows_map(rows) == rows_map(pre).insert(rows.last().0, (rows.last().1@, rows.last().2@)));
        assert forall|x: i64| rows_map(rows).contains_key(x) <==> exists|k: int|
            0 <= k < rows.len() && (#[trigger] rows[k]).0 == x by {
            if rows_map(rows).contains_key(x) && x != rows.last().0 {
                assert(rows_map(pre).contains_key(x));
                let k = choose|k: int| 0 <= k < pre.len() && (#[trigger] pre[k]).0 == x;
                assert(rows[k] == pre[k]);
            }
            if exists|k: int| 0 <= k < rows.len() && (#[trigger] rows[k]).0 == x {
                let k = choose|k: int| 0 <= k < rows.len() && (#[trigger] rows[k]).0 == x;
                if k < pre.len() {
                    assert(pre[k] == rows[k]);
                }
            }
        }
        assert forall|k: int| 0 <= k < rows.len() implies rows_map(rows)[(#[trigger] rows[k]).0] == (
            rows[k].1@,
            rows[k].2@,
        ) by {
            if k < pre.len() {
                assert(pre[k] == rows[k]);
                assert(rows[k].0 != rows[rows.len() - 1].0);
            }
        }
    }
}

} // verus!
