//! The store under the plan graph: an `sqlitegraph` database of entities
//! (kind, name, optional file path, JSON data) and typed edges between them.
//!
//! The store's contents are modelled by two names: its entities by
//! identifier, and its edges in the order they were inserted. JSON data is
//! handed over as text.

use crate::checkpoint::hex_digit;
use crate::sorting::sort_by_key;
use crate::text::trimmed;
use sqlitegraph::{GraphEdge, GraphEntity, PatternTriple, SqliteGraph, SqliteGraphError};
use vstd::prelude::*;

verus! {

#[verifier::external_type_specification]
#[verifier::external_body]
pub struct ExSqliteGraph(SqliteGraph);

/// The store's entities, by identifier: kind, name, file path and data (JSON text).
pub uninterp spec fn store_entities(g: SqliteGraph) -> Map<i64, (Seq<char>, Seq<char>, Option<Seq<char>>, Seq<char>)>;

/// The store's edges, in the order they were inserted: identifier, source,
/// target and type.
pub uninterp spec fn store_edges(g: SqliteGraph) -> Seq<(i64, i64, i64, Seq<char>)>;

/// The text `serde_json` writes for the JSON value that text `t` parses to
/// (`serde_json::to_string` of `serde_json::from_str::<Value>`).
pub uninterp spec fn canonical_json(t: Seq<char>) -> Seq<char>;

/// The date-time at key `key` of the JSON object in text `t`, as whole
/// seconds since the Unix epoch and nanoseconds within the second; none when
/// the text is no object, the key is missing or its value is not an RFC 3339
/// date-time.
pub uninterp spec fn json_time(t: Seq<char>, key: Seq<char>) -> Option<(i64, u32)>;

/// What `serde_json` reads at `key` of the JSON object in `t` as an unsigned
/// 64-bit integer; none when the text is no object, the key is missing or its
/// value is not such an integer.
pub uninterp spec fn json_uint(t: Seq<char>, key: Seq<char>) -> Option<u64>;

/// The view of an optional string.
pub open spec fn opt_view(s: Option<String>) -> Option<Seq<char>> {
    match s {
        Some(x) => Some(x@),
        None => None,
    }
}

/// How `serde_json` writes character `c` inside a JSON string.
pub open spec fn json_escape(c: char) -> Seq<char> {
    if c == '"' {
        seq!['\\', '"']
    } else if c == '\\' {
        seq!['\\', '\\']
    } else if c == '\u{8}' {
        seq!['\\', 'b']
    } else if c == '\u{9}' {
        seq!['\\', 't']
    } else if c == '\u{a}' {
        seq!['\\', 'n']
    } else if c == '\u{c}' {
        seq!['\\', 'f']
    } else if c == '\u{d}' {
        seq!['\\', 'r']
    } else if (c as u32) < 0x20 {
        seq!['\\', 'u', '0', '0', hex_digit(((c as u32) / 16) as nat), hex_digit(((c as u32) % 16) as nat)]
    } else {
        seq![c]
    }
}

/// The escaped characters of `s`.
pub open spec fn json_escaped(s: Seq<char>) -> Seq<char>
    decreases s.len(),
{
    if s.len() == 0 {
        Seq::empty()
    } else {
        json_escaped(s.drop_last()) + json_escape(s.last())
    }
}

/// The JSON string literal of `s`, as `serde_json` writes it.
pub open spec fn json_string(s: Seq<char>) -> Seq<char> {
    seq!['"'] + json_escaped(s) + seq!['"']
}

/// The matches of the edges of type `t`: (source, edge identifier, target),
/// in insertion order.
pub open spec fn typed_triples(edges: Seq<(i64, i64, i64, Seq<char>)>, t: Seq<char>) -> Seq<(i64, i64, i64)>
    decreases edges.len(),
{
    if edges.len() == 0 {
        Seq::empty()
    } else {
        let r = typed_triples(edges.drop_last(), t);
        let e = edges.last();
        if e.3 == t {
            r.push((e.1, e.0, e.2))
        } else {
            r
        }
    }
}

/// Orders matches by source, then edge identifier, then target.
pub open spec fn triple_key() -> spec_fn((i64, i64, i64)) -> int {
    |m: (i64, i64, i64)|
        ((m.0 as int + 0x8000_0000_0000_0000) * 0x1_0000_0000_0000_0000 + (m.1 as int + 0x8000_0000_0000_0000))
            * 0x1_0000_0000_0000_0000 + (m.2 as int + 0x8000_0000_0000_0000)
}

/// What the store answers to a match of edge type `t`.
pub open spec fn matches_of(g: SqliteGraph, t: Seq<char>) -> Seq<(i64, i64, i64)> {
    sort_by_key(typed_triples(store_edges(g), t), triple_key())
}

/// `SqliteGraph::open_in_memory`: a new, empty in-memory store.
#[verifier::external_body]
pub(crate) fn open_store() -> (r: Result<SqliteGraph, String>)
    ensures
        r matches Ok(g) ==> store_entities(g).dom() == Set::<i64>::empty() && store_edges(g).len() == 0,
{
    SqliteGraph::open_in_memory().map_err(|e| e.to_string())
}

/// `SqliteGraph::insert_entity`, with the data given as JSON text. The new
/// entity gets an identifier above every identifier in use (the table's
/// identifiers count up from 1 and are never reused). A blank kind or name,
/// or data that is not JSON, is refused. What an error leaves behind is not
/// stated.
#[verifier::external_body]
pub(crate) fn store_insert_entity(
    g: &mut SqliteGraph,
    kind: &str,
    name: &str,
    file_path: Option<String>,
    data: &str,
) -> (r: Result<i64, String>)
    ensures
        r matches Ok(id) ==> id > 0 && (forall|k: i64| #[trigger] store_entities(*old(g)).contains_key(k) ==> k < id)
            && store_entities(*final(g)) == store_entities(*old(g)).insert(
            id,
            (kind@, name@, opt_view(file_path), canonical_json(data@)),
        ) && store_edges(*final(g)) == store_edges(*old(g)),
        trimmed(kind@).len() == 0 || trimmed(name@).len() == 0 ==> r is Err,
{
    let value: serde_json::Value = match serde_json::from_str(data) {
        Ok(v) => v,
        Err(e) => return Err(e.to_string()),
    };
    let entity = GraphEntity { id: 0, kind: kind.to_string(), name: name.to_string(), file_path, data: value };
    g.insert_entity(&entity).map_err(|e| e.to_string())
}

/// `SqliteGraph::insert_edge`, with the data given as JSON text. The new
/// edge gets an identifier above every edge identifier in use. A blank
/// type, an endpoint that is not positive or names no entity, or data that
/// is not JSON, is refused. What an error leaves behind is not stated.
#[verifier::external_body]
pub(crate) fn store_insert_edge(g: &mut SqliteGraph, from: i64, to: i64, edge_type: &str, data: &str) -> (r: Result<
    i64,
    String,
>)
    ensures
        r matches Ok(id) ==> id > 0 && (forall|k: int|
            0 <= k < store_edges(*old(g)).len() ==> (#[trigger] store_edges(*old(g))[k]).0 < id) && store_edges(
            *final(g),
        ) == store_edges(*old(g)).push((id, from, to, edge_type@)) && store_entities(*final(g)) == store_entities(
            *old(g),
        ),
        trimmed(edge_type@).len() == 0 || from <= 0 || to <= 0 || !store_entities(*old(g)).contains_key(from)
            || !store_entities(*old(g)).contains_key(to) ==> r is Err,
{
    let value: serde_json::Value = match serde_json::from_str(data) {
        Ok(v) => v,
        Err(e) => return Err(e.to_string()),
    };
    let edge = GraphEdge { id: 0, from_id: from, to_id: to, edge_type: edge_type.to_string(), data: value };
    g.insert_edge(&edge).map_err(|e| e.to_string())
}

/// `SqliteGraph::get_entity`: the entity's kind, name, file path and data
/// (as JSON text), or `None` when no entity has the identifier (the store's
/// not-found error). The data comes back as the store's text parsed and
/// written out again. Any other error of the store (a failed query) is
/// returned as its message; when that happens is not stated.
#[verifier::external_body]
pub(crate) fn store_get_entity(g: &SqliteGraph, id: i64) -> (r: Result<
    Option<(String, String, Option<String>, String)>,
    String,
>)
    ensures
        r matches Ok(Some(e)) ==> store_entities(*g).contains_key(id) && store_entities(*g)[id].0 == e.0@
            && store_entities(*g)[id].1 == e.1@ && store_entities(*g)[id].2 == opt_view(e.2) && e.3@
            == canonical_json(store_entities(*g)[id].3),
        r matches Ok(None) ==> !store_entities(*g).contains_key(id),
{
    match g.get_entity(id) {
        Ok(e) => Ok(Some((e.kind, e.name, e.file_path, e.data.to_string()))),
        Err(SqliteGraphError::NotFound(_)) => Ok(None),
        Err(e) => Err(e.to_string()),
    }
}

/// `SqliteGraph::list_entity_ids`: the identifiers of all entities, in
/// ascending order. When a query fails is not stated.
#[verifier::external_body]
pub(crate) fn store_entity_ids(g: &SqliteGraph) -> (r: Result<Vec<i64>, String>)
    ensures
        r matches Ok(v) ==> (forall|a: int, b: int| 0 <= a < b < v@.len() ==> v@[a] < v@[b]) && (forall|x: i64|
            v@.contains(x) <==> store_entities(*g).contains_key(x)),
{
    g.list_entity_ids().map_err(|e| e.to_string())
}

/// `SqliteGraph::update_entity`: replaces the kind, name, file path and data
/// (given as JSON text) of an existing entity. An identifier that is not
/// positive or names no entity, a blank kind or name, or data that is not
/// JSON, is refused. What an error leaves behind is not stated.
#[verifier::external_body]
pub(crate) fn store_update_entity(
    g: &mut SqliteGraph,
    id: i64,
    kind: &str,
    name: &str,
    file_path: Option<String>,
    data: &str,
) -> (r: Result<(), String>)
    ensures
        r is Ok ==> store_entities(*old(g)).contains_key(id) && store_entities(*final(g)) == store_entities(
            *old(g),
        ).insert(id, (kind@, name@, opt_view(file_path), canonical_json(data@))) && store_edges(*final(g))
            == store_edges(*old(g)),
        id <= 0 || trimmed(kind@).len() == 0 || trimmed(name@).len() == 0 || !store_entities(
            *old(g),
        ).contains_key(id) ==> r is Err,
{
    let value: serde_json::Value = match serde_json::from_str(data) {
        Ok(v) => v,
        Err(e) => return Err(e.to_string()),
    };
    let entity = GraphEntity { id, kind: kind.to_string(), name: name.to_string(), file_path, data: value };
    g.update_entity(&entity).map_err(|e| e.to_string())
}

/// `SqliteGraph::match_triples` with `PatternTriple::new(edge_type)`: every
/// edge of that type as (source, edge identifier, target), ordered by
/// source, then identifier, then target. A blank type is refused.
#[verifier::external_body]
pub(crate) fn store_match(g: &SqliteGraph, edge_type: &str) -> (r: Result<Vec<(i64, i64, i64)>, String>)
    ensures
        r matches Ok(v) ==> v@ == matches_of(*g, edge_type@),
        trimmed(edge_type@).len() == 0 ==> r is Err,
{
    match g.match_triples(&PatternTriple::new(edge_type)) {
        Ok(v) => Ok(v.into_iter().map(|t| (t.start_id, t.edge_id, t.end_id)).collect()),
        Err(e) => Err(e.to_string()),
    }
}

/// `serde_json::to_string` of a string: its JSON string literal.
#[verifier::external_body]
pub(crate) fn json_quote(s: &str) -> (r: String)
    ensures
        r@ == json_string(s@),
{
    serde_json::to_string(s).unwrap_or_default()
}

/// The date-time at `key` of the JSON object in `data`, read as
/// `serde_json::from_value::<DateTime<Utc>>`, as seconds and nanoseconds.
#[verifier::external_body]
pub(crate) fn json_time_at(data: &str, key: &str) -> (r: Option<(i64, u32)>)
    ensures
        r == json_time(data@, key@),
{
    let value: serde_json::Value = serde_json::from_str(data).ok()?;
    let t = serde_json::from_value::<chrono::DateTime<chrono::Utc>>(value.get(key)?.clone()).ok()?;
    Some((t.timestamp(), t.timestamp_subsec_nanos()))
}

/// The unsigned integer at `key` of the JSON object in `data`, as
/// `serde_json::from_str` and `Value::as_u64` read it.
#[verifier::external_body]
pub(crate) fn json_uint_at(data: &str, key: &str) -> (r: Option<u64>)
    ensures
        r == json_uint(data@, key@),
{
    let value: serde_json::Value = serde_json::from_str(data).ok()?;
    value.get(key)?.as_u64()
}

} // verus!
