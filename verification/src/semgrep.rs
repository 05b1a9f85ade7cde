//! Semgrep findings and the runner's settings.

use crate::audit::strings_view;
use vstd::prelude::*;

verus! {

/// A single semgrep finding.
#[derive(Clone, Debug, PartialEq)]
pub struct SemgrepFinding {
    pub check_id: String,
    pub file: String,
    pub start_line: u32,
    pub end_line: u32,
    pub message: String,
    pub severity: String,
    pub category: Option<String>,
}

/// Runs semgrep with configurable rulesets, asking for JSON output.
pub struct SemgrepRunner {
    configs: Vec<String>,
    json_output: bool,
}

impl SemgrepRunner {
    /// The rulesets.
    pub closed spec fn spec_configs(&self) -> Seq<String> {
        self.configs@
    }

    /// Whether JSON output is requested.
    pub closed spec fn spec_json_output(&self) -> bool {
        self.json_output
    }

    /// A runner for the given rulesets, with JSON output.
    pub fn new(configs: Vec<String>) -> (r: SemgrepRunner)
        ensures
            r.spec_configs() == configs@,
            r.spec_json_output(),
    {
        SemgrepRunner { configs, json_output: true }
    }

    /// Parses semgrep's JSON report: for each entry of its `results` array
    /// (none when there is no such array), in order, the finding it
    /// describes when it has a check id, a path, start and end lines, and a
    /// message and severity under `extra`; other entries are left out. The
    /// lines keep their low 32 bits. Text that is not JSON is an error,
    /// carrying the parser's message.
    pub fn parse_output(json: &str) -> (r: Result<Vec<SemgrepFinding>, String>)
        ensures
            r is Err <==> json_items(json@, "results"@) is None,
            r matches Ok(v) ==> findings_view(v@) == findings_of(json_items(json@, "results"@)->Some_0),
    {
        let items = match json_items_at(json, "results") {
            Ok(v) => v,
            Err(m) => {
                return Err(m);
            },
        };
        proof {
            reveal_strlit("results");
        }
        let ghost texts = strings_view(items@);
        let mut out: Vec<SemgrepFinding> = Vec::new();
        let mut i: usize = 0;
        while i < items.len()
            invariant
                i <= items@.len(),
                texts == strings_view(items@),
                findings_view(out@) == findings_of(texts.subrange(0, i as int)),
            decreases items@.len() - i,
        {
            let ghost before = out@;
            proof {
                assert(texts.subrange(0, i + 1).drop_last() =~= texts.subrange(0, i as int));
                assert(texts.subrange(0, i + 1).last() == items@[i as int]@);
            }
            match item_finding_at(items[i].as_str()) {
                Some(f) => {
                    out.push(f);
                    proof {
                        assert(findings_view(out@) =~= findings_view(before).push(finding_view(out@.last())));
                    }
                },
                None => {},
            }
            i = i + 1;
        }
        proof {
            assert(texts.subrange(0, texts.len() as int) =~= texts);
        }
        Ok(out)
    }
}

/// The JSON texts of the entries of the array at `key` of the JSON object in
/// `t`, in order, as `serde_json` reads and writes them (an empty list when
/// there is no such array); `None` when `t` is not JSON.
pub uninterp spec fn json_items(t: Seq<char>, key: Seq<char>) -> Option<Seq<Seq<char>>>;

/// The JSON text of the value at `key` of the JSON object in `t`, as
/// `serde_json` reads and writes it; none when `t` is no object (or not
/// JSON) or has no such key.
pub uninterp spec fn json_field(t: Seq<char>, key: Seq<char>) -> Option<Seq<char>>;

/// The string that the JSON text `t` is, as `serde_json` reads it; none
/// when it is not a JSON string.
pub uninterp spec fn json_str(t: Seq<char>) -> Option<Seq<char>>;

/// The unsigned 64-bit integer that the JSON text `t` is, as `serde_json`
/// reads it (`Value::as_u64`); none otherwise.
pub uninterp spec fn json_u64(t: Seq<char>) -> Option<u64>;

/// `serde_json::from_str::<Value>`, then the entries of the array at `key`,
/// each written back with `to_string`; the parser's message when the text
/// is not JSON.
#[verifier::external_body]
fn json_items_at(json: &str, key: &str) -> (r: Result<Vec<String>, String>)
    ensures
        json_items(json@, key@) is None <==> r is Err,
        r matches Ok(v) ==> json_items(json@, key@) == Some(strings_view(v@)),
{
    let value: serde_json::Value = serde_json::from_str(json).map_err(|e| e.to_string())?;
    let items = value.get(key).and_then(|r| r.as_array());
    Ok(items.map(|a| a.iter().map(|i| i.to_string()).collect()).unwrap_or_default())
}

/// `serde_json::from_str::<Value>`, then `get(key)`, written back with `to_string`.
#[verifier::external_body]
fn json_field_at(t: &str, key: &str) -> (r: Option<String>)
    ensures
        r matches Some(s) ==> json_field(t@, key@) == Some(s@),
        r is None ==> json_field(t@, key@) is None,
{
    let value: serde_json::Value = serde_json::from_str(t).ok()?;
    value.get(key).map(|v| v.to_string())
}

/// `serde_json::from_str::<Value>`, then `as_str`.
#[verifier::external_body]
fn json_str_of(t: &str) -> (r: Option<String>)
    ensures
        r matches Some(s) ==> json_str(t@) == Some(s@),
        r is None ==> json_str(t@) is None,
{
    let value: serde_json::Value = serde_json::from_str(t).ok()?;
    value.as_str().map(|s| s.to_string())
}

/// `serde_json::from_str::<Value>`, then `as_u64`.
#[verifier::external_body]
fn json_u64_of(t: &str) -> (r: Option<u64>)
    ensures
        r == json_u64(t@),
{
    let value: serde_json::Value = serde_json::from_str(t).ok()?;
    value.as_u64()
}

/// A finding as plain values: check id, file, start and end lines, message,
/// severity and category.
pub type FindingView = (Seq<char>, Seq<char>, u32, u32, Seq<char>, Seq<char>, Option<Seq<char>>);

/// The plain values of a finding.
pub open spec fn finding_view(f: SemgrepFinding) -> FindingView {
    (
        f.check_id@,
        f.file@,
        f.start_line,
        f.end_line,
        f.message@,
        f.severity@,
        match f.category {
            Some(c) => Some(c@),
            None => None,
        },
    )
}

/// The plain values of a list of findings.
pub open spec fn findings_view(v: Seq<SemgrepFinding>) -> Seq<FindingView> {
    v.map_values(|f: SemgrepFinding| finding_view(f))
}

/// The string at `key` of the JSON object `t`.
pub open spec fn str_field(t: Seq<char>, key: Seq<char>) -> Option<Seq<char>> {
    match json_field(t, key) {
        Some(v) => json_str(v),
        None => None,
    }
}

/// The string at `inner` of the object at `outer` of the JSON object `t`.
pub open spec fn str_field2(t: Seq<char>, outer: Seq<char>, inner: Seq<char>) -> Option<Seq<char>> {
    match json_field(t, outer) {
        Some(v) => str_field(v, inner),
        None => None,
    }
}

/// The unsigned integer at `inner` of the object at `outer` of the JSON object `t`.
pub open spec fn u64_field2(t: Seq<char>, outer: Seq<char>, inner: Seq<char>) -> Option<u64> {
    match json_field(t, outer) {
        Some(v) => match json_field(v, inner) {
            Some(w) => json_u64(w),
            None => None,
        },
        None => None,
    }
}

/// The category of a result entry: `extra.metadata.category`, when it is a string.
pub open spec fn category_of(t: Seq<char>) -> Option<Seq<char>> {
    match json_field(t, "extra"@) {
        Some(x) => str_field2(x, "metadata"@, "category"@),
        None => None,
    }
}

/// The finding a result entry (its JSON text) describes, when it is complete.
pub open spec fn item_finding(t: Seq<char>) -> Option<FindingView> {
    let check = str_field(t, "check_id"@);
    let path = str_field(t, "path"@);
    let start = u64_field2(t, "start"@, "line"@);
    let end = u64_field2(t, "end"@, "line"@);
    let message = str_field2(t, "extra"@, "message"@);
    let severity = str_field2(t, "extra"@, "severity"@);
    if check is Some && path is Some && start is Some && end is Some && message is Some && severity is Some {
        Some(
            (
                check->Some_0,
                path->Some_0,
                start->Some_0 as u32,
                end->Some_0 as u32,
                message->Some_0,
                severity->Some_0,
                category_of(t),
            ),
        )
    } else {
        None
    }
}

/// The findings of the complete entries, in order.
pub open spec fn findings_of(items: Seq<Seq<char>>) -> Seq<FindingView>
    decreases items.len(),
{
    if items.len() == 0 {
        Seq::empty()
    } else {
        let r = findings_of(items.drop_last());
        match item_finding(items.last()) {
            Some(f) => r.push(f),
            None => r,
        }
    }
}

/// The string at `key` of the JSON object `t`.
fn str_field_at(t: &str, key: &str) -> (r: Option<String>)
    ensures
        r matches Some(s) ==> str_field(t@, key@) == Some(s@),
        r is None ==> str_field(t@, key@) is None,
{
    match json_field_at(t, key) {
        Some(v) => json_str_of(v.as_str()),
        None => None,
    }
}

/// The string at `inner` of the object at `outer` of the JSON object `t`.
fn str_field2_at(t: &str, outer: &str, inner: &str) -> (r: Option<String>)
    ensures
        r matches Some(s) ==> str_field2(t@, outer@, inner@) == Some(s@),
        r is None ==> str_field2(t@, outer@, inner@) is None,
{
    match json_field_at(t, outer) {
        Some(v) => str_field_at(v.as_str(), inner),
        None => None,
    }
}

/// The unsigned integer at `inner` of the object at `outer` of the JSON object `t`.
fn u64_field2_at(t: &str, outer: &str, inner: &str) -> (r: Option<u64>)
    ensures
        r == u64_field2(t@, outer@, inner@),
{
    match json_field_at(t, outer) {
        Some(v) => match json_field_at(v.as_str(), inner) {
            Some(w) => json_u64_of(w.as_str()),
            None => None,
        },
        None => None,
    }
}

/// The finding a result entry (its JSON text) describes, when it is complete.
fn item_finding_at(t: &str) -> (r: Option<SemgrepFinding>)
    ensures
        r matches Some(f) ==> item_finding(t@) == Some(finding_view(f)),
        r is None ==> item_finding(t@) is None,
{
    proof {
        reveal_strlit("check_id");
        reveal_strlit("path");
        reveal_strlit("start");
        reveal_strlit("end");
        reveal_strlit("line");
        reveal_strlit("extra");
        reveal_strlit("message");
        reveal_strlit("severity");
        reveal_strlit("metadata");
        reveal_strlit("category");
    }
    let check_id = str_field_at(t, "check_id");
    let file = str_field_at(t, "path");
    let start = u64_field2_at(t, "start", "line");
    let end = u64_field2_at(t, "end", "line");
    let message = str_field2_at(t, "extra", "message");
    let severity = str_field2_at(t, "extra", "severity");
    let category = match json_field_at(t, "extra") {
        Some(x) => str_field2_at(x.as_str(), "metadata", "category"),
        None => None,
    };
    match (check_id, file, start, end, message, severity) {
        (Some(check_id), Some(file), Some(s), Some(e), Some(message), Some(severity)) => {
            Some(
                SemgrepFinding {
                    check_id,
                    file,
                    start_line: s as u32,
                    end_line: e as u32,
                    message,
                    severity,
                    category,
                },
            )
        },
        _ => None,
    }
}

/// Parsing respects how the entries are split: the findings of two runs of
/// entries, one after the other, are the findings of the first run followed
/// by those of the second.
pub proof fn lemma_findings_concat(a: Seq<Seq<char>>, b: Seq<Seq<char>>)
    ensures
        findings_of(a + b) == findings_of(a) + findings_of(b),
    decreases b.len(),
{
    if b.len() == 0 {
        assert(a + b =~= a);
        assert(findings_of(a) + findings_of(b) =~= findings_of(a));
    } else {
        lemma_findings_concat(a, b.drop_last());
        assert((a + b).drop_last() =~= a + b.drop_last());
        assert((a + b).last() == b.last());
        match item_finding(b.last()) {
            Some(f) => {
                assert(findings_of(a) + findings_of(b.drop_last()).push(f) =~= (findings_of(a) + findings_of(
                    b.drop_last(),
                )).push(f));
            },
            None => {},
        }
    }
}

/// Every complete entry yields its finding and an incomplete one yields
/// none; with `lemma_findings_concat`, the findings are those of the
/// complete entries, each at the place its entry holds among them.
pub proof fn lemma_findings_single(t: Seq<char>)
    ensures
        findings_of(seq![t]) == (match item_finding(t) {
            Some(f) => seq![f],
            None => Seq::<FindingView>::empty(),
        }),
{
    let one = seq![t];
    assert(one.len() == 1);
    assert(one.drop_last() =~= Seq::<Seq<char>>::empty());
    assert(findings_of(one.drop_last()) == Seq::<FindingView>::empty());
    assert(one.last() == t);
    match item_finding(t) {
        Some(f) => {
            assert(findings_of(one) == findings_of(one.drop_last()).push(f));
            assert(Seq::<FindingView>::empty().push(f) =~= seq![f]);
        },
        None => {
            assert(findings_of(one) == findings_of(one.drop_last()));
        },
    }
}

/// One more entry adds its finding at the end when it is complete, and
/// nothing otherwise; so there are as many findings as complete entries.
pub proof fn lemma_findings_push(items: Seq<Seq<char>>, t: Seq<char>)
    ensures
        item_finding(t) matches Some(f) ==> findings_of(items.push(t)) == findings_of(items).push(f),
        item_finding(t) is None ==> findings_of(items.push(t)) == findings_of(items),
        findings_of(items).len() <= items.len(),
    decreases items.len(),
{
    assert(items.push(t) =~= items + seq![t]);
    lemma_findings_concat(items, seq![t]);
    lemma_findings_single(t);
    match item_finding(t) {
        Some(f) => {
            assert(findings_of(items) + seq![f] =~= findings_of(items).push(f));
        },
        None => {
            assert(findings_of(items) + Seq::<FindingView>::empty() =~= findings_of(items));
        },
    }
    if items.len() > 0 {
        lemma_findings_push(items.drop_last(), items.last());
        assert(items.drop_last().push(items.last()) =~= items);
    }
}

} // verus!
