//! Quality gates: definitions, priority order, and how a gate's command
//! output becomes its result. Gates run in ascending priority and stop at
//! the first failing gate whose action is `Block`.

use crate::text::{concat2, count_containing, count_lines_containing, lines_of};
use vstd::multiset::Multiset;
use vstd::prelude::*;
use vstd::string::StringExecFns;

verus! {

#[verifier::external_type_specification]
#[verifier::external_body]
pub struct ExJsonValue(serde_json::Value);

/// What language a gate targets.
#[derive(Clone, Copy, Debug, PartialEq, Eq, Structural)]
pub enum GateLanguage {
    Rust,
    Python,
    TypeScript,
    Go,
}

/// What happens when a gate fails.
#[derive(Clone, Copy, Debug, PartialEq, Eq, Structural)]
pub enum GateAction {
    /// Block further execution on failure
    Block,
    /// Log warning but continue
    Warn,
    /// Attempt automatic fix then re-run
    AutoFix,
}

/// A quality gate definition.
#[derive(Clone, Debug)]
pub struct Gate {
    pub name: String,
    pub tool: String,
    pub language: GateLanguage,
    pub priority: u32,
    pub on_fail: GateAction,
    pub config: Option<String>,
}

/// Result of running a single gate.
#[derive(Clone, Debug)]
pub struct GateResult {
    pub gate_name: String,
    pub passed: bool,
    pub exit_code: i32,
    pub stdout: String,
    pub structured_output: Option<serde_json::Value>,
    pub errors: u32,
    pub warnings: u32,
    pub duration_ms: u64,
}

/// Inserts `g` after every gate of priority at most its own.
pub open spec fn insert_gate(sorted: Seq<Gate>, g: Gate) -> Seq<Gate>
    decreases sorted.len(),
{
    if sorted.len() == 0 {
        seq![g]
    } else if g.priority < sorted[0].priority {
        seq![g] + sorted
    } else {
        seq![sorted[0]] + insert_gate(sorted.drop_first(), g)
    }
}

/// Stable sort of gates by ascending priority.
pub open spec fn sort_gates(s: Seq<Gate>) -> Seq<Gate>
    decreases s.len(),
{
    if s.len() == 0 {
        Seq::empty()
    } else {
        insert_gate(sort_gates(s.drop_last()), s.last())
    }
}

/// Priorities never decrease along `s`.
pub open spec fn by_priority(s: Seq<Gate>) -> bool {
    forall|i: int, k: int| 0 <= i < k < s.len() ==> (#[trigger] s[i]).priority <= (#[trigger] s[k]).priority
}

/// Inserting before the first gate of higher priority is `insert_gate`.
proof fn lemma_insert_gate_at(sorted: Seq<Gate>, g: Gate, pos: int)
    requires
        0 <= pos <= sorted.len(),
        forall|t: int| 0 <= t < pos ==> (#[trigger] sorted[t]).priority <= g.priority,
        pos < sorted.len() ==> g.priority < sorted[pos].priority,
    ensures
        insert_gate(sorted, g) == sorted.insert(pos, g),
    decreases sorted.len(),
{
    if sorted.len() == 0 {
        assert(sorted.insert(pos, g) =~= seq![g]);
    } else if pos == 0 {
        assert(sorted.insert(0, g) =~= seq![g] + sorted);
    } else {
        let t = sorted.drop_first();
        assert forall|u: int| 0 <= u < pos - 1 implies (#[trigger] t[u]).priority <= g.priority by {
            assert(t[u] == sorted[u + 1]);
        }
        if pos - 1 < t.len() {
            assert(t[pos - 1] == sorted[pos]);
        }
        lemma_insert_gate_at(t, g, pos - 1);
        assert(sorted.insert(pos, g) =~= seq![sorted[0]] + t.insert(pos - 1, g));
    }
}

/// Inserting keeps the priorities sorted and puts `g` among the gates.
proof fn lemma_insert_gate(sorted: Seq<Gate>, g: Gate)
    requires
        by_priority(sorted),
    ensures
        by_priority(insert_gate(sorted, g)),
        insert_gate(sorted, g).to_multiset() == sorted.to_multiset().insert(g),
        forall|i: int|
            0 <= i < insert_gate(sorted, g).len() ==> #[trigger] insert_gate(sorted, g)[i] == g || sorted.contains(
                insert_gate(sorted, g)[i],
            ),
    decreases sorted.len(),
{
    broadcast use vstd::seq_lib::group_seq_properties;
    broadcast use vstd::multiset::group_multiset_properties;

    let r = insert_gate(sorted, g);
    if sorted.len() == 0 {
        assert(r =~= seq![g]);
        assert(sorted.to_multiset() =~= Multiset::empty());
        assert(seq![g] =~= Seq::<Gate>::empty().push(g));
    } else if g.priority < sorted[0].priority {
        assert(r =~= seq![g] + sorted);
        assert forall|i: int, k: int| 0 <= i < k < r.len() implies (#[trigger] r[i]).priority <= (
        #[trigger] r[k]).priority by {
            if i == 0 {
                assert(r[k] == sorted[k - 1]);
            } else {
                assert(r[i] == sorted[i - 1] && r[k] == sorted[k - 1]);
            }
        }
        vstd::seq_lib::lemma_multiset_commutative(seq![g], sorted);
        assert(seq![g] =~= Seq::<Gate>::empty().push(g));
        assert(Seq::<Gate>::empty().to_multiset() =~= Multiset::empty());
        assert forall|i: int| 0 <= i < r.len() implies #[trigger] r[i] == g || sorted.contains(r[i]) by {
            if i > 0 {
                assert(r[i] == sorted[i - 1]);
            }
        }
    } else {
        let t = sorted.drop_first();
        assert(by_priority(t)) by {
            assert forall|i: int, k: int| 0 <= i < k < t.len() implies (#[trigger] t[i]).priority <= (
            #[trigger] t[k]).priority by {
                assert(t[i] == sorted[i + 1] && t[k] == sorted[k + 1]);
            }
        }
        lemma_insert_gate(t, g);
        let ti = insert_gate(t, g);
        assert(r =~= seq![sorted[0]] + ti);
        assert forall|i: int, k: int| 0 <= i < k < r.len() implies (#[trigger] r[i]).priority <= (
        #[trigger] r[k]).priority by {
            if i == 0 {
                assert(r[k] == ti[k - 1]);
                if ti[k - 1] != g {
                    assert(t.contains(ti[k - 1]));
                    let j = choose|j: int| 0 <= j < t.len() && t[j] == ti[k - 1];
                    assert(t[j] == sorted[j + 1]);
                }
            } else {
                assert(r[i] == ti[i - 1] && r[k] == ti[k - 1]);
            }
        }
        assert(sorted =~= seq![sorted[0]] + t);
        vstd::seq_lib::lemma_multiset_commutative(seq![sorted[0]], ti);
        vstd::seq_lib::lemma_multiset_commutative(seq![sorted[0]], t);
        assert(r.to_multiset() =~= sorted.to_multiset().insert(g));
        assert forall|i: int| 0 <= i < r.len() implies #[trigger] r[i] == g || sorted.contains(r[i]) by {
            if i > 0 {
                assert(r[i] == ti[i - 1]);
                if ti[i - 1] != g {
                    assert(t.contains(ti[i - 1]));
                    let j = choose|j: int| 0 <= j < t.len() && t[j] == ti[i - 1];
                    assert(sorted[j + 1] == t[j]);
                }
            } else {
                assert(r[0] == sorted[0]);
            }
        }
    }
}

/// The gates a runner keeps are the given gates, each once, in ascending
/// priority.
pub proof fn lemma_sort_gates(s: Seq<Gate>)
    ensures
        by_priority(sort_gates(s)),
        sort_gates(s).to_multiset() == s.to_multiset(),
    decreases s.len(),
{
    broadcast use vstd::seq_lib::group_seq_properties;

    if s.len() == 0 {
        assert(s.to_multiset() =~= Multiset::empty());
        assert(sort_gates(s).to_multiset() =~= Multiset::empty());
    } else {
        lemma_sort_gates(s.drop_last());
        lemma_insert_gate(sort_gates(s.drop_last()), s.last());
        assert(s =~= s.drop_last().push(s.last()));
    }
}

/// Runs quality gates in priority order.
pub struct GateRunner {
    gates: Vec<Gate>,
}

impl GateRunner {
    /// The runner's gates, in the order they run.
    pub closed spec fn spec_gates(&self) -> Seq<Gate> {
        self.gates@
    }

    /// A runner for the given gates, ordered by ascending priority; gates of
    /// equal priority keep their given order.
    pub fn new(gates: Vec<Gate>) -> (r: GateRunner)
        ensures
            r.spec_gates() == sort_gates(gates@),
    {
        let ghost input = gates@;
        let len0 = gates.len();
        let mut rest = gates;
        let mut reversed: Vec<Gate> = Vec::new();
        while rest.len() > 0
            invariant
                reversed@.len() + rest@.len() == input.len(),
                input.len() == len0,
                forall|t: int| 0 <= t < reversed@.len() ==> #[trigger] reversed@[t] == input[input.len() - 1 - t],
                forall|t: int| 0 <= t < rest@.len() ==> #[trigger] rest@[t] == input[t],
            decreases rest@.len(),
        {
            let g = rest.pop().unwrap();
            reversed.push(g);
        }
        let mut sorted: Vec<Gate> = Vec::new();
        let mut done: usize = 0;
        while reversed.len() > 0
            invariant
                done + reversed@.len() == input.len(),
                input.len() == len0,
                forall|t: int| 0 <= t < reversed@.len() ==> #[trigger] reversed@[t] == input[input.len() - 1 - t],
                sorted@ == sort_gates(input.subrange(0, done as int)),
            decreases reversed@.len(),
        {
            let g = reversed.pop().unwrap();
            assert(g == input[done as int]);
            let mut pos: usize = 0;
            while pos < sorted.len() && sorted[pos].priority <= g.priority
                invariant
                    pos <= sorted@.len(),
                    forall|t: int| 0 <= t < pos ==> (#[trigger] sorted@[t]).priority <= g.priority,
                decreases sorted@.len() - pos,
            {
                pos = pos + 1;
            }
            proof {
                lemma_insert_gate_at(sorted@, g, pos as int);
                assert(input.subrange(0, done + 1) =~= input.subrange(0, done as int).push(g));
                assert(input.subrange(0, done + 1).drop_last() =~= input.subrange(0, done as int));
            }
            sorted.insert(pos, g);
            done = done + 1;
        }
        proof {
            assert(input.subrange(0, input.len() as int) =~= input);
        }
        GateRunner { gates: sorted }
    }

    /// The gates, in the order they run.
    pub fn gates(&self) -> (r: &Vec<Gate>)
        ensures
            r@ == self.spec_gates(),
    {
        &self.gates
    }
}

/// The result of a gate whose command ran: it passed when the command
/// succeeded; its error and warning counts are the lines of the command's
/// standard output followed by its standard error that contain `error:` and
/// `warning:` (truncated to 32 bits); a missing exit code reads as -1.
pub fn gate_result_from_output(
    gate: &Gate,
    success: bool,
    exit_code: Option<i32>,
    stdout: &str,
    stderr: &str,
    duration_ms: u64,
) -> (r: GateResult)
    ensures
        r.gate_name@ == gate.name@,
        r.passed == success,
        exit_code matches Some(c) ==> r.exit_code == c,
        exit_code is None ==> r.exit_code == -1,
        r.stdout@ == stdout@,
        r.structured_output is None,
        r.errors == count_containing(lines_of(stdout@ + stderr@), "error:"@) as u32,
        r.warnings == count_containing(lines_of(stdout@ + stderr@), "warning:"@) as u32,
        r.duration_ms == duration_ms,
{
    let combined = concat2(stdout, stderr);
    let errors = count_lines_containing(combined.as_str(), "error:");
    let warnings = count_lines_containing(combined.as_str(), "warning:");
    let code = match exit_code {
        Some(c) => c,
        None => -1,
    };
    GateResult {
        gate_name: gate.name.clone(),
        passed: success,
        exit_code: code,
        stdout: stdout.to_string(),
        structured_output: None,
        errors: errors as u32,
        warnings: warnings as u32,
        duration_ms,
    }
}

/// The result of a gate whose command could not be started.
pub fn gate_result_spawn_failed(gate: &Gate, error: &str, duration_ms: u64) -> (r: GateResult)
    ensures
        r.gate_name@ == gate.name@,
        !r.passed,
        r.exit_code == -1,
        r.stdout@ == "failed to spawn command: "@ + error@,
        r.structured_output is None,
        r.errors == 1,
        r.warnings == 0,
        r.duration_ms == duration_ms,
{
    GateResult {
        gate_name: gate.name.clone(),
        passed: false,
        exit_code: -1,
        stdout: concat2("failed to spawn command: ", error),
        structured_output: None,
        errors: 1,
        warnings: 0,
        duration_ms,
    }
}

/// Whether the run stops after this gate: it failed and it blocks.
pub fn stops_run(gate: &Gate, result: &GateResult) -> (r: bool)
    ensures
        r == (!result.passed && gate.on_fail == GateAction::Block),
{
    !result.passed && gate.on_fail == GateAction::Block
}

} // verus!
