//! Workflow checkpoints: snapshots of a run's progress that carry a
//! checksum of their own contents and a checksum of the workflow's task
//! identifiers, so that a resumed run can tell a damaged checkpoint or a
//! changed workflow from a good one.

use crate::dag::{lists_id, Workflow, WorkflowError};
use crate::executor::WorkflowExecutor;
use crate::task::{clone_ids, TaskId};
use crate::text::{decimal, decimal_u128, digit_char, push_decimal};
use chrono::Utc;
use sha2::{Digest, Sha256};
use uuid::Uuid;
use vstd::multiset::Multiset;
use vstd::prelude::*;
use vstd::string::StrSliceExecFns;
use vstd::string::StringExecFns;

verus! {

/// Outcome of validating a task result.
#[derive(Clone, Copy, Debug, PartialEq, Eq, Structural)]
pub enum ValidationStatus {
    Passed,
    Warning,
    Failed,
}

/// What to roll back after a failed validation.
#[derive(Debug, PartialEq, Eq)]
pub enum RollbackRecommendation {
    ToPreviousCheckpoint,
    SpecificTask(TaskId),
    FullRollback,
    /// No rollback is recommended
    NoRollback,
}

/// Identifier of a checkpoint: the 128-bit value of a random UUID.
#[derive(Clone, Copy, Debug, PartialEq, Eq, Hash, Structural)]
pub struct CheckpointId(pub u128);

/// `v` is the value of a version-4 (random) UUID: its version field
/// (bits 76..80) is 4 and its variant bits (62..64) are `10`.
pub open spec fn is_uuid_v4(v: u128) -> bool {
    &&& (v >> 76u128) & 0xfu128 == 4u128
    &&& (v >> 62u128) & 3u128 == 2u128
}

/// `Uuid::new_v4`: a random version-4 UUID, taken as its 128-bit value. Its
/// random bits are not stated; its version and variant bits are fixed.
#[verifier::external_body]
pub(crate) fn random_uuid_bits() -> (r: u128)
    ensures
        is_uuid_v4(r),
{
    Uuid::new_v4().as_u128()
}

impl CheckpointId {
    /// A fresh random identifier: the value of a version-4 UUID.
    pub fn new() -> (r: CheckpointId)
        ensures
            is_uuid_v4(r.0),
    {
        CheckpointId(random_uuid_bits())
    }
}

/// Bits `4k .. 4k + 4` of `v`, counting nibbles from the most significant.
pub open spec fn nibble(v: u128, k: int) -> nat {
    ((v >> ((124 - 4 * k) as u128)) & 15u128) as nat
}

/// The canonical text of a UUID with value `v`: its 32 lowercase hexadecimal
/// digits, most significant first, in groups of 8, 4, 4, 4 and 12 joined by `-`.
pub open spec fn uuid_text(v: u128) -> Seq<char> {
    let h = Seq::new(32, |k: int| hex_digit(nibble(v, k)));
    h.subrange(0, 8) + seq!['-'] + h.subrange(8, 12) + seq!['-'] + h.subrange(12, 16) + seq!['-'] + h.subrange(16, 20)
        + seq!['-'] + h.subrange(20, 32)
}

/// `Uuid::from_u128(v).to_string()`: the hyphenated lowercase text of the UUID.
#[verifier::external_body]
fn uuid_string(v: u128) -> (r: String)
    ensures
        r@ == uuid_text(v),
{
    Uuid::from_u128(v).to_string()
}

impl CheckpointId {
    /// The identifier as it is displayed: the UUID's hyphenated text.
    pub fn to_display_string(&self) -> (r: String)
        ensures
            r@ == uuid_text(self.0),
    {
        uuid_string(self.0)
    }
}

impl Default for CheckpointId {
    fn default() -> (r: CheckpointId)
        ensures
            is_uuid_v4(r.0),
    {
        CheckpointId::new()
    }
}

/// `Utc::now`, as microseconds since the Unix epoch. The clock's reading is
/// not stated.
#[verifier::external_body]
fn now_micros() -> (r: i64) {
    Utc::now().timestamp_micros()
}

/// A snapshot of a workflow run.
#[derive(Debug)]
pub struct WorkflowCheckpoint {
    /// The checkpoint's identifier
    pub id: CheckpointId,
    /// The workflow run it belongs to
    pub workflow_id: String,
    /// Position among the run's checkpoints
    pub sequence: u64,
    /// When it was taken, in microseconds since the Unix epoch (UTC)
    pub timestamp: i64,
    /// Tasks completed at that point
    pub completed_tasks: Vec<TaskId>,
    /// Tasks failed at that point
    pub failed_tasks: Vec<TaskId>,
    /// Position in the execution order of the last task run
    pub current_position: usize,
    /// Number of tasks in the workflow
    pub total_tasks: usize,
    /// Checksum of the checkpoint's other contents
    pub checksum: String,
    /// Checksum of the workflow's task identifiers
    pub task_ids_checksum: String,
}

/// `a` and `b` hold the same contents, fields compared by their views.
pub open spec fn same_checkpoint(a: WorkflowCheckpoint, b: WorkflowCheckpoint) -> bool {
    &&& a.id == b.id
    &&& a.workflow_id@ == b.workflow_id@
    &&& a.sequence == b.sequence
    &&& a.timestamp == b.timestamp
    &&& id_texts(a.completed_tasks@) == id_texts(b.completed_tasks@)
    &&& id_texts(a.failed_tasks@) == id_texts(b.failed_tasks@)
    &&& a.current_position == b.current_position
    &&& a.total_tasks == b.total_tasks
    &&& a.checksum@ == b.checksum@
    &&& a.task_ids_checksum@ == b.task_ids_checksum@
}

impl Clone for WorkflowCheckpoint {
    fn clone(&self) -> (r: WorkflowCheckpoint)
        ensures
            same_checkpoint(r, *self),
    {
        let completed = clone_ids(&self.completed_tasks);
        let failed = clone_ids(&self.failed_tasks);
        proof {
            assert(id_texts(completed@) =~= id_texts(self.completed_tasks@));
            assert(id_texts(failed@) =~= id_texts(self.failed_tasks@));
        }
        WorkflowCheckpoint {
            id: self.id,
            workflow_id: self.workflow_id.clone(),
            sequence: self.sequence,
            timestamp: self.timestamp,
            completed_tasks: completed,
            failed_tasks: failed,
            current_position: self.current_position,
            total_tasks: self.total_tasks,
            checksum: self.checksum.clone(),
            task_ids_checksum: self.task_ids_checksum.clone(),
        }
    }
}

/// Checkpoints with the same contents fit the same workflows.
pub proof fn lemma_same_consistency(w: &Workflow, a: WorkflowCheckpoint, b: WorkflowCheckpoint)
    requires
        same_checkpoint(a, b),
    ensures
        consistent_with(w, a) == consistent_with(w, b),
{
    assert(a.completed_tasks@.len() == id_texts(a.completed_tasks@).len());
    assert(b.completed_tasks@.len() == id_texts(b.completed_tasks@).len());
    assert(a.failed_tasks@.len() == id_texts(a.failed_tasks@).len());
    assert(b.failed_tasks@.len() == id_texts(b.failed_tasks@).len());
    assert forall|k: int| 0 <= k < a.completed_tasks@.len() implies #[trigger] a.completed_tasks@[k]@
        == b.completed_tasks@[k]@ by {
        assert(id_texts(a.completed_tasks@)[k] == id_texts(b.completed_tasks@)[k]);
    }
    assert forall|k: int| 0 <= k < a.failed_tasks@.len() implies #[trigger] a.failed_tasks@[k]@
        == b.failed_tasks@[k]@ by {
        assert(id_texts(a.failed_tasks@)[k] == id_texts(b.failed_tasks@)[k]);
    }
    if has_unknown_id(w, a.completed_tasks@) {
        let k = choose|k: int| 0 <= k < a.completed_tasks@.len() && !w.has_task(#[trigger] a.completed_tasks@[k]@);
        assert(!w.has_task(b.completed_tasks@[k]@));
    }
    if has_unknown_id(w, b.completed_tasks@) {
        let k = choose|k: int| 0 <= k < b.completed_tasks@.len() && !w.has_task(#[trigger] b.completed_tasks@[k]@);
        assert(!w.has_task(a.completed_tasks@[k]@));
    }
    if has_unknown_id(w, a.failed_tasks@) {
        let k = choose|k: int| 0 <= k < a.failed_tasks@.len() && !w.has_task(#[trigger] a.failed_tasks@[k]@);
        assert(!w.has_task(b.failed_tasks@[k]@));
    }
    if has_unknown_id(w, b.failed_tasks@) {
        let k = choose|k: int| 0 <= k < b.failed_tasks@.len() && !w.has_task(#[trigger] b.failed_tasks@[k]@);
        assert(!w.has_task(a.failed_tasks@[k]@));
    }
}

/// Checkpoints with the same contents carry the same expected checksum.
pub proof fn lemma_same_checksum(a: WorkflowCheckpoint, b: WorkflowCheckpoint)
    requires
        same_checkpoint(a, b),
    ensures
        checkpoint_checksum(a) == checkpoint_checksum(b),
{
    assert(a.completed_tasks@.len() == id_texts(a.completed_tasks@).len());
    assert(b.completed_tasks@.len() == id_texts(b.completed_tasks@).len());
    assert(a.failed_tasks@.len() == id_texts(a.failed_tasks@).len());
    assert(b.failed_tasks@.len() == id_texts(b.failed_tasks@).len());
    assert(checksum_fields(a) =~= checksum_fields(b));
}

/// The SHA-256 digest of `data`.
pub uninterp spec fn sha256_of(data: Seq<u8>) -> Seq<u8>;

/// The JSON text (as UTF-8 bytes) of a list of strings.
pub uninterp spec fn json_of_strings(items: Seq<Seq<char>>) -> Seq<u8>;

/// `Sha256::digest`: the 32-byte SHA-256 digest of the bytes.
#[verifier::external_body]
fn sha256_digest(data: &Vec<u8>) -> (r: Vec<u8>)
    ensures
        r@ == sha256_of(data@),
        r@.len() == 32,
{
    Sha256::digest(data.as_slice()).to_vec()
}

/// `serde_json::to_vec` of a list of strings (an empty byte string should
/// serialization fail, which it does not for strings).
#[verifier::external_body]
fn json_string_list(items: &Vec<String>) -> (r: Vec<u8>)
    ensures
        r@ == json_of_strings(items@.map_values(|s: String| s@)),
{
    serde_json::to_vec(items).unwrap_or_default()
}

/// The lowercase hexadecimal digit for `d < 16`.
pub open spec fn hex_digit(d: nat) -> char {
    if d < 10 {
        digit_char(d)
    } else if d == 10 {
        'a'
    } else if d == 11 {
        'b'
    } else if d == 12 {
        'c'
    } else if d == 13 {
        'd'
    } else if d == 14 {
        'e'
    } else {
        'f'
    }
}

/// Two lowercase hexadecimal digits per byte.
pub open spec fn hex_of(bytes: Seq<u8>) -> Seq<char>
    decreases bytes.len(),
{
    if bytes.len() == 0 {
        Seq::empty()
    } else {
        hex_of(bytes.drop_last()) + seq![hex_digit((bytes.last() / 16) as nat), hex_digit((bytes.last() % 16) as nat)]
    }
}

/// The one-character string for hexadecimal digit `d`.
fn hex_digit_str(d: u8) -> (r: &'static str)
    requires
        d < 16,
    ensures
        r@ == seq![hex_digit(d as nat)],
{
    proof {
        reveal_strlit("0");
        reveal_strlit("1");
        reveal_strlit("2");
        reveal_strlit("3");
        reveal_strlit("4");
        reveal_strlit("5");
        reveal_strlit("6");
        reveal_strlit("7");
        reveal_strlit("8");
        reveal_strlit("9");
        reveal_strlit("a");
        reveal_strlit("b");
        reveal_strlit("c");
        reveal_strlit("d");
        reveal_strlit("e");
        reveal_strlit("f");
    }
    if d == 0 {
        "0"
    } else if d == 1 {
        "1"
    } else if d == 2 {
        "2"
    } else if d == 3 {
        "3"
    } else if d == 4 {
        "4"
    } else if d == 5 {
        "5"
    } else if d == 6 {
        "6"
    } else if d == 7 {
        "7"
    } else if d == 8 {
        "8"
    } else if d == 9 {
        "9"
    } else if d == 10 {
        "a"
    } else if d == 11 {
        "b"
    } else if d == 12 {
        "c"
    } else if d == 13 {
        "d"
    } else if d == 14 {
        "e"
    } else {
        "f"
    }
}

/// Lowercase hexadecimal text of the bytes.
pub fn hex_string(bytes: &Vec<u8>) -> (r: String)
    ensures
        r@ == hex_of(bytes@),
{
    let mut s = String::new();
    let mut i: usize = 0;
    while i < bytes.len()
        invariant
            i <= bytes@.len(),
            s@ == hex_of(bytes@.subrange(0, i as int)),
        decreases bytes@.len() - i,
    {
        let b = bytes[i];
        s.append(hex_digit_str(b / 16));
        s.append(hex_digit_str(b % 16));
        proof {
            let sub1 = bytes@.subrange(0, i + 1);
            assert(sub1.drop_last() == bytes@.subrange(0, i as int));
            assert(sub1.last() == b);
        }
        i = i + 1;
    }
    proof {
        assert(bytes@.subrange(0, i as int) == bytes@);
    }
    s
}

/// The lowercase hexadecimal SHA-256 of a list of strings' JSON text.
pub open spec fn strings_checksum(items: Seq<Seq<char>>) -> Seq<char> {
    hex_of(sha256_of(json_of_strings(items)))
}

/// Lowercase hexadecimal SHA-256 of the JSON text of the strings.
fn checksum_of_strings(items: &Vec<String>) -> (r: String)
    ensures
        r@ == strings_checksum(items@.map_values(|s: String| s@)),
{
    let json = json_string_list(items);
    let digest = sha256_digest(&json);
    hex_string(&digest)
}

/// `a` sorts strictly before `b`: at the first position where they differ
/// `a` has the lower character, or `a` is a proper prefix of `b`. This is
/// the order of `str`'s `Ord`.
pub open spec fn text_before(a: Seq<char>, b: Seq<char>) -> bool
    decreases a.len(),
{
    if b.len() == 0 {
        false
    } else if a.len() == 0 {
        true
    } else if a[0] != b[0] {
        (a[0] as int) < (b[0] as int)
    } else {
        text_before(a.drop_first(), b.drop_first())
    }
}

/// Inserts `x` before the first entry it sorts before.
pub open spec fn insert_text(sorted: Seq<Seq<char>>, x: Seq<char>) -> Seq<Seq<char>>
    decreases sorted.len(),
{
    if sorted.len() == 0 {
        seq![x]
    } else if text_before(x, sorted[0]) {
        seq![x] + sorted
    } else {
        seq![sorted[0]] + insert_text(sorted.drop_first(), x)
    }
}

/// Stable insertion sort of strings by `text_before`.
pub open spec fn sort_texts(s: Seq<Seq<char>>) -> Seq<Seq<char>>
    decreases s.len(),
{
    if s.len() == 0 {
        Seq::empty()
    } else {
        insert_text(sort_texts(s.drop_last()), s.last())
    }
}

/// The identifiers' texts.
pub open spec fn id_texts(ids: Seq<TaskId>) -> Seq<Seq<char>> {
    ids.map_values(|t: TaskId| t@)
}

/// The checksum of a list of task identifiers: the hexadecimal SHA-256 of
/// the JSON list of their texts in sorted order.
pub open spec fn ids_checksum(ids: Seq<TaskId>) -> Seq<char> {
    strings_checksum(sort_texts(id_texts(ids)))
}

/// Whether `a` sorts strictly before `b` (see `text_before`).
fn str_before(a: &str, b: &str) -> (r: bool)
    ensures
        r == text_before(a@, b@),
{
    let la = a.unicode_len();
    let lb = b.unicode_len();
    let mut i: usize = 0;
    assert(a@.skip(0) =~= a@);
    assert(b@.skip(0) =~= b@);
    while i < la && i < lb
        invariant
            la == a@.len(),
            lb == b@.len(),
            i <= la,
            i <= lb,
            text_before(a@, b@) == text_before(a@.skip(i as int), b@.skip(i as int)),
        decreases la - i,
    {
        let ca = a.get_char(i);
        let cb = b.get_char(i);
        proof {
            let sa = a@.skip(i as int);
            let sb = b@.skip(i as int);
            assert(sa[0] == ca && sb[0] == cb);
            assert(sa.drop_first() == a@.skip(i + 1));
            assert(sb.drop_first() == b@.skip(i + 1));
        }
        if ca != cb {
            let lt = (ca as u32) < (cb as u32);
            assert(lt == ((ca as int) < (cb as int)));
            return lt;
        }
        i = i + 1;
    }
    proof {
        let sa = a@.skip(i as int);
        let sb = b@.skip(i as int);
        assert(sa.len() == 0 || sb.len() == 0);
    }
    i == la && i < lb
}

/// Inserting before the first entry `x` sorts before is `insert_text`.
proof fn lemma_insert_text_at(sorted: Seq<Seq<char>>, x: Seq<char>, pos: int)
    requires
        0 <= pos <= sorted.len(),
        forall|t: int| 0 <= t < pos ==> !text_before(x, #[trigger] sorted[t]),
        pos < sorted.len() ==> text_before(x, sorted[pos]),
    ensures
        insert_text(sorted, x) == sorted.insert(pos, x),
    decreases sorted.len(),
{
    if sorted.len() == 0 {
        assert(sorted.insert(pos, x) =~= seq![x]);
    } else if pos == 0 {
        assert(sorted.insert(0, x) =~= seq![x] + sorted);
    } else {
        let t = sorted.drop_first();
        assert forall|u: int| 0 <= u < pos - 1 implies !text_before(x, #[trigger] t[u]) by {
            assert(t[u] == sorted[u + 1]);
        }
        if pos - 1 < t.len() {
            assert(t[pos - 1] == sorted[pos]);
        }
        lemma_insert_text_at(t, x, pos - 1);
        assert(!text_before(x, sorted[0]));
        assert(sorted.insert(pos, x) =~= seq![sorted[0]] + t.insert(pos - 1, x));
    }
}

/// The identifiers' texts in sorted order.
fn sorted_texts(ids: &[TaskId]) -> (r: Vec<String>)
    ensures
        r@.map_values(|s: String| s@) == sort_texts(id_texts(ids@)),
{
    let mut sorted: Vec<String> = Vec::new();
    let mut done: usize = 0;
    let ghost input = id_texts(ids@);
    while done < ids.len()
        invariant
            done <= ids@.len(),
            input == id_texts(ids@),
            sorted@.map_values(|s: String| s@) == sort_texts(input.subrange(0, done as int)),
        decreases ids@.len() - done,
    {
        let x = ids[done].to_display_string();
        let ghost sv = sorted@.map_values(|s: String| s@);
        let mut pos: usize = 0;
        while pos < sorted.len() && !str_before(x.as_str(), sorted[pos].as_str())
            invariant
                pos <= sorted@.len(),
                sv == sorted@.map_values(|s: String| s@),
                forall|t: int| 0 <= t < pos ==> !text_before(x@, #[trigger] sv[t]),
            decreases sorted@.len() - pos,
        {
            pos = pos + 1;
        }
        proof {
            lemma_insert_text_at(sv, x@, pos as int);
            let sub1 = input.subrange(0, done + 1);
            assert(sub1.drop_last() == input.subrange(0, done as int));
            assert(sub1.last() == x@);
        }
        sorted.insert(pos, x);
        proof {
            assert(sorted@.map_values(|s: String| s@) == sv.insert(pos as int, x@));
        }
        done = done + 1;
    }
    proof {
        assert(input.subrange(0, done as int) == input);
    }
    sorted
}

/// The checksum of a list of task identifiers (see `ids_checksum`); it does
/// not depend on the order they are listed in.
pub fn compute_task_ids_checksum(task_ids: &[TaskId]) -> (r: String)
    ensures
        r@ == ids_checksum(task_ids@),
{
    let sorted = sorted_texts(task_ids);
    checksum_of_strings(&sorted)
}

/// `ids` lists each task identifier of the workflow once, and nothing else.
pub open spec fn lists_workflow_ids(w: &Workflow, ids: Seq<TaskId>) -> bool {
    &&& forall|k: int| 0 <= k < ids.len() ==> w.has_task(#[trigger] ids[k]@)
    &&& forall|x: Seq<char>| w.has_task(x) ==> #[trigger] lists_id(ids, x)
    &&& forall|i: int, k: int| 0 <= i < ids.len() && 0 <= k < ids.len() && i != k ==> #[trigger] ids[i]@ != #[trigger] ids[k]@
}

/// Some identifier in `ids` names no task of the workflow.
pub open spec fn has_unknown_id(w: &Workflow, ids: Seq<TaskId>) -> bool {
    exists|k: int| 0 <= k < ids.len() && !w.has_task(#[trigger] ids[k]@)
}

/// The first identifier in `ids` that names no task of the workflow.
pub open spec fn first_unknown_id(w: &Workflow, ids: Seq<TaskId>) -> Seq<char> {
    let k = choose|k: int|
        0 <= k < ids.len() && !w.has_task(#[trigger] ids[k]@) && forall|j: int| 0 <= j < k ==> w.has_task(
            #[trigger] ids[j]@,
        );
    ids[k]@
}

/// The text of the task-count error.
pub open spec fn count_mismatch_text(checkpoint_total: nat, workflow_total: nat) -> Seq<char> {
    "Task count mismatch: checkpoint has "@ + decimal(checkpoint_total) + " tasks, current workflow has "@
        + decimal(workflow_total) + " tasks"@
}

/// The text of the invalid-position error.
pub open spec fn position_text(position: nat, total: nat) -> Seq<char> {
    "Invalid checkpoint position: "@ + decimal(position) + " exceeds total tasks "@ + decimal(total)
}

/// The text of the checksum-mismatch error.
pub open spec fn drift_text(expected: Seq<char>, got: Seq<char>) -> Seq<char> {
    "Workflow structure changed: task IDs checksum mismatch. Expected: "@ + expected + ", Got: "@ + got
}

/// The checksum of the workflow's task identifiers; every listing of them
/// gives this same checksum (`lemma_listings_share_checksum`).
pub open spec fn workflow_ids_checksum(w: &Workflow) -> Seq<char> {
    ids_checksum(choose|ids: Seq<TaskId>| lists_workflow_ids(w, ids))
}

/// The checkpoint fits the workflow: same task count, only known tasks
/// completed or failed, a position within the tasks, and the workflow's
/// task-identifier checksum.
pub open spec fn consistent_with(w: &Workflow, cp: WorkflowCheckpoint) -> bool {
    &&& w.nodes().len() == cp.total_tasks
    &&& !has_unknown_id(w, cp.completed_tasks@)
    &&& !has_unknown_id(w, cp.failed_tasks@)
    &&& cp.current_position < cp.total_tasks
    &&& workflow_ids_checksum(w) == cp.task_ids_checksum@
}

/// `e` is the error by which `cp` is found not to fit `w`: the first of the
/// checks of `consistent_with`, in that order, that fails, with its message.
pub open spec fn consistency_error(w: &Workflow, cp: WorkflowCheckpoint, e: WorkflowError) -> bool {
    if w.nodes().len() != cp.total_tasks {
        e matches WorkflowError::WorkflowChanged(m) && m@ == count_mismatch_text(cp.total_tasks as nat, w.nodes().len())
    } else if has_unknown_id(w, cp.completed_tasks@) {
        e matches WorkflowError::WorkflowChanged(m) && m@ == "Completed task from checkpoint not found in workflow: "@
            + first_unknown_id(w, cp.completed_tasks@)
    } else if has_unknown_id(w, cp.failed_tasks@) {
        e matches WorkflowError::WorkflowChanged(m) && m@ == "Failed task from checkpoint not found in workflow: "@
            + first_unknown_id(w, cp.failed_tasks@)
    } else if cp.current_position >= cp.total_tasks {
        e matches WorkflowError::CheckpointCorrupted(m) && m@ == position_text(
            cp.current_position as nat,
            cp.total_tasks as nat,
        )
    } else {
        e matches WorkflowError::WorkflowChanged(m) && m@ == drift_text(cp.task_ids_checksum@, workflow_ids_checksum(w))
    }
}

/// No string sorts before itself.
proof fn lemma_before_irreflexive(a: Seq<char>)
    ensures
        !text_before(a, a),
    decreases a.len(),
{
    if a.len() > 0 {
        lemma_before_irreflexive(a.drop_first());
    }
}

/// Two strings never sort before each other.
proof fn lemma_before_asymmetric(a: Seq<char>, b: Seq<char>)
    ensures
        text_before(a, b) ==> !text_before(b, a),
    decreases a.len(),
{
    if a.len() > 0 && b.len() > 0 && a[0] == b[0] {
        lemma_before_asymmetric(a.drop_first(), b.drop_first());
    }
}

/// Of two different strings, one sorts before the other.
proof fn lemma_before_total(a: Seq<char>, b: Seq<char>)
    ensures
        a != b ==> text_before(a, b) || text_before(b, a),
    decreases a.len(),
{
    if a.len() == 0 && b.len() == 0 {
        assert(a =~= b);
    } else if a.len() > 0 && b.len() > 0 && a[0] != b[0] {
        assert((a[0] as int) != (b[0] as int));
    } else if a.len() > 0 && b.len() > 0 && a[0] == b[0] {
        lemma_before_total(a.drop_first(), b.drop_first());
        if a.drop_first() == b.drop_first() {
            assert(a.drop_first().len() == b.drop_first().len());
            assert(a.len() == b.len());
            assert forall|i: int| 0 <= i < a.len() implies a[i] == b[i] by {
                if i > 0 {
                    assert(a[i] == a.drop_first()[i - 1]);
                    assert(b[i] == b.drop_first()[i - 1]);
                }
            }
            assert(a =~= b);
        }
    }
}

/// Sorting before is transitive.
proof fn lemma_before_transitive(a: Seq<char>, b: Seq<char>, c: Seq<char>)
    requires
        text_before(a, b),
        text_before(b, c),
    ensures
        text_before(a, c),
    decreases a.len(),
{
    if a.len() > 0 && a[0] == b[0] && b[0] == c[0] {
        lemma_before_transitive(a.drop_first(), b.drop_first(), c.drop_first());
    }
}

/// No entry sorts before an earlier one.
pub open spec fn texts_sorted(s: Seq<Seq<char>>) -> bool {
    forall|i: int, k: int| 0 <= i < k < s.len() ==> !text_before(#[trigger] s[k], #[trigger] s[i])
}

/// Inserting keeps the strings sorted and adds `x` to them.
proof fn lemma_insert_text(sorted: Seq<Seq<char>>, x: Seq<char>)
    requires
        texts_sorted(sorted),
    ensures
        texts_sorted(insert_text(sorted, x)),
        insert_text(sorted, x).to_multiset() == sorted.to_multiset().insert(x),
        forall|i: int|
            0 <= i < insert_text(sorted, x).len() ==> #[trigger] insert_text(sorted, x)[i] == x || sorted.contains(
                insert_text(sorted, x)[i],
            ),
    decreases sorted.len(),
{
    broadcast use vstd::seq_lib::group_seq_properties;
    broadcast use vstd::multiset::group_multiset_properties;

    let r = insert_text(sorted, x);
    if sorted.len() == 0 {
        assert(r =~= seq![x]);
        assert(sorted.to_multiset() =~= Multiset::empty());
        assert(seq![x] =~= Seq::<Seq<char>>::empty().push(x));
    } else if text_before(x, sorted[0]) {
        assert(r =~= seq![x] + sorted);
        assert forall|i: int, k: int| 0 <= i < k < r.len() implies !text_before(#[trigger] r[k], #[trigger] r[i]) by {
            if i == 0 {
                assert(r[k] == sorted[k - 1]);
                if text_before(sorted[k - 1], x) {
                    lemma_before_transitive(sorted[k - 1], x, sorted[0]);
                    if k - 1 == 0 {
                        lemma_before_irreflexive(sorted[0]);
                    }
                }
            } else {
                assert(r[i] == sorted[i - 1] && r[k] == sorted[k - 1]);
            }
        }
        vstd::seq_lib::lemma_multiset_commutative(seq![x], sorted);
        assert(seq![x] =~= Seq::<Seq<char>>::empty().push(x));
        assert(Seq::<Seq<char>>::empty().to_multiset() =~= Multiset::empty());
        assert forall|i: int| 0 <= i < r.len() implies #[trigger] r[i] == x || sorted.contains(r[i]) by {
            if i > 0 {
                assert(r[i] == sorted[i - 1]);
            }
        }
    } else {
        let t = sorted.drop_first();
        assert(texts_sorted(t)) by {
            assert forall|i: int, k: int| 0 <= i < k < t.len() implies !text_before(#[trigger] t[k], #[trigger] t[i]) by {
                assert(t[i] == sorted[i + 1] && t[k] == sorted[k + 1]);
            }
        }
        lemma_insert_text(t, x);
        let ti = insert_text(t, x);
        assert(r =~= seq![sorted[0]] + ti);
        assert forall|i: int, k: int| 0 <= i < k < r.len() implies !text_before(#[trigger] r[k], #[trigger] r[i]) by {
            if i == 0 {
                assert(r[k] == ti[k - 1]);
                if ti[k - 1] != x {
                    assert(t.contains(ti[k - 1]));
                    let j = choose|j: int| 0 <= j < t.len() && t[j] == ti[k - 1];
                    assert(t[j] == sorted[j + 1]);
                }
            } else {
                assert(r[i] == ti[i - 1] && r[k] == ti[k - 1]);
            }
        }
        assert(sorted =~= seq![sorted[0]] + t);
        vstd::seq_lib::lemma_multiset_commutative(seq![sorted[0]], ti);
        vstd::seq_lib::lemma_multiset_commutative(seq![sorted[0]], t);
        assert(r.to_multiset() =~= sorted.to_multiset().insert(x));
        assert forall|i: int| 0 <= i < r.len() implies #[trigger] r[i] == x || sorted.contains(r[i]) by {
            if i > 0 {
                assert(r[i] == ti[i - 1]);
                if ti[i - 1] != x {
                    assert(t.contains(ti[i - 1]));
                    let j = choose|j: int| 0 <= j < t.len() && t[j] == ti[i - 1];
                    assert(sorted[j + 1] == t[j]);
                }
            } else {
                assert(r[0] == sorted[0]);
            }
        }
    }
}

/// Sorting yields the same strings, sorted.
proof fn lemma_sort_texts(s: Seq<Seq<char>>)
    ensures
        texts_sorted(sort_texts(s)),
        sort_texts(s).to_multiset() == s.to_multiset(),
    decreases s.len(),
{
    broadcast use vstd::seq_lib::group_seq_properties;

    if s.len() == 0 {
        assert(s.to_multiset() =~= Multiset::empty());
        assert(sort_texts(s).to_multiset() =~= Multiset::empty());
    } else {
        lemma_sort_texts(s.drop_last());
        lemma_insert_text(sort_texts(s.drop_last()), s.last());
        assert(s =~= s.drop_last().push(s.last()));
    }
}

/// Two sorted lists of the same strings are equal.
proof fn lemma_sorted_unique(s1: Seq<Seq<char>>, s2: Seq<Seq<char>>)
    requires
        texts_sorted(s1),
        texts_sorted(s2),
        s1.to_multiset() == s2.to_multiset(),
    ensures
        s1 == s2,
    decreases s1.len(),
{
    vstd::seq_lib::to_multiset_len(s1);
    vstd::seq_lib::to_multiset_len(s2);
    if s1.len() == 0 {
        assert(s1 =~= s2);
    } else {
        let a = s1[0];
        let b = s2[0];
        vstd::seq_lib::to_multiset_contains(s2, b);
        vstd::seq_lib::to_multiset_contains(s1, b);
        vstd::seq_lib::to_multiset_contains(s1, a);
        vstd::seq_lib::to_multiset_contains(s2, a);
        assert(s2.contains(b));
        assert(s1.contains(a));
        let k = choose|k: int| 0 <= k < s1.len() && s1[k] == b;
        let j = choose|j: int| 0 <= j < s2.len() && s2[j] == a;
        if k > 0 {
            assert(!text_before(s1[k], s1[0]));
        }
        if j > 0 {
            assert(!text_before(s2[j], s2[0]));
        }
        lemma_before_irreflexive(a);
        lemma_before_total(a, b);
        assert(a == b);
        let t1 = s1.drop_first();
        let t2 = s2.drop_first();
        vstd::seq_lib::to_multiset_remove(s1, 0);
        vstd::seq_lib::to_multiset_remove(s2, 0);
        assert(s1.remove(0) =~= t1);
        assert(s2.remove(0) =~= t2);
        assert(texts_sorted(t1)) by {
            assert forall|i: int, q: int| 0 <= i < q < t1.len() implies !text_before(#[trigger] t1[q], #[trigger] t1[i]) by {
                assert(t1[i] == s1[i + 1] && t1[q] == s1[q + 1]);
            }
        }
        assert(texts_sorted(t2)) by {
            assert forall|i: int, q: int| 0 <= i < q < t2.len() implies !text_before(#[trigger] t2[q], #[trigger] t2[i]) by {
                assert(t2[i] == s2[i + 1] && t2[q] == s2[q + 1]);
            }
        }
        lemma_sorted_unique(t1, t2);
        assert forall|i: int| 0 <= i < s1.len() implies s1[i] == s2[i] by {
            if i > 0 {
                assert(s1[i] == t1[i - 1] && s2[i] == t2[i - 1]);
            }
        }
        assert(s1 =~= s2);
    }
}

/// The task-identifier checksum does not depend on the order in which the
/// identifiers are listed: lists holding the same identifiers the same
/// number of times have the same checksum.
pub proof fn lemma_ids_checksum_order_free(a: Seq<TaskId>, b: Seq<TaskId>)
    requires
        id_texts(a).to_multiset() == id_texts(b).to_multiset(),
    ensures
        ids_checksum(a) == ids_checksum(b),
{
    lemma_sort_texts(id_texts(a));
    lemma_sort_texts(id_texts(b));
    lemma_sorted_unique(sort_texts(id_texts(a)), sort_texts(id_texts(b)));
}

/// Any two listings of a workflow's task identifiers have the same checksum.
pub proof fn lemma_listings_share_checksum(w: &Workflow, ids1: Seq<TaskId>, ids2: Seq<TaskId>)
    requires
        lists_workflow_ids(w, ids1),
        lists_workflow_ids(w, ids2),
    ensures
        ids_checksum(ids1) == ids_checksum(ids2),
{
    let m1 = id_texts(ids1);
    let m2 = id_texts(ids2);
    assert forall|x: Seq<char>| m1.contains(x) <==> m2.contains(x) by {
        if m1.contains(x) {
            let k = choose|k: int| 0 <= k < m1.len() && m1[k] == x;
            assert(ids1[k]@ == x);
            assert(w.has_task(ids1[k]@));
            assert(lists_id(ids2, x));
            let q = choose|q: int| 0 <= q < ids2.len() && #[trigger] ids2[q]@ == x;
            assert(m2[q] == x);
        }
        if m2.contains(x) {
            let k = choose|k: int| 0 <= k < m2.len() && m2[k] == x;
            assert(ids2[k]@ == x);
            assert(w.has_task(ids2[k]@));
            assert(lists_id(ids1, x));
            let q = choose|q: int| 0 <= q < ids1.len() && #[trigger] ids1[q]@ == x;
            assert(m1[q] == x);
        }
    }
    assert(m1.no_duplicates()) by {
        assert forall|i: int, j: int| 0 <= i < m1.len() && 0 <= j < m1.len() && i != j implies m1[i] != m1[j] by {
            assert(ids1[i]@ != ids1[j]@);
        }
    }
    assert(m2.no_duplicates()) by {
        assert forall|i: int, j: int| 0 <= i < m2.len() && 0 <= j < m2.len() && i != j implies m2[i] != m2[j] by {
            assert(ids2[i]@ != ids2[j]@);
        }
    }
    m1.lemma_multiset_has_no_duplicates();
    m2.lemma_multiset_has_no_duplicates();
    assert forall|x: Seq<char>| m1.to_multiset().count(x) == m2.to_multiset().count(x) by {
        vstd::seq_lib::to_multiset_contains(m1, x);
        vstd::seq_lib::to_multiset_contains(m2, x);
    }
    assert(m1.to_multiset() =~= m2.to_multiset());
    lemma_ids_checksum_order_free(ids1, ids2);
}

/// The index of the first identifier in `ids` naming no task, if any.
fn find_unknown(workflow: &Workflow, ids: &Vec<TaskId>) -> (r: Option<usize>)
    requires
        workflow.wf(),
    ensures
        r is None <==> !has_unknown_id(workflow, ids@),
        r matches Some(k) ==> k < ids@.len() && !workflow.has_task(ids@[k as int]@) && forall|j: int|
            0 <= j < k ==> workflow.has_task(#[trigger] ids@[j]@),
        r matches Some(k) ==> ids@[k as int]@ == first_unknown_id(workflow, ids@),
{
    let mut i: usize = 0;
    while i < ids.len()
        invariant
            workflow.wf(),
            i <= ids@.len(),
            forall|j: int| 0 <= j < i ==> workflow.has_task(#[trigger] ids@[j]@),
        decreases ids@.len() - i,
    {
        if !workflow.contains_task(&ids[i]) {
            proof {
                let k = choose|k: int|
                    0 <= k < ids@.len() && !workflow.has_task(#[trigger] ids@[k]@) && forall|j: int|
                        0 <= j < k ==> workflow.has_task(#[trigger] ids@[j]@);
                if k < i {
                } else if k > i {
                    assert(workflow.has_task(ids@[i as int]@));
                }
            }
            return Some(i);
        }
        i = i + 1;
    }
    None
}

/// Checks that a checkpoint fits the workflow: the task counts agree, every
/// completed and failed task of the checkpoint is a task of the workflow,
/// the checkpoint's position lies within the tasks, and the workflow's task
/// identifiers have the checksum the checkpoint recorded. The first check
/// that fails decides the error.
pub fn validate_workflow_consistency(workflow: &Workflow, checkpoint: &WorkflowCheckpoint) -> (r: Result<(), WorkflowError>)
    requires
        workflow.wf(),
    ensures
        r is Ok <==> consistent_with(workflow, *checkpoint),
        r matches Err(e) ==> consistency_error(workflow, *checkpoint, e),
        workflow.nodes().len() != checkpoint.total_tasks ==> (r matches Err(WorkflowError::WorkflowChanged(m))
            && m@ == count_mismatch_text(checkpoint.total_tasks as nat, workflow.nodes().len())),
        workflow.nodes().len() == checkpoint.total_tasks && has_unknown_id(workflow, checkpoint.completed_tasks@)
            ==> (r matches Err(WorkflowError::WorkflowChanged(m)) && m@
            == "Completed task from checkpoint not found in workflow: "@ + first_unknown_id(
            workflow,
            checkpoint.completed_tasks@,
        )),
        workflow.nodes().len() == checkpoint.total_tasks && !has_unknown_id(workflow, checkpoint.completed_tasks@)
            && has_unknown_id(workflow, checkpoint.failed_tasks@) ==> (r matches Err(
            WorkflowError::WorkflowChanged(m),
        ) && m@ == "Failed task from checkpoint not found in workflow: "@ + first_unknown_id(
            workflow,
            checkpoint.failed_tasks@,
        )),
        workflow.nodes().len() == checkpoint.total_tasks && !has_unknown_id(workflow, checkpoint.completed_tasks@)
            && !has_unknown_id(workflow, checkpoint.failed_tasks@) && checkpoint.current_position
            >= checkpoint.total_tasks ==> (r matches Err(WorkflowError::CheckpointCorrupted(m)) && m@
            == position_text(checkpoint.current_position as nat, checkpoint.total_tasks as nat)),
        workflow.nodes().len() == checkpoint.total_tasks && !has_unknown_id(workflow, checkpoint.completed_tasks@)
            && !has_unknown_id(workflow, checkpoint.failed_tasks@) && checkpoint.current_position
            < checkpoint.total_tasks && workflow_ids_checksum(workflow) != checkpoint.task_ids_checksum@ ==> (r matches Err(
            WorkflowError::WorkflowChanged(m),
        ) && m@ == drift_text(checkpoint.task_ids_checksum@, workflow_ids_checksum(workflow))),
{
    let n = workflow.task_count();
    if n != checkpoint.total_tasks {
        let mut m = "Task count mismatch: checkpoint has ".to_string();
        push_decimal(&mut m, checkpoint.total_tasks);
        m.append(" tasks, current workflow has ");
        push_decimal(&mut m, n);
        m.append(" tasks");
        return Err(WorkflowError::WorkflowChanged(m));
    }
    match find_unknown(workflow, &checkpoint.completed_tasks) {
        Some(k) => {
            let mut m = "Completed task from checkpoint not found in workflow: ".to_string();
            m.append(checkpoint.completed_tasks[k].as_str());
            return Err(WorkflowError::WorkflowChanged(m));
        },
        None => {},
    }
    match find_unknown(workflow, &checkpoint.failed_tasks) {
        Some(k) => {
            let mut m = "Failed task from checkpoint not found in workflow: ".to_string();
            m.append(checkpoint.failed_tasks[k].as_str());
            return Err(WorkflowError::WorkflowChanged(m));
        },
        None => {},
    }
    if checkpoint.current_position >= checkpoint.total_tasks {
        let mut m = "Invalid checkpoint position: ".to_string();
        push_decimal(&mut m, checkpoint.current_position);
        m.append(" exceeds total tasks ");
        push_decimal(&mut m, checkpoint.total_tasks);
        return Err(WorkflowError::CheckpointCorrupted(m));
    }
    let ids = workflow.task_ids();
    let current = compute_task_ids_checksum(ids.as_slice());
    proof {
        assert(lists_workflow_ids(workflow, ids@)) by {
            assert forall|x: Seq<char>| workflow.has_task(x) implies #[trigger] lists_id(ids@, x) by {
                let j = choose|j: int| 0 <= j < workflow.nodes().len() && #[trigger] workflow.nodes()[j].id@ == x;
                assert(lists_id(ids@, workflow.nodes()[j].id@));
            }
        }
        assert(ids_checksum(ids@) == current@);
        let some = choose|some: Seq<TaskId>| lists_workflow_ids(workflow, some);
        lemma_listings_share_checksum(workflow, ids@, some);
        assert(workflow_ids_checksum(workflow) == current@);
    }
    if current != checkpoint.task_ids_checksum {
        let mut m = "Workflow structure changed: task IDs checksum mismatch. Expected: ".to_string();
        m.append(checkpoint.task_ids_checksum.as_str());
        m.append(", Got: ");
        m.append(current.as_str());
        return Err(WorkflowError::WorkflowChanged(m));
    }
    Ok(())
}

/// The text of a signed integer in decimal.
pub open spec fn signed_decimal(v: int) -> Seq<char> {
    if v < 0 {
        seq!['-'] + decimal((-v) as nat)
    } else {
        decimal(v as nat)
    }
}

/// The strings a checkpoint's checksum covers, in order: its identifier,
/// workflow, sequence and timestamp, the count and identifiers of its
/// completed tasks, the count and identifiers of its failed tasks, its
/// position, its task count and its task-identifier checksum.
pub open spec fn checksum_fields(cp: WorkflowCheckpoint) -> Seq<Seq<char>> {
    seq![decimal(cp.id.0 as nat), cp.workflow_id@, decimal(cp.sequence as nat), signed_decimal(cp.timestamp as int)]
        + seq![decimal(cp.completed_tasks@.len())] + id_texts(cp.completed_tasks@) + seq![
        decimal(cp.failed_tasks@.len()),
    ] + id_texts(cp.failed_tasks@) + seq![
        decimal(cp.current_position as nat),
        decimal(cp.total_tasks as nat),
        cp.task_ids_checksum@,
    ]
}

/// The checksum a checkpoint should carry.
pub open spec fn checkpoint_checksum(cp: WorkflowCheckpoint) -> Seq<char> {
    strings_checksum(checksum_fields(cp))
}

/// The decimal text of a signed 64-bit value.
pub(crate) fn decimal_i64(v: i64) -> (r: String)
    ensures
        r@ == signed_decimal(v as int),
{
    if v < 0 {
        let mut s = "-".to_string();
        let m = decimal_u128((-(v as i128)) as u128);
        s.append(m.as_str());
        proof {
            reveal_strlit("-");
        }
        s
    } else {
        decimal_u128(v as u128)
    }
}

/// Appends one text.
fn push_text(out: &mut Vec<String>, s: String)
    ensures
        final(out)@.map_values(|s: String| s@) == old(out)@.map_values(|s: String| s@).push(s@),
{
    let ghost before = out@;
    out.push(s);
    proof {
        assert(out@.map_values(|s: String| s@) =~= before.map_values(|s: String| s@).push(s@));
    }
}

/// Appends copies of the identifiers' texts.
fn push_id_texts(out: &mut Vec<String>, ids: &Vec<TaskId>)
    ensures
        final(out)@.map_values(|s: String| s@) == old(out)@.map_values(|s: String| s@) + id_texts(ids@),
{
    let ghost start = out@.map_values(|s: String| s@);
    let mut i: usize = 0;
    while i < ids.len()
        invariant
            i <= ids@.len(),
            out@.map_values(|s: String| s@) == start + id_texts(ids@.subrange(0, i as int)),
        decreases ids@.len() - i,
    {
        push_text(out, ids[i].to_display_string());
        proof {
            assert(id_texts(ids@.subrange(0, i + 1)) =~= id_texts(ids@.subrange(0, i as int)).push(ids@[i as int]@));
        }
        i = i + 1;
    }
    proof {
        assert(ids@.subrange(0, i as int) == ids@);
    }
}

/// `cp` records the executor's progress at `position` of the execution
/// order, for run `workflow_id` under sequence number `sequence`, with a
/// checksum matching its contents.
pub open spec fn taken_from(e: &WorkflowExecutor, workflow_id: Seq<char>, sequence: u64, position: usize, cp: WorkflowCheckpoint) -> bool {
    &&& cp.workflow_id@ == workflow_id
    &&& cp.sequence == sequence
    &&& cp.current_position == position
    &&& cp.total_tasks == e.spec_workflow().nodes().len()
    &&& cp.completed_tasks@.len() == e.completed().len()
    &&& forall|i: int| 0 <= i < cp.completed_tasks@.len() ==> #[trigger] cp.completed_tasks@[i]@ == e.completed()[i]@
    &&& cp.failed_tasks@.len() == e.failed().len()
    &&& forall|i: int| 0 <= i < cp.failed_tasks@.len() ==> #[trigger] cp.failed_tasks@[i]@ == e.failed()[i]@
    &&& cp.task_ids_checksum@ == workflow_ids_checksum(e.spec_workflow())
    &&& cp.checksum@ == checkpoint_checksum(cp)
}

/// A checkpoint taken from an executor validates; and when every task the
/// executor recorded belongs to its workflow and the position lies within
/// the workflow's tasks, the checkpoint fits that workflow, so restoring it
/// there succeeds.
pub proof fn lemma_taken_checkpoint_fits(
    e: &WorkflowExecutor,
    workflow_id: Seq<char>,
    sequence: u64,
    position: usize,
    cp: WorkflowCheckpoint,
)
    requires
        e.wf(),
        taken_from(e, workflow_id, sequence, position, cp),
        position < e.spec_workflow().nodes().len(),
        forall|i: int| 0 <= i < e.completed().len() ==> e.spec_workflow().has_task(#[trigger] e.completed()[i]@),
        forall|i: int| 0 <= i < e.failed().len() ==> e.spec_workflow().has_task(#[trigger] e.failed()[i]@),
    ensures
        cp.checksum@ == checkpoint_checksum(cp),
        consistent_with(e.spec_workflow(), cp),
{
    let w = e.spec_workflow();
    assert forall|k: int| 0 <= k < cp.completed_tasks@.len() implies w.has_task(#[trigger] cp.completed_tasks@[k]@) by {
        assert(w.has_task(e.completed()[k]@));
    }
    assert forall|k: int| 0 <= k < cp.failed_tasks@.len() implies w.has_task(#[trigger] cp.failed_tasks@[k]@) by {
        assert(w.has_task(e.failed()[k]@));
    }
}

impl WorkflowCheckpoint {
    /// Takes a checkpoint of the executor's progress, at position `position`
    /// of the execution order, with a fresh identifier and the current time.
    pub fn from_executor(workflow_id: &str, sequence: u64, executor: &WorkflowExecutor, position: usize) -> (r: WorkflowCheckpoint)
        requires
            executor.wf(),
        ensures
            r.workflow_id@ == workflow_id@,
            r.sequence == sequence,
            r.current_position == position,
            r.total_tasks == executor.spec_workflow().nodes().len(),
            r.completed_tasks@.len() == executor.completed().len(),
            forall|i: int| 0 <= i < r.completed_tasks@.len() ==> #[trigger] r.completed_tasks@[i]@ == executor.completed()[i]@,
            r.failed_tasks@.len() == executor.failed().len(),
            forall|i: int| 0 <= i < r.failed_tasks@.len() ==> #[trigger] r.failed_tasks@[i]@ == executor.failed()[i]@,
            r.task_ids_checksum@ == workflow_ids_checksum(executor.spec_workflow()),
            r.checksum@ == checkpoint_checksum(r),
            taken_from(executor, workflow_id@, sequence, position, r),
    {
        let ids = executor.task_ids();
        let task_ids_checksum = compute_task_ids_checksum(ids.as_slice());
        proof {
            let w = executor.spec_workflow();
            assert(lists_workflow_ids(w, ids@));
            let some = choose|some: Seq<TaskId>| lists_workflow_ids(w, some);
            lemma_listings_share_checksum(w, ids@, some);
        }
        let mut cp = WorkflowCheckpoint {
            id: CheckpointId::new(),
            workflow_id: workflow_id.to_string(),
            sequence,
            timestamp: now_micros(),
            completed_tasks: executor.completed_task_ids(),
            failed_tasks: executor.failed_task_ids(),
            current_position: position,
            total_tasks: executor.task_count(),
            checksum: String::new(),
            task_ids_checksum,
        };
        let c = cp.compute_checksum();
        let ghost before = cp;
        cp.checksum = c;
        proof {
            assert(checksum_fields(cp) == checksum_fields(before));
        }
        cp
    }

    /// The checksum of the checkpoint's contents (all but `checksum`).
    pub fn compute_checksum(&self) -> (r: String)
        ensures
            r@ == checkpoint_checksum(*self),
    {
        let mut fields: Vec<String> = Vec::new();
        let ghost g = Seq::<Seq<char>>::empty();
        assert(fields@.map_values(|s: String| s@) =~= g);
        push_text(&mut fields, decimal_u128(self.id.0));
        push_text(&mut fields, self.workflow_id.clone());
        push_text(&mut fields, decimal_u128(self.sequence as u128));
        push_text(&mut fields, decimal_i64(self.timestamp));
        push_text(&mut fields, decimal_u128(self.completed_tasks.len() as u128));
        push_id_texts(&mut fields, &self.completed_tasks);
        push_text(&mut fields, decimal_u128(self.failed_tasks.len() as u128));
        push_id_texts(&mut fields, &self.failed_tasks);
        push_text(&mut fields, decimal_u128(self.current_position as u128));
        push_text(&mut fields, decimal_u128(self.total_tasks as u128));
        push_text(&mut fields, self.task_ids_checksum.clone());
        proof {
            assert(fields@.map_values(|s: String| s@) =~= checksum_fields(*self));
        }
        checksum_of_strings(&fields)
    }

    /// Checks that the stored checksum matches the contents.
    pub fn validate(&self) -> (r: Result<(), WorkflowError>)
        ensures
            r is Ok <==> self.checksum@ == checkpoint_checksum(*self),
            r matches Err(e) ==> (e matches WorkflowError::CheckpointCorrupted(m) && m@ == "Checksum mismatch: expected "@
                + checkpoint_checksum(*self) + ", got "@ + self.checksum@),
    {
        let expected = self.compute_checksum();
        if self.checksum != expected {
            let mut m = "Checksum mismatch: expected ".to_string();
            m.append(expected.as_str());
            m.append(", got ");
            m.append(self.checksum.as_str());
            return Err(WorkflowError::CheckpointCorrupted(m));
        }
        Ok(())
    }
}

/// A short description of a checkpoint.
#[derive(Clone, Copy, Debug)]
pub struct CheckpointSummary {
    pub id: CheckpointId,
    pub sequence: u64,
    pub timestamp: i64,
    pub completed_count: usize,
    pub current_position: usize,
    pub total_tasks: usize,
}

impl CheckpointSummary {
    /// The summary of a checkpoint.
    pub fn from_checkpoint(checkpoint: &WorkflowCheckpoint) -> (r: CheckpointSummary)
        ensures
            r.id == checkpoint.id,
            r.sequence == checkpoint.sequence,
            r.timestamp == checkpoint.timestamp,
            r.completed_count == checkpoint.completed_tasks@.len(),
            r.current_position == checkpoint.current_position,
            r.total_tasks == checkpoint.total_tasks,
    {
        CheckpointSummary {
            id: checkpoint.id,
            sequence: checkpoint.sequence,
            timestamp: checkpoint.timestamp,
            completed_count: checkpoint.completed_tasks.len(),
            current_position: checkpoint.current_position,
            total_tasks: checkpoint.total_tasks,
        }
    }
}

} // verus!
