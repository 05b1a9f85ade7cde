//! An in-memory store of workflow checkpoints.
//!
//! Checkpoints are kept by identifier, at most one per identifier; for each
//! workflow the store remembers the summary of the checkpoint saved last.
//! Only checkpoints whose checksum matches their contents are accepted.

use crate::checkpoint::{
    checkpoint_checksum, lemma_same_checksum, same_checkpoint, CheckpointId, CheckpointSummary, WorkflowCheckpoint,
};
use crate::dag::WorkflowError;
use crate::sorting::{insert_by_key, lemma_insert_by_key_at, lemma_sort_by_key, sort_by_key, sorted_by_key};
use vstd::prelude::*;

verus! {

/// The summary the store keeps of a checkpoint.
pub open spec fn summary_of(cp: WorkflowCheckpoint) -> CheckpointSummary {
    CheckpointSummary {
        id: cp.id,
        sequence: cp.sequence,
        timestamp: cp.timestamp,
        completed_count: cp.completed_tasks@.len() as usize,
        current_position: cp.current_position,
        total_tasks: cp.total_tasks,
    }
}

/// A summary's sequence number, the key summaries are listed by.
pub open spec fn by_sequence() -> spec_fn(CheckpointSummary) -> int {
    |s: CheckpointSummary| s.sequence as int
}

/// No two checkpoints share an identifier.
pub open spec fn distinct_checkpoint_ids(s: Seq<WorkflowCheckpoint>) -> bool {
    forall|i: int, k: int| 0 <= i < s.len() && 0 <= k < s.len() && i != k ==> #[trigger] s[i].id != #[trigger] s[k].id
}

/// Some checkpoint of `s` has identifier `id`.
pub open spec fn holds_id(s: Seq<WorkflowCheckpoint>, id: CheckpointId) -> bool {
    exists|i: int| 0 <= i < s.len() && #[trigger] s[i].id == id
}

/// The checkpoint of `s` with identifier `id` (meaningful when `holds_id`).
pub open spec fn entry_for(s: Seq<WorkflowCheckpoint>, id: CheckpointId) -> WorkflowCheckpoint {
    s[choose|i: int| 0 <= i < s.len() && #[trigger] s[i].id == id]
}

/// No two entries share a workflow identifier.
pub open spec fn distinct_keys(s: Seq<(String, CheckpointSummary)>) -> bool {
    forall|i: int, k: int| 0 <= i < s.len() && 0 <= k < s.len() && i != k ==> #[trigger] s[i].0@ != #[trigger] s[k].0@
}

/// Some entry of `s` is for workflow `w`.
pub open spec fn has_key(s: Seq<(String, CheckpointSummary)>, w: Seq<char>) -> bool {
    exists|i: int| 0 <= i < s.len() && #[trigger] s[i].0@ == w
}

/// The summary `s` keeps for workflow `w` (meaningful when `has_key`).
pub open spec fn value_for(s: Seq<(String, CheckpointSummary)>, w: Seq<char>) -> CheckpointSummary {
    s[choose|i: int| 0 <= i < s.len() && #[trigger] s[i].0@ == w].1
}

/// With distinct identifiers, the entry for the identifier at `i` is the one at `i`.
proof fn lemma_entry_at(s: Seq<WorkflowCheckpoint>, i: int)
    requires
        distinct_checkpoint_ids(s),
        0 <= i < s.len(),
    ensures
        holds_id(s, s[i].id),
        entry_for(s, s[i].id) == s[i],
{
    assert(s[i].id == s[i].id);
    let j = choose|j: int| 0 <= j < s.len() && #[trigger] s[j].id == s[i].id;
    assert(j == i);
}

/// With distinct keys, the value for the key at `i` is the one at `i`.
proof fn lemma_value_at(s: Seq<(String, CheckpointSummary)>, i: int)
    requires
        distinct_keys(s),
        0 <= i < s.len(),
    ensures
        has_key(s, s[i].0@),
        value_for(s, s[i].0@) == s[i].1,
{
    assert(s[i].0@ == s[i].0@);
    let j = choose|j: int| 0 <= j < s.len() && #[trigger] s[j].0@ == s[i].0@;
    assert(j == i);
}

/// In-memory checkpoint store with a namespace.
pub struct WorkflowCheckpointService {
    /// The namespace the store's keys live in
    pub namespace: String,
    storage: Vec<WorkflowCheckpoint>,
    latest_by_workflow: Vec<(String, CheckpointSummary)>,
}

impl WorkflowCheckpointService {
    /// The namespace.
    pub closed spec fn namespace_text(&self) -> Seq<char> {
        self.namespace@
    }

    /// The stored checkpoints, in the order they were first saved.
    pub closed spec fn stored(&self) -> Seq<WorkflowCheckpoint> {
        self.storage@
    }

    /// The latest summary per workflow.
    pub closed spec fn latest_entries(&self) -> Seq<(String, CheckpointSummary)> {
        self.latest_by_workflow@
    }

    /// Identifiers and workflow keys are unique, and every stored checkpoint
    /// carries the checksum of its contents.
    pub open spec fn wf(&self) -> bool {
        &&& distinct_checkpoint_ids(self.stored())
        &&& distinct_keys(self.latest_entries())
        &&& forall|i: int|
            0 <= i < self.stored().len() ==> (#[trigger] self.stored()[i]).checksum@ == checkpoint_checksum(
                self.stored()[i],
            )
    }

    /// A checkpoint with identifier `id` is stored.
    pub open spec fn holds(&self, id: CheckpointId) -> bool {
        holds_id(self.stored(), id)
    }

    /// The stored checkpoint with identifier `id`.
    pub open spec fn entry(&self, id: CheckpointId) -> WorkflowCheckpoint {
        entry_for(self.stored(), id)
    }

    /// A checkpoint was saved for workflow `w`.
    pub open spec fn has_latest(&self, w: Seq<char>) -> bool {
        has_key(self.latest_entries(), w)
    }

    /// The summary of the checkpoint saved last for workflow `w`.
    pub open spec fn latest(&self, w: Seq<char>) -> CheckpointSummary {
        value_for(self.latest_entries(), w)
    }

    /// Where the checkpoint with identifier `id` is stored, if anywhere.
    fn position_of(&self, id: &CheckpointId) -> (r: Option<usize>)
        ensures
            r matches Some(i) ==> i < self.stored().len() && self.stored()[i as int].id == *id,
            r is None ==> forall|k: int| 0 <= k < self.stored().len() ==> #[trigger] self.stored()[k].id != *id,
    {
        let mut i: usize = 0;
        while i < self.storage.len()
            invariant
                i <= self.storage@.len(),
                forall|k: int| 0 <= k < i ==> #[trigger] self.storage@[k].id != *id,
            decreases self.storage@.len() - i,
        {
            if self.storage[i].id == *id {
                return Some(i);
            }
            i = i + 1;
        }
        None
    }

    /// Where the latest summary of workflow `w` is kept, if anywhere.
    fn latest_position(&self, w: &String) -> (r: Option<usize>)
        ensures
            r matches Some(i) ==> i < self.latest_entries().len() && self.latest_entries()[i as int].0@ == w@,
            r is None ==> forall|k: int|
                0 <= k < self.latest_entries().len() ==> #[trigger] self.latest_entries()[k].0@ != w@,
    {
        let mut i: usize = 0;
        while i < self.latest_by_workflow.len()
            invariant
                i <= self.latest_by_workflow@.len(),
                forall|k: int| 0 <= k < i ==> #[trigger] self.latest_by_workflow@[k].0@ != w@,
            decreases self.latest_by_workflow@.len() - i,
        {
            if self.latest_by_workflow[i].0 == *w {
                return Some(i);
            }
            i = i + 1;
        }
        None
    }

    /// An empty store in the given namespace.
    pub fn new(namespace: &str) -> (r: WorkflowCheckpointService)
        ensures
            r.wf(),
            r.namespace_text() == namespace@,
            r.stored().len() == 0,
            r.latest_entries().len() == 0,
    {
        WorkflowCheckpointService {
            namespace: namespace.to_string(),
            storage: Vec::new(),
            latest_by_workflow: Vec::new(),
        }
    }

    /// An empty store in the namespace `workflow`.
    pub fn new_default() -> (r: WorkflowCheckpointService)
        ensures
            r.wf(),
            r.namespace_text() == "workflow"@,
            r.stored().len() == 0,
            r.latest_entries().len() == 0,
    {
        WorkflowCheckpointService::new("workflow")
    }

    /// Stores a copy of the checkpoint, replacing one with the same
    /// identifier, and makes it its workflow's latest. A checkpoint whose
    /// checksum does not match its contents is refused, as
    /// `WorkflowCheckpoint::validate` reports it, and nothing changes.
    pub fn save(&mut self, checkpoint: &WorkflowCheckpoint) -> (r: Result<(), WorkflowError>)
        requires
            old(self).wf(),
        ensures
            final(self).wf(),
            final(self).namespace_text() == old(self).namespace_text(),
            r is Ok <==> checkpoint.checksum@ == checkpoint_checksum(*checkpoint),
            r matches Err(e) ==> (e matches WorkflowError::CheckpointCorrupted(m) && m@ == "Checksum mismatch: expected "@
                + checkpoint_checksum(*checkpoint) + ", got "@ + checkpoint.checksum@),
            r is Err ==> final(self).stored() == old(self).stored()
                && final(self).latest_entries() == old(self).latest_entries(),
            r is Ok ==> final(self).holds(checkpoint.id) && same_checkpoint(final(self).entry(checkpoint.id), *checkpoint),
            r is Ok ==> forall|id: CheckpointId|
                id != checkpoint.id ==> (#[trigger] final(self).holds(id) == old(self).holds(id) && (old(self).holds(id)
                    ==> final(self).entry(id) == old(self).entry(id))),
            r is Ok ==> final(self).has_latest(checkpoint.workflow_id@) && final(self).latest(checkpoint.workflow_id@)
                == summary_of(*checkpoint),
            r is Ok ==> forall|w: Seq<char>|
                w != checkpoint.workflow_id@ ==> (#[trigger] final(self).has_latest(w) == old(self).has_latest(w)
                    && (old(self).has_latest(w) ==> final(self).latest(w) == old(self).latest(w))),
    {
        match checkpoint.validate() {
            Ok(()) => {},
            Err(e) => {
                return Err(e);
            },
        }
        let copy = checkpoint.clone();
        proof {
            lemma_same_checksum(copy, *checkpoint);
        }
        let summary = CheckpointSummary::from_checkpoint(checkpoint);
        assert(summary == summary_of(*checkpoint));
        let ghost s0 = self.storage@;
        let found = self.position_of(&checkpoint.id);
        if let Some(i) = found {
            self.storage.set(i, copy);
            proof {
                let s1 = self.storage@;
                assert(distinct_checkpoint_ids(s1)) by {
                    assert forall|a: int, b: int|
                        0 <= a < s1.len() && 0 <= b < s1.len() && a != b implies #[trigger] s1[a].id
                        != #[trigger] s1[b].id by {
                        if a != i as int && b != i as int {
                            assert(s1[a] == s0[a] && s1[b] == s0[b]);
                        } else if a == i as int {
                            assert(s1[b] == s0[b]);
                            assert(s0[a].id == checkpoint.id);
                        } else {
                            assert(s1[a] == s0[a]);
                            assert(s0[b].id == checkpoint.id);
                        }
                    }
                }
                lemma_entry_at(s1, i as int);
                assert forall|id: CheckpointId| id != checkpoint.id implies (#[trigger] holds_id(s1, id) == holds_id(
                    s0,
                    id,
                ) && (holds_id(s0, id) ==> entry_for(s1, id) == entry_for(s0, id))) by {
                    if holds_id(s0, id) {
                        let j = choose|j: int| 0 <= j < s0.len() && #[trigger] s0[j].id == id;
                        assert(s1[j] == s0[j]);
                        lemma_entry_at(s0, j);
                        lemma_entry_at(s1, j);
                    }
                    if holds_id(s1, id) {
                        let j = choose|j: int| 0 <= j < s1.len() && #[trigger] s1[j].id == id;
                        assert(s1[j] == s0[j]);
                    }
                }
                assert forall|k: int| 0 <= k < s1.len() implies (#[trigger] s1[k]).checksum@ == checkpoint_checksum(
                    s1[k],
                ) by {
                    if k != i as int {
                        assert(s1[k] == s0[k]);
                    }
                }
            }
        } else {
            self.storage.push(copy);
            proof {
                let s1 = self.storage@;
                assert(distinct_checkpoint_ids(s1)) by {
                    assert forall|a: int, b: int|
                        0 <= a < s1.len() && 0 <= b < s1.len() && a != b implies #[trigger] s1[a].id
                        != #[trigger] s1[b].id by {
                        if a < s0.len() && b < s0.len() {
                            assert(s1[a] == s0[a] && s1[b] == s0[b]);
                        } else if a < s0.len() {
                            assert(s1[a] == s0[a]);
                        } else {
                            assert(s1[b] == s0[b]);
                        }
                    }
                }
                lemma_entry_at(s1, s0.len() as int);
                assert forall|id: CheckpointId| id != checkpoint.id implies (#[trigger] holds_id(s1, id) == holds_id(
                    s0,
                    id,
                ) && (holds_id(s0, id) ==> entry_for(s1, id) == entry_for(s0, id))) by {
                    if holds_id(s0, id) {
                        let j = choose|j: int| 0 <= j < s0.len() && #[trigger] s0[j].id == id;
                        assert(s1[j] == s0[j]);
                        lemma_entry_at(s0, j);
                        lemma_entry_at(s1, j);
                    }
                    if holds_id(s1, id) {
                        let j = choose|j: int| 0 <= j < s1.len() && #[trigger] s1[j].id == id;
                        if j < s0.len() {
                            assert(s1[j] == s0[j]);
                        }
                    }
                }
                assert forall|k: int| 0 <= k < s1.len() implies (#[trigger] s1[k]).checksum@ == checkpoint_checksum(
                    s1[k],
                ) by {
                    if k < s0.len() {
                        assert(s1[k] == s0[k]);
                    }
                }
            }
        }
        self.note_latest(&checkpoint.workflow_id, summary);
        Ok(())
    }

    /// Makes `summary` the latest of workflow `w`.
    fn note_latest(&mut self, w: &String, summary: CheckpointSummary)
        requires
            distinct_keys(old(self).latest_entries()),
        ensures
            distinct_keys(final(self).latest_entries()),
            final(self).stored() == old(self).stored(),
            final(self).namespace_text() == old(self).namespace_text(),
            has_key(final(self).latest_entries(), w@) && value_for(final(self).latest_entries(), w@) == summary,
            forall|x: Seq<char>|
                x != w@ ==> #[trigger] has_key(final(self).latest_entries(), x) == has_key(old(self).latest_entries(), x),
            forall|x: Seq<char>|
                x != w@ && has_key(old(self).latest_entries(), x) ==> #[trigger] value_for(final(self).latest_entries(), x)
                    == value_for(old(self).latest_entries(), x),
    {
        let ghost s0 = self.latest_by_workflow@;
        let found = self.latest_position(w);
        let ghost wv = w@;
        if let Some(i) = found {
            self.latest_by_workflow.set(i, (w.clone(), summary));
            proof {
                let s1 = self.latest_by_workflow@;
                assert(s0[i as int].0@ == wv);
                assert(s1[i as int].0@ == wv);
                assert(distinct_keys(s1)) by {
                    assert forall|a: int, b: int|
                        0 <= a < s1.len() && 0 <= b < s1.len() && a != b implies #[trigger] s1[a].0@
                        != #[trigger] s1[b].0@ by {
                        if a != i as int && b != i as int {
                            assert(s1[a] == s0[a] && s1[b] == s0[b]);
                        } else if a == i as int {
                            assert(s1[b] == s0[b]);
                        } else {
                            assert(s1[a] == s0[a]);
                        }
                    }
                }
                lemma_value_at(s1, i as int);
                assert forall|x: Seq<char>|
                    #![trigger has_key(s1, x)]
                    #![trigger value_for(s1, x)]
                    x != wv implies (has_key(s1, x) == has_key(s0, x) && (has_key(s0, x) ==> value_for(s1, x)
                        == value_for(s0, x))) by {
                    if has_key(s0, x) {
                        let j = choose|j: int| 0 <= j < s0.len() && #[trigger] s0[j].0@ == x;
                        assert(j != i as int);
                        assert(s1[j] == s0[j]);
                        lemma_value_at(s0, j);
                        lemma_value_at(s1, j);
                    }
                    if has_key(s1, x) {
                        let j = choose|j: int| 0 <= j < s1.len() && #[trigger] s1[j].0@ == x;
                        assert(j != i as int);
                        assert(s1[j] == s0[j]);
                    }
                }
            }
        } else {
            self.latest_by_workflow.push((w.clone(), summary));
            proof {
                let s1 = self.latest_by_workflow@;
                assert(distinct_keys(s1)) by {
                    assert forall|a: int, b: int|
                        0 <= a < s1.len() && 0 <= b < s1.len() && a != b implies #[trigger] s1[a].0@
                        != #[trigger] s1[b].0@ by {
                        if a < s0.len() && b < s0.len() {
                            assert(s1[a] == s0[a] && s1[b] == s0[b]);
                        } else if a < s0.len() {
                            assert(s1[a] == s0[a]);
                        } else {
                            assert(s1[b] == s0[b]);
                        }
                    }
                }
                lemma_value_at(s1, s0.len() as int);
                assert forall|x: Seq<char>|
                    #![trigger has_key(s1, x)]
                    #![trigger value_for(s1, x)]
                    x != wv implies (has_key(s1, x) == has_key(s0, x) && (has_key(s0, x) ==> value_for(s1, x)
                        == value_for(s0, x))) by {
                    if has_key(s0, x) {
                        let j = choose|j: int| 0 <= j < s0.len() && #[trigger] s0[j].0@ == x;
                        assert(s1[j] == s0[j]);
                        lemma_value_at(s0, j);
                        lemma_value_at(s1, j);
                    }
                    if has_key(s1, x) {
                        let j = choose|j: int| 0 <= j < s1.len() && #[trigger] s1[j].0@ == x;
                        if j < s0.len() {
                            assert(s1[j] == s0[j]);
                        }
                    }
                }
            }
        }
    }

    /// A copy of the checkpoint stored under `id`, checked against its
    /// checksum; none when nothing is stored under it.
    pub fn load(&self, id: &CheckpointId) -> (r: Result<Option<WorkflowCheckpoint>, WorkflowError>)
        requires
            self.wf(),
        ensures
            !self.holds(*id) ==> r matches Ok(None),
            self.holds(*id) ==> (r matches Ok(Some(c)) && same_checkpoint(c, self.entry(*id))),
    {
        match self.position_of(id) {
            Some(i) => {
                proof {
                    lemma_entry_at(self.storage@, i as int);
                }
                let c = self.storage[i].clone();
                proof {
                    lemma_same_checksum(c, self.storage@[i as int]);
                }
                match c.validate() {
                    Ok(()) => {},
                    Err(e) => {
                        return Err(e);
                    },
                }
                Ok(Some(c))
            },
            None => Ok(None),
        }
    }

    /// The checkpoint saved last for the workflow, loaded as `load` does;
    /// none when none was saved for it or it was deleted since.
    pub fn get_latest(&self, workflow_id: &str) -> (r: Result<Option<WorkflowCheckpoint>, WorkflowError>)
        requires
            self.wf(),
        ensures
            !self.has_latest(workflow_id@) ==> r matches Ok(None),
            self.has_latest(workflow_id@) && !self.holds(self.latest(workflow_id@).id) ==> r matches Ok(None),
            self.has_latest(workflow_id@) && self.holds(self.latest(workflow_id@).id) ==> (r matches Ok(Some(c))
                && same_checkpoint(c, self.entry(self.latest(workflow_id@).id))),
    {
        let w = workflow_id.to_string();
        match self.latest_position(&w) {
            Some(i) => {
                proof {
                    lemma_value_at(self.latest_by_workflow@, i as int);
                }
                let id = self.latest_by_workflow[i].1.id;
                self.load(&id)
            },
            None => Ok(None),
        }
    }

    /// The summaries of the stored checkpoints, in the order they were first saved.
    pub closed spec fn summaries(&self) -> Seq<CheckpointSummary> {
        self.storage@.map_values(|c: WorkflowCheckpoint| summary_of(c))
    }

    /// The summaries of all stored checkpoints, by ascending sequence number
    /// (all workflows: the workflow given is not consulted).
    pub fn list_by_workflow(&self, _workflow_id: &str) -> (r: Result<Vec<CheckpointSummary>, WorkflowError>)
        ensures
            r matches Ok(v) && v@ == sort_by_key(self.summaries(), by_sequence()),
            r matches Ok(v) && sorted_by_key(v@, by_sequence()) && v@.to_multiset()
                == self.summaries().to_multiset(),
            r matches Ok(v) && v@.len() == self.stored().len(),
    {
        let ghost input = self.summaries();
        let mut sorted: Vec<CheckpointSummary> = Vec::new();
        let mut done: usize = 0;
        while done < self.storage.len()
            invariant
                done <= self.storage@.len(),
                input == self.summaries(),
                input.len() == self.storage@.len(),
                sorted@ == sort_by_key(input.subrange(0, done as int), by_sequence()),
            decreases self.storage@.len() - done,
        {
            let s = CheckpointSummary::from_checkpoint(&self.storage[done]);
            assert(s == input[done as int]);
            let mut pos: usize = 0;
            while pos < sorted.len() && sorted[pos].sequence <= s.sequence
                invariant
                    pos <= sorted@.len(),
                    forall|t: int| 0 <= t < pos ==> (#[trigger] sorted@[t]).sequence <= s.sequence,
                decreases sorted@.len() - pos,
            {
                pos = pos + 1;
            }
            proof {
                let key = by_sequence();
                assert forall|t: int| 0 <= t < pos implies key(#[trigger] sorted@[t]) <= key(s) by {
                    assert(sorted@[t].sequence <= s.sequence);
                }
                lemma_insert_by_key_at(sorted@, s, key, pos as int);
                assert(input.subrange(0, done + 1).drop_last() =~= input.subrange(0, done as int));
                assert(input.subrange(0, done + 1).last() == s);
            }
            sorted.insert(pos, s);
            done = done + 1;
        }
        proof {
            broadcast use vstd::seq_lib::group_to_multiset_ensures;

            assert(input.subrange(0, input.len() as int) =~= input);
            lemma_sort_by_key(input, by_sequence());
            assert(sorted@.to_multiset().len() == input.to_multiset().len());
        }
        Ok(sorted)
    }

    /// Removes the checkpoint stored under `id`, if any; the workflows'
    /// latest summaries stay as they were.
    pub fn delete(&mut self, id: &CheckpointId) -> (r: Result<(), WorkflowError>)
        requires
            old(self).wf(),
        ensures
            final(self).wf(),
            r is Ok,
            final(self).namespace_text() == old(self).namespace_text(),
            !final(self).holds(*id),
            forall|x: CheckpointId|
                x != *id ==> (#[trigger] final(self).holds(x) == old(self).holds(x) && (old(self).holds(x)
                    ==> final(self).entry(x) == old(self).entry(x))),
            final(self).latest_entries() == old(self).latest_entries(),
    {
        let ghost s0 = self.storage@;
        let found = self.position_of(id);
        if let Some(i) = found {
            let _removed = self.storage.remove(i);
            proof {
                let s1 = self.storage@;
                assert forall|k: int| 0 <= k < s1.len() implies #[trigger] s1[k] == if k < i {
                    s0[k]
                } else {
                    s0[k + 1]
                } by {}
                assert(distinct_checkpoint_ids(s1)) by {
                    assert forall|a: int, b: int|
                        0 <= a < s1.len() && 0 <= b < s1.len() && a != b implies #[trigger] s1[a].id
                        != #[trigger] s1[b].id by {
                        let a0 = if a < i { a } else { a + 1 };
                        let b0 = if b < i { b } else { b + 1 };
                        assert(s1[a] == s0[a0] && s1[b] == s0[b0]);
                    }
                }
                if holds_id(s1, *id) {
                    let j = choose|j: int| 0 <= j < s1.len() && #[trigger] s1[j].id == *id;
                    let j0 = if j < i { j } else { j + 1 };
                    assert(s1[j] == s0[j0]);
                    assert(s0[i as int].id == *id);
                }
                assert forall|x: CheckpointId| x != *id implies (#[trigger] holds_id(s1, x) == holds_id(s0, x) && (
                holds_id(s0, x) ==> entry_for(s1, x) == entry_for(s0, x))) by {
                    if holds_id(s0, x) {
                        let j = choose|j: int| 0 <= j < s0.len() && #[trigger] s0[j].id == x;
                        assert(j != i as int);
                        let j1 = if j < i { j } else { j - 1 };
                        assert(s1[j1] == s0[j]);
                        lemma_entry_at(s0, j);
                        lemma_entry_at(s1, j1);
                    }
                    if holds_id(s1, x) {
                        let j = choose|j: int| 0 <= j < s1.len() && #[trigger] s1[j].id == x;
                        let j0 = if j < i { j } else { j + 1 };
                        assert(s1[j] == s0[j0]);
                    }
                }
                assert forall|k: int| 0 <= k < s1.len() implies (#[trigger] s1[k]).checksum@ == checkpoint_checksum(
                    s1[k],
                ) by {
                    let k0 = if k < i { k } else { k + 1 };
                    assert(s1[k] == s0[k0]);
                }
            }
        }
        Ok(())
    }
}

/// What a store gives back for a checkpoint is what was saved: once `save`
/// stored `cp` (the store then holds, under `cp`'s identifier, a checkpoint
/// with `cp`'s contents), `load` of that identifier returns a checkpoint with
/// `cp`'s contents.
pub proof fn lemma_load_returns_saved(
    service: WorkflowCheckpointService,
    cp: WorkflowCheckpoint,
    loaded: WorkflowCheckpoint,
)
    requires
        service.holds(cp.id),
        same_checkpoint(service.entry(cp.id), cp),
        same_checkpoint(loaded, service.entry(cp.id)),
    ensures
        same_checkpoint(loaded, cp),
{
}

} // verus!
