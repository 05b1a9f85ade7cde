//! Transactions over file mutations: snapshots of files taken before they
//! change, and the plan that puts them back on rollback.

use crate::checkpoint::{is_uuid_v4, random_uuid_bits};
use crate::dag::{debug_quoted, str_debug};
use crate::text::{decimal, push_decimal};
use std::path::PathBuf;
use vstd::prelude::*;
use vstd::string::StringExecFns;

verus! {

/// The number of bytes a character takes in UTF-8.
pub open spec fn utf8_width(c: char) -> nat {
    if (c as u32) < 0x80 {
        1
    } else if (c as u32) < 0x800 {
        2
    } else if (c as u32) < 0x10000 {
        3
    } else {
        4
    }
}

/// The length of a text in UTF-8 bytes.
pub open spec fn utf8_len(s: Seq<char>) -> nat
    decreases s.len(),
{
    if s.len() == 0 {
        0
    } else {
        utf8_len(s.drop_last()) + utf8_width(s.last())
    }
}

/// `String::len`: the length of the string in bytes of its UTF-8 encoding.
#[verifier::external_body]
fn byte_len(s: &String) -> (r: usize)
    ensures
        r == utf8_len(s@),
{
    s.len()
}

/// Snapshot of a file's original content.
#[derive(Clone, Debug)]
pub struct FileSnapshot {
    /// Path to the file
    pub path: PathBuf,
    /// Original content before mutation
    pub original_content: String,
    /// Checksum for verification: the content's length in bytes, in decimal
    pub checksum: String,
    /// Whether the file existed when the snapshot was taken
    pub existed: bool,
}

impl FileSnapshot {
    /// A snapshot of a file that exists, with its content.
    pub fn new(path: PathBuf, original_content: String) -> (r: FileSnapshot)
        ensures
            r.path == path,
            r.original_content@ == original_content@,
            r.checksum@ == decimal(utf8_len(original_content@)),
            r.existed,
    {
        let n = byte_len(&original_content);
        let mut checksum = String::new();
        push_decimal(&mut checksum, n);
        proof {
            assert(checksum@ =~= decimal(n as nat));
        }
        FileSnapshot { path, original_content, checksum, existed: true }
    }

    /// A snapshot of a file that does not exist yet (rolling back deletes it).
    pub fn new_empty(path: PathBuf) -> (r: FileSnapshot)
        ensures
            r.path == path,
            r.original_content@.len() == 0,
            r.checksum@ == "0"@,
            !r.existed,
    {
        FileSnapshot { path, original_content: String::new(), checksum: "0".to_string(), existed: false }
    }
}

/// State of a transaction.
#[derive(Clone, Debug, PartialEq)]
pub enum TransactionState {
    /// Transaction is active and accepting snapshots
    Active,
    /// Transaction was rolled back
    RolledBack,
    /// Transaction was committed with the given ID
    Committed(String),
}

/// The `{:?}` text of a transaction state.
pub open spec fn state_debug(s: TransactionState) -> Seq<char> {
    match s {
        TransactionState::Active => "Active"@,
        TransactionState::RolledBack => "RolledBack"@,
        TransactionState::Committed(id) => "Committed("@ + debug_quoted(id@) + ")"@,
    }
}

/// The `{:?}` text of a transaction state.
fn state_debug_string(s: &TransactionState) -> (r: String)
    ensures
        r@ == state_debug(*s),
{
    match s {
        TransactionState::Active => "Active".to_string(),
        TransactionState::RolledBack => "RolledBack".to_string(),
        TransactionState::Committed(id) => {
            let mut t = "Committed(".to_string();
            let q = str_debug(id.as_str());
            t.append(q.as_str());
            t.append(")");
            t
        },
    }
}

/// Errors of the agent's mutation machinery.
#[derive(Debug)]
pub enum AgentError {
    /// A mutation could not be carried out
    MutationFailed(String),
    /// Verification of a change could not be carried out
    VerificationFailed(String),
}

/// One step of putting a file back.
#[derive(Debug)]
pub enum RestoreStep {
    /// The file did not exist before: remove it if it exists now
    Remove(PathBuf),
    /// The file existed before: write its original content back
    Write(PathBuf, String),
}

/// A snapshot stands for a file the transaction created: the file did not
/// exist when the snapshot was taken.
pub open spec fn marks_created(s: FileSnapshot) -> bool {
    !s.existed
}

/// The step that puts back the file of snapshot `s`.
pub open spec fn restores(step: RestoreStep, s: FileSnapshot) -> bool {
    if marks_created(s) {
        step == RestoreStep::Remove(s.path)
    } else {
        step matches RestoreStep::Write(p, c) && p == s.path && c@ == s.original_content@
    }
}

/// A set of file mutations that is either committed or rolled back.
pub struct Transaction {
    id: u128,
    snapshots: Vec<FileSnapshot>,
    state: TransactionState,
}

impl Transaction {
    /// The snapshots taken, in the order they were taken.
    pub closed spec fn snapshots(&self) -> Seq<FileSnapshot> {
        self.snapshots@
    }

    /// The transaction's state.
    pub closed spec fn spec_state(&self) -> TransactionState {
        self.state
    }

    /// The transaction's identifier (the value of a random UUID).
    pub closed spec fn spec_id(&self) -> u128 {
        self.id
    }

    /// A new, active transaction with a fresh random identifier and no snapshots.
    pub fn begin() -> (r: Transaction)
        ensures
            r.spec_state() == TransactionState::Active,
            r.snapshots().len() == 0,
            is_uuid_v4(r.spec_id()),
    {
        Transaction { id: random_uuid_bits(), snapshots: Vec::new(), state: TransactionState::Active }
    }

    /// The transaction's identifier, as the 128-bit value of its UUID.
    pub fn id(&self) -> (r: u128)
        ensures
            r == self.spec_id(),
    {
        self.id
    }

    /// The transaction's state.
    pub fn state(&self) -> (r: &TransactionState)
        ensures
            *r == self.spec_state(),
    {
        &self.state
    }

    /// How many snapshots were taken.
    pub fn snapshot_count(&self) -> (r: usize)
        ensures
            r == self.snapshots().len(),
    {
        self.snapshots.len()
    }

    /// Records a file's snapshot (taken by reading the file, or empty when
    /// the file does not exist). Only an active transaction takes snapshots.
    pub fn record_snapshot(&mut self, snapshot: FileSnapshot) -> (r: Result<(), AgentError>)
        ensures
            final(self).spec_state() == old(self).spec_state(),
            final(self).spec_id() == old(self).spec_id(),
            old(self).spec_state() == TransactionState::Active ==> r is Ok && final(self).snapshots() == old(
                self,
            ).snapshots().push(snapshot),
            old(self).spec_state() != TransactionState::Active ==> (r matches Err(AgentError::MutationFailed(m))
                && m@ == "Cannot snapshot file: transaction is "@ + state_debug(old(self).spec_state())
                && final(self).snapshots() == old(self).snapshots()),
    {
        match &self.state {
            TransactionState::Active => {},
            _ => {
                let mut m = "Cannot snapshot file: transaction is ".to_string();
                let d = state_debug_string(&self.state);
                m.append(d.as_str());
                return Err(AgentError::MutationFailed(m));
            },
        }
        self.snapshots.push(snapshot);
        Ok(())
    }

    /// What rolling back does: for each snapshot, the last taken first, remove
    /// the file when the snapshot marks it as created, otherwise write its
    /// original content back. Only an active transaction rolls back.
    pub fn rollback_steps(&self) -> (r: Result<Vec<RestoreStep>, AgentError>)
        ensures
            self.spec_state() == TransactionState::Active ==> (r matches Ok(steps) && steps@.len()
                == self.snapshots().len() && forall|i: int|
                0 <= i < steps@.len() ==> restores(
                    #[trigger] steps@[i],
                    self.snapshots()[self.snapshots().len() - 1 - i],
                )),
            self.spec_state() != TransactionState::Active ==> (r matches Err(AgentError::MutationFailed(m)) && m@
                == "Cannot rollback: transaction is "@ + state_debug(self.spec_state())),
    {
        match &self.state {
            TransactionState::Active => {},
            _ => {
                let mut m = "Cannot rollback: transaction is ".to_string();
                let d = state_debug_string(&self.state);
                m.append(d.as_str());
                return Err(AgentError::MutationFailed(m));
            },
        }
        let n = self.snapshots.len();
        let mut steps: Vec<RestoreStep> = Vec::new();
        let mut k: usize = 0;
        while k < n
            invariant
                n == self.snapshots@.len(),
                k <= n,
                steps@.len() == k,
                forall|i: int| 0 <= i < k ==> restores(#[trigger] steps@[i], self.snapshots@[n - 1 - i]),
            decreases n - k,
        {
            let s = &self.snapshots[n - 1 - k];
            let created = !s.existed;
            let step = if created {
                RestoreStep::Remove(s.path.clone())
            } else {
                RestoreStep::Write(s.path.clone(), s.original_content.clone())
            };
            steps.push(step);
            k = k + 1;
        }
        Ok(steps)
    }

    /// Commits: a fresh random commit identifier (the value of a UUID). Only
    /// an active transaction commits.
    pub fn commit(self) -> (r: Result<u128, AgentError>)
        ensures
            self.spec_state() == TransactionState::Active ==> (r matches Ok(v) && is_uuid_v4(v)),
            self.spec_state() != TransactionState::Active ==> (r matches Err(AgentError::MutationFailed(m)) && m@
                == "Cannot commit: transaction is "@ + state_debug(self.spec_state())),
    {
        match &self.state {
            TransactionState::Active => {},
            _ => {
                let mut m = "Cannot commit: transaction is ".to_string();
                let d = state_debug_string(&self.state);
                m.append(d.as_str());
                return Err(AgentError::MutationFailed(m));
            },
        }
        Ok(random_uuid_bits())
    }
}

} // verus!
