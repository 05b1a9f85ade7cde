//! Cooperative cancellation with a parent-child hierarchy.
//!
//! A `CancellationTokenSource` owns a token and cancels it; every clone of
//! that token sees the cancellation. A `ChildToken` is cancelled when its
//! parent is, or when it is cancelled on its own.
//!
//! The flags are shared atomics that other threads may set at any moment, so
//! the contracts here state which flag a token shares, not the values read
//! back.

use std::sync::atomic::{AtomicBool, Ordering};
use std::sync::Arc;
use vstd::prelude::*;
use vstd::string::StringExecFns;

verus! {

/// Thread-safe cancellation token; clones share one flag.
#[derive(Clone, Debug)]
pub struct CancellationToken {
    cancelled: Arc<AtomicBool>,
}

impl CancellationToken {
    /// The shared flag the token reads.
    pub closed spec fn flag(&self) -> Arc<AtomicBool> {
        self.cancelled
    }

    /// Creates a token with a fresh flag, not cancelled.
    pub(crate) fn new() -> (r: CancellationToken) {
        CancellationToken { cancelled: Arc::new(AtomicBool::new(false)) }
    }

    /// Returns whether the token has been cancelled (sequentially
    /// consistent load of the shared flag).
    pub fn is_cancelled(&self) -> (r: bool) {
        self.cancelled.load(Ordering::SeqCst)
    }

    /// Sets the shared flag.
    fn set_cancelled(&self) {
        self.cancelled.store(true, Ordering::SeqCst);
    }
}

/// Owner of a cancellation token, which it can cancel.
pub struct CancellationTokenSource {
    token: CancellationToken,
}

impl CancellationTokenSource {
    /// The flag of the source's token.
    pub closed spec fn flag(&self) -> Arc<AtomicBool> {
        self.token.cancelled
    }

    /// Creates a source with a fresh token.
    pub fn new() -> (r: CancellationTokenSource) {
        CancellationTokenSource { token: CancellationToken::new() }
    }

    /// A handle on the source's token; it shares the source's flag.
    pub fn token(&self) -> (r: CancellationToken)
        ensures
            r.flag() == self.flag(),
    {
        CancellationToken { cancelled: self.token.cancelled.clone() }
    }

    /// Cancels the token for every clone and child. Cancelling again has no
    /// further effect.
    pub fn cancel(&self) {
        self.token.set_cancelled();
    }

    /// Creates a child token whose parent is this source's token and whose
    /// own flag is fresh.
    pub fn child_token(&self) -> (r: ChildToken)
        ensures
            r.parent_flag() == self.flag(),
    {
        ChildToken { parent: self.token(), local_cancelled: Arc::new(AtomicBool::new(false)) }
    }
}

impl Default for CancellationTokenSource {
    fn default() -> (r: CancellationTokenSource) {
        CancellationTokenSource::new()
    }
}

/// A token cancelled when its parent is, or by its own `cancel`.
#[derive(Clone)]
pub struct ChildToken {
    parent: CancellationToken,
    local_cancelled: Arc<AtomicBool>,
}

/// The text "true" or "false".
pub open spec fn bool_text(b: bool) -> Seq<char> {
    if b {
        seq!['t', 'r', 'u', 'e']
    } else {
        seq!['f', 'a', 'l', 's', 'e']
    }
}

/// How a child token with the given flags describes itself.
pub open spec fn child_token_text(parent: bool, local: bool) -> Seq<char> {
    "ChildToken { parent_cancelled: "@ + bool_text(parent) + ", local_cancelled: "@ + bool_text(local)
        + ", is_cancelled: "@ + bool_text(parent || local) + " }"@
}

/// Appends "true" or "false".
fn push_bool(s: &mut String, b: bool)
    ensures
        final(s)@ == old(s)@ + bool_text(b),
{
    proof {
        reveal_strlit("true");
        reveal_strlit("false");
    }
    if b {
        s.append("true");
    } else {
        s.append("false");
    }
}

/// The description of a child token with the given flags.
pub fn describe_child_token(parent: bool, local: bool) -> (r: String)
    ensures
        r@ == child_token_text(parent, local),
{
    let mut s = "ChildToken { parent_cancelled: ".to_string();
    push_bool(&mut s, parent);
    s.append(", local_cancelled: ");
    push_bool(&mut s, local);
    s.append(", is_cancelled: ");
    push_bool(&mut s, parent || local);
    s.append(" }");
    s
}

impl ChildToken {
    /// The flag of the parent token.
    pub closed spec fn parent_flag(&self) -> Arc<AtomicBool> {
        self.parent.cancelled
    }

    /// Returns true if the parent or the child itself has been cancelled.
    pub fn is_cancelled(&self) -> (r: bool) {
        self.parent.is_cancelled() || self.local_cancelled.load(Ordering::SeqCst)
    }

    /// Cancels this child alone; the parent and other children keep their state.
    pub fn cancel(&self) {
        self.local_cancelled.store(true, Ordering::SeqCst);
    }

    /// Describes the token with its current flags, as
    /// `ChildToken { parent_cancelled: .., local_cancelled: .., is_cancelled: .. }`.
    pub fn debug_string(&self) -> (r: String)
        ensures
            exists|p: bool, l: bool| r@ == child_token_text(p, l),
    {
        let p = self.parent.is_cancelled();
        let l = self.local_cancelled.load(Ordering::SeqCst);
        describe_child_token(p, l)
    }
}

} // verus!
