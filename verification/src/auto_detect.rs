//! Automatic dependency detection: the decisions on suggested dependencies.
//!
//! Suggestions come from an impact analysis of the code graph. Which symbol
//! a task's target matches, and which suggestions survive (the first of each
//! `(from, to)` pair, and none that the workflow already has), is decided
//! here; the confidence of a suggestion is a floating-point score and is
//! kept by the caller.

use crate::dag::{lists_id, Workflow};
use crate::task::TaskId;
use crate::text::{contains_str, decimal, push_decimal, text_contains};
use vstd::string::StringExecFns;
use vstd::prelude::*;

verus! {

/// Reason for a suggested dependency.
#[derive(Clone, Debug, PartialEq, Eq)]
pub enum DependencyReason {
    /// Symbol impact analysis detected dependency
    SymbolImpact {
        /// Symbol that is impacted
        symbol: String,
        /// Hop distance
        hops: u32,
    },
    /// Direct reference detected
    Reference {
        /// Referenced symbol
        symbol: String,
    },
    /// Function call detected
    Call {
        /// Called function
        function: String,
    },
}

/// How a suggestion's reason reads in a preview.
pub open spec fn reason_text(reason: DependencyReason) -> Seq<char> {
    match reason {
        DependencyReason::SymbolImpact { symbol, hops } => "symbol '"@ + symbol@ + "' impact ("@ + decimal(hops as nat)
            + " hops)"@,
        DependencyReason::Reference { symbol } => "reference to '"@ + symbol@ + "'"@,
        DependencyReason::Call { function } => "call to '"@ + function@ + "'"@,
    }
}

impl DependencyReason {
    /// The reason as a preview shows it: `symbol 'S' impact (N hops)`,
    /// `reference to 'S'` or `call to 'F'`.
    pub fn describe(&self) -> (r: String)
        ensures
            r@ == reason_text(*self),
    {
        match self {
            DependencyReason::SymbolImpact { symbol, hops } => {
                let mut t = "symbol '".to_string();
                t.append(symbol.as_str());
                t.append("' impact (");
                push_decimal(&mut t, *hops as usize);
                t.append(" hops)");
                t
            },
            DependencyReason::Reference { symbol } => {
                let mut t = "reference to '".to_string();
                t.append(symbol.as_str());
                t.append("'");
                t
            },
            DependencyReason::Call { function } => {
                let mut t = "call to '".to_string();
                t.append(function.as_str());
                t.append("'");
                t
            },
        }
    }
}

/// A target matches a symbol when they are equal or one contains the other.
pub open spec fn symbols_match(target: Seq<char>, symbol_name: Seq<char>) -> bool {
    target == symbol_name || text_contains(symbol_name, target) || text_contains(target, symbol_name)
}

/// Whether the target symbol `target` matches the symbol `symbol_name`:
/// exact match, or either contains the other.
pub fn symbol_matches(target: &str, symbol_name: &str) -> (r: bool)
    ensures
        r == symbols_match(target@, symbol_name@),
{
    proof {
        if target@ == symbol_name@ {
            assert(text_contains(symbol_name@, target@)) by {
                assert(symbol_name@.subrange(0int, 0int + target@.len()) =~= target@);
            }
        }
    }
    contains_str(symbol_name, target) || contains_str(target, symbol_name)
}

/// The workflow already has the dependency `from -> to`: `to` is one of its
/// tasks and depends on a task named `from`.
pub open spec fn is_existing_dependency(w: &Workflow, from: Seq<char>, to: Seq<char>) -> bool {
    w.has_task(to) && w.depends_on_id(w.index_of(to) as nat, from)
}

/// Whether the workflow already has the dependency `from -> to`.
fn existing_dependency(workflow: &Workflow, from: &TaskId, to: &TaskId) -> (r: bool)
    requires
        workflow.wf(),
    ensures
        r == is_existing_dependency(workflow, from@, to@),
{
    match workflow.task_dependencies(to) {
        None => false,
        Some(deps) => {
            let mut k: usize = 0;
            while k < deps.len()
                invariant
                    k <= deps@.len(),
                    forall|j: int| 0 <= j < k ==> #[trigger] deps@[j]@ != from@,
                    workflow.has_task(to@),
                    forall|x: Seq<char>|
                        lists_id(deps@, x) <==> #[trigger] workflow.depends_on_id(workflow.index_of(to@) as nat, x),
                decreases deps@.len() - k,
            {
                if deps[k] == *from {
                    proof {
                        assert(deps@[k as int]@ == from@);
                        assert(lists_id(deps@, from@));
                    }
                    return true;
                }
                k = k + 1;
            }
            proof {
                assert(!lists_id(deps@, from@));
            }
            false
        },
    }
}

/// Suggestion `i` is the first of its `(from, to)` pair and not a dependency
/// the workflow already has.
pub open spec fn keeps_suggestion(w: &Workflow, pairs: Seq<(TaskId, TaskId)>, i: int) -> bool {
    &&& forall|j: int| 0 <= j < i ==> !(#[trigger] pairs[j].0@ == pairs[i].0@ && pairs[j].1@ == pairs[i].1@)
    &&& !is_existing_dependency(w, pairs[i].0@, pairs[i].1@)
}

/// The indices below `n` of the suggestions kept, in increasing order.
pub open spec fn kept_upto(w: &Workflow, pairs: Seq<(TaskId, TaskId)>, n: nat) -> Seq<nat>
    decreases n,
{
    if n == 0 {
        Seq::empty()
    } else {
        let prev = kept_upto(w, pairs, (n - 1) as nat);
        if keeps_suggestion(w, pairs, n - 1) {
            prev.push((n - 1) as nat)
        } else {
            prev
        }
    }
}

/// The suggestions `(from, to)` that dependency detection keeps, by index
/// and in order: of several equal pairs the first, and none that the
/// workflow already has.
pub fn new_suggestion_indices(workflow: &Workflow, pairs: &Vec<(TaskId, TaskId)>) -> (r: Vec<usize>)
    requires
        workflow.wf(),
    ensures
        r@.map_values(|i: usize| i as nat) == kept_upto(workflow, pairs@, pairs@.len()),
{
    let mut r: Vec<usize> = Vec::new();
    let mut i: usize = 0;
    while i < pairs.len()
        invariant
            workflow.wf(),
            i <= pairs@.len(),
            r@.map_values(|x: usize| x as nat) == kept_upto(workflow, pairs@, i as nat),
        decreases pairs@.len() - i,
    {
        let mut first = true;
        let mut j: usize = 0;
        while j < i
            invariant
                i < pairs@.len(),
                j <= i,
                first <==> forall|m: int|
                    0 <= m < j ==> !(#[trigger] pairs@[m].0@ == pairs@[i as int].0@ && pairs@[m].1@ == pairs@[i as int].1@),
            decreases i - j,
        {
            if pairs[j].0 == pairs[i].0 && pairs[j].1 == pairs[i].1 {
                first = false;
            }
            j = j + 1;
        }
        let keep = first && !existing_dependency(workflow, &pairs[i].0, &pairs[i].1);
        proof {
            assert(keep == keeps_suggestion(workflow, pairs@, i as int));
        }
        if keep {
            r.push(i);
        }
        proof {
            assert(r@.map_values(|x: usize| x as nat) =~= kept_upto(workflow, pairs@, (i + 1) as nat));
        }
        i = i + 1;
    }
    r
}

} // verus!
