//! Decisions of the task combinators: which branch a conditional task runs
//! once its condition task returned, and when a try-catch task falls back to
//! its catch task. Running the tasks themselves is the caller's part.

use crate::task::{TaskError, TaskResult};
use vstd::prelude::*;

verus! {

/// The outcome a result reports, looking through an attached compensation
/// to the result it carries.
pub open spec fn effective(r: TaskResult) -> TaskResult
    decreases r,
{
    match r {
        TaskResult::WithCompensation { result, .. } => effective(*result),
        _ => r,
    }
}

/// What a conditional task does once its condition task returned.
#[derive(Debug, PartialEq, Eq, Structural)]
pub enum ConditionalStep {
    /// Run the task for a succeeding condition and return its result
    RunThen,
    /// Run the task for a failing condition and return its result
    RunElse,
    /// Return the condition task's own result
    ReturnCondition,
}

/// Whether a result reports success, looking through an attached compensation.
fn succeeded(r: &TaskResult) -> (b: bool)
    ensures
        b <==> effective(*r) == TaskResult::Success,
    decreases r,
{
    match r {
        TaskResult::Success => true,
        TaskResult::WithCompensation { result, .. } => succeeded(result),
        _ => false,
    }
}

/// The branch of a conditional task: a succeeding condition runs the
/// `then` task; a failed or skipped one runs the `else` task when there is
/// one, and otherwise the condition's result is returned.
pub fn conditional_step(condition: &TaskResult, has_else: bool) -> (r: ConditionalStep)
    ensures
        effective(*condition) == TaskResult::Success ==> r == ConditionalStep::RunThen,
        effective(*condition) != TaskResult::Success && has_else ==> r == ConditionalStep::RunElse,
        effective(*condition) != TaskResult::Success && !has_else ==> r == ConditionalStep::ReturnCondition,
{
    if succeeded(condition) {
        ConditionalStep::RunThen
    } else if has_else {
        ConditionalStep::RunElse
    } else {
        ConditionalStep::ReturnCondition
    }
}

/// Whether a try-catch task runs its catch task: whenever the try task did
/// not succeed, whether it returned an error, a failure or a skip.
pub fn needs_catch(try_result: &Result<TaskResult, TaskError>) -> (r: bool)
    ensures
        r <==> !(*try_result matches Ok(t) && effective(t) == TaskResult::Success),
{
    match try_result {
        Ok(t) => !succeeded(t),
        Err(_) => true,
    }
}

} // verus!
