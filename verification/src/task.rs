//! Task identifiers, task results and compensation actions.

use crate::cancellation::CancellationToken;
use std::time::Duration;
use vstd::prelude::*;
use vstd::string::StringExecFns;

verus! {

/// Unique identifier for a workflow task; its view is the identifier text.
#[derive(Debug, Hash)]
pub struct TaskId(pub String);

impl View for TaskId {
    type V = Seq<char>;

    open spec fn view(&self) -> Seq<char> {
        self.0@
    }
}

impl TaskId {
    /// Creates a new TaskId from a string.
    pub fn new(id: &str) -> (r: TaskId)
        ensures
            r@ == id@,
    {
        TaskId(id.to_string())
    }

    /// Returns the underlying string identifier.
    pub fn as_str(&self) -> (r: &str)
        ensures
            r@ == self@,
    {
        self.0.as_str()
    }

    /// Consumes the TaskId and returns the underlying string.
    pub fn into_inner(self) -> (r: String)
        ensures
            r@ == self@,
    {
        self.0
    }

    /// The identifier as it is displayed.
    pub fn to_display_string(&self) -> (r: String)
        ensures
            r@ == self@,
    {
        self.0.clone()
    }
}

impl Clone for TaskId {
    fn clone(&self) -> (r: Self)
        ensures
            r@ == self@,
    {
        TaskId(self.0.clone())
    }
}

impl PartialEq for TaskId {
    fn eq(&self, other: &Self) -> (r: bool) {
        self.0 == other.0
    }
}

impl Eq for TaskId {}

impl vstd::std_specs::cmp::PartialEqSpecImpl for TaskId {
    open spec fn obeys_eq_spec() -> bool {
        true
    }

    open spec fn eq_spec(&self, other: &TaskId) -> bool {
        self@ == other@
    }
}

impl From<String> for TaskId {
    fn from(s: String) -> (r: TaskId) {
        TaskId(s)
    }
}

impl vstd::std_specs::convert::FromSpecImpl<String> for TaskId {
    open spec fn obeys_from_spec() -> bool {
        true
    }

    open spec fn from_spec(s: String) -> TaskId {
        TaskId(s)
    }
}

impl From<&str> for TaskId {
    fn from(s: &str) -> (r: TaskId)
        ensures
            r@ == s@,
    {
        TaskId(s.to_string())
    }
}

impl vstd::std_specs::convert::FromSpecImpl<&str> for TaskId {
    open spec fn obeys_from_spec() -> bool {
        false
    }

    open spec fn from_spec(s: &str) -> TaskId {
        choose|t: TaskId| t@ == s@
    }
}

/// Execution context handed to a task: the workflow and task it runs for,
/// and optionally a cancellation token and a time limit.
pub struct TaskContext {
    /// Workflow identifier
    pub workflow_id: String,
    /// Current task identifier
    pub task_id: TaskId,
    cancellation_token: Option<CancellationToken>,
    /// Time limit for the task, if any
    pub task_timeout: Option<Duration>,
}

impl TaskContext {
    /// The cancellation token, if one was given.
    pub closed spec fn token(&self) -> Option<CancellationToken> {
        self.cancellation_token
    }

    /// The workflow identifier.
    pub closed spec fn spec_workflow_id(&self) -> Seq<char> {
        self.workflow_id@
    }

    /// The task identifier.
    pub closed spec fn spec_task_id(&self) -> TaskId {
        self.task_id
    }

    /// The time limit, if any.
    pub closed spec fn spec_timeout(&self) -> Option<Duration> {
        self.task_timeout
    }

    /// A context for task `task_id` of workflow `workflow_id`, with no
    /// cancellation token and no time limit.
    pub fn new(workflow_id: &str, task_id: TaskId) -> (r: TaskContext)
        ensures
            r.spec_workflow_id() == workflow_id@,
            r.spec_task_id() == task_id,
            r.token() is None,
            r.spec_timeout() is None,
    {
        TaskContext { workflow_id: workflow_id.to_string(), task_id, cancellation_token: None, task_timeout: None }
    }

    /// The same context with a cancellation token.
    pub fn with_cancellation_token(self, token: CancellationToken) -> (r: TaskContext)
        ensures
            r.token() == Some(token),
            r.spec_workflow_id() == self.spec_workflow_id(),
            r.spec_task_id() == self.spec_task_id(),
            r.spec_timeout() == self.spec_timeout(),
    {
        let mut s = self;
        s.cancellation_token = Some(token);
        s
    }

    /// The cancellation token, if one was given.
    pub fn cancellation_token(&self) -> (r: Option<&CancellationToken>)
        ensures
            r matches Some(t) ==> self.token() == Some(*t),
            r is None <==> self.token() is None,
    {
        match &self.cancellation_token {
            Some(t) => Some(t),
            None => None,
        }
    }

    /// The same context with a time limit for the task.
    pub fn with_task_timeout(self, timeout: Duration) -> (r: TaskContext)
        ensures
            r.spec_timeout() == Some(timeout),
            r.token() == self.token(),
            r.spec_workflow_id() == self.spec_workflow_id(),
            r.spec_task_id() == self.spec_task_id(),
    {
        let mut s = self;
        s.task_timeout = Some(timeout);
        s
    }

    /// The task's time limit, if any.
    pub fn task_timeout(&self) -> (r: Option<Duration>)
        ensures
            r == self.spec_timeout(),
    {
        self.task_timeout
    }
}

/// Dependency strength between tasks.
#[derive(Clone, Debug, Copy, PartialEq, Eq, Structural)]
pub enum Dependency {
    /// Task must complete successfully (blocking dependency)
    Hard,
    /// Task should complete if possible (non-blocking)
    Soft,
}

/// Type of compensation action for task rollback.
#[derive(Clone, Copy, Debug, PartialEq, Eq, Structural)]
pub enum CompensationType {
    /// Execute undo function to compensate (e.g., delete created file)
    UndoFunction,
    /// No compensation needed (read-only operation)
    Skip,
    /// Recommend retry instead of compensation (transient failure)
    Retry,
}

/// Compensation action that undoes task side effects.
#[derive(Debug, PartialEq, Eq)]
pub struct CompensationAction {
    /// Type of compensation action
    pub action_type: CompensationType,
    /// Human-readable description of the compensation
    pub description: String,
}

impl CompensationAction {
    /// Creates a new CompensationAction.
    pub fn new(action_type: CompensationType, description: &str) -> (r: CompensationAction)
        ensures
            r.action_type == action_type,
            r.description@ == description@,
    {
        CompensationAction { action_type, description: description.to_string() }
    }

    /// Creates a Skip compensation (no undo needed).
    pub fn skip(description: &str) -> (r: CompensationAction)
        ensures
            r.action_type == CompensationType::Skip,
            r.description@ == description@,
    {
        Self::new(CompensationType::Skip, description)
    }

    /// Creates a Retry compensation (recommends retry instead of undo).
    pub fn retry(description: &str) -> (r: CompensationAction)
        ensures
            r.action_type == CompensationType::Retry,
            r.description@ == description@,
    {
        Self::new(CompensationType::Retry, description)
    }

    /// Creates an UndoFunction compensation.
    pub fn undo(description: &str) -> (r: CompensationAction)
        ensures
            r.action_type == CompensationType::UndoFunction,
            r.description@ == description@,
    {
        Self::new(CompensationType::UndoFunction, description)
    }
}

impl Clone for CompensationAction {
    fn clone(&self) -> (r: Self)
        ensures
            r.action_type == self.action_type,
            r.description@ == self.description@,
    {
        CompensationAction { action_type: self.action_type, description: self.description.clone() }
    }
}

/// Execution result for a workflow task.
#[derive(Debug, PartialEq, Eq)]
pub enum TaskResult {
    /// Task completed successfully
    Success,
    /// Task failed with an error message
    Failed(String),
    /// Task was skipped (e.g., due to failed hard dependency)
    Skipped,
    /// Task result with compensation action (for Saga rollback)
    WithCompensation {
        /// The actual result of task execution
        result: Box<TaskResult>,
        /// Compensation action to undo task side effects
        compensation: CompensationAction,
    },
}

/// Error types for task execution.
#[derive(Debug)]
pub enum TaskError {
    /// Task execution failed with a message
    ExecutionFailed(String),
    /// Task dependency failed
    DependencyFailed { dependency: String, reason: String },
    /// Task was skipped due to workflow state
    Skipped(String),
    /// Task exceeded time limit
    Timeout(String),
}

/// The message of a task error.
pub open spec fn task_error_text(e: TaskError) -> Seq<char> {
    match e {
        TaskError::ExecutionFailed(m) => "Task execution failed: "@ + m@,
        TaskError::DependencyFailed { dependency, reason } => "Dependency "@ + dependency@ + " failed: "@ + reason@,
        TaskError::Skipped(m) => "Task skipped: "@ + m@,
        TaskError::Timeout(m) => "Task timeout: "@ + m@,
    }
}

impl TaskError {
    /// The error's message.
    pub fn to_display_string(&self) -> (r: String)
        ensures
            r@ == task_error_text(*self),
    {
        let mut s: String;
        match self {
            TaskError::ExecutionFailed(m) => {
                s = "Task execution failed: ".to_string();
                s.append(m.as_str());
            },
            TaskError::DependencyFailed { dependency, reason } => {
                s = "Dependency ".to_string();
                s.append(dependency.as_str());
                s.append(" failed: ");
                s.append(reason.as_str());
            },
            TaskError::Skipped(m) => {
                s = "Task skipped: ".to_string();
                s.append(m.as_str());
            },
            TaskError::Timeout(m) => {
                s = "Task timeout: ".to_string();
                s.append(m.as_str());
            },
        }
        s
    }
}

/// Copies of the identifiers, in order.
pub(crate) fn clone_ids(v: &Vec<TaskId>) -> (r: Vec<TaskId>)
    ensures
        r@.len() == v@.len(),
        forall|i: int| 0 <= i < r@.len() ==> #[trigger] r@[i]@ == v@[i]@,
{
    let mut r: Vec<TaskId> = Vec::new();
    let mut i: usize = 0;
    while i < v.len()
        invariant
            i <= v@.len(),
            r@.len() == i,
            forall|k: int| 0 <= k < i ==> #[trigger] r@[k]@ == v@[k]@,
        decreases v@.len() - i,
    {
        r.push(v[i].clone());
        i = i + 1;
    }
    r
}

} // verus!
