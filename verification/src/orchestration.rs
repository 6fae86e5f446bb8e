//! Cloud task orchestration: resource classes and task states with their
//! stored names, which tasks may be cancelled, and the billing period of a
//! month.

use vstd::prelude::*;
use crate::text::str_eq;
use crate::text::concat2;

verus! {

/// Why an orchestration request was refused. Storage failures are carried as messages.
#[derive(Debug)]
pub enum OrchestrationError {
    TaskNotFound(String),
    TaskAlreadyCompleted,
    Database(String),
    Serialization(String),
}

/// The size of machine a task runs on.
#[derive(Clone, Copy, Debug, PartialEq, Eq, Structural)]
pub enum ResourceClass {
    Micro,
    Standard,
    Performance,
}

/// The stored name of a resource class.
pub open spec fn resource_class_name(c: ResourceClass) -> Seq<char> {
    match c {
        ResourceClass::Micro => "micro"@,
        ResourceClass::Standard => "standard"@,
        ResourceClass::Performance => "performance"@,
    }
}

/// The class read from its stored name; anything unknown reads as standard.
pub open spec fn resource_class_named(s: Seq<char>) -> ResourceClass {
    if s == "micro"@ {
        ResourceClass::Micro
    } else if s == "performance"@ {
        ResourceClass::Performance
    } else {
        ResourceClass::Standard
    }
}

impl ResourceClass {
    /// The stored name of the class.
    pub fn as_str(&self) -> (s: &'static str)
        ensures
            s@ == resource_class_name(*self),
    {
        match self {
            ResourceClass::Micro => "micro",
            ResourceClass::Standard => "standard",
            ResourceClass::Performance => "performance",
        }
    }

    /// The class read from its stored name; anything unknown reads as standard.
    pub fn from_str(s: &str) -> (r: ResourceClass)
        ensures
            r == resource_class_named(s@),
    {
        if str_eq(s, "micro") {
            ResourceClass::Micro
        } else if str_eq(s, "performance") {
            ResourceClass::Performance
        } else {
            ResourceClass::Standard
        }
    }
}

/// Reading back the stored name of a class gives the class.
pub proof fn resource_class_roundtrip(c: ResourceClass)
    ensures
        resource_class_named(resource_class_name(c)) == c,
{
    reveal_strlit("micro");
    reveal_strlit("standard");
    reveal_strlit("performance");
    assert("micro"@.len() == 5);
    assert("standard"@.len() == 8);
    assert("performance"@.len() == 11);
}

/// Where a task stands. `started_at` is in milliseconds since the Unix epoch.
#[derive(Debug)]
pub enum TaskStatus {
    Queued,
    Running { started_at: i64, worker_id: String },
    Completed { result: serde_json::Value, duration_ms: u64 },
    Failed { error: String, duration_ms: u64 },
    Cancelled,
}

/// The stored name of a task's state.
pub open spec fn task_state_name(s: TaskStatus) -> Seq<char> {
    match s {
        TaskStatus::Queued => "queued"@,
        TaskStatus::Running { .. } => "running"@,
        TaskStatus::Completed { .. } => "completed"@,
        TaskStatus::Failed { .. } => "failed"@,
        TaskStatus::Cancelled => "cancelled"@,
    }
}

impl TaskStatus {
    /// The stored name of the state.
    pub fn as_state_str(&self) -> (s: &'static str)
        ensures
            s@ == task_state_name(*self),
    {
        match self {
            TaskStatus::Queued => "queued",
            TaskStatus::Running { .. } => "running",
            TaskStatus::Completed { .. } => "completed",
            TaskStatus::Failed { .. } => "failed",
            TaskStatus::Cancelled => "cancelled",
        }
    }
}

impl TaskStatus {
    /// Whether the task may still be cancelled: only while it is queued or
    /// running.
    pub fn is_cancellable(&self) -> (b: bool)
        ensures
            b == (*self is Queued || *self is Running),
    {
        match self {
            TaskStatus::Queued => true,
            TaskStatus::Running { .. } => true,
            _ => false,
        }
    }
}

/// Whether a stored state name is one from which a task may be cancelled.
pub fn state_is_cancellable(state: &str) -> (b: bool)
    ensures
        b == (state@ == "queued"@ || state@ == "running"@),
{
    str_eq(state, "queued") || str_eq(state, "running")
}

/// The outcome of a cancellation, from the number of tasks it changed: none
/// changed means the task had already finished.
pub fn cancel_outcome(updated: usize) -> (r: Result<(), OrchestrationError>)
    ensures
        updated == 0 ==> r matches Err(OrchestrationError::TaskAlreadyCompleted),
        updated > 0 ==> r is Ok,
{
    if updated == 0 {
        Err(OrchestrationError::TaskAlreadyCompleted)
    } else {
        Ok(())
    }
}

/// The workers a deployment has.
pub const TOTAL_WORKERS: u32 = 10;

/// The first and last instants of a month written `YYYY-MM`, as the usage
/// meter bounds it: from day 01 at midnight to day 31 at 23:59:59 UTC.
pub fn usage_period(month: &str) -> (r: (String, String))
    ensures
        r.0@ == month@ + "-01T00:00:00Z"@,
        r.1@ == month@ + "-31T23:59:59Z"@,
{
    (concat2(month, "-01T00:00:00Z"), concat2(month, "-31T23:59:59Z"))
}

} // verus!
