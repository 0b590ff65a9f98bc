//! Task domain types: lifecycle status, metadata, events and results. None
//! of them carries API key material.

use vstd::prelude::*;

use crate::llm::LlmRequestKind;
use crate::pipeline::routing::Trigger;

verus! {

/// Lifecycle status of a task.
#[derive(Debug, Clone, Copy, PartialEq, Eq, Structural)]
pub enum TaskStatus {
    Queued,
    Running,
    Completed,
    Failed,
    Stale,
}

/// Metadata attached to a task. `focus_start`/`focus_end` are the
/// file-relative byte span of an inline command line and `line_text_hash`
/// the stable hash of that line's raw text; all three are set for inline
/// tasks only.
#[derive(Debug, Clone, PartialEq, Eq)]
pub struct TaskMetadata {
    pub task_id: String,
    pub file_path: Option<String>,
    pub block_hash: String,
    pub source_hash: String,
    pub focus_start: Option<usize>,
    pub focus_end: Option<usize>,
    pub line_text_hash: Option<String>,
    pub trigger: Trigger,
    pub status: TaskStatus,
    pub stale: bool,
    pub error: Option<String>,
}

/// A copy of an optional string.
pub fn copy_opt(s: &Option<String>) -> (r: Option<String>)
    ensures
        r == *s,
{
    match s {
        Some(x) => Some(x.clone()),
        None => None,
    }
}

impl TaskMetadata {
    /// A field-for-field copy.
    pub fn copy(&self) -> (r: TaskMetadata)
        ensures
            r == *self,
    {
        TaskMetadata {
            task_id: self.task_id.clone(),
            file_path: copy_opt(&self.file_path),
            block_hash: self.block_hash.clone(),
            source_hash: self.source_hash.clone(),
            focus_start: self.focus_start,
            focus_end: self.focus_end,
            line_text_hash: copy_opt(&self.line_text_hash),
            trigger: self.trigger,
            status: self.status,
            stale: self.stale,
            error: copy_opt(&self.error),
        }
    }
}

/// A task event: a change of status.
#[derive(Debug, Clone, PartialEq, Eq)]
pub struct TaskEvent {
    pub task_id: String,
    pub status: TaskStatus,
    pub kind: LlmRequestKind,
    pub stale: bool,
    pub error: Option<String>,
}

/// The payload of a finished task: its result as JSON text, or its error.
#[derive(Debug, Clone, PartialEq, Eq)]
pub struct TaskResult {
    pub task_id: String,
    pub status: TaskStatus,
    pub kind: LlmRequestKind,
    pub stale: bool,
    pub result: Option<String>,
    pub error: Option<String>,
}

} // verus!
