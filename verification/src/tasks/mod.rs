//! The task layer of the AI pipeline: task metadata and ids, stale checks,
//! the in-memory task store, and the decisions of submitting, dispatching
//! and finishing a task.

pub mod commands;
pub mod dispatch;
pub mod ids;
pub mod staleness;
pub mod store;
pub mod types;

pub use commands::{submit_block, submit_fact_check, submit_research, TaskLaunch};
pub use dispatch::{collapse_and_cap, dispatch_task, llm_call_model_label, scrub_error, status_name};
pub use ids::{dedup_identity, fact_check_task_id, research_task_id, task_id_from_identity, DedupIdentity};
pub use staleness::{is_inline_result_stale, is_result_stale};
pub use store::TaskStore;
pub use types::{TaskEvent, TaskMetadata, TaskResult, TaskStatus};
