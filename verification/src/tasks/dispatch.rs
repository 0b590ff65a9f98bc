//! The decisions of task dispatch: sanitizing errors, labelling model calls,
//! inserting a task, and recording its start and its outcome. The caller
//! runs the provider call and reads files between these steps.

use vstd::prelude::*;

use crate::llm::{LlmProvider, LlmRequest, LlmRequestKind, MOCK_MODEL};
use crate::pipeline::routing::Trigger;
use crate::tasks::ids::DedupIdentity;
use crate::tasks::staleness::{inline_stale_after_read, is_inline_result_stale, is_result_stale, stale_after_read};
use crate::tasks::store::TaskStore;
use crate::tasks::types::{TaskEvent, TaskMetadata, TaskResult, TaskStatus};
use crate::llm::{scrub_secrets, scrubbed};
use crate::text::{drop_controls, join, seq_join, split_whitespace, strip_controls_and_cap, take_chars, views, words};

verus! {

/// The most characters an error carries to the frontend.
pub const MAX_TASK_ERROR: usize = 200;

/// An error as the frontend sees it: key-like words redacted, whitespace
/// collapsed, control characters removed, at most 200 characters.
pub open spec fn scrubbed_error(msg: Seq<char>) -> Seq<char> {
    take_chars(drop_controls(scrubbed(msg)), 200)
}

/// Sanitizes an error string before it reaches the frontend.
pub fn scrub_error(msg: &str) -> (r: String)
    ensures
        r@ == scrubbed_error(msg@),
{
    let s = scrub_secrets(msg);
    strip_controls_and_cap(s.as_str(), MAX_TASK_ERROR)
}

/// Collapses whitespace to single spaces and keeps at most `cap` characters.
pub fn collapse_and_cap(text: &str, cap: usize) -> (r: String)
    ensures
        r@ == take_chars(seq_join(words(text@), " "@), cap as nat),
{
    let ws = split_whitespace(text);
    let joined = join(&ws, " ");
    crate::text::cap_chars(joined.as_str(), cap)
}

/// The snake_case name of a task status.
pub open spec fn status_spelling(status: TaskStatus) -> Seq<char> {
    match status {
        TaskStatus::Queued => "queued"@,
        TaskStatus::Running => "running"@,
        TaskStatus::Completed => "completed"@,
        TaskStatus::Failed => "failed"@,
        TaskStatus::Stale => "stale"@,
    }
}

/// The snake_case name of a task status.
pub fn status_name(status: TaskStatus) -> (r: &'static str)
    ensures
        r@ == status_spelling(status),
{
    match status {
        TaskStatus::Queued => "queued",
        TaskStatus::Running => "running",
        TaskStatus::Completed => "completed",
        TaskStatus::Failed => "failed",
        TaskStatus::Stale => "stale",
    }
}

/// The model shown for a call: a provider's fixed model wins; otherwise the
/// request's model when it is set and not empty; otherwise "<unset>".
pub open spec fn model_label(provider: LlmProvider, request: LlmRequest) -> Seq<char> {
    match provider {
        LlmProvider::Mock => MOCK_MODEL@,
        LlmProvider::Real => match request.model {
            Some(m) => if m@.len() > 0 {
                m@
            } else {
                "<unset>"@
            },
            None => "<unset>"@,
        },
    }
}

/// The model id shown for an outgoing call.
pub fn llm_call_model_label(provider: &LlmProvider, request: &LlmRequest) -> (r: String)
    ensures
        r@ == model_label(*provider, *request),
{
    match provider.serving_model() {
        Some(m) => m.to_owned(),
        None => match &request.model {
            Some(m) => {
                if crate::text::is_empty_str(m.as_str()) {
                    "<unset>".to_owned()
                } else {
                    m.clone()
                }
            },
            None => "<unset>".to_owned(),
        },
    }
}

/// The error of a dispatch refused as a duplicate.
pub const DUPLICATE_TASK: &'static str = "duplicate automatic task already in progress";

/// Dispatches a task: inserts it into the store and returns its id. An
/// automatic task whose identity is already in flight is refused with
/// `DUPLICATE_TASK` and the store is unchanged.
pub fn dispatch_task(store: &mut TaskStore, metadata: TaskMetadata, identity: &DedupIdentity) -> (r: Result<String, String>)
    requires
        old(store).wf(),
    ensures
        final(store).wf(),
        identity.trigger == Trigger::Automatic && old(store).active_view().contains(identity.key()) ==> {
            &&& r matches Err(e) && e@ == DUPLICATE_TASK@
            &&& final(store).tasks_view() == old(store).tasks_view()
            &&& final(store).active_view() == old(store).active_view()
        },
        !(identity.trigger == Trigger::Automatic && old(store).active_view().contains(identity.key())) ==> {
            &&& r matches Ok(id) && id@ == metadata.task_id@
            &&& final(store).tasks_view() == old(store).tasks_view().insert(metadata.task_id@, metadata)
            &&& final(store).active_view() == old(store).active_view().insert(identity.key())
        },
{
    match store.insert(metadata, identity) {
        Some(task_id) => Ok(task_id),
        None => Err(DUPLICATE_TASK.to_owned()),
    }
}

/// Records that a task started running and returns the event announcing it.
pub fn start_task(store: &mut TaskStore, task_id: &str, kind: LlmRequestKind) -> (e: TaskEvent)
    requires
        old(store).wf(),
    ensures
        final(store).wf(),
        final(store).active_view() == old(store).active_view(),
        final(store).tasks_view() == if old(store).tasks_view().dom().contains(task_id@) {
            old(store).tasks_view().insert(
                task_id@,
                TaskMetadata {
                    status: TaskStatus::Running,
                    stale: false,
                    error: None,
                    ..old(store).tasks_view()[task_id@]
                },
            )
        } else {
            old(store).tasks_view()
        },
        e.task_id@ == task_id@,
        e.status == TaskStatus::Running,
        e.kind == kind,
        !e.stale,
        e.error is None,
{
    store.update(task_id, TaskStatus::Running, false, None);
    TaskEvent { task_id: task_id.to_owned(), status: TaskStatus::Running, kind, stale: false, error: None }
}

/// The line hash an inline task is checked against; a task without one is
/// checked against the empty hash.
pub open spec fn line_hash_of(m: TaskMetadata) -> Seq<char> {
    match m.line_text_hash {
        Some(h) => h@,
        None => Seq::empty(),
    }
}

/// Whether a read of the task's file makes its result stale: inline tasks
/// check their command line, all others the whole file.
pub open spec fn task_stale_after_read(m: TaskMetadata, read: Result<String, ()>) -> bool {
    if m.trigger == Trigger::Inline {
        inline_stale_after_read(read, line_hash_of(m))
    } else {
        stale_after_read(read, m.source_hash@)
    }
}

/// Whether a finished task's result is stale. Without a file path it counts
/// as fresh; otherwise the file is read with `read_file`.
pub fn task_is_stale<F: Fn(&str) -> Result<String, ()>>(metadata: &TaskMetadata, read_file: F) -> (r: bool)
    requires
        forall|p: &str| read_file.requires((p,)),
    ensures
        match metadata.file_path {
            None => !r,
            Some(fp) => exists|x: &str, read: Result<String, ()>|
                x@ == fp@ && read_file.ensures((x,), read) && r == task_stale_after_read(*metadata, read),
        },
{
    match &metadata.file_path {
        None => {
            if metadata.trigger == Trigger::Inline {
                is_inline_result_stale(None, "", read_file)
            } else {
                is_result_stale(None, metadata.source_hash.as_str(), read_file)
            }
        },
        Some(fp) => {
            let path = fp.as_str();
            if metadata.trigger == Trigger::Inline {
                let line_hash: &str = match &metadata.line_text_hash {
                    Some(h) => h.as_str(),
                    None => "",
                };
                proof {
                    reveal_strlit("");
                    assert(line_hash@ == line_hash_of(*metadata));
                }
                let r = is_inline_result_stale(Some(path), line_hash, read_file);
                proof {
                    let read = choose|read: Result<String, ()>|
                        read_file.ensures((path,), read) && r == inline_stale_after_read(read, line_hash@);
                    assert(path@ == fp@ && read_file.ensures((path,), read) && r == task_stale_after_read(*metadata, read));
                }
                r
            } else {
                let r = is_result_stale(Some(path), metadata.source_hash.as_str(), read_file);
                proof {
                    let read = choose|read: Result<String, ()>|
                        read_file.ensures((path,), read) && r == stale_after_read(read, metadata.source_hash@);
                    assert(path@ == fp@ && read_file.ensures((path,), read) && r == task_stale_after_read(*metadata, read));
                }
                r
            }
        },
    }
}

/// What a finished task reports: a result and its staleness, or the error of
/// the call.
pub open spec fn outcome_status(outcome: Result<(String, bool), String>) -> TaskStatus {
    match outcome {
        Ok((_, stale)) => if stale {
            TaskStatus::Stale
        } else {
            TaskStatus::Completed
        },
        Err(_) => TaskStatus::Failed,
    }
}

/// Records the outcome of a task, clears its identity from the active set,
/// and returns the payload for the frontend: the result, or the sanitized
/// error.
pub fn finish_task(
    store: &mut TaskStore,
    task_id: &str,
    kind: LlmRequestKind,
    outcome: Result<(String, bool), String>,
    identity: &DedupIdentity,
) -> (r: TaskResult)
    requires
        old(store).wf(),
    ensures
        final(store).wf(),
        final(store).active_view() == old(store).active_view().remove(identity.key()),
        r.task_id@ == task_id@,
        r.kind == kind,
        r.status == outcome_status(outcome),
        match outcome {
            Ok((result, stale)) => {
                &&& r.stale == stale
                &&& r.result matches Some(x) && x@ == result@
                &&& r.error is None
            },
            Err(e) => {
                &&& !r.stale
                &&& r.result is None
                &&& r.error matches Some(x) && x@ == scrubbed_error(e@)
            },
        },
        final(store).tasks_view() == if old(store).tasks_view().dom().contains(task_id@) {
            old(store).tasks_view().insert(
                task_id@,
                TaskMetadata {
                    status: r.status,
                    stale: r.stale,
                    error: r.error,
                    ..old(store).tasks_view()[task_id@]
                },
            )
        } else {
            old(store).tasks_view()
        },
{
    let result = match outcome {
        Ok((value, stale)) => {
            let status = if stale { TaskStatus::Stale } else { TaskStatus::Completed };
            store.update(task_id, status, stale, None);
            TaskResult { task_id: task_id.to_owned(), status, kind, stale, result: Some(value), error: None }
        },
        Err(e) => {
            let sanitized = scrub_error(e.as_str());
            store.update(task_id, TaskStatus::Failed, false, Some(sanitized.clone()));
            TaskResult {
                task_id: task_id.to_owned(),
                status: TaskStatus::Failed,
                kind,
                stale: false,
                result: None,
                error: Some(sanitized),
            }
        },
    };
    store.clear_dedup(identity);
    result
}

} // verus!
