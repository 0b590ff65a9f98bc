//! Submitting tasks: the decisions behind the submit commands. The caller
//! computes the source hash (which may read the note's file) and runs the
//! provider call for the task that comes back.

use vstd::prelude::*;

use crate::text::opt_view;
use vstd::utf8::*;

use crate::llm::{LlmRequest, LlmRequestKind, RequestView};
use crate::pipeline::blocks::MarkdownBlock;
use crate::pipeline::hash::{spec_stable_hash, stable_hash};
use crate::pipeline::markdown::{
    all_slice_source, block_model, block_models, blocks_of_tree, lemma_blocks_slice_source, markdown_tree_of,
    parse_markdown_blocks, BlockModel,
};
use crate::pipeline::prompts::{
    build_extraction_request, build_fact_check_request, build_research_request, extraction_prompt, fact_check_prompt,
    research_prompt, EXTRACTION_MAX_TOKENS, EXTRACTION_SYSTEM_PROMPT, FACT_CHECK_MAX_TOKENS, FACT_CHECK_SYSTEM_PROMPT,
    RESEARCH_MAX_TOKENS, RESEARCH_SYSTEM_PROMPT,
};
use crate::pipeline::routing::{route_block, route_for, RoutingDecision, Trigger};
use crate::pipeline::slash::{
    build_inline_envelope, command_name, focus_of, inline_task_id, is_command_line, lemma_command_line_unique,
    lemma_parsed_block, line_parse, parse_slash_command_in_block, ParsedSlashCommand, SlashCommand,
};
use crate::tasks::dispatch::dispatch_task;
use crate::tasks::ids::{
    dedup_identity, fact_check_task_id, identity_task_id, research_task_id, task_id_from_identity, DedupIdentity,
    DedupKey,
};
use crate::tasks::store::TaskStore;
use crate::tasks::types::{TaskMetadata, TaskStatus};
use crate::text::{slice_str, underscored, utf8, views};

verus! {

/// A dispatched task for the caller to run: its id, the request to send, its
/// metadata, and its dedup identity.
pub struct TaskLaunch {
    pub task_id: String,
    pub request: LlmRequest,
    pub metadata: TaskMetadata,
    pub identity: DedupIdentity,
}

/// A block has a first command line.
pub open spec fn has_command_line(m: BlockModel) -> bool {
    exists|s: int, e: int| is_command_line(utf8(m.text), s, e)
}

/// The first block from `i` on that is not excluded and has a command line.
pub open spec fn first_commanded(ms: Seq<BlockModel>, i: int) -> Option<int>
    decreases ms.len() - i,
{
    if i < 0 || i >= ms.len() {
        None
    } else if !ms[i].excluded && has_command_line(ms[i]) {
        Some(i)
    } else {
        first_commanded(ms, i + 1)
    }
}

/// The first block from `i` on that is not excluded.
pub open spec fn first_included(ms: Seq<BlockModel>, i: int) -> Option<int>
    decreases ms.len() - i,
{
    if i < 0 || i >= ms.len() {
        None
    } else if !ms[i].excluded {
        Some(i)
    } else {
        first_included(ms, i + 1)
    }
}

/// The block a submitted text is about: the first non-excluded block with a
/// command, else the first non-excluded block.
pub open spec fn chosen_block(ms: Seq<BlockModel>) -> Option<int> {
    match first_commanded(ms, 0) {
        Some(k) => Some(k),
        None => first_included(ms, 0),
    }
}

/// The span of a block's first command line.
pub open spec fn command_span(m: BlockModel) -> (int, int) {
    choose|s: int, e: int| is_command_line(utf8(m.text), s, e)
}

/// A block's command: the command, its focus text, and the byte span of its
/// line within the block text.
pub open spec fn block_command(m: BlockModel) -> Option<(SlashCommand, Seq<char>, int, int)> {
    if !m.excluded && has_command_line(m) {
        let (s, e) = command_span(m);
        let l = utf8(m.text).subrange(s, e);
        match line_parse(l) {
            Some((c, ts, te, sel)) => Some((c, focus_of(l, ts, te, sel), s, e)),
            None => None,
        }
    } else {
        None
    }
}

/// The routing decision for a block.
pub open spec fn block_decision(m: BlockModel) -> RoutingDecision {
    route_for(
        m.excluded,
        m.text,
        m.kind,
        match block_command(m) {
            Some((c, _, _, _)) => Some(c),
            None => None,
        },
    )
}

/// Metadata of a freshly queued task.
pub open spec fn queued_metadata(
    m: TaskMetadata,
    task_id: Seq<char>,
    file_path: Option<Seq<char>>,
    block_hash: Seq<char>,
    source_hash: Seq<char>,
    focus: Option<(int, int)>,
    line_hash: Option<Seq<char>>,
    trigger: Trigger,
) -> bool {
    &&& m.task_id@ == task_id
    &&& opt_view(m.file_path) == file_path
    &&& m.block_hash@ == block_hash
    &&& m.source_hash@ == source_hash
    &&& match focus {
        Some((a, b)) => m.focus_start == Some(a as usize) && m.focus_end == Some(b as usize),
        None => m.focus_start is None && m.focus_end is None,
    }
    &&& opt_view(m.line_text_hash) == line_hash
    &&& m.trigger == trigger
    &&& m.status == TaskStatus::Queued
    &&& !m.stale
    &&& m.error is None
}

/// The identity text of an inline command in a block.
pub open spec fn inline_identity_of(block_hash: Seq<char>, c: SlashCommand, focus: Seq<char>) -> Seq<char> {
    block_hash + ":"@ + command_name(c) + ":"@ + focus + ":"@ + "line"@
}

/// The task `submit_block` launches for block `m` under decision `d`.
pub open spec fn block_launch(
    l: TaskLaunch,
    m: BlockModel,
    d: RoutingDecision,
    file_path: Option<Seq<char>>,
    source_hash: Seq<char>,
    small_model: Seq<char>,
    large_model: Seq<char>,
) -> bool {
    &&& l.task_id@ == l.metadata.task_id@
    &&& match (d, block_command(m)) {
        (RoutingDecision::FactCheck, Some((c, focus, s, e))) => {
            &&& l.request.view() == (RequestView {
                kind: LlmRequestKind::FactCheck,
                model: Some(small_model),
                system_prompt: Some(FACT_CHECK_SYSTEM_PROMPT@),
                user_prompt: fact_check_prompt(focus, m.text, m.heading_chain, source_hash),
                max_tokens: Some(FACT_CHECK_MAX_TOKENS),
            })
            &&& queued_metadata(
                l.metadata,
                underscored(spec_stable_hash(inline_identity_of(m.block_hash, c, focus))),
                file_path,
                m.block_hash,
                source_hash,
                Some((m.start + s, m.start + e)),
                Some(spec_stable_hash(decode_utf8(utf8(m.text).subrange(s, e)))),
                Trigger::Inline,
            )
            &&& l.identity.key() == (m.block_hash, Trigger::Inline, LlmRequestKind::FactCheck)
        },
        (RoutingDecision::Research, Some((c, focus, s, e))) => {
            &&& l.request.view() == (RequestView {
                kind: LlmRequestKind::Research,
                model: Some(large_model),
                system_prompt: Some(RESEARCH_SYSTEM_PROMPT@),
                user_prompt: research_prompt(focus, Seq::empty(), m.text),
                max_tokens: Some(RESEARCH_MAX_TOKENS),
            })
            &&& queued_metadata(
                l.metadata,
                underscored(spec_stable_hash(inline_identity_of(m.block_hash, c, focus))),
                file_path,
                m.block_hash,
                source_hash,
                Some((m.start + s, m.start + e)),
                Some(spec_stable_hash(decode_utf8(utf8(m.text).subrange(s, e)))),
                Trigger::Inline,
            )
            &&& l.identity.key() == (m.block_hash, Trigger::Inline, LlmRequestKind::Research)
        },
        _ => {
            &&& l.request.view() == (RequestView {
                kind: LlmRequestKind::Extraction,
                model: Some(small_model),
                system_prompt: Some(EXTRACTION_SYSTEM_PROMPT@),
                user_prompt: extraction_prompt(m.text),
                max_tokens: Some(EXTRACTION_MAX_TOKENS),
            })
            &&& queued_metadata(
                l.metadata,
                identity_task_id(m.block_hash, Trigger::Automatic, LlmRequestKind::Extraction),
                file_path,
                m.block_hash,
                source_hash,
                None,
                None,
                Trigger::Automatic,
            )
            &&& l.identity.key() == (m.block_hash, Trigger::Automatic, LlmRequestKind::Extraction)
        },
    }
}

/// The index of the block a submitted text is about.
fn select_block(blocks: &Vec<MarkdownBlock>) -> (r: Option<usize>)
    ensures
        match r {
            Some(k) => chosen_block(block_models(blocks@)) == Some(k as int) && k < blocks@.len(),
            None => chosen_block(block_models(blocks@)) is None,
        },
{
    let ghost ms = block_models(blocks@);
    let mut i: usize = 0;
    while i < blocks.len()
        invariant
            i <= blocks@.len(),
            ms == block_models(blocks@),
            first_commanded(ms, 0) == first_commanded(ms, i as int),
        decreases blocks@.len() - i,
    {
        assert(ms[i as int] == block_model(blocks@[i as int]));
        if !blocks[i].excluded {
            let parsed = parse_slash_command_in_block(&blocks[i]);
            proof {
                lemma_parsed_block(blocks@[i as int], parsed);
            }
            match parsed {
                Some(p) => {
                    assert(is_command_line(utf8(ms[i as int].text), p.line_start as int, p.line_end as int));
                    assert(has_command_line(ms[i as int]));
                    return Some(i);
                },
                None => {
                    assert(!has_command_line(ms[i as int]));
                },
            }
        }
        i = i + 1;
    }
    let mut j: usize = 0;
    while j < blocks.len()
        invariant
            j <= blocks@.len(),
            ms == block_models(blocks@),
            first_commanded(ms, 0) is None,
            first_included(ms, 0) == first_included(ms, j as int),
        decreases blocks@.len() - j,
    {
        assert(ms[j as int] == block_model(blocks@[j as int]));
        if !blocks[j].excluded {
            return Some(j);
        }
        j = j + 1;
    }
    None
}

/// What the block's parsed command is in terms of its model.
proof fn lemma_block_command(block: MarkdownBlock, parsed: Option<ParsedSlashCommand>)
    requires
        block.excluded ==> parsed is None,
        !block.excluded ==> match parsed {
            None => forall|s: int, e: int|
                crate::pipeline::slash::is_line(utf8(block.text@), s, e) ==> line_parse(utf8(block.text@).subrange(s, e)) is None,
            Some(p) => {
                &&& crate::pipeline::slash::is_line(utf8(block.text@), p.line_start as int, p.line_end as int)
                &&& forall|s: int, e: int|
                    crate::pipeline::slash::is_line(utf8(block.text@), s, e) && s < p.line_start ==> line_parse(
                        utf8(block.text@).subrange(s, e),
                    ) is None
                &&& crate::pipeline::slash::parsed_from_line(p, utf8(block.text@).subrange(p.line_start as int, p.line_end as int))
            },
        },
    ensures
        match parsed {
            None => block_command(block_model(block)) is None,
            Some(p) => block_command(block_model(block)) == Some(
                (p.command, p.focus_text@, p.line_start as int, p.line_end as int),
            ),
        },
{
    lemma_parsed_block(block, parsed);
    let m = block_model(block);
    match parsed {
        Some(p) => {
            assert(is_command_line(utf8(m.text), p.line_start as int, p.line_end as int));
            let (s, e) = command_span(m);
            assert(is_command_line(utf8(m.text), s, e));
            lemma_command_line_unique(utf8(m.text), s, e, p.line_start as int, p.line_end as int);
        },
        None => {},
    }
}

/// Processes a submitted piece of Markdown: parses it, picks the block (the
/// first non-excluded block with a command, else the first non-excluded
/// block), routes it, and dispatches the task the decision calls for: an
/// inline fact-check or research task for an inline command, an extraction
/// task for a block that needs one. `/ignore` and skipped blocks dispatch
/// nothing, and neither does a duplicate automatic task. The source hash is
/// only used, and its error only returned, when a task is dispatched.
pub fn submit_block(
    store: &mut TaskStore,
    file_path: Option<String>,
    block_text: &str,
    source_hash: Result<String, String>,
    small_model: &str,
    large_model: &str,
) -> (r: Result<Option<TaskLaunch>, String>)
    requires
        old(store).wf(),
    ensures
        final(store).wf(),
        ({
            let ms = blocks_of_tree(markdown_tree_of(block_text@), utf8(block_text@));
            match chosen_block(ms) {
                None => r matches Ok(None) && final(store).tasks_view() == old(store).tasks_view()
                    && final(store).active_view() == old(store).active_view(),
                Some(k) => {
                    let m = ms[k];
                    let d = block_decision(m);
                    if d == RoutingDecision::Ignore || d == RoutingDecision::Skip {
                        r matches Ok(None) && final(store).tasks_view() == old(store).tasks_view()
                            && final(store).active_view() == old(store).active_view()
                    } else {
                        match source_hash {
                            Err(e) => r == Err::<Option<TaskLaunch>, String>(e) && final(store).tasks_view()
                                == old(store).tasks_view() && final(store).active_view()
                                == old(store).active_view(),
                            Ok(h) => {
                                let automatic = d != RoutingDecision::FactCheck && d != RoutingDecision::Research;
                                let key = (m.block_hash, Trigger::Automatic, LlmRequestKind::Extraction);
                                if automatic && old(store).active_view().contains(key) {
                                    r matches Ok(None) && final(store).tasks_view() == old(store).tasks_view()
                                        && final(store).active_view() == old(store).active_view()
                                } else {
                                    r matches Ok(Some(l)) && {
                                        &&& block_launch(l, m, d, opt_view(file_path), h@, small_model@, large_model@)
                                        &&& final(store).tasks_view() == old(store).tasks_view().insert(
                                            l.metadata.task_id@,
                                            l.metadata,
                                        )
                                        &&& final(store).active_view() == old(store).active_view().insert(
                                            l.identity.key(),
                                        )
                                    }
                                }
                            },
                        }
                    }
                },
            }
        }),
{
    let blocks = parse_markdown_blocks(block_text);
    let ghost ms = blocks_of_tree(markdown_tree_of(block_text@), utf8(block_text@));
    proof {
        lemma_blocks_slice_source(markdown_tree_of(block_text@), block_text@);
    }
    let k = match select_block(&blocks) {
        None => return Ok(None),
        Some(k) => k,
    };
    let block = &blocks[k];
    assert(ms[k as int] == block_model(blocks@[k as int]));
    let command = parse_slash_command_in_block(block);
    proof {
        lemma_block_command(*block, command);
    }
    let decision = route_block(block, command.as_ref());
    match decision {
        RoutingDecision::Ignore | RoutingDecision::Skip => return Ok(None),
        _ => {},
    }
    let source_hash = match source_hash {
        Ok(h) => h,
        Err(e) => return Err(e),
    };
    let input_len = block_text.as_bytes().len();
    let (request, metadata, identity) = match (decision, &command) {
        (RoutingDecision::FactCheck, Some(parsed)) | (RoutingDecision::Research, Some(parsed)) => {
            proof {
                assert(crate::pipeline::markdown::slices_source(ms[k as int], utf8(block_text@)));
                assert(utf8(block.text@).len() == block.end - block.start);
            }
            let envelope = build_inline_envelope(block, parsed, None);
            let is_fact_check = match decision {
                RoutingDecision::FactCheck => true,
                _ => false,
            };
            let request = if is_fact_check {
                build_fact_check_request(
                    parsed.focus_text.as_str(),
                    block.text.as_str(),
                    block.heading_chain.as_slice(),
                    source_hash.as_str(),
                    small_model,
                )
            } else {
                build_research_request(parsed.focus_text.as_str(), "", block.text.as_str(), large_model)
            };
            proof {
                reveal_strlit("");
            }
            let line = slice_str(block.text.as_str(), parsed.line_start, parsed.line_end);
            let line_hash = stable_hash(line);
            let task_id = inline_task_id(&envelope);
            let kind = if is_fact_check {
                LlmRequestKind::FactCheck
            } else {
                LlmRequestKind::Research
            };
            let metadata = TaskMetadata {
                task_id,
                file_path,
                block_hash: block.block_hash.clone(),
                source_hash,
                focus_start: Some(envelope.focus_ref.start),
                focus_end: Some(envelope.focus_ref.end),
                line_text_hash: Some(line_hash),
                trigger: Trigger::Inline,
                status: TaskStatus::Queued,
                stale: false,
                error: None,
            };
            let identity = dedup_identity(block.block_hash.as_str(), Trigger::Inline, kind);
            (request, metadata, identity)
        },
        _ => {
            let request = build_extraction_request(block, small_model);
            let task_id = task_id_from_identity(
                block.block_hash.as_str(),
                &Trigger::Automatic,
                &LlmRequestKind::Extraction,
            );
            let metadata = TaskMetadata {
                task_id,
                file_path,
                block_hash: block.block_hash.clone(),
                source_hash,
                focus_start: None,
                focus_end: None,
                line_text_hash: None,
                trigger: Trigger::Automatic,
                status: TaskStatus::Queued,
                stale: false,
                error: None,
            };
            let identity = dedup_identity(block.block_hash.as_str(), Trigger::Automatic, LlmRequestKind::Extraction);
            (request, metadata, identity)
        },
    };
    let kept = metadata.copy();
    match dispatch_task(store, metadata, &identity) {
        Ok(task_id) => Ok(Some(TaskLaunch { task_id, request, metadata: kept, identity })),
        Err(_) => Ok(None),
    }
}


/// Submits an explicit fact-check of a claim. Explicit commands are never
/// deduplicated, so the task is always dispatched; its id carries the hash
/// of the claim.
pub fn submit_fact_check(
    store: &mut TaskStore,
    file_path: Option<String>,
    claim_text: &str,
    block_text: &str,
    heading_chain: &[String],
    source_hash: String,
    small_model: &str,
) -> (r: Result<TaskLaunch, String>)
    requires
        old(store).wf(),
    ensures
        final(store).wf(),
        r matches Ok(l) && {
            &&& l.task_id@ == l.metadata.task_id@
            &&& l.request.view() == (RequestView {
                kind: LlmRequestKind::FactCheck,
                model: Some(small_model@),
                system_prompt: Some(FACT_CHECK_SYSTEM_PROMPT@),
                user_prompt: fact_check_prompt(claim_text@, block_text@, views(heading_chain@), source_hash@),
                max_tokens: Some(FACT_CHECK_MAX_TOKENS),
            })
            &&& queued_metadata(
                l.metadata,
                identity_task_id(spec_stable_hash(block_text@), Trigger::FactCheck, LlmRequestKind::FactCheck) + ":"@
                    + spec_stable_hash(claim_text@),
                opt_view(file_path),
                spec_stable_hash(block_text@),
                source_hash@,
                None,
                None,
                Trigger::FactCheck,
            )
            &&& l.identity.key() == (spec_stable_hash(block_text@), Trigger::FactCheck, LlmRequestKind::FactCheck)
            &&& final(store).tasks_view() == old(store).tasks_view().insert(l.metadata.task_id@, l.metadata)
            &&& final(store).active_view() == old(store).active_view().insert(l.identity.key())
        },
{
    let request = build_fact_check_request(claim_text, block_text, heading_chain, source_hash.as_str(), small_model);
    let block_hash = stable_hash(block_text);
    let task_id = fact_check_task_id(block_hash.as_str(), claim_text);
    let identity = dedup_identity(block_hash.as_str(), Trigger::FactCheck, LlmRequestKind::FactCheck);
    let metadata = TaskMetadata {
        task_id,
        file_path,
        block_hash,
        source_hash,
        focus_start: None,
        focus_end: None,
        line_text_hash: None,
        trigger: Trigger::FactCheck,
        status: TaskStatus::Queued,
        stale: false,
        error: None,
    };
    let kept = metadata.copy();
    match dispatch_task(store, metadata, &identity) {
        Ok(task_id) => Ok(TaskLaunch { task_id, request, metadata: kept, identity }),
        Err(e) => Err(e),
    }
}

/// Submits an explicit research task for a goal and a selection. Explicit
/// commands are never deduplicated; the task id carries the hash of the
/// goal.
pub fn submit_research(
    store: &mut TaskStore,
    file_path: Option<String>,
    goal: &str,
    selection: &str,
    document: &str,
    source_hash: String,
    large_model: &str,
) -> (r: Result<TaskLaunch, String>)
    requires
        old(store).wf(),
    ensures
        final(store).wf(),
        r matches Ok(l) && {
            &&& l.task_id@ == l.metadata.task_id@
            &&& l.request.view() == (RequestView {
                kind: LlmRequestKind::Research,
                model: Some(large_model@),
                system_prompt: Some(RESEARCH_SYSTEM_PROMPT@),
                user_prompt: research_prompt(goal@, selection@, document@),
                max_tokens: Some(RESEARCH_MAX_TOKENS),
            })
            &&& queued_metadata(
                l.metadata,
                identity_task_id(spec_stable_hash(document@), Trigger::Research, LlmRequestKind::Research) + ":"@
                    + spec_stable_hash(goal@),
                opt_view(file_path),
                spec_stable_hash(document@),
                source_hash@,
                None,
                None,
                Trigger::Research,
            )
            &&& l.identity.key() == (spec_stable_hash(document@), Trigger::Research, LlmRequestKind::Research)
            &&& final(store).tasks_view() == old(store).tasks_view().insert(l.metadata.task_id@, l.metadata)
            &&& final(store).active_view() == old(store).active_view().insert(l.identity.key())
        },
{
    let request = build_research_request(goal, selection, document, large_model);
    let block_hash = stable_hash(document);
    let task_id = research_task_id(block_hash.as_str(), goal);
    let identity = dedup_identity(block_hash.as_str(), Trigger::Research, LlmRequestKind::Research);
    let metadata = TaskMetadata {
        task_id,
        file_path,
        block_hash,
        source_hash,
        focus_start: None,
        focus_end: None,
        line_text_hash: None,
        trigger: Trigger::Research,
        status: TaskStatus::Queued,
        stale: false,
        error: None,
    };
    let kept = metadata.copy();
    match dispatch_task(store, metadata, &identity) {
        Ok(task_id) => Ok(TaskLaunch { task_id, request, metadata: kept, identity }),
        Err(e) => Err(e),
    }
}

/// Every request a submitted block launches goes to the model of its kind:
/// research (an inline `/research`) to the configured large model,
/// extraction and fact-checking to the small one; and an inline command
/// launches the request of its own kind.
pub proof fn lemma_block_requests_pick_model_by_kind(
    l: TaskLaunch,
    m: BlockModel,
    d: RoutingDecision,
    file_path: Option<Seq<char>>,
    source_hash: Seq<char>,
    small_model: Seq<char>,
    large_model: Seq<char>,
)
    requires
        block_launch(l, m, d, file_path, source_hash, small_model, large_model),
    ensures
        l.request.kind == LlmRequestKind::Research ==> l.request.view().model == Some(large_model),
        l.request.kind != LlmRequestKind::Research ==> l.request.view().model == Some(small_model),
        d == RoutingDecision::Research && block_command(m) is Some ==> l.request.kind == LlmRequestKind::Research,
        d == RoutingDecision::FactCheck && block_command(m) is Some ==> l.request.kind == LlmRequestKind::FactCheck,
        !(d == RoutingDecision::Research || d == RoutingDecision::FactCheck) ==> l.request.kind
            == LlmRequestKind::Extraction,
{
}

} // verus!
