use orange_yeoman::config::validate::{providers_to_fetch, validate_models, ALL_FAILED, NO_PROVIDERS};
use orange_yeoman::config::{app_data_dir_in, global_config_path_in, MergedConfig, ModelSpec};
use orange_yeoman::filesystem::{sort_entries, FileEntry};
use orange_yeoman::incremental::{diff_block_lists, BlockChange, FileDiff, NewBlock, StoredBlock};
use orange_yeoman::llm::providers::{fetch_failure, model_ids, models_from_body, spec_for, AuthStyle, IdPath};
use orange_yeoman::llm::{LlmRequest, LlmRequestKind, MockProvider};
use orange_yeoman::pipeline::{stable_hash, BlockKind};
use orange_yeoman::store::{apply_stats, epoch_millis, new_blocks_of, now_millis, plan_apply, should_enqueue, EnqueueReason, StoreOp};
use orange_yeoman::tasks::{dedup_identity, TaskMetadata, TaskStatus, TaskStore};
use orange_yeoman::telemetry::{event_category, forwards_to_ipc, level_name, LogLevel};
use orange_yeoman::text::strip_prefix_str;
use orange_yeoman::watcher::classify::path_components;
use orange_yeoman::watcher::{
    actions_for, block_diff_step, classify_event, describe_diff, diff_snapshots, excerpt_of, is_markdown, line_of,
    snapshots_of, BlockSnapshot, ChangeKind, ClassifiedChange, DiffKind, SnapshotCacheUpdate, SnapshotDiff,
    WatchAction, WatchEvent, WatchKind,
};

fn config(keys: &[(&str, &str)], small: Option<ModelSpec>, large: Option<ModelSpec>) -> MergedConfig {
    let mut m = MergedConfig::default();
    m.mock_llm = false;
    m.api_keys = keys.iter().map(|(p, k)| (p.to_string(), k.to_string())).collect();
    m.small = small;
    m.large = large;
    m
}

fn plain(id: &str) -> Option<ModelSpec> {
    Some(ModelSpec::Id(id.to_string()))
}

fn bound(provider: &str, id: &str) -> Option<ModelSpec> {
    Some(ModelSpec::Provider { provider: provider.to_string(), id: id.to_string() })
}

fn fetched_ok(provider: &str, ids: &[&str]) -> (String, Result<Vec<String>, String>) {
    (provider.to_string(), Ok(ids.iter().map(|s| s.to_string()).collect()))
}

#[test]
fn validate_models_mock_mode_skips_checks() {
    let m = MergedConfig::default();
    let status = validate_models(&m, &[]).expect("mock mode is always valid");
    assert!(status.mock_llm);
    assert!(providers_to_fetch(&m).is_empty());
}

#[test]
fn validate_models_without_providers_errors() {
    let m = config(&[], plain("gpt-4o"), None);
    assert_eq!(validate_models(&m, &[]), Err(NO_PROVIDERS.to_string()));
    assert_eq!(NO_PROVIDERS, "No configured providers available to validate models");
}

#[test]
fn validate_models_legacy_ids_against_union() {
    let m = config(&[("openai", "k1")], plain("gpt-4o"), plain("bogus"));
    assert_eq!(providers_to_fetch(&m), vec!["openai".to_string()]);
    let fetched = vec![fetched_ok("openai", &["gpt-4o-mini", "gpt-4o"])];
    assert_eq!(
        validate_models(&m, &fetched),
        Err("Invalid model bogus. Available models: gpt-4o, gpt-4o-mini".to_string())
    );
    let good = config(&[("openai", "k1")], plain("gpt-4o"), plain("gpt-4o-mini"));
    let status = validate_models(&good, &fetched).expect("both models are offered");
    assert_eq!(status.small_model, "gpt-4o");
    assert_eq!(status.configured_providers, vec!["openai".to_string()]);
}

#[test]
fn validate_models_all_providers_failed() {
    let m = config(&[("openai", "k1")], plain("gpt-4o"), None);
    let fetched = vec![("openai".to_string(), Err("provider openai: HTTP 401".to_string()))];
    assert_eq!(
        validate_models(&m, &fetched),
        Err(format!("{ALL_FAILED}; provider openai: provider openai: HTTP 401"))
    );
    // A provider with no recorded outcome counts as failed too.
    assert_eq!(
        validate_models(&m, &[]),
        Err(format!("{ALL_FAILED}; provider openai: no model list was fetched"))
    );
}

#[test]
fn validate_models_structured_entries() {
    // A provider-bound model whose provider has no key.
    let m = config(&[("openai", "k1")], bound("deepseek", "deepseek-chat"), None);
    assert!(providers_to_fetch(&m).is_empty());
    assert_eq!(
        validate_models(&m, &[]),
        Err("provider deepseek has no API key configured for the small model".to_string())
    );
    // A provider-bound model checked against its own provider only; the
    // other slot is a legacy id checked against the union.
    let mixed = config(&[("openai", "k1")], bound("openai", "gpt-4o"), plain("gpt-4o-mini"));
    assert_eq!(providers_to_fetch(&mixed), vec!["openai".to_string()]);
    let fetched = vec![fetched_ok("openai", &["gpt-4o", "gpt-4o-mini"])];
    assert!(validate_models(&mixed, &fetched).is_ok());
    // Unknown id for its provider, and a provider that did not answer.
    let wrong = config(&[("openai", "k1"), ("deepseek", "k2")], bound("openai", "nope"), bound("deepseek", "d1"));
    let fetched = vec![
        fetched_ok("openai", &["gpt-4o"]),
        ("deepseek".to_string(), Err("provider deepseek: request timed out".to_string())),
    ];
    assert_eq!(
        validate_models(&wrong, &fetched),
        Err("Invalid model nope for provider openai. Available models: gpt-4o; could not check model d1: provider deepseek did not respond".to_string())
    );
}

#[test]
fn providers_to_fetch_skips_empty_keys_and_dedups() {
    let m = config(&[("openai", "k1"), ("deepseek", "")], bound("openai", "gpt-4o"), plain("x"));
    assert_eq!(providers_to_fetch(&m), vec!["openai".to_string()]);
    let both = config(&[("openai", "k1"), ("anthropic", "k2")], bound("openai", "a"), bound("openai", "b"));
    assert_eq!(providers_to_fetch(&both), vec!["openai".to_string()]);
}

fn entry(name: &str, is_dir: bool) -> FileEntry {
    FileEntry { name: name.to_string(), path: format!("/r/{name}"), is_dir }
}

#[test]
fn sort_entries_directories_first_then_case_insensitive() {
    let sorted = sort_entries(vec![entry("b.md", false), entry("Zeta", true), entry("A.md", false), entry("alpha", true)]);
    let names: Vec<&str> = sorted.iter().map(|e| e.name.as_str()).collect();
    assert_eq!(names, vec!["alpha", "Zeta", "A.md", "b.md"]);
}

#[test]
fn sort_entries_keeps_order_of_equal_keys() {
    let sorted = sort_entries(vec![entry("Note", false), entry("note", false), entry("NOTE", false)]);
    let names: Vec<&str> = sorted.iter().map(|e| e.name.as_str()).collect();
    assert_eq!(names, vec!["Note", "note", "NOTE"]);
}

#[test]
fn line_of_counts_line_feeds() {
    assert_eq!(line_of("a\nb\nc", 0), 1);
    assert_eq!(line_of("a\nb\nc", 2), 2);
    assert_eq!(line_of("a\nb\nc", 4), 3);
    assert_eq!(line_of("a\nb\nc", 100), 3);
}

#[test]
fn excerpt_of_collapses_and_caps() {
    assert_eq!(excerpt_of("  hello \n\n  world  ", 80), "hello world");
    assert_eq!(excerpt_of("hello world", 3), "hel");
}

#[test]
fn snapshots_of_records_hash_lines_and_excerpt() {
    let snaps = snapshots_of("# Title\n\nBody text.");
    assert_eq!(snaps.len(), 2);
    assert_eq!(snaps[0].hash, stable_hash("# Title"));
    assert_eq!((snaps[0].start_line, snaps[0].end_line), (1, 1));
    assert_eq!(snaps[1].excerpt, "Body text.");
    assert_eq!((snaps[1].start_line, snaps[1].end_line), (3, 3));
}

fn snap(hash: &str, line: usize) -> BlockSnapshot {
    BlockSnapshot { hash: hash.to_string(), start_line: line, end_line: line, excerpt: format!("text {hash}") }
}

#[test]
fn diff_snapshots_reports_changed_regions() {
    let old = vec![snap("a", 1), snap("b", 3), snap("c", 5)];
    let new = vec![snap("a", 1), snap("x", 3), snap("c", 5)];
    assert_eq!(
        diff_snapshots(&old, &new),
        vec![SnapshotDiff {
            kind: DiffKind::Changed,
            start_line: 3,
            end_line: 3,
            old_excerpt: Some("text b".to_string()),
            new_excerpt: Some("text x".to_string()),
        }]
    );
    let two = vec![snap("a", 1), snap("x", 3), snap("y", 5), snap("c", 7)];
    let kinds: Vec<DiffKind> = diff_snapshots(&old, &two).iter().map(|d| d.kind).collect();
    assert_eq!(kinds, vec![DiffKind::Removed, DiffKind::Added, DiffKind::Added]);
    let fewer = vec![snap("a", 1), snap("c", 3)];
    let removed = diff_snapshots(&old, &fewer);
    assert_eq!(removed.len(), 1);
    assert_eq!(removed[0].kind, DiffKind::Removed);
    assert_eq!(removed[0].old_excerpt, Some("text b".to_string()));
}

#[test]
fn diff_of_identical_snapshots_is_empty() {
    let s = vec![snap("a", 1), snap("a", 2), snap("b", 3)];
    assert!(diff_snapshots(&s, &s).is_empty());
}

#[test]
fn block_diff_step_follows_the_debug_flag() {
    let off = block_diff_step(false, Some("# T"), None);
    assert_eq!(off.cache, SnapshotCacheUpdate::Drop);
    let unreadable = block_diff_step(true, None, None);
    assert_eq!(unreadable.cache, SnapshotCacheUpdate::Keep);
    let first = block_diff_step(true, Some("# T\n\nBody."), None);
    assert_eq!(first.baseline, Some(2));
    assert!(first.diffs.is_empty());
    let cached = match first.cache {
        SnapshotCacheUpdate::Store(ss) => ss,
        other => panic!("expected stored snapshots, got {other:?}"),
    };
    let next = block_diff_step(true, Some("# T\n\nBody changed."), Some(&cached));
    assert_eq!(next.baseline, None);
    assert_eq!(next.diffs.len(), 1);
    assert_eq!(next.diffs[0].kind, DiffKind::Changed);
    assert_eq!(describe_diff("/r/a.md", &next.diffs[0]), "block changed in /r/a.md:3-3: \"Body.\" -> \"Body changed.\"");
}

#[test]
fn describe_diff_lines() {
    let added = SnapshotDiff { kind: DiffKind::Added, start_line: 3, end_line: 4, old_excerpt: None, new_excerpt: Some("x".to_string()) };
    assert_eq!(describe_diff("/r/a.md", &added), "block added in /r/a.md:3-4: \"x\"");
    let removed = SnapshotDiff { kind: DiffKind::Removed, start_line: 10, end_line: 12, old_excerpt: Some("y".to_string()), new_excerpt: None };
    assert_eq!(describe_diff("n.md", &removed), "block removed from n.md:10-12: \"y\"");
}

#[test]
fn actions_follow_the_change() {
    let created = actions_for(&ClassifiedChange::Create("/r/a.md".to_string()));
    assert_eq!(
        created,
        vec![
            WatchAction::Emit { path: "/r/a.md".to_string(), kind: ChangeKind::Structure },
            WatchAction::DropSnapshots("/r/a.md".to_string()),
            WatchAction::ProcessContent("/r/a.md".to_string()),
        ]
    );
    assert_eq!(actions_for(&ClassifiedChange::Create("/r/a.txt".to_string())).len(), 2);
    let renamed = actions_for(&ClassifiedChange::Rename { from: "/r/a.md".to_string(), to: "/r/b.md".to_string() });
    assert_eq!(renamed[0], WatchAction::Emit { path: "/r/b.md".to_string(), kind: ChangeKind::Structure });
    assert_eq!(renamed[3], WatchAction::Relink { from: "/r/a.md".to_string(), to: "/r/b.md".to_string() });
    assert_eq!(actions_for(&ClassifiedChange::Config), vec![WatchAction::ReloadConfig]);
    assert_eq!(ChangeKind::Content.as_str(), "content");
}

#[test]
fn classify_ignores_hidden_paths_below_root_only() {
    let event = WatchEvent { kind: WatchKind::Create, paths: vec!["/repo/.git/HEAD".to_string()] };
    assert_eq!(classify_event("/repo", &event), None);
    let outside = WatchEvent { kind: WatchKind::Create, paths: vec!["/other/x.md".to_string()] };
    assert_eq!(classify_event("/repo", &outside), Some(ClassifiedChange::Create("/other/x.md".to_string())));
    let metadata = WatchEvent { kind: WatchKind::Other, paths: vec!["/repo/a.md".to_string()] };
    assert_eq!(classify_event("/repo", &metadata), None);
    let empty = WatchEvent { kind: WatchKind::Create, paths: vec![] };
    assert_eq!(classify_event("/repo", &empty), None);
}

#[test]
fn markdown_paths_and_components() {
    assert!(is_markdown("/a/b.md"));
    assert!(is_markdown("/a/B.Md"));
    assert!(is_markdown("/a/b.md/"));
    assert!(!is_markdown("/a/.md"));
    assert!(!is_markdown("/a/b.mdx"));
    assert!(!is_markdown("/a/b.txt"));
    assert_eq!(path_components("./a//b/../c/."), vec![".", "a", "b", "..", "c"]);
    assert_eq!(path_components("/x/y"), vec!["/", "x", "y"]);
}

fn new_block(hash: &str, text: &str, excluded: bool) -> NewBlock {
    NewBlock {
        block_hash: hash.to_string(),
        text: text.to_string(),
        kind: BlockKind::Paragraph,
        heading_path: String::new(),
        char_start: 0,
        char_end: text.len(),
        excluded,
    }
}

fn stored_block(id: i64, hash: &str) -> StoredBlock {
    StoredBlock {
        id,
        file_path: "a.md".to_string(),
        block_hash: hash.to_string(),
        heading_path: String::new(),
        char_start: 0,
        char_end: 1,
        kind: "paragraph".to_string(),
        excluded: false,
    }
}

#[test]
fn should_enqueue_filters_excluded_and_ignored_blocks() {
    assert!(should_enqueue(&new_block("h", "A plain claim.", false)));
    assert!(should_enqueue(&new_block("h", "/fact-check a claim", false)));
    assert!(!should_enqueue(&new_block("h", "skip this /ignore", false)));
    assert!(!should_enqueue(&new_block("h", "A plain claim.", true)));
}

#[test]
fn plan_apply_orders_row_operations() {
    let mut diff = FileDiff::default();
    diff.record(BlockChange::Unchanged { stored: stored_block(1, "a"), new: new_block("a", "a", false) });
    diff.record(BlockChange::Removed { stored: stored_block(2, "b") });
    diff.record(BlockChange::Added { new: new_block("c", "code", true) });
    diff.record(BlockChange::Changed { old: stored_block(3, "d"), new: new_block("e", "e", false) });
    assert_eq!((diff.unchanged, diff.removed, diff.added, diff.changed), (1, 1, 1, 1));
    let ops = plan_apply(&diff);
    assert_eq!(
        ops,
        vec![
            StoreOp::UpdatePosition { id: 1, char_start: 0, char_end: 1, heading_path: String::new() },
            StoreOp::Delete { id: 2 },
            StoreOp::Insert { block: new_block("c", "code", true) },
            StoreOp::Delete { id: 3 },
            StoreOp::Insert { block: new_block("e", "e", false) },
            StoreOp::Enqueue { block_hash: "e".to_string(), reason: EnqueueReason::Changed },
            StoreOp::DeleteOrphanConcepts,
        ]
    );
    let all = apply_stats(&ops, ops.len(), false);
    assert_eq!((all.stored, all.updated, all.deleted, all.enqueued), (2, 1, 2, 1));
    let failed_delete = apply_stats(&ops, 1, true);
    assert_eq!((failed_delete.stored, failed_delete.updated, failed_delete.deleted, failed_delete.enqueued), (0, 1, 1, 0));
    let failed_insert = apply_stats(&ops, 2, true);
    assert_eq!((failed_insert.stored, failed_insert.deleted), (0, 1));
    assert_eq!(EnqueueReason::Added.as_str(), "added");
}

#[test]
fn plan_without_deletions_has_no_cleanup() {
    let mut diff = FileDiff::default();
    diff.record(BlockChange::Added { new: new_block("a", "A claim.", false) });
    assert_eq!(
        plan_apply(&diff),
        vec![
            StoreOp::Insert { block: new_block("a", "A claim.", false) },
            StoreOp::Enqueue { block_hash: "a".to_string(), reason: EnqueueReason::Added },
        ]
    );
}

#[test]
fn new_blocks_of_joins_heading_chains() {
    let blocks = new_blocks_of("# T\n\n## U\n\nPara.");
    assert_eq!(blocks.len(), 3);
    assert_eq!(blocks[2].heading_path, "T > U");
    assert_eq!(blocks[2].block_hash, stable_hash("Para."));
    assert_eq!((blocks[2].char_start, blocks[2].char_end), (11, 16));
}

#[test]
fn diff_counts_account_for_both_lists() {
    let stored = vec![stored_block(1, "a"), stored_block(2, "b"), stored_block(3, "c")];
    let new = vec![new_block("a", "a", false), new_block("x", "x", false), new_block("y", "y", false), new_block("c", "c", false)];
    let d = diff_block_lists(&stored, &new);
    assert_eq!(d.unchanged + d.changed + d.moved + d.removed, stored.len());
    assert_eq!(d.unchanged + d.added + d.changed + d.moved, new.len());
}

#[test]
fn telemetry_gating_policy() {
    assert!(forwards_to_ipc(LogLevel::Error, Some(false)));
    assert!(forwards_to_ipc(LogLevel::Warn, Some(false)));
    assert!(!forwards_to_ipc(LogLevel::Info, Some(false)));
    assert!(forwards_to_ipc(LogLevel::Trace, Some(true)));
    assert!(!forwards_to_ipc(LogLevel::Error, None));
    assert_eq!(level_name(LogLevel::Warn), "warn");
    assert_eq!(event_category(None, "app::store"), "app::store");
    assert_eq!(event_category(Some("store".to_string()), "x"), "store");
}

#[test]
fn provider_catalog_entries() {
    let gemini = spec_for("gemini").expect("gemini is known");
    assert_eq!(gemini.models_url, "https://generativelanguage.googleapis.com/v1beta/models");
    assert_eq!(gemini.auth, AuthStyle::QueryKey { param: "key" });
    assert_eq!(gemini.id_path, IdPath::Gemini);
    assert_eq!(gemini.id_path.keys(), ("models", "name"));
    let anthropic = spec_for("anthropic").expect("anthropic is known");
    assert_eq!(anthropic.auth, AuthStyle::ApiKeyHeader { version_header: "2023-06-01" });
    assert_eq!(IdPath::OpenAi.keys(), ("data", "id"));
    assert!(spec_for("OpenAI").is_none());
}

#[test]
fn model_ids_are_sorted_unique_and_unprefixed() {
    let names: Vec<String> = ["models/gemini-pro", "models/a", "models/a", "x"].iter().map(|s| s.to_string()).collect();
    assert_eq!(model_ids(IdPath::Gemini, &names), vec!["a", "gemini-pro", "x"]);
    assert_eq!(model_ids(IdPath::OpenAi, &names), vec!["models/a", "models/gemini-pro", "x"]);
    assert_eq!(fetch_failure("openai", "HTTP 401"), "provider openai: HTTP 401");
    assert_eq!(strip_prefix_str("models/", "models/"), "");
    assert_eq!(strip_prefix_str("model", "models/"), "model");
}

#[test]
fn mock_answer_ignores_prompt_text() {
    let provider = MockProvider::new();
    let req = |p: &str| LlmRequest {
        kind: LlmRequestKind::FactCheck,
        model: None,
        system_prompt: None,
        user_prompt: p.to_string(),
        max_tokens: None,
    };
    let a = provider.complete(req("first prompt")).expect("mock answers");
    let b = provider.complete(req("a different prompt")).expect("mock answers");
    assert_eq!(a.result, b.result);
    assert_eq!(a.response_id, b.response_id);
    assert!(!a.result.contains("prompt"));
}

#[test]
fn task_store_read_after_insert_and_dedup_cycle() {
    let mut store = TaskStore::new();
    let identity = dedup_identity("b", orange_yeoman::pipeline::Trigger::Automatic, LlmRequestKind::Extraction);
    let meta = |id: &str| TaskMetadata {
        task_id: id.to_string(),
        file_path: None,
        block_hash: "b".to_string(),
        source_hash: "s".to_string(),
        focus_start: None,
        focus_end: None,
        line_text_hash: None,
        trigger: orange_yeoman::pipeline::Trigger::Automatic,
        status: TaskStatus::Queued,
        stale: false,
        error: None,
    };
    assert_eq!(store.insert(meta("t1"), &identity), Some("t1".to_string()));
    assert_eq!(store.get("t1"), Some(meta("t1")));
    assert_eq!(store.insert(meta("t2"), &identity), None);
    assert_eq!(store.get("t2"), None);
    store.clear_dedup(&identity);
    assert_eq!(store.insert(meta("t2"), &identity), Some("t2".to_string()));
}

#[test]
fn models_from_body_reads_the_id_path() {
    let openai = r#"{"object":"list","data":[{"id":"gpt-4o-mini"},{"id":"gpt-4o"},{"id":3},{"name":"x"},{"id":"gpt-4o"}]}"#;
    assert_eq!(models_from_body("openai", IdPath::OpenAi, openai), Ok(vec!["gpt-4o".to_string(), "gpt-4o-mini".to_string()]));
    let gemini = r#"{"models":[{"name":"models/gemini-pro"},{"name":"tuned"}]}"#;
    assert_eq!(models_from_body("gemini", IdPath::Gemini, gemini), Ok(vec!["gemini-pro".to_string(), "tuned".to_string()]));
    assert_eq!(models_from_body("openai", IdPath::OpenAi, r#"{"models":[]}"#), Ok(vec![]));
    assert_eq!(
        models_from_body("openai", IdPath::OpenAi, "not json"),
        Err("provider openai: invalid JSON response".to_string())
    );
}

#[test]
fn unchanged_file_plans_only_position_updates() {
    let stored = vec![stored_block(1, "a"), stored_block(2, "b")];
    let new = vec![new_block("a", "a", false), new_block("b", "b", false)];
    let diff = diff_block_lists(&stored, &new);
    let ops = plan_apply(&diff);
    assert_eq!(ops.len(), 2);
    assert!(ops.iter().all(|op| matches!(op, StoreOp::UpdatePosition { .. })));
}

#[test]
fn epoch_millis_converts_or_falls_back_to_zero() {
    assert_eq!(epoch_millis(Some(1_700_000_000_123)), 1_700_000_000_123);
    assert_eq!(epoch_millis(None), 0);
    assert_eq!(epoch_millis(Some(u128::from(u64::MAX) + 1)), 0);
}

#[test]
fn now_millis_reads_a_recent_clock() {
    // 2020-01-01T00:00:00Z in milliseconds.
    assert!(now_millis() > 1_577_836_800_000);
}

#[test]
fn data_dir_and_global_config_path_under_a_home() {
    assert_eq!(app_data_dir_in("/Users/ada"), "/Users/ada/Library/Application Support/Orange Yeoman");
    assert_eq!(
        global_config_path_in("/Users/ada/"),
        "/Users/ada/Library/Application Support/Orange Yeoman/config.json"
    );
}
