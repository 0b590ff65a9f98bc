//! The concept store's bookkeeping: which parsed blocks are queued for later
//! stages, and the ordered row operations that apply a file diff, with the
//! counts reported for the debug console. The database itself is driven by
//! the application, which runs these operations in one transaction.

use vstd::prelude::*;

use crate::incremental::{BlockChange, FileDiff, NewBlock};
use crate::pipeline::blocks::{BlockKind, MarkdownBlock};
use crate::pipeline::markdown::{blocks_of_tree, markdown_tree_of, parse_markdown_blocks, BlockModel};
use crate::pipeline::slash::{is_command_line, lemma_command_line_unique, lemma_parsed_block, line_parse, parse_slash_command_in_block, SlashCommand};
use crate::text::{seq_join, utf8, views};

verus! {

/// The file name of the concept store database, beside the global config.
pub const DB_FILE_NAME: &'static str = "concept_store.db";

/// The command of a text's first command line, if it has one.
pub open spec fn text_command(text: Seq<char>) -> Option<SlashCommand> {
    let b = utf8(text);
    if exists|s: int, e: int| is_command_line(b, s, e) {
        let (s, e) = choose|s: int, e: int| is_command_line(b, s, e);
        match line_parse(b.subrange(s, e)) {
            Some((c, _, _, _)) => Some(c),
            None => None,
        }
    } else {
        None
    }
}

/// A stored block is queued for later stages unless it is excluded (front
/// matter, code fences, HTML) or carries an `/ignore` command.
pub open spec fn enqueue_wanted(new: NewBlock) -> bool {
    !new.excluded && text_command(new.text@) != Some(SlashCommand::Ignore)
}

/// Whether a freshly parsed block goes on the queue: not for excluded
/// blocks and not for blocks whose command is `/ignore`; fact-check and
/// research blocks still go.
pub fn should_enqueue(new: &NewBlock) -> (r: bool)
    ensures
        r == enqueue_wanted(*new),
{
    if new.excluded {
        return false;
    }
    let block = MarkdownBlock {
        kind: new.kind,
        text: new.text.clone(),
        start: 0,
        end: 0,
        heading_chain: Vec::new(),
        excluded: new.excluded,
        block_hash: new.block_hash.clone(),
    };
    let parsed = parse_slash_command_in_block(&block);
    proof {
        lemma_parsed_block(block, parsed);
    }
    match parsed {
        Some(p) => {
            proof {
                let b = utf8(new.text@);
                let (s, e) = choose|s: int, e: int| is_command_line(b, s, e);
                lemma_command_line_unique(b, s, e, p.line_start as int, p.line_end as int);
            }
            p.command != SlashCommand::Ignore
        },
        None => true,
    }
}

/// Why a block is queued.
#[derive(Debug, Clone, Copy, PartialEq, Eq, Structural)]
pub enum EnqueueReason {
    Added,
    Changed,
}

impl EnqueueReason {
    /// The reason as the queue records it.
    pub fn as_str(&self) -> (r: &'static str)
        ensures
            *self is Added ==> r@ == "added"@,
            *self is Changed ==> r@ == "changed"@,
    {
        match self {
            EnqueueReason::Added => "added",
            EnqueueReason::Changed => "changed",
        }
    }
}

/// One row operation of applying a diff.
#[derive(Debug, Clone, PartialEq, Eq)]
pub enum StoreOp {
    /// Refresh the offsets and heading of a kept row (concepts stay
    /// attached to it).
    UpdatePosition { id: i64, char_start: usize, char_end: usize, heading_path: String },
    /// Delete a row; its occurrences and links go with it.
    Delete { id: i64 },
    /// Insert a row for a block.
    Insert { block: NewBlock },
    /// Queue a block for later stages (an existing entry is reset to
    /// pending).
    Enqueue { block_hash: String, reason: EnqueueReason },
    /// Delete the concepts no occurrence refers to any more.
    DeleteOrphanConcepts,
}

/// The row operations of one change.
pub open spec fn change_ops(c: BlockChange) -> Seq<StoreOp> {
    match c {
        BlockChange::Unchanged { stored, new } => seq![
            StoreOp::UpdatePosition {
                id: stored.id,
                char_start: new.char_start,
                char_end: new.char_end,
                heading_path: new.heading_path,
            },
        ],
        BlockChange::Moved { stored, new } => seq![
            StoreOp::UpdatePosition {
                id: stored.id,
                char_start: new.char_start,
                char_end: new.char_end,
                heading_path: new.heading_path,
            },
        ],
        BlockChange::Removed { stored } => seq![StoreOp::Delete { id: stored.id }],
        BlockChange::Changed { old, new } => seq![StoreOp::Delete { id: old.id }, StoreOp::Insert { block: new }]
            + if enqueue_wanted(new) {
            seq![StoreOp::Enqueue { block_hash: new.block_hash, reason: EnqueueReason::Changed }]
        } else {
            Seq::empty()
        },
        BlockChange::Added { new } => seq![StoreOp::Insert { block: new }] + if enqueue_wanted(new) {
            seq![StoreOp::Enqueue { block_hash: new.block_hash, reason: EnqueueReason::Added }]
        } else {
            Seq::empty()
        },
    }
}

/// The row operations of a list of changes, in order.
pub open spec fn ops_of(cs: Seq<BlockChange>) -> Seq<StoreOp>
    decreases cs.len(),
{
    if cs.len() == 0 {
        Seq::empty()
    } else {
        ops_of(cs.drop_last()) + change_ops(cs.last())
    }
}

/// Some change deletes a row.
pub open spec fn deletes_rows(cs: Seq<BlockChange>) -> bool {
    exists|k: int| 0 <= k < cs.len() && (#[trigger] cs[k] is Removed || cs[k] is Changed)
}

/// The operations that apply a diff: each change's in order, then, when a
/// row was deleted, one cleanup of orphaned concepts.
pub open spec fn apply_plan(cs: Seq<BlockChange>) -> Seq<StoreOp> {
    ops_of(cs) + if deletes_rows(cs) {
        seq![StoreOp::DeleteOrphanConcepts]
    } else {
        Seq::empty()
    }
}

/// Plans the application of a file diff to the store: kept rows get their
/// new positions, removed rows are deleted, changed blocks replace their
/// rows and are queued as changed, added blocks are inserted and queued as
/// added (excluded and `/ignore` blocks are stored but not queued), and
/// orphaned concepts are cleaned once after any deletion.
pub fn plan_apply(diff: &FileDiff) -> (r: Vec<StoreOp>)
    ensures
        r@ == apply_plan(diff.changes@),
{
    let mut ops: Vec<StoreOp> = Vec::new();
    let mut deleted_any = false;
    let mut k: usize = 0;
    while k < diff.changes.len()
        invariant
            k <= diff.changes@.len(),
            ops@ == ops_of(diff.changes@.take(k as int)),
            deleted_any == deletes_rows(diff.changes@.take(k as int)),
        decreases diff.changes@.len() - k,
    {
        let ghost before = ops@;
        let ghost c = diff.changes@[k as int];
        proof {
            assert(diff.changes@.take(k + 1).drop_last() =~= diff.changes@.take(k as int));
            assert(diff.changes@.take(k + 1).last() == c);
        }
        match &diff.changes[k] {
            BlockChange::Unchanged { stored, new } | BlockChange::Moved { stored, new } => {
                ops.push(
                    StoreOp::UpdatePosition {
                        id: stored.id,
                        char_start: new.char_start,
                        char_end: new.char_end,
                        heading_path: new.heading_path.clone(),
                    },
                );
            },
            BlockChange::Removed { stored } => {
                deleted_any = true;
                ops.push(StoreOp::Delete { id: stored.id });
            },
            BlockChange::Changed { old, new } => {
                deleted_any = true;
                ops.push(StoreOp::Delete { id: old.id });
                ops.push(StoreOp::Insert { block: new.copy() });
                if should_enqueue(new) {
                    ops.push(StoreOp::Enqueue { block_hash: new.block_hash.clone(), reason: EnqueueReason::Changed });
                }
            },
            BlockChange::Added { new } => {
                ops.push(StoreOp::Insert { block: new.copy() });
                if should_enqueue(new) {
                    ops.push(StoreOp::Enqueue { block_hash: new.block_hash.clone(), reason: EnqueueReason::Added });
                }
            },
        }
        assert(ops@ =~= before + change_ops(c));
        proof {
            let t = diff.changes@.take(k as int);
            let t1 = diff.changes@.take(k + 1);
            if deletes_rows(t) {
                let w = choose|w: int| 0 <= w < t.len() && (#[trigger] t[w] is Removed || t[w] is Changed);
                assert(t1[w] == t[w]);
            }
            if deletes_rows(t1) && !(c is Removed || c is Changed) {
                let w = choose|w: int| 0 <= w < t1.len() && (#[trigger] t1[w] is Removed || t1[w] is Changed);
                assert(w < k);
                assert(t[w] == t1[w]);
            }
            if c is Removed || c is Changed {
                assert(t1[k as int] == c);
            }
        }
        k = k + 1;
    }
    assert(diff.changes@.take(k as int) =~= diff.changes@);
    if deleted_any {
        ops.push(StoreOp::DeleteOrphanConcepts);
    }
    assert(ops@ =~= apply_plan(diff.changes@));
    ops
}

/// The counts of one apply pass: rows inserted, rows whose position was
/// refreshed, rows deleted, and blocks queued.
#[derive(Debug, Clone, Copy, Default, PartialEq, Eq)]
pub struct ApplyStats {
    pub stored: usize,
    pub updated: usize,
    pub deleted: usize,
    pub enqueued: usize,
}

/// How many operations of each kind.
pub open spec fn count_ops(ops: Seq<StoreOp>) -> (nat, nat, nat, nat)
    decreases ops.len(),
{
    if ops.len() == 0 {
        (0, 0, 0, 0)
    } else {
        let (s, u, d, e) = count_ops(ops.drop_last());
        match ops.last() {
            StoreOp::Insert { .. } => (s + 1, u, d, e),
            StoreOp::UpdatePosition { .. } => (s, u + 1, d, e),
            StoreOp::Delete { .. } => (s, u, d + 1, e),
            StoreOp::Enqueue { .. } => (s, u, d, e + 1),
            StoreOp::DeleteOrphanConcepts => (s, u, d, e),
        }
    }
}

/// The counts after the first `done` operations succeeded and, when
/// `failed_next` holds, the next one failed: an update or a deletion is
/// counted as soon as it is attempted, an insertion or a queueing only once
/// it succeeded.
pub open spec fn stats_after(ops: Seq<StoreOp>, done: int, failed_next: bool) -> (nat, nat, nat, nat) {
    let (s, u, d, e) = count_ops(ops.take(done));
    if failed_next && done < ops.len() {
        match ops[done] {
            StoreOp::UpdatePosition { .. } => (s, u + 1, d, e),
            StoreOp::Delete { .. } => (s, u, d + 1, e),
            _ => (s, u, d, e),
        }
    } else {
        (s, u, d, e)
    }
}

/// The counts to report after an apply pass that ran the first `done`
/// operations and, when `failed_next` holds, failed on the next (the
/// transaction is then rolled back, but the counts say how far it got).
pub fn apply_stats(ops: &[StoreOp], done: usize, failed_next: bool) -> (r: ApplyStats)
    requires
        done <= ops@.len(),
    ensures
        (r.stored as nat, r.updated as nat, r.deleted as nat, r.enqueued as nat) == stats_after(
            ops@,
            done as int,
            failed_next,
        ),
{
    let mut st = ApplyStats { stored: 0, updated: 0, deleted: 0, enqueued: 0 };
    let mut k: usize = 0;
    while k < done
        invariant
            k <= done <= ops@.len(),
            (st.stored as nat, st.updated as nat, st.deleted as nat, st.enqueued as nat) == count_ops(
                ops@.take(k as int),
            ),
            st.stored + st.updated + st.deleted + st.enqueued <= k,
        decreases done - k,
    {
        proof {
            assert(ops@.take(k + 1).drop_last() =~= ops@.take(k as int));
        }
        match &ops[k] {
            StoreOp::Insert { .. } => st.stored = st.stored + 1,
            StoreOp::UpdatePosition { .. } => st.updated = st.updated + 1,
            StoreOp::Delete { .. } => st.deleted = st.deleted + 1,
            StoreOp::Enqueue { .. } => st.enqueued = st.enqueued + 1,
            StoreOp::DeleteOrphanConcepts => {},
        }
        k = k + 1;
    }
    if failed_next && done < ops.len() {
        match &ops[done] {
            StoreOp::UpdatePosition { .. } => st.updated = st.updated + 1,
            StoreOp::Delete { .. } => st.deleted = st.deleted + 1,
            _ => {},
        }
    }
    st
}

/// The rows a parsed text would store: each block with its heading chain
/// joined by " > ".
pub open spec fn new_block_of(m: BlockModel, nb: NewBlock) -> bool {
    &&& nb.block_hash@ == m.block_hash
    &&& nb.text@ == m.text
    &&& nb.kind == m.kind
    &&& nb.heading_path@ == seq_join(m.heading_chain, " > "@)
    &&& nb.char_start == m.start
    &&& nb.char_end == m.end
    &&& nb.excluded == m.excluded
}

/// Parses a file's content into the blocks to diff against its stored rows.
pub fn new_blocks_of(content: &str) -> (r: Vec<NewBlock>)
    ensures
        r@.len() == blocks_of_tree(markdown_tree_of(content@), utf8(content@)).len(),
        forall|k: int|
            0 <= k < r@.len() ==> new_block_of(
                blocks_of_tree(markdown_tree_of(content@), utf8(content@))[k],
                #[trigger] r@[k],
            ),
{
    let blocks = parse_markdown_blocks(content);
    let ghost ms = blocks_of_tree(markdown_tree_of(content@), utf8(content@));
    let mut out: Vec<NewBlock> = Vec::new();
    let mut k: usize = 0;
    while k < blocks.len()
        invariant
            k <= blocks@.len(),
            crate::pipeline::markdown::block_models(blocks@) == ms,
            out@.len() == k,
            forall|t: int| 0 <= t < k ==> new_block_of(ms[t], #[trigger] out@[t]),
        decreases blocks@.len() - k,
    {
        assert(ms[k as int] == crate::pipeline::markdown::block_model(blocks@[k as int]));
        out.push(NewBlock::from_block(&blocks[k]));
        k = k + 1;
    }
    out
}

/// Kept rows follow the fresh parse: for every block that kept its hash,
/// whether in place or moved, the plan refreshes that stored row's id with
/// the offsets and heading path of the newly parsed block, never the stored
/// ones.
pub proof fn lemma_kept_rows_take_new_positions(cs: Seq<BlockChange>, j: int)
    requires
        0 <= j < cs.len(),
        cs[j] is Unchanged || cs[j] is Moved,
    ensures
        match cs[j] {
            BlockChange::Unchanged { stored, new } => exists|k: int|
                0 <= k < apply_plan(cs).len() && #[trigger] apply_plan(cs)[k] == (StoreOp::UpdatePosition {
                    id: stored.id,
                    char_start: new.char_start,
                    char_end: new.char_end,
                    heading_path: new.heading_path,
                }),
            BlockChange::Moved { stored, new } => exists|k: int|
                0 <= k < apply_plan(cs).len() && #[trigger] apply_plan(cs)[k] == (StoreOp::UpdatePosition {
                    id: stored.id,
                    char_start: new.char_start,
                    char_end: new.char_end,
                    heading_path: new.heading_path,
                }),
            _ => true,
        },
{
    let k = lemma_kept_row_index(cs, j);
    assert(apply_plan(cs)[k] == ops_of(cs)[k]);
}

/// Where the position refresh of a kept block stands in the change ops.
proof fn lemma_kept_row_index(cs: Seq<BlockChange>, j: int) -> (k: int)
    requires
        0 <= j < cs.len(),
        cs[j] is Unchanged || cs[j] is Moved,
    ensures
        0 <= k < ops_of(cs).len(),
        match cs[j] {
            BlockChange::Unchanged { stored, new } => ops_of(cs)[k] == (StoreOp::UpdatePosition {
                id: stored.id,
                char_start: new.char_start,
                char_end: new.char_end,
                heading_path: new.heading_path,
            }),
            BlockChange::Moved { stored, new } => ops_of(cs)[k] == (StoreOp::UpdatePosition {
                id: stored.id,
                char_start: new.char_start,
                char_end: new.char_end,
                heading_path: new.heading_path,
            }),
            _ => true,
        },
    decreases cs.len(),
{
    let c2 = cs.drop_last();
    if j == cs.len() - 1 {
        ops_of(c2).len() as int
    } else {
        assert(c2[j] == cs[j]);
        let k = lemma_kept_row_index(c2, j);
        assert(ops_of(cs)[k] == ops_of(c2)[k]);
        k
    }
}

/// Where the operations of one change stand in the operations of a list.
proof fn lemma_change_ops_at(cs: Seq<BlockChange>, j: int) -> (k: int)
    requires
        0 <= j < cs.len(),
    ensures
        0 <= k,
        k + change_ops(cs[j]).len() <= ops_of(cs).len(),
        forall|t: int| 0 <= t < change_ops(cs[j]).len() ==> ops_of(cs)[k + t] == #[trigger] change_ops(cs[j])[t],
    decreases cs.len(),
{
    let c2 = cs.drop_last();
    if j == cs.len() - 1 {
        ops_of(c2).len() as int
    } else {
        assert(c2[j] == cs[j]);
        let k = lemma_change_ops_at(c2, j);
        assert forall|t: int| 0 <= t < change_ops(cs[j]).len() implies ops_of(cs)[k + t] == #[trigger] change_ops(
            cs[j],
        )[t] by {
            assert(ops_of(cs)[k + t] == ops_of(c2)[k + t]);
        }
        k
    }
}

/// The store follows each change of a diff: a removed block's row is
/// deleted; a changed block's old row is deleted and its new block inserted
/// right after; an added block is inserted; and the orphaned concepts are
/// cleaned up, as the last operation, exactly when some row is deleted.
pub proof fn lemma_plan_follows_each_change(cs: Seq<BlockChange>, j: int)
    requires
        0 <= j < cs.len(),
    ensures
        match cs[j] {
            BlockChange::Removed { stored } => exists|k: int|
                0 <= k < apply_plan(cs).len() && #[trigger] apply_plan(cs)[k] == (StoreOp::Delete { id: stored.id }),
            BlockChange::Changed { old, new } => exists|k: int|
                0 <= k && k + 1 < apply_plan(cs).len() && #[trigger] apply_plan(cs)[k] == (StoreOp::Delete {
                    id: old.id,
                }) && apply_plan(cs)[k + 1] == (StoreOp::Insert { block: new }),
            BlockChange::Added { new } => exists|k: int|
                0 <= k < apply_plan(cs).len() && #[trigger] apply_plan(cs)[k] == (StoreOp::Insert { block: new }),
            _ => true,
        },
        (cs[j] is Removed || cs[j] is Changed) ==> apply_plan(cs).last() == StoreOp::DeleteOrphanConcepts,
{
    let k = lemma_change_ops_at(cs, j);
    let ops = ops_of(cs);
    let c = cs[j];
    assert(change_ops(c).len() >= 1);
    assert(apply_plan(cs)[k] == ops[k]);
    assert(ops[k] == change_ops(c)[0]);
    match c {
        BlockChange::Changed { old, new } => {
            assert(ops[k + 1] == change_ops(c)[1]);
            assert(apply_plan(cs)[k + 1] == ops[k + 1]);
        },
        _ => {},
    }
    if c is Removed || c is Changed {
        assert(deletes_rows(cs));
    }
}

/// Orphaned concepts are cleaned up only after a deletion: a plan holds
/// the cleanup exactly when some change removes or replaces a row.
pub proof fn lemma_cleanup_only_after_deletion(cs: Seq<BlockChange>)
    ensures
        apply_plan(cs).contains(StoreOp::DeleteOrphanConcepts) <==> exists|j: int|
            0 <= j < cs.len() && (#[trigger] cs[j] is Removed || cs[j] is Changed),
{
    lemma_ops_no_cleanup(cs);
    if deletes_rows(cs) {
        assert(apply_plan(cs)[apply_plan(cs).len() - 1] == StoreOp::DeleteOrphanConcepts);
    } else {
        assert(apply_plan(cs) =~= ops_of(cs));
    }
}

/// The per-change operations never clean up concepts.
proof fn lemma_ops_no_cleanup(cs: Seq<BlockChange>)
    ensures
        !ops_of(cs).contains(StoreOp::DeleteOrphanConcepts),
    decreases cs.len(),
{
    if cs.len() > 0 {
        lemma_ops_no_cleanup(cs.drop_last());
        let a = ops_of(cs.drop_last());
        let b = change_ops(cs.last());
        if ops_of(cs).contains(StoreOp::DeleteOrphanConcepts) {
            let i = choose|i: int| 0 <= i < ops_of(cs).len() && ops_of(cs)[i] == StoreOp::DeleteOrphanConcepts;
            if i < a.len() {
                assert(a[i] == StoreOp::DeleteOrphanConcepts);
            } else {
                assert(b[i - a.len()] == StoreOp::DeleteOrphanConcepts);
            }
        }
    }
}

/// The counts of a list of operations, one kind at a time.
proof fn lemma_count_ops_by_kind(ops: Seq<StoreOp>)
    ensures
        count_ops(ops) == (
            ops.filter(|o: StoreOp| o is Insert).len(),
            ops.filter(|o: StoreOp| o is UpdatePosition).len(),
            ops.filter(|o: StoreOp| o is Delete).len(),
            ops.filter(|o: StoreOp| o is Enqueue).len(),
        ),
    decreases ops.len(),
{
    reveal(Seq::filter);
    if ops.len() > 0 {
        lemma_count_ops_by_kind(ops.drop_last());
    }
}

/// The counts an apply pass reports: after the first `done` operations
/// succeeded, the number of insertions, position refreshes, deletions and
/// queueings among them; when the next operation then failed, a refresh or
/// deletion is counted as attempted, an insertion or queueing is not.
pub proof fn lemma_reported_counts(ops: Seq<StoreOp>, done: int, failed_next: bool)
    requires
        0 <= done <= ops.len(),
    ensures
        ({
            let ran = ops.take(done);
            let failed_update = failed_next && done < ops.len() && ops[done] is UpdatePosition;
            let failed_delete = failed_next && done < ops.len() && ops[done] is Delete;
            stats_after(ops, done, failed_next) == (
                ran.filter(|o: StoreOp| o is Insert).len(),
                ran.filter(|o: StoreOp| o is UpdatePosition).len() + if failed_update { 1nat } else { 0nat },
                ran.filter(|o: StoreOp| o is Delete).len() + if failed_delete { 1nat } else { 0nat },
                ran.filter(|o: StoreOp| o is Enqueue).len(),
            )
        }),
{
    lemma_count_ops_by_kind(ops.take(done));
}

/// Only blocks that want queueing are queued: every queue operation of a
/// plan names the hash of an added or changed block that is neither
/// excluded nor marked `/ignore`, with the matching reason.
pub proof fn lemma_only_wanted_blocks_queued(cs: Seq<BlockChange>, k: int)
    requires
        0 <= k < apply_plan(cs).len(),
        apply_plan(cs)[k] is Enqueue,
    ensures
        exists|j: int|
            0 <= j < cs.len() && match #[trigger] cs[j] {
                BlockChange::Added { new } => enqueue_wanted(new) && apply_plan(cs)[k] == (StoreOp::Enqueue {
                    block_hash: new.block_hash,
                    reason: EnqueueReason::Added,
                }),
                BlockChange::Changed { new, .. } => enqueue_wanted(new) && apply_plan(cs)[k] == (StoreOp::Enqueue {
                    block_hash: new.block_hash,
                    reason: EnqueueReason::Changed,
                }),
                _ => false,
            },
{
    lemma_ops_queue(cs, k);
}

proof fn lemma_ops_queue(cs: Seq<BlockChange>, k: int)
    requires
        0 <= k < apply_plan(cs).len(),
        apply_plan(cs)[k] is Enqueue,
    ensures
        k < ops_of(cs).len(),
        exists|j: int|
            0 <= j < cs.len() && match #[trigger] cs[j] {
                BlockChange::Added { new } => enqueue_wanted(new) && apply_plan(cs)[k] == (StoreOp::Enqueue {
                    block_hash: new.block_hash,
                    reason: EnqueueReason::Added,
                }),
                BlockChange::Changed { new, .. } => enqueue_wanted(new) && apply_plan(cs)[k] == (StoreOp::Enqueue {
                    block_hash: new.block_hash,
                    reason: EnqueueReason::Changed,
                }),
                _ => false,
            },
    decreases cs.len(),
{
    let ops = ops_of(cs);
    if k >= ops.len() {
        assert(apply_plan(cs)[k] == StoreOp::DeleteOrphanConcepts);
    }
    assert(apply_plan(cs)[k] == ops[k]);
    let c2 = cs.drop_last();
    let before = ops_of(c2);
    if k < before.len() {
        assert(ops[k] == before[k]);
        assert(apply_plan(c2)[k] == before[k]);
        lemma_ops_queue(c2, k);
        let j = choose|j: int|
            0 <= j < c2.len() && match #[trigger] c2[j] {
                BlockChange::Added { new } => enqueue_wanted(new) && apply_plan(c2)[k] == (StoreOp::Enqueue {
                    block_hash: new.block_hash,
                    reason: EnqueueReason::Added,
                }),
                BlockChange::Changed { new, .. } => enqueue_wanted(new) && apply_plan(c2)[k] == (StoreOp::Enqueue {
                    block_hash: new.block_hash,
                    reason: EnqueueReason::Changed,
                }),
                _ => false,
            };
        assert(cs[j] == c2[j]);
    } else {
        let j = cs.len() - 1;
        assert(cs[j] == cs.last());
        assert(ops[k] == change_ops(cs.last())[k - before.len()]);
    }
}

proof fn lemma_unchanged_ops(cs: Seq<BlockChange>)
    requires
        forall|k: int| 0 <= k < cs.len() ==> (#[trigger] cs[k]) is Unchanged,
    ensures
        ops_of(cs).len() == cs.len(),
        forall|k: int| 0 <= k < ops_of(cs).len() ==> (#[trigger] ops_of(cs)[k]) is UpdatePosition,
        !deletes_rows(cs),
    decreases cs.len(),
{
    if cs.len() > 0 {
        let c2 = cs.drop_last();
        assert forall|k: int| 0 <= k < c2.len() implies (#[trigger] c2[k]) is Unchanged by {
            assert(c2[k] == cs[k]);
        }
        lemma_unchanged_ops(c2);
        assert(cs[cs.len() - 1] is Unchanged);
        let ops = ops_of(cs);
        assert forall|k: int| 0 <= k < ops.len() implies (#[trigger] ops[k]) is UpdatePosition by {
            if k < ops_of(c2).len() {
                assert(ops[k] == ops_of(c2)[k]);
            }
        }
    }
}

/// Processing a file whose blocks all kept their hashes and places is no
/// work beyond refreshing positions: nothing is inserted, deleted or
/// queued, so repeated events for an unchanged file are harmless.
pub proof fn lemma_unchanged_file_needs_no_work(d: FileDiff, stored: Seq<crate::incremental::StoredBlock>, new: Seq<NewBlock>)
    requires
        crate::incremental::diff_ok(d, stored, new),
        crate::incremental::same_hashes(stored, new),
    ensures
        apply_plan(d.changes@).len() == stored.len(),
        forall|k: int| 0 <= k < apply_plan(d.changes@).len() ==> (#[trigger] apply_plan(d.changes@)[k]) is UpdatePosition,
{
    lemma_unchanged_ops(d.changes@);
    assert(apply_plan(d.changes@) =~= ops_of(d.changes@));
}

/// The system clock's current reading, declared so that it can be carried
/// through verified code; nothing inside it is read here.
#[verifier::external_type_specification]
#[verifier::external_body]
pub struct ExSystemTime(std::time::SystemTime);

/// The error `SystemTime::duration_since` reports for a later reference
/// point, carried through and dropped.
#[verifier::external_type_specification]
#[verifier::external_body]
pub struct ExSystemTimeError(std::time::SystemTimeError);

/// `std::time::SystemTime::now`: the current time. Nothing is promised of
/// it: it depends on the machine's clock.
#[verifier::external_body]
fn clock_now() -> (t: std::time::SystemTime) {
    std::time::SystemTime::now()
}

/// `SystemTime::duration_since` against `UNIX_EPOCH`: the time elapsed
/// since the epoch, or an error where the clock reads before it. Nothing
/// is stated of which comes back, since the reading is opaque here.
#[verifier::external_body]
fn since_unix_epoch(t: &std::time::SystemTime) -> (r: Result<core::time::Duration, std::time::SystemTimeError>) {
    t.duration_since(std::time::UNIX_EPOCH)
}

/// `Duration::as_millis`: the whole milliseconds of a duration. The
/// duration is opaque here, so nothing is stated of the number.
#[verifier::external_body]
fn whole_millis(d: &core::time::Duration) -> (ms: u128) {
    d.as_millis()
}

/// The timestamp stored with queued work, from the milliseconds elapsed
/// since the Unix epoch: the count taken as an `i64` (wrapping, as a cast
/// does), or 0 where the clock read before the epoch.
pub fn epoch_millis(elapsed: Option<u128>) -> (ms: i64)
    ensures
        ms == match elapsed {
            Some(m) => m as i64,
            None => 0i64,
        },
{
    match elapsed {
        Some(m) => m as i64,
        None => 0,
    }
}

/// Milliseconds since the Unix epoch by the system clock, 0 where the
/// clock reads before the epoch; what comes back depends on the clock, so
/// only `epoch_millis` states the conversion.
pub fn now_millis() -> i64 {
    let now = clock_now();
    let elapsed = match since_unix_epoch(&now) {
        Ok(d) => Some(whole_millis(&d)),
        Err(_) => None,
    };
    epoch_millis(elapsed)
}

} // verus!
