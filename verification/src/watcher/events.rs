//! The debug path of a content change: keeping a file's block snapshots
//! and reporting what changed since the last one.

use vstd::prelude::*;

use crate::config::load::{decimal, decimal_of};
use crate::pipeline::markdown::{blocks_of_tree, markdown_tree_of};
use crate::text::{concat, utf8};
use crate::watcher::snapshots::{
    diff_snapshots, diff_views, snapshot_diff, snapshot_of_block, snapshot_view, snapshots_of, BlockSnapshot,
    DiffKind, DiffView, SnapshotDiff,
};

verus! {

/// What becomes of a file's cached snapshots.
#[derive(Debug, Clone, PartialEq, Eq)]
pub enum SnapshotCacheUpdate {
    /// Forget them (the debug flag is off: a later re-enable starts afresh).
    Drop,
    /// Leave them (the file could not be read; the next change retries).
    Keep,
    /// Replace them with the new snapshots.
    Store(Vec<BlockSnapshot>),
}

/// The snapshots an update stores (none for the other updates).
pub open spec fn stored(u: SnapshotCacheUpdate) -> Seq<BlockSnapshot> {
    match u {
        SnapshotCacheUpdate::Store(ss) => ss@,
        _ => Seq::empty(),
    }
}

/// The outcome of one content change on the debug path.
#[derive(Debug, Clone, PartialEq, Eq)]
pub struct BlockDiffReport {
    pub cache: SnapshotCacheUpdate,
    /// On first sight of a file: the number of blocks of its baseline.
    pub baseline: Option<usize>,
    /// The block changes since the cached snapshots.
    pub diffs: Vec<SnapshotDiff>,
}

/// The snapshots are those of the content's blocks.
pub open spec fn snapshots_of_content(ss: Seq<BlockSnapshot>, content: Seq<char>) -> bool {
    &&& ss.len() == blocks_of_tree(markdown_tree_of(content), utf8(content)).len()
    &&& forall|k: int|
        0 <= k < ss.len() ==> snapshot_view(#[trigger] ss[k]) == snapshot_of_block(
            blocks_of_tree(markdown_tree_of(content), utf8(content))[k],
            utf8(content),
        )
}

/// The debug path of a content change, given the debug flag, the file's
/// content (`None` when it could not be read) and its cached snapshots.
pub fn block_diff_step(debug: bool, content: Option<&str>, cached: Option<&Vec<BlockSnapshot>>) -> (r:
    BlockDiffReport)
    requires
        content matches Some(c) ==> utf8(c@).len() < usize::MAX,
    ensures
        !debug ==> r.cache is Drop && r.baseline is None && r.diffs@.len() == 0,
        debug && content is None ==> r.cache is Keep && r.baseline is None && r.diffs@.len() == 0,
        debug && content is Some ==> {
            &&& r.cache is Store
            &&& snapshots_of_content(stored(r.cache), content->0@)
            &&& cached is None ==> r.baseline == Some(stored(r.cache).len() as usize) && r.diffs@.len() == 0
            &&& cached is Some ==> r.baseline is None && diff_views(r.diffs@) == snapshot_diff(
                cached->0@,
                stored(r.cache),
            )
        },
{
    if !debug {
        return BlockDiffReport { cache: SnapshotCacheUpdate::Drop, baseline: None, diffs: Vec::new() };
    }
    match content {
        None => BlockDiffReport { cache: SnapshotCacheUpdate::Keep, baseline: None, diffs: Vec::new() },
        Some(text) => {
            let fresh = snapshots_of(text);
            match cached {
                None => {
                    let n = fresh.len();
                    BlockDiffReport { cache: SnapshotCacheUpdate::Store(fresh), baseline: Some(n), diffs: Vec::new() }
                },
                Some(old) => {
                    let diffs = diff_snapshots(old.as_slice(), fresh.as_slice());
                    BlockDiffReport { cache: SnapshotCacheUpdate::Store(fresh), baseline: None, diffs }
                },
            }
        },
    }
}

/// `"{path}:{start}-{end}"`.
pub open spec fn range_text(path: Seq<char>, d: DiffView) -> Seq<char> {
    path + ":"@ + decimal_of(d.start_line as nat) + "-"@ + decimal_of(d.end_line as nat)
}

pub open spec fn excerpt_or_empty(e: Option<Seq<char>>) -> Seq<char> {
    match e {
        Some(x) => x,
        None => Seq::empty(),
    }
}

/// The console line for one block change.
pub open spec fn diff_line(path: Seq<char>, d: DiffView) -> Seq<char> {
    match d.kind {
        DiffKind::Added => "block added in "@ + range_text(path, d) + ": \""@ + excerpt_or_empty(d.new_excerpt) + "\""@,
        DiffKind::Removed => "block removed from "@ + range_text(path, d) + ": \""@ + excerpt_or_empty(d.old_excerpt)
            + "\""@,
        DiffKind::Changed => "block changed in "@ + range_text(path, d) + ": \""@ + excerpt_or_empty(d.old_excerpt)
            + "\" -> \""@ + excerpt_or_empty(d.new_excerpt) + "\""@,
    }
}

fn excerpt_text(e: &Option<String>) -> (r: String)
    ensures
        r@ == excerpt_or_empty(crate::text::opt_view(*e)),
{
    match e {
        Some(x) => x.clone(),
        None => String::new(),
    }
}

/// The console line for one block change of a file.
pub fn describe_diff(path: &str, d: &SnapshotDiff) -> (r: String)
    ensures
        r@ == diff_line(path@, crate::watcher::snapshots::diff_view(*d)),
{
    let a = concat(path, ":");
    let b = concat(a.as_str(), decimal(d.start_line).as_str());
    let c = concat(b.as_str(), "-");
    let range = concat(c.as_str(), decimal(d.end_line).as_str());
    let head = match d.kind {
        DiffKind::Added => concat("block added in ", range.as_str()),
        DiffKind::Removed => concat("block removed from ", range.as_str()),
        DiffKind::Changed => concat("block changed in ", range.as_str()),
    };
    let open_quote = concat(head.as_str(), ": \"");
    match d.kind {
        DiffKind::Added => {
            let t = concat(open_quote.as_str(), excerpt_text(&d.new_excerpt).as_str());
            concat(t.as_str(), "\"")
        },
        DiffKind::Removed => {
            let t = concat(open_quote.as_str(), excerpt_text(&d.old_excerpt).as_str());
            concat(t.as_str(), "\"")
        },
        DiffKind::Changed => {
            let t = concat(open_quote.as_str(), excerpt_text(&d.old_excerpt).as_str());
            let u = concat(t.as_str(), "\" -> \"");
            let v = concat(u.as_str(), excerpt_text(&d.new_excerpt).as_str());
            concat(v.as_str(), "\"")
        },
    }
}

} // verus!
