//! File watching: the classification of file-system events relative to the
//! watched root, the follow-up work each change asks for, and the debug
//! block snapshots and their diffs.

pub mod classify;
pub mod events;
pub mod snapshots;
pub mod sync;

pub use classify::{classify_event, is_markdown, ClassifiedChange, WatchEvent, WatchKind};
pub use events::{block_diff_step, describe_diff, BlockDiffReport, SnapshotCacheUpdate};
pub use snapshots::{
    diff_snapshots, excerpt_of, line_of, push_region_diffs, snapshots_of, BlockSnapshot, DiffKind, SnapshotDiff,
};
pub use sync::{actions_for, ChangeKind, WatchAction};
