//! The follow-up work of each classified change: which events to emit,
//! which cached snapshots to drop, and which store work to start.

use vstd::prelude::*;

use crate::config::load::CONFIG_FILE_NAME;
use crate::watcher::classify::{
    classification, components, is_hidden, is_markdown, is_markdown_path, relative_components, ClassifiedChange,
    WatchEvent, WatchKind,
};

verus! {

/// The kind a change event announces to the frontend.
#[derive(Debug, Clone, Copy, PartialEq, Eq, Structural)]
pub enum ChangeKind {
    /// Something was created, removed or renamed.
    Structure,
    /// A Markdown file's data changed; the event carries its content hash.
    Content,
}

impl ChangeKind {
    /// The event's name for the kind.
    pub fn as_str(&self) -> (r: &'static str)
        ensures
            *self is Structure ==> r@ == "structure"@,
            *self is Content ==> r@ == "content"@,
    {
        match self {
            ChangeKind::Structure => "structure",
            ChangeKind::Content => "content",
        }
    }
}

/// One step of the work a change asks for.
#[derive(Debug, Clone, PartialEq, Eq)]
pub enum WatchAction {
    /// Reload the merged config for the watched root, select the provider
    /// again, and announce the new status.
    ReloadConfig,
    /// Announce a change of a path.
    Emit { path: String, kind: ChangeKind },
    /// Forget the cached block snapshots of a path.
    DropSnapshots(String),
    /// Report the block-level diff of a changed file.
    BlockDiffs(String),
    /// Ingest a file's content into the store.
    ProcessContent(String),
    /// Drop every stored block of a path.
    RemoveBlocks(String),
    /// Point the stored blocks of a path at its new name.
    Relink { from: String, to: String },
    /// Drop the stored blocks of a path whose rename side is unknown, then
    /// ingest its content again.
    RenameFallback(String),
}

/// The work of a classified change, in order.
pub open spec fn action_plan(change: ClassifiedChange) -> Seq<WatchAction> {
    match change {
        ClassifiedChange::Config => seq![WatchAction::ReloadConfig],
        ClassifiedChange::Structure(p) => seq![
            WatchAction::Emit { path: p, kind: ChangeKind::Structure },
            WatchAction::DropSnapshots(p),
            WatchAction::RenameFallback(p),
        ],
        ClassifiedChange::Content(p) => seq![
            WatchAction::Emit { path: p, kind: ChangeKind::Content },
            WatchAction::BlockDiffs(p),
            WatchAction::ProcessContent(p),
        ],
        ClassifiedChange::Create(p) => seq![
            WatchAction::Emit { path: p, kind: ChangeKind::Structure },
            WatchAction::DropSnapshots(p),
        ] + if is_markdown_path(p@) {
            seq![WatchAction::ProcessContent(p)]
        } else {
            Seq::empty()
        },
        ClassifiedChange::Remove(p) => seq![
            WatchAction::Emit { path: p, kind: ChangeKind::Structure },
            WatchAction::DropSnapshots(p),
            WatchAction::RemoveBlocks(p),
        ],
        ClassifiedChange::Rename { from, to } => seq![
            WatchAction::Emit { path: to, kind: ChangeKind::Structure },
            WatchAction::DropSnapshots(from),
            WatchAction::DropSnapshots(to),
            WatchAction::Relink { from, to },
        ],
    }
}

/// The work a classified change asks for, in order: the live path is
/// announced, stale snapshots are dropped, and the store follows the disk.
pub fn actions_for(change: &ClassifiedChange) -> (r: Vec<WatchAction>)
    ensures
        r@ == action_plan(*change),
{
    let mut out: Vec<WatchAction> = Vec::new();
    match change {
        ClassifiedChange::Config => {
            out.push(WatchAction::ReloadConfig);
        },
        ClassifiedChange::Structure(p) => {
            out.push(WatchAction::Emit { path: p.clone(), kind: ChangeKind::Structure });
            out.push(WatchAction::DropSnapshots(p.clone()));
            out.push(WatchAction::RenameFallback(p.clone()));
        },
        ClassifiedChange::Content(p) => {
            out.push(WatchAction::Emit { path: p.clone(), kind: ChangeKind::Content });
            out.push(WatchAction::BlockDiffs(p.clone()));
            out.push(WatchAction::ProcessContent(p.clone()));
        },
        ClassifiedChange::Create(p) => {
            out.push(WatchAction::Emit { path: p.clone(), kind: ChangeKind::Structure });
            out.push(WatchAction::DropSnapshots(p.clone()));
            if is_markdown(p.as_str()) {
                out.push(WatchAction::ProcessContent(p.clone()));
            }
        },
        ClassifiedChange::Remove(p) => {
            out.push(WatchAction::Emit { path: p.clone(), kind: ChangeKind::Structure });
            out.push(WatchAction::DropSnapshots(p.clone()));
            out.push(WatchAction::RemoveBlocks(p.clone()));
        },
        ClassifiedChange::Rename { from, to } => {
            out.push(WatchAction::Emit { path: to.clone(), kind: ChangeKind::Structure });
            out.push(WatchAction::DropSnapshots(from.clone()));
            out.push(WatchAction::DropSnapshots(to.clone()));
            out.push(WatchAction::Relink { from: from.clone(), to: to.clone() });
        },
    }
    assert(out@ =~= action_plan(*change));
    out
}

/// The store follows every data change on disk: an edited file and a
/// created Markdown file are ingested, a removed file's rows are dropped,
/// and a renamed file's rows are pointed at its new name.
pub proof fn lemma_store_follows_disk(change: ClassifiedChange)
    ensures
        match change {
            ClassifiedChange::Content(p) => action_plan(change).contains(WatchAction::ProcessContent(p)),
            ClassifiedChange::Create(p) => is_markdown_path(p@) ==> action_plan(change).contains(
                WatchAction::ProcessContent(p),
            ),
            ClassifiedChange::Remove(p) => action_plan(change).contains(WatchAction::RemoveBlocks(p)),
            ClassifiedChange::Rename { from, to } => action_plan(change).contains(WatchAction::Relink { from, to }),
            _ => true,
        },
{
    match change {
        ClassifiedChange::Content(p) => {
            assert(action_plan(change)[2] == WatchAction::ProcessContent(p));
        },
        ClassifiedChange::Create(p) => {
            if is_markdown_path(p@) {
                assert(action_plan(change)[2] == WatchAction::ProcessContent(p));
            }
        },
        ClassifiedChange::Remove(p) => {
            assert(action_plan(change)[2] == WatchAction::RemoveBlocks(p));
        },
        ClassifiedChange::Rename { from, to } => {
            assert(action_plan(change)[3] == (WatchAction::Relink { from, to }));
        },
        _ => {},
    }
}

/// Every change is announced and leaves no stale snapshot: a config change
/// reloads the config; an edited file is announced as a content change with
/// its block diffs reported; a created, removed or otherwise changed path
/// is announced as a structure change and its snapshots are dropped; a
/// rename announces the new name and drops the snapshots of both names.
pub proof fn lemma_changes_announced(change: ClassifiedChange)
    ensures
        match change {
            ClassifiedChange::Config => action_plan(change).contains(WatchAction::ReloadConfig),
            ClassifiedChange::Content(p) => action_plan(change).contains(
                WatchAction::Emit { path: p, kind: ChangeKind::Content },
            ) && action_plan(change).contains(WatchAction::BlockDiffs(p)),
            ClassifiedChange::Create(p) => action_plan(change).contains(
                WatchAction::Emit { path: p, kind: ChangeKind::Structure },
            ) && action_plan(change).contains(WatchAction::DropSnapshots(p)),
            ClassifiedChange::Remove(p) => action_plan(change).contains(
                WatchAction::Emit { path: p, kind: ChangeKind::Structure },
            ) && action_plan(change).contains(WatchAction::DropSnapshots(p)),
            ClassifiedChange::Structure(p) => action_plan(change).contains(
                WatchAction::Emit { path: p, kind: ChangeKind::Structure },
            ) && action_plan(change).contains(WatchAction::DropSnapshots(p)),
            ClassifiedChange::Rename { from, to } => action_plan(change).contains(
                WatchAction::Emit { path: to, kind: ChangeKind::Structure },
            ) && action_plan(change).contains(WatchAction::DropSnapshots(from)) && action_plan(change).contains(
                WatchAction::DropSnapshots(to),
            ),
        },
{
    let a = action_plan(change);
    match change {
        ClassifiedChange::Config => {
            assert(a[0] == WatchAction::ReloadConfig);
        },
        ClassifiedChange::Content(p) => {
            assert(a[0] == (WatchAction::Emit { path: p, kind: ChangeKind::Content }));
            assert(a[1] == WatchAction::BlockDiffs(p));
        },
        ClassifiedChange::Create(p) => {
            assert(a[0] == (WatchAction::Emit { path: p, kind: ChangeKind::Structure }));
            assert(a[1] == WatchAction::DropSnapshots(p));
        },
        ClassifiedChange::Remove(p) => {
            assert(a[0] == (WatchAction::Emit { path: p, kind: ChangeKind::Structure }));
            assert(a[1] == WatchAction::DropSnapshots(p));
        },
        ClassifiedChange::Structure(p) => {
            assert(a[0] == (WatchAction::Emit { path: p, kind: ChangeKind::Structure }));
            assert(a[1] == WatchAction::DropSnapshots(p));
        },
        ClassifiedChange::Rename { from, to } => {
            assert(a[0] == (WatchAction::Emit { path: to, kind: ChangeKind::Structure }));
            assert(a[1] == WatchAction::DropSnapshots(from));
            assert(a[2] == WatchAction::DropSnapshots(to));
        },
    }
}

/// From event to store: a data change of a Markdown file in the watched
/// tree (not the root's config file, not under a dot-named directory) is a
/// content change of that file and gets the file ingested; a content change
/// only ever comes from a data change of a Markdown file; a path under a
/// dot-named directory below the root, other than the root's config file,
/// is never acted on.
pub proof fn lemma_events_reach_the_store(root: Seq<char>, e: WatchEvent)
    ensures
        ({
            let p = e.paths@[0];
            let visible = components(p@) != components(root) + seq![CONFIG_FILE_NAME@] && forall|k: int|
                0 <= k < relative_components(p@, root).len() ==> !is_hidden(
                    #[trigger] relative_components(p@, root)[k],
                );
            e.paths@.len() > 0 && e.kind == WatchKind::DataModify && is_markdown_path(p@) && visible ==> {
                &&& classification(root, e) == Some(ClassifiedChange::Content(p))
                &&& action_plan(ClassifiedChange::Content(p)).contains(WatchAction::ProcessContent(p))
            }
        }),
        classification(root, e) matches Some(ClassifiedChange::Content(p)) ==> e.kind == WatchKind::DataModify
            && is_markdown_path(p@) && p == e.paths@[0],
        ({
            let p = e.paths@[0];
            e.paths@.len() > 0 && components(p@) != components(root) + seq![CONFIG_FILE_NAME@] && (exists|k: int|
                0 <= k < relative_components(p@, root).len() && is_hidden(
                    #[trigger] relative_components(p@, root)[k],
                )) ==> classification(root, e) is None
        }),
{
    if e.paths@.len() > 0 {
        lemma_store_follows_disk(ClassifiedChange::Content(e.paths@[0]));
    }
}

} // verus!
