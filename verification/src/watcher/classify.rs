//! Classification of file-system events relative to the watched root.
//! Paths are compared by their components, as `std::path` compares them.

use vstd::prelude::*;

use crate::config::load::CONFIG_FILE_NAME;
use crate::text::{chars_of, push_char, views};

verus! {

/// A segment kept as a component: not empty and not `.`.
pub open spec fn kept_segment(c: Seq<char>) -> Seq<Seq<char>> {
    if c.len() == 0 || (c.len() == 1 && c[0] == '.') {
        Seq::empty()
    } else {
        seq![c]
    }
}

/// The components named by the segments of `s` from index `i`, the segment
/// in progress being `cur`.
pub open spec fn segments_from(s: Seq<char>, i: int, cur: Seq<char>) -> Seq<Seq<char>>
    decreases s.len() - i,
{
    if i < 0 || i >= s.len() {
        kept_segment(cur)
    } else if s[i] == '/' {
        kept_segment(cur) + segments_from(s, i + 1, Seq::empty())
    } else {
        segments_from(s, i + 1, cur.push(s[i]))
    }
}

/// The leading component: the root `/` of an absolute path, or `.` for a
/// path that starts with the current directory.
pub open spec fn lead_component(s: Seq<char>) -> Seq<Seq<char>> {
    if s.len() > 0 && s[0] == '/' {
        seq![seq!['/']]
    } else if (s.len() == 1 && s[0] == '.') || (s.len() >= 2 && s[0] == '.' && s[1] == '/') {
        seq![seq!['.']]
    } else {
        Seq::empty()
    }
}

/// The components of a path: `/` for the root, `.` for a leading current
/// directory, `..` for a parent, and the names in between; empty segments
/// and inner `.` segments drop out.
pub open spec fn components(s: Seq<char>) -> Seq<Seq<char>> {
    lead_component(s) + segments_from(s, 0, Seq::empty())
}

/// The components of a path.
pub fn path_components(p: &str) -> (r: Vec<String>)
    ensures
        views(r@) == components(p@),
{
    let cs = chars_of(p);
    let ghost s = p@;
    let mut out: Vec<String> = Vec::new();
    let n = cs.len();
    if n > 0 && cs[0] == '/' {
        let mut root = String::new();
        push_char(&mut root, '/');
        out.push(root);
    } else if (n == 1 && cs[0] == '.') || (n >= 2 && cs[0] == '.' && cs[1] == '/') {
        let mut cur_dir = String::new();
        push_char(&mut cur_dir, '.');
        out.push(cur_dir);
    }
    assert(views(out@) =~= lead_component(s));
    let mut cur: Vec<char> = Vec::new();
    let mut i: usize = 0;
    while i < n
        invariant
            i <= n == cs@.len(),
            cs@ == s,
            views(out@) + segments_from(s, i as int, cur@) == components(s),
        decreases n - i,
    {
        if cs[i] == '/' {
            let ghost before = views(out@);
            let ghost seg = cur@;
            if cur.len() > 0 && !(cur.len() == 1 && cur[0] == '.') {
                let text = crate::text::string_of(&cur);
                proof {
                    crate::text::lemma_views_push(out@, text);
                }
                out.push(text);
            }
            cur = Vec::new();
            assert(views(out@) =~= before + kept_segment(seg));
            assert(views(out@) + segments_from(s, i + 1, cur@) =~= before + segments_from(s, i as int, seg));
        } else {
            cur.push(cs[i]);
        }
        i = i + 1;
    }
    let ghost before = views(out@);
    if cur.len() > 0 && !(cur.len() == 1 && cur[0] == '.') {
        let text = crate::text::string_of(&cur);
        proof {
            crate::text::lemma_views_push(out@, text);
        }
        out.push(text);
    }
    assert(views(out@) =~= before + segments_from(s, i as int, cur@));
    out
}

/// A component names a file or directory (not the root, `.` or `..`).
pub open spec fn is_name(c: Seq<char>) -> bool {
    !(c.len() == 1 && (c[0] == '/' || c[0] == '.')) && !(c.len() == 2 && c[0] == '.' && c[1] == '.')
}

/// A name that starts with a dot.
pub open spec fn is_hidden(c: Seq<char>) -> bool {
    is_name(c) && c.len() > 0 && c[0] == '.'
}

/// The components of `path` below `root`, or all of them when `path` is not
/// under `root`.
pub open spec fn relative_components(path: Seq<char>, root: Seq<char>) -> Seq<Seq<char>> {
    if components(root).is_prefix_of(components(path)) {
        components(path).skip(components(root).len() as int)
    } else {
        components(path)
    }
}

/// An ASCII letter in either case.
pub open spec fn ascii_eq_ignore_case(c: char, lower: char) -> bool {
    c == lower || (c as u32) + 32 == (lower as u32)
}

/// A file name whose extension is `md` in any letter case (a name that
/// starts with its only dot has no extension).
pub open spec fn has_md_extension(name: Seq<char>) -> bool {
    &&& name.len() >= 4
    &&& name[name.len() - 3] == '.'
    &&& ascii_eq_ignore_case(name[name.len() - 2], 'm')
    &&& ascii_eq_ignore_case(name[name.len() - 1], 'd')
}

/// A path whose file name has the `md` extension.
pub open spec fn is_markdown_path(path: Seq<char>) -> bool {
    let cs = components(path);
    cs.len() > 0 && is_name(cs.last()) && has_md_extension(cs.last())
}

fn is_name_str(c: &Vec<char>) -> (r: bool)
    ensures
        r == is_name(c@),
{
    !(c.len() == 1 && (c[0] == '/' || c[0] == '.')) && !(c.len() == 2 && c[0] == '.' && c[1] == '.')
}

fn eq_ignore_case(c: char, lower: char) -> (r: bool)
    requires
        'a' <= lower <= 'z',
    ensures
        r == ascii_eq_ignore_case(c, lower),
{
    c == lower || (c as u32) + 32 == (lower as u32)
}

/// Whether a path names a Markdown file (`.md`, any letter case).
pub fn is_markdown(path: &str) -> (r: bool)
    ensures
        r == is_markdown_path(path@),
{
    let cs = path_components(path);
    if cs.len() == 0 {
        return false;
    }
    let name = chars_of(cs[cs.len() - 1].as_str());
    assert(name@ == components(path@).last());
    let n = name.len();
    is_name_str(&name) && n >= 4 && name[n - 3] == '.' && eq_ignore_case(name[n - 2], 'm') && eq_ignore_case(
        name[n - 1],
        'd',
    )
}

/// Whether a name below the root starts with a dot.
fn hidden_below_root(path: &str, root: &str) -> (r: bool)
    ensures
        r == exists|k: int| 0 <= k < relative_components(path@, root@).len() && is_hidden(
            #[trigger] relative_components(path@, root@)[k],
        ),
{
    let pc = path_components(path);
    let rc = path_components(root);
    let ghost vp = views(pc@);
    let ghost vr = views(rc@);
    let mut under = rc.len() <= pc.len();
    let mut t: usize = 0;
    while under && t < rc.len()
        invariant
            t <= rc@.len(),
            under ==> rc@.len() <= pc@.len(),
            under ==> forall|u: int| 0 <= u < t ==> vr[u] == vp[u],
            !under ==> !vr.is_prefix_of(vp),
            vp == views(pc@),
            vr == views(rc@),
        decreases rc@.len() - t + if under { 1int } else { 0int },
    {
        if !crate::text::str_eq(rc[t].as_str(), pc[t].as_str()) {
            assert(vr[t as int] != vp[t as int]);
            under = false;
        } else {
            t = t + 1;
        }
    }
    let from: usize = if under {
        assert(vr =~= vp.take(vr.len() as int));
        rc.len()
    } else {
        0
    };
    let ghost rel = relative_components(path@, root@);
    assert(rel =~= vp.skip(from as int));
    let mut k: usize = from;
    while k < pc.len()
        invariant
            from <= k <= pc@.len(),
            vp == views(pc@),
            rel == vp.skip(from as int),
            rel == relative_components(path@, root@),
            forall|j: int| from <= j < k ==> !is_hidden(#[trigger] vp[j]),
        decreases pc@.len() - k,
    {
        let c = chars_of(pc[k].as_str());
        assert(c@ == vp[k as int]);
        if is_name_str(&c) && c.len() > 0 && c[0] == '.' {
            assert(rel[k - from] == vp[k as int]);
            assert(is_hidden(rel[k - from]));
            return true;
        }
        k = k + 1;
    }
    assert forall|j: int| 0 <= j < rel.len() implies !is_hidden(#[trigger] rel[j]) by {
        assert(rel[j] == vp[j + from]);
    }
    false
}

/// What kind of file-system event arrived, as the watcher distinguishes
/// them.
#[derive(Debug, Clone, Copy, PartialEq, Eq, Structural)]
pub enum WatchKind {
    Create,
    Remove,
    /// A rename whose two sides were matched: paths are `[from, to]`.
    RenameBoth,
    /// The old side of a rename with no known target.
    RenameFrom,
    /// The new side of a rename with no known source.
    RenameTo,
    /// A rename whose side is unknown.
    RenameAny,
    /// A rename the watcher could not interpret.
    RenameOther,
    /// A change of a file's data.
    DataModify,
    /// Anything else (metadata, access, ...).
    Other,
}

/// A file-system event: its kind and the paths it concerns.
#[derive(Debug, Clone, PartialEq, Eq)]
pub struct WatchEvent {
    pub kind: WatchKind,
    pub paths: Vec<String>,
}

/// A relevant event, with the path or paths the follow-up work needs.
#[derive(Debug, Clone, PartialEq, Eq)]
pub enum ClassifiedChange {
    Create(String),
    Remove(String),
    Structure(String),
    Content(String),
    Config,
    Rename { from: String, to: String },
}

/// The classification of an event under a watched root: the root's own
/// config file first (it is hidden by design); then nothing for a path with
/// a dot-named component below the root; then by kind: creations and
/// removals (and the unmatched sides of renames) as such, a matched rename
/// with both ends, an unknown-side rename as a structure change, a data
/// change of a Markdown file as content; everything else is irrelevant.
pub open spec fn classification(root: Seq<char>, e: WatchEvent) -> Option<ClassifiedChange> {
    if e.paths@.len() == 0 {
        None
    } else {
        let path = e.paths@[0];
        if components(path@) == components(root) + seq![CONFIG_FILE_NAME@] {
            Some(ClassifiedChange::Config)
        } else if exists|k: int| 0 <= k < relative_components(path@, root).len() && is_hidden(
            #[trigger] relative_components(path@, root)[k],
        ) {
            None
        } else {
            match e.kind {
                WatchKind::Create => Some(ClassifiedChange::Create(path)),
                WatchKind::Remove => Some(ClassifiedChange::Remove(path)),
                WatchKind::RenameBoth => if e.paths@.len() >= 2 {
                    Some(ClassifiedChange::Rename { from: path, to: e.paths@[1] })
                } else {
                    None
                },
                WatchKind::RenameFrom => Some(ClassifiedChange::Remove(path)),
                WatchKind::RenameTo => Some(ClassifiedChange::Create(path)),
                WatchKind::RenameAny => Some(ClassifiedChange::Structure(path)),
                WatchKind::RenameOther => None,
                WatchKind::DataModify => if is_markdown_path(path@) {
                    Some(ClassifiedChange::Content(path))
                } else {
                    None
                },
                WatchKind::Other => None,
            }
        }
    }
}

/// Whether a path is the root's own config file.
fn is_root_config(path: &str, root: &str) -> (r: bool)
    ensures
        r == (components(path@) == components(root@) + seq![CONFIG_FILE_NAME@]),
{
    let pc = path_components(path);
    let rc = path_components(root);
    let ghost target = components(root@) + seq![CONFIG_FILE_NAME@];
    if pc.len() == 0 || pc.len() - 1 != rc.len() {
        assert(views(pc@).len() != target.len());
        return false;
    }
    let mut t: usize = 0;
    while t < rc.len()
        invariant
            t <= rc@.len(),
            pc@.len() == rc@.len() + 1,
            target == components(root@) + seq![CONFIG_FILE_NAME@],
            views(pc@) == components(path@),
            views(rc@) == components(root@),
            forall|u: int| 0 <= u < t ==> views(pc@)[u] == views(rc@)[u],
        decreases rc@.len() - t,
    {
        if !crate::text::str_eq(pc[t].as_str(), rc[t].as_str()) {
            assert(views(pc@)[t as int] != target[t as int]);
            return false;
        }
        t = t + 1;
    }
    let last = crate::text::str_eq(pc[rc.len()].as_str(), CONFIG_FILE_NAME);
    proof {
        if last {
            assert(views(pc@) =~= target);
        } else {
            assert(views(pc@)[rc@.len() as int] != target[rc@.len() as int]);
        }
    }
    last
}

/// Classifies a file-system event relative to the watched root; `None`
/// for an irrelevant event.
pub fn classify_event(root: &str, event: &WatchEvent) -> (r: Option<ClassifiedChange>)
    ensures
        r == classification(root@, *event),
{
    if event.paths.len() == 0 {
        return None;
    }
    let path = &event.paths[0];
    if is_root_config(path.as_str(), root) {
        return Some(ClassifiedChange::Config);
    }
    if hidden_below_root(path.as_str(), root) {
        return None;
    }
    match event.kind {
        WatchKind::Create => Some(ClassifiedChange::Create(path.clone())),
        WatchKind::Remove => Some(ClassifiedChange::Remove(path.clone())),
        WatchKind::RenameBoth => {
            if event.paths.len() >= 2 {
                Some(ClassifiedChange::Rename { from: path.clone(), to: event.paths[1].clone() })
            } else {
                None
            }
        },
        WatchKind::RenameFrom => Some(ClassifiedChange::Remove(path.clone())),
        WatchKind::RenameTo => Some(ClassifiedChange::Create(path.clone())),
        WatchKind::RenameAny => Some(ClassifiedChange::Structure(path.clone())),
        WatchKind::RenameOther => None,
        WatchKind::DataModify => {
            if is_markdown(path.as_str()) {
                Some(ClassifiedChange::Content(path.clone()))
            } else {
                None
            }
        },
        WatchKind::Other => None,
    }
}

} // verus!
