//! Block snapshots of a file for the debug console, and the diff of two
//! snapshots by a longest-common-subsequence alignment of block hashes, so
//! unchanged blocks stay anchored and only changed regions are reported.

use vstd::prelude::*;

use crate::text::opt_view;
use vstd::string::StringSliceAdditionalSpecFns;
use vstd::utf8::*;

use crate::incremental::lcs_from;
use crate::pipeline::markdown::{
    all_slice_source, block_models, blocks_of_tree, lemma_blocks_slice_source, markdown_tree_of, parse_markdown_blocks,
    BlockModel,
};
use crate::tasks::dispatch::collapse_and_cap;
use crate::text::{seq_join, take_chars, utf8, words};

verus! {

/// One block as the debug console sees it: its content hash, its 1-based
/// line range, and a one-line excerpt.
#[derive(Debug, Clone, PartialEq, Eq)]
pub struct BlockSnapshot {
    pub hash: String,
    pub start_line: usize,
    pub end_line: usize,
    pub excerpt: String,
}

/// How one block changed between two snapshots of a file.
#[derive(Debug, Clone, Copy, PartialEq, Eq, Structural)]
pub enum DiffKind {
    Added,
    Changed,
    Removed,
}

/// One per-block change. `Added` and `Removed` carry the excerpt of their
/// block; `Changed` carries both, with the new block's line range.
#[derive(Debug, Clone, PartialEq, Eq)]
pub struct SnapshotDiff {
    pub kind: DiffKind,
    pub start_line: usize,
    pub end_line: usize,
    pub old_excerpt: Option<String>,
    pub new_excerpt: Option<String>,
}

/// The plain values of a snapshot diff.
pub struct DiffView {
    pub kind: DiffKind,
    pub start_line: int,
    pub end_line: int,
    pub old_excerpt: Option<Seq<char>>,
    pub new_excerpt: Option<Seq<char>>,
}

pub open spec fn diff_view(d: SnapshotDiff) -> DiffView {
    DiffView {
        kind: d.kind,
        start_line: d.start_line as int,
        end_line: d.end_line as int,
        old_excerpt: opt_view(d.old_excerpt),
        new_excerpt: opt_view(d.new_excerpt),
    }
}

pub open spec fn diff_views(ds: Seq<SnapshotDiff>) -> Seq<DiffView> {
    ds.map_values(|d: SnapshotDiff| diff_view(d))
}

/// The one-line excerpt of a text: whitespace runs collapsed to single
/// spaces, trimmed, and cut to `cap` characters.
pub open spec fn excerpt(text: Seq<char>, cap: nat) -> Seq<char> {
    take_chars(seq_join(words(text), " "@), cap)
}

/// Collapses whitespace to single spaces, trims, and keeps at most `cap`
/// characters, so console lines stay single-line.
pub fn excerpt_of(text: &str, cap: usize) -> (r: String)
    ensures
        r@ == excerpt(text@, cap as nat),
{
    collapse_and_cap(text, cap)
}

/// The number of line feeds among some bytes.
pub open spec fn newlines(bytes: Seq<u8>) -> nat {
    bytes.filter(|b: u8| b == 10u8).len()
}

/// The 1-based line holding byte `offset` of some UTF-8 text: one more than
/// the line feeds before it (an offset past the end counts them all).
pub open spec fn line_at(bytes: Seq<u8>, offset: int) -> int {
    if offset < bytes.len() {
        newlines(bytes.take(offset)) + 1int
    } else {
        newlines(bytes) + 1int
    }
}

/// The 1-based line number of a byte offset; an offset past the end is the
/// last line.
pub fn line_of(content: &str, offset: usize) -> (r: usize)
    requires
        offset >= utf8(content@).len() || is_char_boundary(utf8(content@), offset as int),
        utf8(content@).len() < usize::MAX,
    ensures
        r == line_at(utf8(content@), offset as int),
{
    let bytes = content.as_bytes();
    let ghost b = utf8(content@);
    assert(bytes@ == b);
    let end = if offset < bytes.len() {
        offset
    } else {
        bytes.len()
    };
    let mut count: usize = 0;
    let mut i: usize = 0;
    while i < end
        invariant
            i <= end <= bytes@.len(),
            bytes@ == b,
            b.len() < usize::MAX,
            count == newlines(b.take(i as int)),
            count <= i,
        decreases end - i,
    {
        proof {
            assert(b.take(i + 1) =~= b.take(i as int).push(b[i as int]));
            b.take(i as int).lemma_filter_push(b[i as int], |x: u8| x == 10u8);
        }
        if bytes[i] == 10u8 {
            count = count + 1;
        }
        i = i + 1;
    }
    proof {
        if offset >= b.len() {
            assert(b.take(end as int) =~= b);
        }
    }
    count + 1
}

/// The plain values of a snapshot.
pub struct SnapshotView {
    pub hash: Seq<char>,
    pub start_line: int,
    pub end_line: int,
    pub excerpt: Seq<char>,
}

pub open spec fn snapshot_view(s: BlockSnapshot) -> SnapshotView {
    SnapshotView { hash: s.hash@, start_line: s.start_line as int, end_line: s.end_line as int, excerpt: s.excerpt@ }
}

/// Where a block's line range ends: a block whose last byte is a line feed
/// (the last item of a list) ends on the line before it.
pub open spec fn end_offset(m: BlockModel, bytes: Seq<u8>) -> int {
    if m.end > m.start && bytes[m.end - 1] == 10u8 {
        m.end - 1
    } else {
        m.end as int
    }
}

/// The snapshot of one parsed block of some text.
pub open spec fn snapshot_of_block(m: BlockModel, bytes: Seq<u8>) -> SnapshotView {
    let start_line = line_at(bytes, m.start as int);
    let end_line = line_at(bytes, end_offset(m, bytes));
    SnapshotView {
        hash: m.block_hash,
        start_line,
        end_line: if end_line >= start_line {
            end_line
        } else {
            start_line
        },
        excerpt: excerpt(m.text, 80),
    }
}

/// The cap on snapshot excerpts.
pub const EXCERPT_CAP: usize = 80;

/// The snapshots of every block of a Markdown text, excluded blocks too:
/// this is a view of the file on disk.
pub fn snapshots_of(content: &str) -> (r: Vec<BlockSnapshot>)
    requires
        utf8(content@).len() < usize::MAX,
    ensures
        r@.len() == blocks_of_tree(markdown_tree_of(content@), utf8(content@)).len(),
        forall|k: int|
            0 <= k < r@.len() ==> snapshot_view(#[trigger] r@[k]) == snapshot_of_block(
                blocks_of_tree(markdown_tree_of(content@), utf8(content@))[k],
                utf8(content@),
            ),
{
    let blocks = parse_markdown_blocks(content);
    let ghost b = utf8(content@);
    let ghost ms = blocks_of_tree(markdown_tree_of(content@), b);
    proof {
        lemma_blocks_slice_source(markdown_tree_of(content@), content@);
        encode_utf8_valid_utf8(content@);
        assert(block_models(blocks@) == ms);
    }
    let bytes = content.as_bytes();
    assert(bytes@ == b);
    let mut out: Vec<BlockSnapshot> = Vec::new();
    let mut k: usize = 0;
    while k < blocks.len()
        invariant
            k <= blocks@.len(),
            block_models(blocks@) == ms,
            all_slice_source(ms, b),
            valid_utf8(b),
            bytes@ == b,
            b == utf8(content@),
            b.len() < usize::MAX,
            out@.len() == k,
            forall|t: int| 0 <= t < k ==> snapshot_view(#[trigger] out@[t]) == snapshot_of_block(ms[t], b),
        decreases blocks@.len() - k,
    {
        let block = &blocks[k];
        let ghost m = ms[k as int];
        assert(m == crate::pipeline::markdown::block_model(blocks@[k as int]));
        assert(crate::pipeline::markdown::slices_source(m, b));
        let end = if block.end > block.start && bytes[block.end - 1] == 10u8 {
            proof {
                crate::text::lemma_ascii_boundary(b, block.end - 1);
            }
            block.end - 1
        } else {
            block.end
        };
        let start_line = line_of(content, block.start);
        let end_line = line_of(content, end);
        let snap = BlockSnapshot {
            hash: block.block_hash.clone(),
            start_line,
            end_line: if end_line >= start_line {
                end_line
            } else {
                start_line
            },
            excerpt: excerpt_of(block.text.as_str(), EXCERPT_CAP),
        };
        out.push(snap);
        k = k + 1;
    }
    out
}

/// The hash sequence of some snapshots.
pub open spec fn snapshot_hashes(ss: Seq<BlockSnapshot>) -> Seq<Seq<char>> {
    ss.map_values(|s: BlockSnapshot| s.hash@)
}

/// The matched pairs of an LCS alignment of `a[i..]` and `b[j..]`, found by
/// walking the recurrence from the front: equal hashes match, otherwise the
/// side whose removal keeps the longer common subsequence advances (the old
/// side on ties).
pub open spec fn anchors_from(a: Seq<Seq<char>>, b: Seq<Seq<char>>, i: int, j: int) -> Seq<(int, int)>
    decreases (a.len() - i) + (b.len() - j),
{
    if i < 0 || j < 0 || i >= a.len() || j >= b.len() {
        Seq::empty()
    } else if a[i] == b[j] {
        seq![(i, j)] + anchors_from(a, b, i + 1, j + 1)
    } else if lcs_from(a, b, i + 1, j) >= lcs_from(a, b, i, j + 1) {
        anchors_from(a, b, i + 1, j)
    } else {
        anchors_from(a, b, i, j + 1)
    }
}

/// The diff of one block removed.
pub open spec fn removed_view(s: BlockSnapshot) -> DiffView {
    DiffView {
        kind: DiffKind::Removed,
        start_line: s.start_line as int,
        end_line: s.end_line as int,
        old_excerpt: Some(s.excerpt@),
        new_excerpt: None,
    }
}

/// The diff of one block added.
pub open spec fn added_view(s: BlockSnapshot) -> DiffView {
    DiffView {
        kind: DiffKind::Added,
        start_line: s.start_line as int,
        end_line: s.end_line as int,
        old_excerpt: None,
        new_excerpt: Some(s.excerpt@),
    }
}

/// The diffs of a region between anchors: one old and one new block pair
/// into a single change; otherwise every old block is removed and every new
/// block added.
pub open spec fn region_diffs(old: Seq<BlockSnapshot>, new: Seq<BlockSnapshot>) -> Seq<DiffView> {
    if old.len() == 1 && new.len() == 1 {
        seq![
            DiffView {
                kind: DiffKind::Changed,
                start_line: new[0].start_line as int,
                end_line: new[0].end_line as int,
                old_excerpt: Some(old[0].excerpt@),
                new_excerpt: Some(new[0].excerpt@),
            },
        ]
    } else {
        old.map_values(|s: BlockSnapshot| removed_view(s)) + new.map_values(|s: BlockSnapshot| added_view(s))
    }
}

/// The diffs of the regions delimited by the anchors from `k` on, the
/// current region starting at `po` in the old list and `pn` in the new.
pub open spec fn diffs_at(
    old: Seq<BlockSnapshot>,
    new: Seq<BlockSnapshot>,
    anchors: Seq<(int, int)>,
    k: int,
    po: int,
    pn: int,
) -> Seq<DiffView>
    decreases anchors.len() - k,
{
    if k < 0 || k >= anchors.len() {
        region_diffs(old.subrange(po, old.len() as int), new.subrange(pn, new.len() as int))
    } else {
        region_diffs(old.subrange(po, anchors[k].0), new.subrange(pn, anchors[k].1)) + diffs_at(
            old,
            new,
            anchors,
            k + 1,
            anchors[k].0 + 1,
            anchors[k].1 + 1,
        )
    }
}

/// The diff of two snapshots of a file.
pub open spec fn snapshot_diff(old: Seq<BlockSnapshot>, new: Seq<BlockSnapshot>) -> Seq<DiffView> {
    diffs_at(old, new, anchors_from(snapshot_hashes(old), snapshot_hashes(new), 0, 0), 0, 0, 0)
}

/// The anchors are strictly increasing on both sides and lie in range.
pub open spec fn anchors_ok(anchors: Seq<(int, int)>, i: int, j: int, n: int, m: int) -> bool {
    &&& forall|k: int| 0 <= k < anchors.len() ==> i <= (#[trigger] anchors[k]).0 < n && j <= anchors[k].1 < m
    &&& forall|k: int, l: int|
        0 <= k < l < anchors.len() ==> (#[trigger] anchors[k]).0 < (#[trigger] anchors[l]).0 && anchors[k].1
            < anchors[l].1
}

proof fn lemma_anchors_ok(a: Seq<Seq<char>>, b: Seq<Seq<char>>, i: int, j: int)
    requires
        0 <= i <= a.len(),
        0 <= j <= b.len(),
    ensures
        anchors_ok(anchors_from(a, b, i, j), i, j, a.len() as int, b.len() as int),
    decreases (a.len() - i) + (b.len() - j),
{
    if i < a.len() && j < b.len() {
        if a[i] == b[j] {
            lemma_anchors_ok(a, b, i + 1, j + 1);
            let rest = anchors_from(a, b, i + 1, j + 1);
            let all = seq![(i, j)] + rest;
            assert forall|k: int| 0 <= k < all.len() implies i <= (#[trigger] all[k]).0 < a.len() && j <= all[k].1
                < b.len() by {
                if k > 0 {
                    assert(all[k] == rest[k - 1]);
                }
            }
            assert forall|k: int, l: int| 0 <= k < l < all.len() implies (#[trigger] all[k]).0 < (
            #[trigger] all[l]).0 && all[k].1 < all[l].1 by {
                assert(all[l] == rest[l - 1]);
                if k > 0 {
                    assert(all[k] == rest[k - 1]);
                }
            }
        } else if lcs_from(a, b, i + 1, j) >= lcs_from(a, b, i, j + 1) {
            lemma_anchors_ok(a, b, i + 1, j);
        } else {
            lemma_anchors_ok(a, b, i, j + 1);
        }
    }
}

/// Appends the diffs of one region between anchors.
pub fn push_region_diffs(diffs: &mut Vec<SnapshotDiff>, old_region: &[BlockSnapshot], new_region: &[BlockSnapshot])
    ensures
        diff_views(final(diffs)@) == diff_views(old(diffs)@) + region_diffs(old_region@, new_region@),
{
    let ghost before = diff_views(diffs@);
    if old_region.len() == 1 && new_region.len() == 1 {
        let d = SnapshotDiff {
            kind: DiffKind::Changed,
            start_line: new_region[0].start_line,
            end_line: new_region[0].end_line,
            old_excerpt: Some(old_region[0].excerpt.clone()),
            new_excerpt: Some(new_region[0].excerpt.clone()),
        };
        diffs.push(d);
        assert(diff_views(diffs@) =~= before + region_diffs(old_region@, new_region@));
        return;
    }
    let mut k: usize = 0;
    while k < old_region.len()
        invariant
            k <= old_region@.len(),
            diff_views(diffs@) == before + old_region@.take(k as int).map_values(|s: BlockSnapshot| removed_view(s)),
        decreases old_region@.len() - k,
    {
        let b = &old_region[k];
        let d = SnapshotDiff {
            kind: DiffKind::Removed,
            start_line: b.start_line,
            end_line: b.end_line,
            old_excerpt: Some(b.excerpt.clone()),
            new_excerpt: None,
        };
        assert(diff_view(d) == removed_view(old_region@[k as int]));
        let ghost pre = diffs@;
        diffs.push(d);
        assert(diff_views(diffs@) =~= diff_views(pre).push(diff_view(d)));
        assert(old_region@.take(k + 1) =~= old_region@.take(k as int).push(old_region@[k as int]));
        k = k + 1;
        assert(diff_views(diffs@) =~= before + old_region@.take(k as int).map_values(
            |s: BlockSnapshot| removed_view(s),
        ));
    }
    assert(old_region@.take(k as int) =~= old_region@);
    let ghost mid = diff_views(diffs@);
    let mut k: usize = 0;
    while k < new_region.len()
        invariant
            k <= new_region@.len(),
            diff_views(diffs@) == mid + new_region@.take(k as int).map_values(|s: BlockSnapshot| added_view(s)),
        decreases new_region@.len() - k,
    {
        let b = &new_region[k];
        let d = SnapshotDiff {
            kind: DiffKind::Added,
            start_line: b.start_line,
            end_line: b.end_line,
            old_excerpt: None,
            new_excerpt: Some(b.excerpt.clone()),
        };
        assert(diff_view(d) == added_view(new_region@[k as int]));
        let ghost pre = diffs@;
        diffs.push(d);
        assert(diff_views(diffs@) =~= diff_views(pre).push(diff_view(d)));
        assert(new_region@.take(k + 1) =~= new_region@.take(k as int).push(new_region@[k as int]));
        k = k + 1;
        assert(diff_views(diffs@) =~= mid + new_region@.take(k as int).map_values(|s: BlockSnapshot| added_view(s)));
    }
    assert(new_region@.take(k as int) =~= new_region@);
    assert(diff_views(diffs@) =~= before + region_diffs(old_region@, new_region@));
}

/// The hashes of some snapshots, in order.
fn hashes_of(ss: &[BlockSnapshot]) -> (r: Vec<String>)
    ensures
        crate::text::views(r@) == snapshot_hashes(ss@),
{
    let mut r: Vec<String> = Vec::new();
    let mut k: usize = 0;
    while k < ss.len()
        invariant
            k <= ss@.len(),
            crate::text::views(r@) == snapshot_hashes(ss@).take(k as int),
        decreases ss@.len() - k,
    {
        proof {
            crate::text::lemma_views_push(r@, ss@[k as int].hash);
        }
        r.push(ss[k].hash.clone());
        k = k + 1;
        assert(crate::text::views(r@) =~= snapshot_hashes(ss@).take(k as int));
    }
    assert(snapshot_hashes(ss@).take(k as int) =~= snapshot_hashes(ss@));
    r
}

proof fn lemma_lcs_le(a: Seq<Seq<char>>, b: Seq<Seq<char>>, i: int, j: int)
    requires
        0 <= i <= a.len(),
        0 <= j <= b.len(),
    ensures
        lcs_from(a, b, i, j) <= a.len() - i,
    decreases (a.len() - i) + (b.len() - j),
{
    if i < a.len() && j < b.len() {
        lemma_lcs_le(a, b, i + 1, j + 1);
        lemma_lcs_le(a, b, i + 1, j);
        lemma_lcs_le(a, b, i, j + 1);
    }
}

fn zeros(len: usize) -> (r: Vec<usize>)
    ensures
        r@.len() == len,
        forall|c: int| 0 <= c < len ==> #[trigger] r@[c] == 0,
{
    let mut r: Vec<usize> = Vec::new();
    let mut c: usize = 0;
    while c < len
        invariant
            c <= len,
            r@.len() == c,
            forall|t: int| 0 <= t < c ==> #[trigger] r@[t] == 0,
        decreases len - c,
    {
        r.push(0);
        c = c + 1;
    }
    r
}

/// `rows[i][j]` is the LCS length of `a[i..]` and `b[j..]` (an index past
/// either end has length 0 and no cell).
fn lcs_rows(a: &Vec<String>, b: &Vec<String>) -> (rows: Vec<Vec<usize>>)
    ensures
        rows@.len() == a@.len(),
        forall|r: int| 0 <= r < a@.len() ==> (#[trigger] rows@[r])@.len() == b@.len(),
        forall|r: int, c: int|
            0 <= r < a@.len() && 0 <= c < b@.len() ==> #[trigger] rows@[r]@[c] == lcs_from(
                crate::text::views(a@),
                crate::text::views(b@),
                r,
                c,
            ),
{
    let n = a.len();
    let m = b.len();
    let ghost va = crate::text::views(a@);
    let ghost vb = crate::text::views(b@);
    let mut rows: Vec<Vec<usize>> = Vec::new();
    let mut r: usize = 0;
    while r < n
        invariant
            r <= n,
            rows@.len() == r,
        decreases n - r,
    {
        rows.push(Vec::new());
        r = r + 1;
    }
    let mut i: usize = n;
    while i > 0
        invariant
            i <= n == a@.len(),
            m == b@.len(),
            va == crate::text::views(a@),
            vb == crate::text::views(b@),
            rows@.len() == n,
            forall|t: int| i <= t < n ==> (#[trigger] rows@[t])@.len() == m,
            forall|t: int, c: int| i <= t < n && 0 <= c < m ==> #[trigger] rows@[t]@[c] == lcs_from(va, vb, t, c),
        decreases i,
    {
        i = i - 1;
        let mut row = zeros(m);
        let mut j: usize = m;
        while j > 0
            invariant
                i < n == a@.len(),
                j <= m == b@.len(),
                va == crate::text::views(a@),
                vb == crate::text::views(b@),
                rows@.len() == n,
                row@.len() == m,
                forall|t: int| i + 1 <= t < n ==> (#[trigger] rows@[t])@.len() == m,
                forall|t: int, c: int|
                    i + 1 <= t < n && 0 <= c < m ==> #[trigger] rows@[t]@[c] == lcs_from(va, vb, t, c),
                forall|c: int| j <= c < m ==> #[trigger] row@[c] == lcs_from(va, vb, i as int, c),
            decreases j,
        {
            j = j - 1;
            proof {
                assert(va[i as int] == a@[i as int]@);
                assert(vb[j as int] == b@[j as int]@);
            }
            let diag: usize = if i + 1 < n && j + 1 < m {
                rows[i + 1][j + 1]
            } else {
                0
            };
            let down: usize = if i + 1 < n {
                rows[i + 1][j]
            } else {
                0
            };
            let right: usize = if j + 1 < m {
                row[j + 1]
            } else {
                0
            };
            proof {
                assert(diag == lcs_from(va, vb, i + 1, j + 1));
                assert(down == lcs_from(va, vb, i + 1, j as int));
                assert(right == lcs_from(va, vb, i as int, j + 1));
            }
            let v: usize = if crate::text::str_eq(a[i].as_str(), b[j].as_str()) {
                proof {
                    lemma_lcs_le(va, vb, i + 1, j + 1);
                }
                diag + 1
            } else if down >= right {
                down
            } else {
                right
            };
            row.set(j, v);
        }
        rows.set(i, row);
    }
    rows
}

pub open spec fn anchor_ints(v: Seq<(usize, usize)>) -> Seq<(int, int)> {
    v.map_values(|p: (usize, usize)| (p.0 as int, p.1 as int))
}

/// The anchors of the alignment of two hash lists.
fn lcs_anchors(a: &Vec<String>, b: &Vec<String>) -> (r: Vec<(usize, usize)>)
    ensures
        anchor_ints(r@) == anchors_from(crate::text::views(a@), crate::text::views(b@), 0, 0),
{
    let rows = lcs_rows(a, b);
    let ghost va = crate::text::views(a@);
    let ghost vb = crate::text::views(b@);
    let n = a.len();
    let m = b.len();
    let mut out: Vec<(usize, usize)> = Vec::new();
    let mut i: usize = 0;
    let mut j: usize = 0;
    while i < n && j < m
        invariant
            i <= n == a@.len(),
            j <= m == b@.len(),
            va == crate::text::views(a@),
            vb == crate::text::views(b@),
            rows@.len() == n,
            forall|r: int| 0 <= r < n ==> (#[trigger] rows@[r])@.len() == m,
            forall|r: int, c: int| 0 <= r < n && 0 <= c < m ==> #[trigger] rows@[r]@[c] == lcs_from(va, vb, r, c),
            anchor_ints(out@) + anchors_from(va, vb, i as int, j as int) == anchors_from(va, vb, 0, 0),
        decreases (n - i) + (m - j),
    {
        proof {
            assert(va[i as int] == a@[i as int]@);
            assert(vb[j as int] == b@[j as int]@);
        }
        if crate::text::str_eq(a[i].as_str(), b[j].as_str()) {
            let ghost before = anchor_ints(out@);
            out.push((i, j));
            assert(anchor_ints(out@) =~= before.push((i as int, j as int)));
            assert(anchor_ints(out@) + anchors_from(va, vb, i + 1, j + 1) =~= before + anchors_from(
                va,
                vb,
                i as int,
                j as int,
            ));
            i = i + 1;
            j = j + 1;
        } else {
            let down: usize = if i + 1 < n {
                rows[i + 1][j]
            } else {
                0
            };
            let right: usize = if j + 1 < m {
                rows[i][j + 1]
            } else {
                0
            };
            if down >= right {
                i = i + 1;
            } else {
                j = j + 1;
            }
        }
    }
    assert(anchors_from(va, vb, i as int, j as int) =~= Seq::<(int, int)>::empty());
    assert(anchor_ints(out@) =~= anchor_ints(out@) + anchors_from(va, vb, i as int, j as int));
    out
}

/// Diffs two snapshots of a file by block hash: a longest common
/// subsequence of the hashes anchors the unchanged blocks, and each region
/// between anchors is reported by `push_region_diffs`.
pub fn diff_snapshots(old: &[BlockSnapshot], new: &[BlockSnapshot]) -> (r: Vec<SnapshotDiff>)
    ensures
        diff_views(r@) == snapshot_diff(old@, new@),
{
    let ha = hashes_of(old);
    let hb = hashes_of(new);
    let anchors = lcs_anchors(&ha, &hb);
    let ghost an = anchor_ints(anchors@);
    proof {
        lemma_anchors_ok(snapshot_hashes(old@), snapshot_hashes(new@), 0, 0);
    }
    let n_old = old.len();
    let n_new = new.len();
    let mut diffs: Vec<SnapshotDiff> = Vec::new();
    let mut prev_old: usize = 0;
    let mut prev_new: usize = 0;
    let mut k: usize = 0;
    while k < anchors.len()
        invariant
            k <= anchors@.len(),
            n_old == old@.len(),
            n_new == new@.len(),
            an == anchor_ints(anchors@),
            an == anchors_from(snapshot_hashes(old@), snapshot_hashes(new@), 0, 0),
            anchors_ok(an, 0, 0, old@.len() as int, new@.len() as int),
            k == 0 ==> prev_old == 0 && prev_new == 0,
            k > 0 ==> prev_old == an[k - 1].0 + 1 && prev_new == an[k - 1].1 + 1,
            prev_old <= old@.len(),
            prev_new <= new@.len(),
            diff_views(diffs@) + diffs_at(old@, new@, an, k as int, prev_old as int, prev_new as int) == snapshot_diff(
                old@,
                new@,
            ),
        decreases anchors@.len() - k,
    {
        let (oi, ni) = anchors[k];
        assert(an[k as int] == (oi as int, ni as int));
        assert(oi < old@.len() && ni < new@.len());
        proof {
            if k > 0 {
                assert(an[k - 1].0 < an[k as int].0);
            }
        }
        let ghost before = diff_views(diffs@);
        push_region_diffs(&mut diffs, vstd::slice::slice_subrange(old, prev_old, oi), vstd::slice::slice_subrange(new, prev_new, ni));
        assert(diff_views(diffs@) + diffs_at(old@, new@, an, k + 1, oi + 1, ni + 1) =~= before + diffs_at(
            old@,
            new@,
            an,
            k as int,
            prev_old as int,
            prev_new as int,
        ));
        prev_old = oi + 1;
        prev_new = ni + 1;
        k = k + 1;
    }
    push_region_diffs(
        &mut diffs,
        vstd::slice::slice_subrange(old, prev_old, old.len()),
        vstd::slice::slice_subrange(new, prev_new, new.len()),
    );
    assert(diff_views(diffs@) =~= snapshot_diff(old@, new@));
    diffs
}

proof fn lemma_self_anchors(a: Seq<Seq<char>>, i: int)
    requires
        0 <= i <= a.len(),
    ensures
        anchors_from(a, a, i, i) =~= Seq::new((a.len() - i) as nat, |k: int| (i + k, i + k)),
    decreases a.len() - i,
{
    if i < a.len() {
        lemma_self_anchors(a, i + 1);
    }
}

proof fn lemma_self_diffs(s: Seq<BlockSnapshot>, k: int)
    requires
        0 <= k <= s.len(),
    ensures
        diffs_at(s, s, Seq::new(s.len(), |t: int| (t, t)), k, k, k) =~= Seq::<DiffView>::empty(),
    decreases s.len() - k,
{
    let an = Seq::new(s.len(), |t: int| (t, t));
    if k < s.len() {
        lemma_self_diffs(s, k + 1);
        assert(s.subrange(k, k).len() == 0);
        assert(region_diffs(s.subrange(k, k), s.subrange(k, k)) =~= Seq::<DiffView>::empty());
    } else {
        assert(s.subrange(k, s.len() as int).len() == 0);
        assert(region_diffs(s.subrange(k, s.len() as int), s.subrange(k, s.len() as int)) =~= Seq::<DiffView>::empty());
    }
}

/// Diffing a snapshot list against itself reports nothing: every block
/// stays anchored.
pub proof fn lemma_diff_of_identical_is_empty(s: Seq<BlockSnapshot>)
    ensures
        snapshot_diff(s, s) == Seq::<DiffView>::empty(),
{
    lemma_self_anchors(snapshot_hashes(s), 0);
    assert(anchors_from(snapshot_hashes(s), snapshot_hashes(s), 0, 0) =~= Seq::new(s.len(), |t: int| (t, t)));
    lemma_self_diffs(s, 0);
}

} // verus!
