//! Incremental, diff-driven block processing. A file's freshly parsed blocks
//! are diffed against its stored block rows by block hash; only added and
//! changed blocks need later work, moved blocks keep their stored rows, and
//! removed blocks are deleted.

use vstd::prelude::*;
use vstd::multiset::Multiset;

use crate::pipeline::blocks::{BlockKind, MarkdownBlock};
use crate::text::join;

verus! {

broadcast use vstd::multiset::group_multiset_axioms;

/// Above this many blocks on either side the O(n*m) longest-common-
/// subsequence table is replaced by a set-membership diff.
pub const MAX_LCS_BLOCKS: usize = 5000;

/// One block row as stored for a file.
#[derive(Debug, Clone, PartialEq, Eq)]
pub struct StoredBlock {
    pub id: i64,
    pub file_path: String,
    pub block_hash: String,
    pub heading_path: String,
    pub char_start: usize,
    pub char_end: usize,
    pub kind: String,
    pub excluded: bool,
}

/// One freshly parsed block, ready to be stored.
#[derive(Debug, Clone, PartialEq, Eq)]
pub struct NewBlock {
    pub block_hash: String,
    pub text: String,
    pub kind: BlockKind,
    pub heading_path: String,
    pub char_start: usize,
    pub char_end: usize,
    pub excluded: bool,
}

impl StoredBlock {
    /// A field-for-field copy.
    pub fn copy(&self) -> (r: StoredBlock)
        ensures
            r == *self,
    {
        StoredBlock {
            id: self.id,
            file_path: self.file_path.clone(),
            block_hash: self.block_hash.clone(),
            heading_path: self.heading_path.clone(),
            char_start: self.char_start,
            char_end: self.char_end,
            kind: self.kind.clone(),
            excluded: self.excluded,
        }
    }
}

impl NewBlock {
    /// A field-for-field copy.
    pub fn copy(&self) -> (r: NewBlock)
        ensures
            r == *self,
    {
        NewBlock {
            block_hash: self.block_hash.clone(),
            text: self.text.clone(),
            kind: self.kind,
            heading_path: self.heading_path.clone(),
            char_start: self.char_start,
            char_end: self.char_end,
            excluded: self.excluded,
        }
    }

    /// The row-ready form of a parsed block: its heading chain joined with
    /// " > ", its byte span, and its hash.
    pub fn from_block(block: &MarkdownBlock) -> (r: NewBlock)
        ensures
            r.block_hash@ == block.block_hash@,
            r.text@ == block.text@,
            r.kind == block.kind,
            r.heading_path@ == crate::text::seq_join(
                crate::text::views(block.heading_chain@),
                " > "@,
            ),
            r.char_start == block.start,
            r.char_end == block.end,
            r.excluded == block.excluded,
    {
        NewBlock {
            block_hash: block.block_hash.clone(),
            text: block.text.clone(),
            kind: block.kind,
            heading_path: join(&block.heading_chain, " > "),
            char_start: block.start,
            char_end: block.end,
            excluded: block.excluded,
        }
    }
}

/// One classification from the diff. `Unchanged` and `Moved` keep the stored
/// row plus the new positions; `Changed` pairs a stored row with a different
/// new block; `Removed` and `Added` stand alone.
#[derive(Debug, Clone, PartialEq, Eq)]
pub enum BlockChange {
    Unchanged { stored: StoredBlock, new: NewBlock },
    Added { new: NewBlock },
    Changed { old: StoredBlock, new: NewBlock },
    Moved { stored: StoredBlock, new: NewBlock },
    Removed { stored: StoredBlock },
}

/// The outcome of diffing one file: the ordered change list plus per-class
/// counts.
#[derive(Debug, Clone, PartialEq, Eq)]
pub struct FileDiff {
    pub changes: Vec<BlockChange>,
    pub unchanged: usize,
    pub added: usize,
    pub changed: usize,
    pub moved: usize,
    pub removed: usize,
}

/// 0 unchanged, 1 added, 2 changed, 3 moved, 4 removed.
pub open spec fn change_tag(c: BlockChange) -> int {
    match c {
        BlockChange::Unchanged { .. } => 0,
        BlockChange::Added { .. } => 1,
        BlockChange::Changed { .. } => 2,
        BlockChange::Moved { .. } => 3,
        BlockChange::Removed { .. } => 4,
    }
}

/// How many changes carry the given tag.
pub open spec fn count_tag(cs: Seq<BlockChange>, tag: int) -> nat
    decreases cs.len(),
{
    if cs.len() == 0 {
        0
    } else {
        count_tag(cs.drop_last(), tag) + if change_tag(cs.last()) == tag {
            1nat
        } else {
            0nat
        }
    }
}

impl FileDiff {
    /// Each counter equals the number of changes of its class.
    pub open spec fn wf(&self) -> bool {
        &&& self.unchanged == count_tag(self.changes@, 0)
        &&& self.added == count_tag(self.changes@, 1)
        &&& self.changed == count_tag(self.changes@, 2)
        &&& self.moved == count_tag(self.changes@, 3)
        &&& self.removed == count_tag(self.changes@, 4)
    }

    fn empty() -> (d: FileDiff)
        ensures
            d.wf(),
            d.changes@.len() == 0,
    {
        FileDiff { changes: Vec::new(), unchanged: 0, added: 0, changed: 0, moved: 0, removed: 0 }
    }

    pub fn record(&mut self, change: BlockChange)
        requires
            old(self).wf(),
            old(self).changes@.len() < usize::MAX,
        ensures
            final(self).wf(),
            final(self).changes@ == old(self).changes@.push(change),
            forall|t: int| #[trigger] count_tag(final(self).changes@, t) == count_tag(old(self).changes@, t) + if change_tag(change) == t { 1int } else { 0int },
    {
        proof {
            lemma_count_tag_bounded(self.changes@, 0);
            lemma_count_tag_bounded(self.changes@, 1);
            lemma_count_tag_bounded(self.changes@, 2);
            lemma_count_tag_bounded(self.changes@, 3);
            lemma_count_tag_bounded(self.changes@, 4);
        }
        match &change {
            BlockChange::Unchanged { .. } => self.unchanged = self.unchanged + 1,
            BlockChange::Added { .. } => self.added = self.added + 1,
            BlockChange::Changed { .. } => self.changed = self.changed + 1,
            BlockChange::Moved { .. } => self.moved = self.moved + 1,
            BlockChange::Removed { .. } => self.removed = self.removed + 1,
        }
        let ghost prev = self.changes@;
        self.changes.push(change);
        assert(self.changes@.drop_last() =~= prev);
        assert forall|t: int| #[trigger] count_tag(self.changes@, t) == count_tag(prev, t) + if change_tag(change) == t { 1int } else { 0int } by {
            lemma_count_tag_push(prev, change, t);
        }
    }
}

impl Default for FileDiff {
    /// The diff with no changes.
    fn default() -> (d: FileDiff)
        ensures
            d.wf(),
            d.changes@.len() == 0,
            d.unchanged == 0 && d.added == 0 && d.changed == 0 && d.moved == 0 && d.removed == 0,
    {
        FileDiff::empty()
    }
}

proof fn lemma_count_tag_push(cs: Seq<BlockChange>, c: BlockChange, tag: int)
    ensures
        count_tag(cs.push(c), tag) == count_tag(cs, tag) + if change_tag(c) == tag { 1int } else { 0int },
{
    assert(cs.push(c).drop_last() =~= cs);
}

proof fn lemma_empty_ms<A>()
    ensures
        Seq::<A>::empty().to_multiset() =~= Multiset::<A>::empty(),
{
    vstd::seq_lib::to_multiset_len(Seq::<A>::empty());
    vstd::multiset::lemma_multiset_empty_len(Seq::<A>::empty().to_multiset());
}

proof fn lemma_singleton_ms(x: int)
    ensures
        seq![x].to_multiset() =~= Multiset::<int>::empty().insert(x),
{
    let e = Seq::<int>::empty();
    vstd::seq_lib::to_multiset_len(e);
    vstd::multiset::lemma_multiset_empty_len(e.to_multiset());
    vstd::seq_lib::to_multiset_build(e, x);
    assert(e.push(x) =~= seq![x]);
}

proof fn lemma_count_tag_bounded(cs: Seq<BlockChange>, tag: int)
    ensures
        count_tag(cs, tag) <= cs.len(),
    decreases cs.len(),
{
    if cs.len() > 0 {
        lemma_count_tag_bounded(cs.drop_last(), tag);
    }
}

// ---------------------------------------------------------------------------
// What a diff promises.

/// The stored index and the new index a change stands for (-1 for none).
pub type Slots = (int, int);

/// `c` is drawn from `stored[p.0]` and `new[p.1]` as its class requires:
/// unchanged and moved pairs share a hash (unchanged ones also the index),
/// changed pairs differ in hash.
pub open spec fn change_fits(
    c: BlockChange,
    p: Slots,
    stored: Seq<StoredBlock>,
    new: Seq<NewBlock>,
) -> bool {
    match c {
        BlockChange::Unchanged { stored: s, new: t } => {
            &&& 0 <= p.0 < stored.len() && 0 <= p.1 < new.len()
            &&& s == stored[p.0] && t == new[p.1]
            &&& p.0 == p.1
            &&& s.block_hash@ == t.block_hash@
        },
        BlockChange::Moved { stored: s, new: t } => {
            &&& 0 <= p.0 < stored.len() && 0 <= p.1 < new.len()
            &&& s == stored[p.0] && t == new[p.1]
            &&& s.block_hash@ == t.block_hash@
        },
        BlockChange::Changed { old: s, new: t } => {
            &&& 0 <= p.0 < stored.len() && 0 <= p.1 < new.len()
            &&& s == stored[p.0] && t == new[p.1]
            &&& s.block_hash@ != t.block_hash@
        },
        BlockChange::Removed { stored: s } => {
            &&& 0 <= p.0 < stored.len() && p.1 == -1
            &&& s == stored[p.0]
        },
        BlockChange::Added { new: t } => {
            &&& p.0 == -1 && 0 <= p.1 < new.len()
            &&& t == new[p.1]
        },
    }
}

/// The stored indices used by a slot list, in order.
pub open spec fn stored_slots(pos: Seq<Slots>) -> Seq<int>
    decreases pos.len(),
{
    if pos.len() == 0 {
        Seq::empty()
    } else if pos.last().0 >= 0 {
        stored_slots(pos.drop_last()).push(pos.last().0)
    } else {
        stored_slots(pos.drop_last())
    }
}

/// The new indices used by a slot list, in order.
pub open spec fn new_slots(pos: Seq<Slots>) -> Seq<int>
    decreases pos.len(),
{
    if pos.len() == 0 {
        Seq::empty()
    } else if pos.last().1 >= 0 {
        new_slots(pos.drop_last()).push(pos.last().1)
    } else {
        new_slots(pos.drop_last())
    }
}

/// The indices `0..n`.
pub open spec fn index_range(n: nat) -> Seq<int> {
    Seq::new(n, |i: int| i)
}

/// The changes account for every stored block and every new block exactly
/// once, each change drawn from the blocks its slots name.
pub open spec fn covers(
    changes: Seq<BlockChange>,
    pos: Seq<Slots>,
    stored: Seq<StoredBlock>,
    new: Seq<NewBlock>,
) -> bool {
    &&& pos.len() == changes.len()
    &&& forall|k: int| 0 <= k < changes.len() ==> change_fits(#[trigger] changes[k], pos[k], stored, new)
    &&& stored_slots(pos).to_multiset() == index_range(stored.len()).to_multiset()
    &&& new_slots(pos).to_multiset() == index_range(new.len()).to_multiset()
}

proof fn lemma_slot_counts(cs: Seq<BlockChange>, pos: Seq<Slots>, stored: Seq<StoredBlock>, new: Seq<NewBlock>)
    requires
        pos.len() == cs.len(),
        forall|k: int| 0 <= k < cs.len() ==> change_fits(#[trigger] cs[k], pos[k], stored, new),
    ensures
        stored_slots(pos).len() == count_tag(cs, 0) + count_tag(cs, 2) + count_tag(cs, 3) + count_tag(cs, 4),
        new_slots(pos).len() == count_tag(cs, 0) + count_tag(cs, 1) + count_tag(cs, 2) + count_tag(cs, 3),
    decreases cs.len(),
{
    if cs.len() > 0 {
        let c2 = cs.drop_last();
        let p2 = pos.drop_last();
        assert forall|k: int| 0 <= k < c2.len() implies change_fits(#[trigger] c2[k], p2[k], stored, new) by {
            assert(c2[k] == cs[k] && p2[k] == pos[k]);
        }
        lemma_slot_counts(c2, p2, stored, new);
        assert(change_fits(cs[cs.len() - 1], pos[pos.len() - 1], stored, new));
    }
}

/// The classes of a diff account for both lists: unchanged, changed, moved
/// and removed blocks together are the stored blocks; unchanged, added,
/// changed and moved blocks together are the new ones.
pub proof fn lemma_diff_counts(d: FileDiff, stored: Seq<StoredBlock>, new: Seq<NewBlock>)
    requires
        diff_ok(d, stored, new),
    ensures
        d.unchanged + d.changed + d.moved + d.removed == stored.len(),
        d.unchanged + d.added + d.changed + d.moved == new.len(),
{
    let pos = choose|pos: Seq<Slots>| covers(d.changes@, pos, stored, new);
    lemma_slot_counts(d.changes@, pos, stored, new);
    vstd::seq_lib::to_multiset_len(stored_slots(pos));
    vstd::seq_lib::to_multiset_len(new_slots(pos));
    vstd::seq_lib::to_multiset_len(index_range(stored.len()));
    vstd::seq_lib::to_multiset_len(index_range(new.len()));
}

/// No removed block shares its hash with an added block: a block whose hash
/// survives anywhere in the file is never reported as removed and re-added.
pub open spec fn removed_added_disjoint(changes: Seq<BlockChange>) -> bool {
    forall|a: int, b: int|
        0 <= a < changes.len() && 0 <= b < changes.len() ==> match (#[trigger] changes[a], #[trigger] changes[b]) {
            (BlockChange::Removed { stored: s }, BlockChange::Added { new: t }) => s.block_hash@
                != t.block_hash@,
            _ => true,
        }
}

/// The two lists carry the same hash sequence.
pub open spec fn same_hashes(stored: Seq<StoredBlock>, new: Seq<NewBlock>) -> bool {
    &&& stored.len() == new.len()
    &&& forall|i: int| 0 <= i < stored.len() ==> (#[trigger] stored[i]).block_hash@ == (
    #[trigger] new[i]).block_hash@
}

/// Everything a diff of `stored` against `new` promises.
pub open spec fn diff_ok(d: FileDiff, stored: Seq<StoredBlock>, new: Seq<NewBlock>) -> bool {
    &&& d.wf()
    &&& exists|pos: Seq<Slots>| covers(d.changes@, pos, stored, new)
    &&& removed_added_disjoint(d.changes@)
    &&& same_hashes(stored, new) ==> (d.changes@.len() == stored.len() && forall|k: int|
        0 <= k < d.changes@.len() ==> (#[trigger] d.changes@[k]) is Unchanged)
}

proof fn lemma_range_push(n: nat)
    ensures
        index_range(n + 1).to_multiset() == index_range(n).to_multiset().insert(n as int),
{
    assert(index_range(n + 1) =~= index_range(n).push(n as int));
    vstd::seq_lib::to_multiset_build(index_range(n), n as int);
}

proof fn lemma_push_ms<A>(s: Seq<A>, a: A)
    ensures
        s.push(a).to_multiset() == s.to_multiset().insert(a),
{
    vstd::seq_lib::to_multiset_build(s, a);
}

proof fn lemma_slots_push(pos: Seq<Slots>, p: Slots)
    ensures
        stored_slots(pos.push(p)) == if p.0 >= 0 {
            stored_slots(pos).push(p.0)
        } else {
            stored_slots(pos)
        },
        new_slots(pos.push(p)) == if p.1 >= 0 {
            new_slots(pos).push(p.1)
        } else {
            new_slots(pos)
        },
{
    assert(pos.push(p).drop_last() =~= pos);
}

/// The first position in `list` whose block carries `hash`.
fn find_hash(list: &Vec<NewBlock>, hash: &String) -> (r: Option<usize>)
    ensures
        match r {
            Some(p) => p < list.len() && list@[p as int].block_hash@ == hash@ && forall|q: int|
                0 <= q < p ==> (#[trigger] list@[q]).block_hash@ != hash@,
            None => forall|q: int| 0 <= q < list.len() ==> (#[trigger] list@[q]).block_hash@ != hash@,
        },
{
    let mut p: usize = 0;
    while p < list.len()
        invariant
            p <= list.len(),
            forall|q: int| 0 <= q < p ==> (#[trigger] list@[q]).block_hash@ != hash@,
        decreases list.len() - p,
    {
        if list[p].block_hash == *hash {
            return Some(p);
        }
        p = p + 1;
    }
    None
}

pub open spec fn as_ints(v: Seq<usize>) -> Seq<int> {
    v.map_values(|x: usize| x as int)
}

/// The changes of the set-membership diff from stored index `i` on, with
/// the new indices `rem` not yet taken: each stored block, in order, takes
/// the first remaining new block of its hash (unchanged at the same index,
/// moved otherwise) or is removed; the new blocks left at the end are
/// added, in order.
pub open spec fn set_changes(stored: Seq<StoredBlock>, new: Seq<NewBlock>, i: int, rem: Seq<int>) -> Seq<BlockChange>
    decreases stored.len() - i,
{
    if i < 0 || i >= stored.len() {
        rem.map_values(|j: int| BlockChange::Added { new: new[j] })
    } else {
        match first_with_hash(new_hashes(new), rem, stored[i].block_hash@) {
            Some(p) => seq![matched_change(stored, new, (i, rem[p]))] + set_changes(stored, new, i + 1, rem.remove(p)),
            None => seq![BlockChange::Removed { stored: stored[i] }] + set_changes(stored, new, i + 1, rem),
        }
    }
}

/// Set-membership fallback for very large files: a stored block whose hash is
/// still present pairs with the first remaining new block of that hash
/// (`Unchanged` at the same index, `Moved` otherwise); stored blocks without a
/// partner are `Removed`; new blocks left over are `Added`. There is no
/// `Changed` pairing.
pub fn diff_by_set(stored: &[StoredBlock], new: &[NewBlock]) -> (d: FileDiff)
    requires
        stored.len() + new.len() < usize::MAX,
    ensures
        diff_ok(d, stored@, new@),
        d.changed == 0,
        d.changes@ == set_changes(stored@, new@, 0, index_range(new.len() as nat)),
{
    let n = stored.len();
    let m = new.len();
    let mut diff = FileDiff::empty();
    let ghost mut pos: Seq<Slots> = Seq::empty();
    let mut rem: Vec<NewBlock> = Vec::new();
    let mut rem_idx: Vec<usize> = Vec::new();
    let mut j: usize = 0;
    while j < m
        invariant
            j <= m == new@.len(),
            rem@.len() == j && rem_idx@.len() == j,
            forall|k: int| 0 <= k < j ==> #[trigger] rem_idx@[k] == k,
            forall|k: int| 0 <= k < j ==> #[trigger] rem@[k] == new@[k],
        decreases m - j,
    {
        rem.push(new[j].copy());
        rem_idx.push(j);
        j = j + 1;
    }
    proof {
        assert(as_ints(rem_idx@) =~= index_range(m as nat));
        assert(new_slots(pos) =~= Seq::<int>::empty());
        lemma_empty_ms::<int>();
        assert(new_slots(pos).to_multiset().add(as_ints(rem_idx@).to_multiset()) =~= index_range(m as nat).to_multiset());
        assert(stored_slots(pos) =~= index_range(0));
        assert(diff.changes@ + set_changes(stored@, new@, 0, as_ints(rem_idx@)) =~= set_changes(
            stored@,
            new@,
            0,
            index_range(m as nat),
        ));
    }
    let mut i: usize = 0;
    while i < n
        invariant
            i <= n == stored@.len(),
            m == new@.len(),
            n + m < usize::MAX,
            diff.wf(),
            diff.changed == 0,
            diff.changes@.len() == i,
            diff.changes@ + set_changes(stored@, new@, i as int, as_ints(rem_idx@)) == set_changes(
                stored@,
                new@,
                0,
                index_range(m as nat),
            ),
            pos.len() == i,
            rem@.len() == rem_idx@.len(),
            rem@.len() <= m,
            forall|k: int| 0 <= k < rem@.len() ==> #[trigger] rem_idx@[k] < m,
            forall|k: int| 0 <= k < rem@.len() ==> #[trigger] rem@[k] == new@[rem_idx@[k] as int],
            forall|k: int| 0 <= k < i ==> change_fits(#[trigger] diff.changes@[k], pos[k], stored@, new@),
            forall|k: int| 0 <= k < i ==> !(#[trigger] diff.changes@[k] is Added),
            stored_slots(pos).to_multiset() == index_range(i as nat).to_multiset(),
            new_slots(pos).to_multiset().add(as_ints(rem_idx@).to_multiset()) == index_range(m as nat).to_multiset(),
            forall|k: int, r: int| 0 <= k < i && 0 <= r < rem@.len() ==> match #[trigger] diff.changes@[k] {
                BlockChange::Removed { stored: s } => s.block_hash@ != (#[trigger] rem@[r]).block_hash@,
                _ => true,
            },
            same_hashes(stored@, new@) ==> {
                &&& rem@.len() == m - i
                &&& forall|k: int| 0 <= k < rem@.len() ==> rem_idx@[k] == i + k
                &&& forall|k: int| 0 <= k < i ==> (#[trigger] diff.changes@[k]) is Unchanged
            },
        decreases n - i,
    {
        let ghost old_rem = rem@;
        let ghost old_idx = rem_idx@;
        match find_hash(&rem, &stored[i].block_hash) {
            Some(p) => {
                proof {
                    assert forall|q: int| 0 <= q < p implies new_hashes(new@)[#[trigger] as_ints(rem_idx@)[q]]
                        != stored@[i as int].block_hash@ by {
                        assert(rem@[q] == new@[rem_idx@[q] as int]);
                    }
                    assert(rem@[p as int] == new@[rem_idx@[p as int] as int]);
                    lemma_first_with_hash(new_hashes(new@), as_ints(rem_idx@), stored@[i as int].block_hash@, p as int);
                }
                let ghost before = diff.changes@;
                let jj = rem_idx.remove(p);
                let nb = rem.remove(p);
                proof {
                    vstd::seq_lib::to_multiset_remove(as_ints(old_idx), p as int);
                    assert(as_ints(rem_idx@) =~= as_ints(old_idx).remove(p as int));
                    lemma_slots_push(pos, (i as int, jj as int));
                    lemma_push_ms(stored_slots(pos), i as int);
                    lemma_push_ms(new_slots(pos), jj as int);
                    lemma_range_push(i as nat);
                    assert(as_ints(old_idx)[p as int] == jj as int);
                    vstd::seq_lib::to_multiset_contains(as_ints(old_idx), jj as int);
                    assert(as_ints(old_idx).contains(jj as int));
                    assert(new_slots(pos).to_multiset().insert(jj as int).add(as_ints(rem_idx@).to_multiset())
                        =~= new_slots(pos).to_multiset().add(as_ints(old_idx).to_multiset()));
                }
                if i == jj {
                    diff.record(BlockChange::Unchanged { stored: stored[i].copy(), new: nb });
                } else {
                    diff.record(BlockChange::Moved { stored: stored[i].copy(), new: nb });
                }
                proof {
                    assert(as_ints(rem_idx@) =~= as_ints(old_idx).remove(p as int));
                    assert(diff.changes@ =~= before.push(matched_change(stored@, new@, (i as int, jj as int))));
                    assert(diff.changes@ + set_changes(stored@, new@, i + 1, as_ints(rem_idx@)) =~= before + (seq![
                        matched_change(stored@, new@, (i as int, jj as int)),
                    ] + set_changes(stored@, new@, i + 1, as_ints(rem_idx@))));
                    pos = pos.push((i as int, jj as int));
                    assert forall|k: int| 0 <= k < rem@.len() implies #[trigger] rem_idx@[k] < m by {
                        if k < p { assert(rem_idx@[k] == old_idx[k]); } else { assert(rem_idx@[k] == old_idx[k + 1]); }
                    }
                    assert forall|k: int| 0 <= k < rem@.len() implies #[trigger] rem@[k] == new@[rem_idx@[k] as int] by {
                        if k < p {
                            assert(rem_idx@[k] == old_idx[k]);
                            assert(rem@[k] == old_rem[k]);
                        } else {
                            assert(rem_idx@[k] == old_idx[k + 1]);
                            assert(rem@[k] == old_rem[k + 1]);
                        }
                    }
                    assert forall|k: int, r: int| 0 <= k < i + 1 && 0 <= r < rem@.len() implies match #[trigger] diff.changes@[k] {
                        BlockChange::Removed { stored: s } => s.block_hash@ != (#[trigger] rem@[r]).block_hash@,
                        _ => true,
                    } by {
                        if k < i {
                            if r < p { assert(rem@[r] == old_rem[r]); } else { assert(rem@[r] == old_rem[r + 1]); }
                        }
                    }
                    if same_hashes(stored@, new@) {
                        assert(rem_idx@ =~= old_idx.remove(0));
                    }
                }
            },
            None => {
                proof {
                    assert forall|q: int| 0 <= q < rem_idx@.len() implies new_hashes(new@)[#[trigger] as_ints(
                        rem_idx@,
                    )[q]] != stored@[i as int].block_hash@ by {
                        assert(rem@[q] == new@[rem_idx@[q] as int]);
                    }
                    lemma_first_with_hash(
                        new_hashes(new@),
                        as_ints(rem_idx@),
                        stored@[i as int].block_hash@,
                        rem_idx@.len() as int,
                    );
                    lemma_slots_push(pos, (i as int, -1));
                    lemma_push_ms(stored_slots(pos), i as int);
                    lemma_range_push(i as nat);
                    if same_hashes(stored@, new@) {
                        assert(rem@[0].block_hash@ == new@[i as int].block_hash@);
                    }
                }
                let ghost before = diff.changes@;
                diff.record(BlockChange::Removed { stored: stored[i].copy() });
                proof {
                    pos = pos.push((i as int, -1));
                    assert(diff.changes@ + set_changes(stored@, new@, i + 1, as_ints(rem_idx@)) =~= before + (seq![
                        BlockChange::Removed { stored: stored@[i as int] },
                    ] + set_changes(stored@, new@, i + 1, as_ints(rem_idx@))));
                }
            },
        }
        i = i + 1;
    }
    let ghost base = pos;
    let ghost set0 = set_changes(stored@, new@, 0, index_range(m as nat));
    proof {
        assert(as_ints(rem_idx@).skip(0) =~= as_ints(rem_idx@));
        assert(as_ints(rem_idx@).subrange(0, rem_idx@.len() as int) =~= as_ints(rem_idx@));
    }
    let mut k: usize = 0;
    while k < rem.len()
        invariant
            k <= rem@.len() == rem_idx@.len(),
            n == stored@.len(),
            m == new@.len(),
            rem@.len() <= m,
            n + m < usize::MAX,
            diff.wf(),
            diff.changed == 0,
            diff.changes@.len() == n + k,
            set0 == set_changes(stored@, new@, 0, index_range(m as nat)),
            diff.changes@ + as_ints(rem_idx@).skip(k as int).map_values(|j: int| BlockChange::Added { new: new@[j] })
                == set0,
            pos.len() == n + k,
            base.len() == n,
            pos.subrange(0, n as int) == base,
            forall|t: int| 0 <= t < rem@.len() ==> #[trigger] rem_idx@[t] < m,
            forall|t: int| 0 <= t < rem@.len() ==> #[trigger] rem@[t] == new@[rem_idx@[t] as int],
            forall|t: int| 0 <= t < n + k ==> change_fits(#[trigger] diff.changes@[t], pos[t], stored@, new@),
            forall|t: int| 0 <= t < n ==> !(#[trigger] diff.changes@[t] is Added),
            forall|t: int| 0 <= t < k ==> #[trigger] diff.changes@[n + t] == (BlockChange::Added { new: rem@[t] }),
            stored_slots(pos).to_multiset() == index_range(n as nat).to_multiset(),
            new_slots(pos).to_multiset().add(as_ints(rem_idx@).subrange(k as int, rem_idx@.len() as int).to_multiset())
                == index_range(m as nat).to_multiset(),
            forall|a: int, r: int| 0 <= a < n && 0 <= r < rem@.len() ==> match #[trigger] diff.changes@[a] {
                BlockChange::Removed { stored: s } => s.block_hash@ != (#[trigger] rem@[r]).block_hash@,
                _ => true,
            },
            same_hashes(stored@, new@) ==> rem@.len() == 0 && forall|t: int| 0 <= t < n ==> (#[trigger] diff.changes@[t]) is Unchanged,
        decreases rem@.len() - k,
    {
        proof {
            let tail = as_ints(rem_idx@).subrange(k as int, rem_idx@.len() as int);
            assert(tail =~= seq![rem_idx@[k as int] as int] + as_ints(rem_idx@).subrange(k + 1, rem_idx@.len() as int));
            vstd::seq_lib::lemma_multiset_commutative(seq![rem_idx@[k as int] as int], as_ints(rem_idx@).subrange(k + 1, rem_idx@.len() as int));
            lemma_slots_push(pos, (-1, rem_idx@[k as int] as int));
            lemma_push_ms(new_slots(pos), rem_idx@[k as int] as int);
            lemma_singleton_ms(rem_idx@[k as int] as int);
        }
        let ghost before = diff.changes@;
        diff.record(BlockChange::Added { new: rem[k].copy() });
        proof {
            let tail = as_ints(rem_idx@).skip(k as int).map_values(|j: int| BlockChange::Added { new: new@[j] });
            let tail2 = as_ints(rem_idx@).skip(k + 1).map_values(|j: int| BlockChange::Added { new: new@[j] });
            assert(tail =~= seq![BlockChange::Added { new: rem@[k as int] }] + tail2);
            assert(diff.changes@ + tail2 =~= before + tail);
            pos = pos.push((-1, rem_idx@[k as int] as int));
            assert(pos.subrange(0, n as int) =~= base);
        }
        k = k + 1;
    }
    proof {
        assert(as_ints(rem_idx@).skip(k as int).map_values(|j: int| BlockChange::Added { new: new@[j] })
            =~= Seq::<BlockChange>::empty());
        assert(diff.changes@ =~= set0);
        assert(as_ints(rem_idx@).subrange(k as int, rem_idx@.len() as int) =~= Seq::<int>::empty());
        lemma_empty_ms::<int>();
        assert(new_slots(pos).to_multiset() =~= index_range(m as nat).to_multiset());
        assert(covers(diff.changes@, pos, stored@, new@));
        assert forall|a: int, b: int| 0 <= a < diff.changes@.len() && 0 <= b < diff.changes@.len() implies match (#[trigger] diff.changes@[a], #[trigger] diff.changes@[b]) {
            (BlockChange::Removed { stored: s }, BlockChange::Added { new: t }) => s.block_hash@ != t.block_hash@,
            _ => true,
        } by {
            if diff.changes@[a] is Removed && diff.changes@[b] is Added {
                if a >= n {
                    assert(diff.changes@[n + (a - n)] == (BlockChange::Added { new: rem@[a - n] }));
                }
                assert(b >= n);
                assert(diff.changes@[n + (b - n)] == (BlockChange::Added { new: rem@[b - n] }));
                let r = b - n;
                assert(0 <= r < rem@.len());
                assert(match diff.changes@[a] {
                    BlockChange::Removed { stored: s } => s.block_hash@ != rem@[r].block_hash@,
                    _ => true,
                });
            }
        }
    }
    diff
}


// ---------------------------------------------------------------------------
// Longest common subsequence of the hash sequences.

/// The hash sequence of stored rows.
pub open spec fn stored_hashes(s: Seq<StoredBlock>) -> Seq<Seq<char>> {
    s.map_values(|b: StoredBlock| b.block_hash@)
}

/// The hash sequence of parsed blocks.
pub open spec fn new_hashes(s: Seq<NewBlock>) -> Seq<Seq<char>> {
    s.map_values(|b: NewBlock| b.block_hash@)
}

/// The length of a longest common subsequence of `a[i..]` and `b[j..]`, by the
/// standard recurrence.
pub open spec fn lcs_from(a: Seq<Seq<char>>, b: Seq<Seq<char>>, i: int, j: int) -> nat
    decreases (a.len() - i) + (b.len() - j),
{
    if i < 0 || j < 0 || i >= a.len() || j >= b.len() {
        0
    } else if a[i] == b[j] {
        1 + lcs_from(a, b, i + 1, j + 1)
    } else if lcs_from(a, b, i + 1, j) >= lcs_from(a, b, i, j + 1) {
        lcs_from(a, b, i + 1, j)
    } else {
        lcs_from(a, b, i, j + 1)
    }
}

/// The length of a longest common subsequence of `a` and `b`.
pub open spec fn lcs_len(a: Seq<Seq<char>>, b: Seq<Seq<char>>) -> nat {
    lcs_from(a, b, 0, 0)
}

/// The walk of the LCS table from `(i, j)`: the matched index pairs, then
/// the unmatched stored and new indices, in order. Equal hashes match; else
/// the side whose removal keeps the longer common subsequence advances (the
/// stored side on ties); what is left after one list ends is unmatched.
pub open spec fn walk(a: Seq<Seq<char>>, b: Seq<Seq<char>>, i: int, j: int) -> (Seq<(int, int)>, Seq<int>, Seq<int>)
    decreases (a.len() - i) + (b.len() - j),
{
    if i < 0 || j < 0 || i > a.len() || j > b.len() {
        (Seq::empty(), Seq::empty(), Seq::empty())
    } else if i == a.len() {
        (Seq::empty(), Seq::empty(), index_span(j, b.len() as int))
    } else if j == b.len() {
        (Seq::empty(), index_span(i, a.len() as int), Seq::empty())
    } else if a[i] == b[j] {
        let w = walk(a, b, i + 1, j + 1);
        (seq![(i, j)] + w.0, w.1, w.2)
    } else if lcs_from(a, b, i + 1, j) >= lcs_from(a, b, i, j + 1) {
        let w = walk(a, b, i + 1, j);
        (w.0, seq![i] + w.1, w.2)
    } else {
        let w = walk(a, b, i, j + 1);
        (w.0, w.1, seq![j] + w.2)
    }
}

/// The change of a matched pair: unchanged at the same index, else moved.
pub open spec fn matched_change(stored: Seq<StoredBlock>, new: Seq<NewBlock>, p: (int, int)) -> BlockChange {
    if p.0 == p.1 {
        BlockChange::Unchanged { stored: stored[p.0], new: new[p.1] }
    } else {
        BlockChange::Moved { stored: stored[p.0], new: new[p.1] }
    }
}

pub open spec fn matched_changes(stored: Seq<StoredBlock>, new: Seq<NewBlock>, ps: Seq<(int, int)>) -> Seq<BlockChange> {
    ps.map_values(|p: (int, int)| matched_change(stored, new, p))
}

proof fn lemma_lcs_bound(a: Seq<Seq<char>>, b: Seq<Seq<char>>, i: int, j: int)
    requires
        0 <= i <= a.len(),
        0 <= j <= b.len(),
    ensures
        lcs_from(a, b, i, j) <= a.len() - i,
    decreases (a.len() - i) + (b.len() - j),
{
    if i < a.len() && j < b.len() {
        lemma_lcs_bound(a, b, i + 1, j + 1);
        lemma_lcs_bound(a, b, i + 1, j);
        lemma_lcs_bound(a, b, i, j + 1);
    }
}

fn zero_row(len: usize) -> (r: Vec<u16>)
    ensures
        r@.len() == len,
        forall|c: int| 0 <= c < len ==> #[trigger] r@[c] == 0,
{
    let mut r: Vec<u16> = Vec::new();
    let mut c: usize = 0;
    while c < len
        invariant
            c <= len,
            r@.len() == c,
            forall|t: int| 0 <= t < c ==> #[trigger] r@[t] == 0,
        decreases len - c,
    {
        r.push(0);
        c = c + 1;
    }
    r
}

/// The dynamic-programming table: `rows[i][j]` is the LCS length of the hash
/// sequences from `stored[i..]` and `new[j..]`.
fn lcs_table(stored: &[StoredBlock], new: &[NewBlock]) -> (rows: Vec<Vec<u16>>)
    requires
        stored.len() <= MAX_LCS_BLOCKS,
        new.len() <= MAX_LCS_BLOCKS,
    ensures
        rows@.len() == stored.len() + 1,
        forall|r: int| 0 <= r <= stored.len() ==> (#[trigger] rows@[r])@.len() == new.len() + 1,
        forall|r: int, c: int|
            0 <= r <= stored.len() && 0 <= c <= new.len() ==> #[trigger] rows@[r]@[c] == lcs_from(
                stored_hashes(stored@),
                new_hashes(new@),
                r,
                c,
            ),
{
    let n = stored.len();
    let m = new.len();
    let ghost a = stored_hashes(stored@);
    let ghost b = new_hashes(new@);
    let mut rows: Vec<Vec<u16>> = Vec::new();
    let mut r: usize = 0;
    while r < n
        invariant
            r <= n,
            rows@.len() == r,
        decreases n - r,
    {
        rows.push(Vec::new());
        r = r + 1;
    }
    rows.push(zero_row(m + 1));
    let mut i: usize = n;
    while i > 0
        invariant
            i <= n == stored@.len(),
            m == new@.len(),
            n <= MAX_LCS_BLOCKS,
            m <= MAX_LCS_BLOCKS,
            a == stored_hashes(stored@),
            b == new_hashes(new@),
            rows@.len() == n + 1,
            forall|t: int| i <= t <= n ==> (#[trigger] rows@[t])@.len() == m + 1,
            forall|t: int, c: int|
                i <= t <= n && 0 <= c <= m ==> #[trigger] rows@[t]@[c] == lcs_from(a, b, t, c),
        decreases i,
    {
        i = i - 1;
        let mut row = zero_row(m + 1);
        let mut j: usize = m;
        while j > 0
            invariant
                i < n == stored@.len(),
                j <= m == new@.len(),
                n <= MAX_LCS_BLOCKS,
                a == stored_hashes(stored@),
                b == new_hashes(new@),
                rows@.len() == n + 1,
                row@.len() == m + 1,
                forall|t: int| i + 1 <= t <= n ==> (#[trigger] rows@[t])@.len() == m + 1,
                forall|t: int, c: int|
                    i + 1 <= t <= n && 0 <= c <= m ==> #[trigger] rows@[t]@[c] == lcs_from(a, b, t, c),
                forall|c: int| j <= c <= m ==> #[trigger] row@[c] == lcs_from(a, b, i as int, c),
            decreases j,
        {
            j = j - 1;
            let v: u16 = if stored[i].block_hash == new[j].block_hash {
                proof {
                    lemma_lcs_bound(a, b, i + 1, j + 1);
                    assert(rows@[i + 1]@[j + 1] == lcs_from(a, b, i + 1, j + 1));
                }
                rows[i + 1][j + 1] + 1
            } else {
                let down = rows[i + 1][j];
                let right = row[j + 1];
                if down >= right {
                    down
                } else {
                    right
                }
            };
            proof {
                assert(a[i as int] == stored@[i as int].block_hash@);
                assert(b[j as int] == new@[j as int].block_hash@);
            }
            row.set(j, v);
        }
        rows.set(i, row);
    }
    rows
}


// ---------------------------------------------------------------------------
// Bookkeeping for the diff proofs.

/// The indices `lo..hi`.
pub open spec fn index_span(lo: int, hi: int) -> Seq<int> {
    Seq::new((hi - lo) as nat, |k: int| lo + k)
}

/// The changes so far are drawn from the blocks their slots name, and together
/// with the stored indices `ps` and new indices `pn` still pending they account
/// for every index of both lists exactly once.
pub open spec fn accounted(
    changes: Seq<BlockChange>,
    pos: Seq<Slots>,
    ps: Multiset<int>,
    pn: Multiset<int>,
    stored: Seq<StoredBlock>,
    new: Seq<NewBlock>,
) -> bool {
    &&& pos.len() == changes.len()
    &&& forall|k: int| 0 <= k < changes.len() ==> change_fits(#[trigger] changes[k], pos[k], stored, new)
    &&& stored_slots(pos).to_multiset().add(ps) == index_range(stored.len()).to_multiset()
    &&& new_slots(pos).to_multiset().add(pn) == index_range(new.len()).to_multiset()
}

proof fn lemma_account_push(
    changes: Seq<BlockChange>,
    pos: Seq<Slots>,
    ps: Multiset<int>,
    pn: Multiset<int>,
    stored: Seq<StoredBlock>,
    new: Seq<NewBlock>,
    c: BlockChange,
    p: Slots,
    ps2: Multiset<int>,
    pn2: Multiset<int>,
)
    requires
        accounted(changes, pos, ps, pn, stored, new),
        change_fits(c, p, stored, new),
        p.0 >= 0 ==> ps == ps2.insert(p.0),
        p.0 < 0 ==> ps == ps2,
        p.1 >= 0 ==> pn == pn2.insert(p.1),
        p.1 < 0 ==> pn == pn2,
    ensures
        accounted(changes.push(c), pos.push(p), ps2, pn2, stored, new),
{
    lemma_slots_push(pos, p);
    if p.0 >= 0 {
        lemma_push_ms(stored_slots(pos), p.0);
        assert(stored_slots(pos.push(p)).to_multiset().add(ps2) =~= stored_slots(pos).to_multiset().add(ps));
    } else {
        assert(stored_slots(pos.push(p)) == stored_slots(pos));
    }
    if p.1 >= 0 {
        lemma_push_ms(new_slots(pos), p.1);
        assert(new_slots(pos.push(p)).to_multiset().add(pn2) =~= new_slots(pos).to_multiset().add(pn));
    } else {
        assert(new_slots(pos.push(p)) == new_slots(pos));
    }
    assert forall|k: int| 0 <= k < changes.len() + 1 implies change_fits(
        #[trigger] changes.push(c)[k],
        pos.push(p)[k],
        stored,
        new,
    ) by {
        if k < changes.len() {
            assert(changes.push(c)[k] == changes[k]);
        }
    }
}

/// Taking the element at the cursor off a pending run.
proof fn lemma_take_at(s: Seq<int>, t: int)
    requires
        0 <= t < s.len(),
    ensures
        s.subrange(t, s.len() as int).to_multiset() =~= s.subrange(t + 1, s.len() as int).to_multiset().insert(s[t]),
{
    let rest = s.subrange(t + 1, s.len() as int);
    assert(s.subrange(t, s.len() as int) =~= seq![s[t]] + rest);
    vstd::seq_lib::lemma_multiset_commutative(seq![s[t]], rest);
    lemma_singleton_ms(s[t]);
}

proof fn lemma_span_take(lo: int, hi: int)
    requires
        lo < hi,
    ensures
        index_span(lo, hi).to_multiset() =~= index_span(lo + 1, hi).to_multiset().insert(lo),
{
    let rest = index_span(lo + 1, hi);
    assert(index_span(lo, hi) =~= seq![lo] + rest);
    vstd::seq_lib::lemma_multiset_commutative(seq![lo], rest);
    lemma_singleton_ms(lo);
}

proof fn lemma_as_ints_push(v: Seq<usize>, x: usize)
    ensures
        as_ints(v.push(x)) =~= as_ints(v).push(x as int),
        as_ints(v.push(x)).to_multiset() =~= as_ints(v).to_multiset().insert(x as int),
{
    assert(as_ints(v.push(x)) =~= as_ints(v).push(x as int));
    lemma_push_ms(as_ints(v), x as int);
}

/// Walks the LCS table from the top-left corner: equal hashes are recorded as
/// matched (`Unchanged` at the same index, `Moved` otherwise); the rest is
/// returned as the unmatched stored and new indices, in order.
fn lcs_backtrack(stored: &[StoredBlock], new: &[NewBlock], rows: &Vec<Vec<u16>>) -> (res: (
    FileDiff,
    Vec<usize>,
    Vec<usize>,
    Ghost<Seq<Slots>>,
))
    requires
        stored.len() <= MAX_LCS_BLOCKS,
        new.len() <= MAX_LCS_BLOCKS,
        rows@.len() == stored.len() + 1,
        forall|r: int| 0 <= r <= stored.len() ==> (#[trigger] rows@[r])@.len() == new.len() + 1,
        forall|r: int, c: int|
            0 <= r <= stored.len() && 0 <= c <= new.len() ==> #[trigger] rows@[r]@[c] == lcs_from(
                stored_hashes(stored@),
                new_hashes(new@),
                r,
                c,
            ),
    ensures
        res.0.wf(),
        accounted(
            res.0.changes@,
            res.3@,
            as_ints(res.1@).to_multiset(),
            as_ints(res.2@).to_multiset(),
            stored@,
            new@,
        ),
        forall|t: int| 0 <= t < res.1@.len() ==> #[trigger] res.1@[t] < stored.len(),
        forall|t: int| 0 <= t < res.2@.len() ==> #[trigger] res.2@[t] < new.len(),
        res.0.changes@.len() == lcs_len(stored_hashes(stored@), new_hashes(new@)),
        res.0.changes@.len() + res.1@.len() == stored.len(),
        res.0.changes@.len() + res.2@.len() == new.len(),
        res.0.unchanged + res.0.moved == res.0.changes@.len(),
        res.0.changed == 0 && res.0.added == 0 && res.0.removed == 0,
        res.0.changes@ == matched_changes(stored@, new@, walk(stored_hashes(stored@), new_hashes(new@), 0, 0).0),
        as_ints(res.1@) == walk(stored_hashes(stored@), new_hashes(new@), 0, 0).1,
        as_ints(res.2@) == walk(stored_hashes(stored@), new_hashes(new@), 0, 0).2,
        same_hashes(stored@, new@) ==> {
            &&& res.1@.len() == 0
            &&& res.2@.len() == 0
            &&& res.0.changes@.len() == stored.len()
            &&& forall|k: int| 0 <= k < res.0.changes@.len() ==> (#[trigger] res.0.changes@[k]) is Unchanged
        },
{
    let n = stored.len();
    let m = new.len();
    let ghost a = stored_hashes(stored@);
    let ghost b = new_hashes(new@);
    let mut diff = FileDiff::empty();
    let ghost mut pos: Seq<Slots> = Seq::empty();
    let ghost w0 = walk(a, b, 0, 0);
    let ghost mut anch: Seq<(int, int)> = Seq::empty();
    let mut un_s: Vec<usize> = Vec::new();
    let mut un_n: Vec<usize> = Vec::new();
    let mut i: usize = 0;
    let mut j: usize = 0;
    proof {
        lemma_empty_ms::<int>();
        assert(as_ints(un_s@) =~= Seq::<int>::empty());
        assert(as_ints(un_n@) =~= Seq::<int>::empty());
        assert(stored_slots(pos) =~= Seq::<int>::empty());
        assert(new_slots(pos) =~= Seq::<int>::empty());
        assert(anch + walk(a, b, 0, 0).0 =~= w0.0);
        assert(as_ints(un_s@) + walk(a, b, 0, 0).1 =~= w0.1);
        assert(as_ints(un_n@) + walk(a, b, 0, 0).2 =~= w0.2);
        assert(diff.changes@ =~= matched_changes(stored@, new@, anch));
        assert(index_span(0, n as int) =~= index_range(n as nat));
        assert(index_span(0, m as int) =~= index_range(m as nat));
        assert(stored_slots(pos).to_multiset().add(as_ints(un_s@).to_multiset().add(index_span(0, n as int).to_multiset()))
            =~= index_range(n as nat).to_multiset());
        assert(new_slots(pos).to_multiset().add(as_ints(un_n@).to_multiset().add(index_span(0, m as int).to_multiset()))
            =~= index_range(m as nat).to_multiset());
    }
    while i < n && j < m
        invariant
            w0 == walk(a, b, 0, 0),
            a == stored_hashes(stored@),
            b == new_hashes(new@),
            anch + walk(a, b, i as int, j as int).0 == w0.0,
            as_ints(un_s@) + walk(a, b, i as int, j as int).1 == w0.1,
            as_ints(un_n@) + walk(a, b, i as int, j as int).2 == w0.2,
            diff.changes@ == matched_changes(stored@, new@, anch),
            i <= n == stored@.len(),
            j <= m == new@.len(),
            n <= MAX_LCS_BLOCKS,
            m <= MAX_LCS_BLOCKS,
            a == stored_hashes(stored@),
            b == new_hashes(new@),
            rows@.len() == n + 1,
            forall|r: int| 0 <= r <= n ==> (#[trigger] rows@[r])@.len() == m + 1,
            forall|r: int, c: int| 0 <= r <= n && 0 <= c <= m ==> #[trigger] rows@[r]@[c] == lcs_from(a, b, r, c),
            diff.wf(),
            diff.changes@.len() <= i,
            diff.changes@.len() + un_s@.len() == i,
            diff.changes@.len() + un_n@.len() == j,
            diff.changes@.len() + lcs_from(a, b, i as int, j as int) == lcs_from(a, b, 0, 0),
            diff.unchanged + diff.moved == diff.changes@.len(),
            diff.changed == 0 && diff.added == 0 && diff.removed == 0,
            accounted(
                diff.changes@,
                pos,
                as_ints(un_s@).to_multiset().add(index_span(i as int, n as int).to_multiset()),
                as_ints(un_n@).to_multiset().add(index_span(j as int, m as int).to_multiset()),
                stored@,
                new@,
            ),
            forall|t: int| 0 <= t < un_s@.len() ==> #[trigger] un_s@[t] < n,
            forall|t: int| 0 <= t < un_n@.len() ==> #[trigger] un_n@[t] < m,
            same_hashes(stored@, new@) ==> {
                &&& i == j
                &&& un_s@.len() == 0
                &&& un_n@.len() == 0
                &&& diff.changes@.len() == i
                &&& forall|k: int| 0 <= k < diff.changes@.len() ==> (#[trigger] diff.changes@[k]) is Unchanged
            },
        decreases (n - i) + (m - j),
    {
        proof {
            assert(a[i as int] == stored@[i as int].block_hash@);
            assert(b[j as int] == new@[j as int].block_hash@);
        }
        if stored[i].block_hash == new[j].block_hash {
            let change = if i == j {
                BlockChange::Unchanged { stored: stored[i].copy(), new: new[j].copy() }
            } else {
                BlockChange::Moved { stored: stored[i].copy(), new: new[j].copy() }
            };
            proof {
                lemma_span_take(i as int, n as int);
                lemma_span_take(j as int, m as int);
                assert(as_ints(un_s@).to_multiset().add(index_span(i as int, n as int).to_multiset())
                    =~= as_ints(un_s@).to_multiset().add(index_span(i + 1, n as int).to_multiset()).insert(i as int));
                assert(as_ints(un_n@).to_multiset().add(index_span(j as int, m as int).to_multiset())
                    =~= as_ints(un_n@).to_multiset().add(index_span(j + 1, m as int).to_multiset()).insert(j as int));
                lemma_account_push(
                    diff.changes@,
                    pos,
                    as_ints(un_s@).to_multiset().add(index_span(i as int, n as int).to_multiset()),
                    as_ints(un_n@).to_multiset().add(index_span(j as int, m as int).to_multiset()),
                    stored@,
                    new@,
                    change,
                    (i as int, j as int),
                    as_ints(un_s@).to_multiset().add(index_span(i + 1, n as int).to_multiset()),
                    as_ints(un_n@).to_multiset().add(index_span(j + 1, m as int).to_multiset()),
                );
                lemma_count_tag_bounded(diff.changes@, 0);
            }
            diff.record(change);
            proof {
                pos = pos.push((i as int, j as int));
                assert(change == matched_change(stored@, new@, (i as int, j as int)));
                assert(matched_changes(stored@, new@, anch.push((i as int, j as int))) =~= matched_changes(
                    stored@,
                    new@,
                    anch,
                ).push(change));
                let w = walk(a, b, i + 1, j + 1);
                assert(anch.push((i as int, j as int)) + w.0 =~= anch + (seq![(i as int, j as int)] + w.0));
                anch = anch.push((i as int, j as int));
            }
            i = i + 1;
            j = j + 1;
        } else if rows[i + 1][j] >= rows[i][j + 1] {
            proof {
                lemma_span_take(i as int, n as int);
                lemma_as_ints_push(un_s@, i);
                assert(as_ints(un_s@.push(i)).to_multiset().add(index_span(i + 1, n as int).to_multiset())
                    =~= as_ints(un_s@).to_multiset().add(index_span(i as int, n as int).to_multiset()));
            }
            proof {
                let w = walk(a, b, i + 1, j as int);
                assert(as_ints(un_s@.push(i)) + w.1 =~= as_ints(un_s@) + (seq![i as int] + w.1));
            }
            un_s.push(i);
            i = i + 1;
        } else {
            proof {
                lemma_span_take(j as int, m as int);
                lemma_as_ints_push(un_n@, j);
                assert(as_ints(un_n@.push(j)).to_multiset().add(index_span(j + 1, m as int).to_multiset())
                    =~= as_ints(un_n@).to_multiset().add(index_span(j as int, m as int).to_multiset()));
            }
            proof {
                let w = walk(a, b, i as int, j + 1);
                assert(as_ints(un_n@.push(j)) + w.2 =~= as_ints(un_n@) + (seq![j as int] + w.2));
            }
            un_n.push(j);
            j = j + 1;
        }
    }
    while i < n
        invariant
            i == n || j == m,
            w0 == walk(a, b, 0, 0),
            a == stored_hashes(stored@),
            b == new_hashes(new@),
            anch + walk(a, b, i as int, j as int).0 == w0.0,
            as_ints(un_s@) + walk(a, b, i as int, j as int).1 == w0.1,
            as_ints(un_n@) + walk(a, b, i as int, j as int).2 == w0.2,
            diff.changes@ == matched_changes(stored@, new@, anch),
            i <= n == stored@.len(),
            j <= m == new@.len(),
            diff.wf(),
            accounted(
                diff.changes@,
                pos,
                as_ints(un_s@).to_multiset().add(index_span(i as int, n as int).to_multiset()),
                as_ints(un_n@).to_multiset().add(index_span(j as int, m as int).to_multiset()),
                stored@,
                new@,
            ),
            forall|t: int| 0 <= t < un_s@.len() ==> #[trigger] un_s@[t] < n,
            diff.changes@.len() + un_s@.len() == i,
            diff.changes@.len() + un_n@.len() == j,
            same_hashes(stored@, new@) ==> (i == n && j == m && un_s@.len() == 0 && un_n@.len() == 0),
        decreases n - i,
    {
        proof {
            lemma_span_take(i as int, n as int);
            lemma_as_ints_push(un_s@, i);
            assert(as_ints(un_s@.push(i)).to_multiset().add(index_span(i + 1, n as int).to_multiset())
                =~= as_ints(un_s@).to_multiset().add(index_span(i as int, n as int).to_multiset()));
        }
        proof {
            assert(index_span(i as int, n as int) =~= seq![i as int] + index_span(i + 1, n as int));
            assert(index_span(m as int, m as int) =~= Seq::<int>::empty());
            assert(as_ints(un_s@.push(i)) + walk(a, b, i + 1, j as int).1 =~= as_ints(un_s@) + walk(
                a,
                b,
                i as int,
                j as int,
            ).1);
            assert(as_ints(un_n@) + walk(a, b, i + 1, j as int).2 =~= as_ints(un_n@) + walk(a, b, i as int, j as int).2);
        }
        un_s.push(i);
        i = i + 1;
    }
    while j < m
        invariant
            w0 == walk(a, b, 0, 0),
            a == stored_hashes(stored@),
            b == new_hashes(new@),
            anch + walk(a, b, i as int, j as int).0 == w0.0,
            as_ints(un_s@) + walk(a, b, i as int, j as int).1 == w0.1,
            as_ints(un_n@) + walk(a, b, i as int, j as int).2 == w0.2,
            diff.changes@ == matched_changes(stored@, new@, anch),
            i == n == stored@.len(),
            j <= m == new@.len(),
            diff.wf(),
            accounted(
                diff.changes@,
                pos,
                as_ints(un_s@).to_multiset().add(index_span(i as int, n as int).to_multiset()),
                as_ints(un_n@).to_multiset().add(index_span(j as int, m as int).to_multiset()),
                stored@,
                new@,
            ),
            forall|t: int| 0 <= t < un_n@.len() ==> #[trigger] un_n@[t] < m,
            diff.changes@.len() + un_s@.len() == n,
            diff.changes@.len() + un_n@.len() == j,
            same_hashes(stored@, new@) ==> (j == m && un_s@.len() == 0 && un_n@.len() == 0),
        decreases m - j,
    {
        proof {
            lemma_span_take(j as int, m as int);
            lemma_as_ints_push(un_n@, j);
            assert(as_ints(un_n@.push(j)).to_multiset().add(index_span(j + 1, m as int).to_multiset())
                =~= as_ints(un_n@).to_multiset().add(index_span(j as int, m as int).to_multiset()));
        }
        proof {
            assert(index_span(j as int, m as int) =~= seq![j as int] + index_span(j + 1, m as int));
            assert(as_ints(un_n@.push(j)) + walk(a, b, i as int, j + 1).2 =~= as_ints(un_n@) + walk(
                a,
                b,
                i as int,
                j as int,
            ).2);
        }
        un_n.push(j);
        j = j + 1;
    }
    proof {
        lemma_empty_ms::<int>();
        assert(index_span(n as int, n as int) =~= Seq::<int>::empty());
        assert(index_span(m as int, m as int) =~= Seq::<int>::empty());
        assert(as_ints(un_s@).to_multiset().add(index_span(n as int, n as int).to_multiset()) =~= as_ints(un_s@).to_multiset());
        assert(as_ints(un_n@).to_multiset().add(index_span(m as int, m as int).to_multiset()) =~= as_ints(un_n@).to_multiset());
    }
    proof {
        assert(walk(a, b, n as int, m as int).0 =~= Seq::<(int, int)>::empty());
        assert(index_span(m as int, m as int) =~= Seq::<int>::empty());
        assert(anch =~= anch + walk(a, b, n as int, m as int).0);
        assert(as_ints(un_s@) =~= as_ints(un_s@) + walk(a, b, n as int, m as int).1);
        assert(as_ints(un_n@) =~= as_ints(un_n@) + walk(a, b, n as int, m as int).2);
    }
    (diff, un_s, un_n, Ghost(pos))
}


/// The first position in `rem` whose hash (in `b`) is `h`.
pub open spec fn first_with_hash(b: Seq<Seq<char>>, rem: Seq<int>, h: Seq<char>) -> Option<int>
    decreases rem.len(),
{
    if rem.len() == 0 {
        None
    } else if b[rem[0]] == h {
        Some(0)
    } else {
        match first_with_hash(b, rem.drop_first(), h) {
            Some(p) => Some(p + 1),
            None => None,
        }
    }
}

/// Relocation pairing of unmatched stored indices `us` (hashes in `a`)
/// against the remaining unmatched new indices `rem` (hashes in `b`): each
/// stored index in order takes the first remaining new index of its hash.
/// The result is the stored indices left without a partner, the pairs, and
/// the new indices left over.
pub open spec fn relocate(a: Seq<Seq<char>>, b: Seq<Seq<char>>, us: Seq<int>, rem: Seq<int>) -> (
    Seq<int>,
    Seq<(int, int)>,
    Seq<int>,
)
    decreases us.len(),
{
    if us.len() == 0 {
        (Seq::empty(), Seq::empty(), rem)
    } else {
        match first_with_hash(b, rem, a[us[0]]) {
            Some(p) => {
                let r = relocate(a, b, us.drop_first(), rem.remove(p));
                (r.0, seq![(us[0], rem[p])] + r.1, r.2)
            },
            None => {
                let r = relocate(a, b, us.drop_first(), rem);
                (seq![us[0]] + r.0, r.1, r.2)
            },
        }
    }
}

proof fn lemma_first_with_hash(b: Seq<Seq<char>>, rem: Seq<int>, h: Seq<char>, p: int)
    requires
        0 <= p <= rem.len(),
        forall|q: int| 0 <= q < p ==> b[#[trigger] rem[q]] != h,
        p < rem.len() ==> b[rem[p]] == h,
    ensures
        first_with_hash(b, rem, h) == if p < rem.len() { Some(p) } else { None::<int> },
    decreases rem.len(),
{
    if rem.len() > 0 && p > 0 {
        let r = rem.drop_first();
        assert(b[rem[0]] != h);
        assert forall|q: int| 0 <= q < p - 1 implies b[#[trigger] r[q]] != h by {
            assert(r[q] == rem[q + 1]);
        }
        if p - 1 < r.len() {
            assert(r[p - 1] == rem[p]);
        }
        lemma_first_with_hash(b, r, h, p - 1);
    }
}

/// The pairs of two parallel index lists.
pub open spec fn pairs_of(xs: Seq<usize>, ys: Seq<usize>) -> Seq<(int, int)> {
    Seq::new(xs.len(), |t: int| (xs[t] as int, ys[t] as int))
}

/// The first position in `idx` whose new block carries `hash`.
fn find_index_with_hash(new: &[NewBlock], idx: &Vec<usize>, hash: &String) -> (r: Option<usize>)
    requires
        forall|t: int| 0 <= t < idx@.len() ==> #[trigger] idx@[t] < new.len(),
    ensures
        match r {
            Some(p) => {
                &&& p < idx@.len() && new@[idx@[p as int] as int].block_hash@ == hash@
                &&& forall|q: int| 0 <= q < p ==> new@[#[trigger] idx@[q] as int].block_hash@ != hash@
            },
            None => forall|q: int| 0 <= q < idx@.len() ==> new@[#[trigger] idx@[q] as int].block_hash@ != hash@,
        },
{
    let mut p: usize = 0;
    while p < idx.len()
        invariant
            p <= idx@.len(),
            forall|t: int| 0 <= t < idx@.len() ==> #[trigger] idx@[t] < new.len(),
            forall|q: int| 0 <= q < p ==> new@[#[trigger] idx@[q] as int].block_hash@ != hash@,
        decreases idx@.len() - p,
    {
        if new[idx[p]].block_hash == *hash {
            return Some(p);
        }
        p = p + 1;
    }
    None
}

/// Relocation pairing: each unmatched stored index, in order, takes the first
/// remaining unmatched new index of the same hash. Returns the stored indices
/// left without a partner, the new indices left over, and the relocated pairs
/// as two parallel lists.
fn pair_relocations(
    stored: &[StoredBlock],
    new: &[NewBlock],
    un_s: &Vec<usize>,
    un_n: Vec<usize>,
) -> (res: (Vec<usize>, Vec<usize>, Vec<usize>, Vec<usize>))
    requires
        forall|t: int| 0 <= t < un_s@.len() ==> #[trigger] un_s@[t] < stored.len(),
        forall|t: int| 0 <= t < un_n@.len() ==> #[trigger] un_n@[t] < new.len(),
    ensures
        as_ints(res.0@).to_multiset().add(as_ints(res.2@).to_multiset()) == as_ints(un_s@).to_multiset(),
        as_ints(res.1@).to_multiset().add(as_ints(res.3@).to_multiset()) == as_ints(un_n@).to_multiset(),
        res.2@.len() == res.3@.len(),
        res.0@.len() + res.2@.len() == un_s@.len(),
        res.1@.len() + res.3@.len() == un_n@.len(),
        forall|t: int| 0 <= t < res.0@.len() ==> #[trigger] res.0@[t] < stored.len(),
        forall|t: int| 0 <= t < res.1@.len() ==> #[trigger] res.1@[t] < new.len(),
        forall|t: int| 0 <= t < res.2@.len() ==> #[trigger] res.2@[t] < stored.len(),
        forall|t: int| 0 <= t < res.3@.len() ==> #[trigger] res.3@[t] < new.len(),
        forall|t: int|
            0 <= t < res.2@.len() ==> stored@[#[trigger] res.2@[t] as int].block_hash@ == new@[res.3@[t] as int].block_hash@,
        forall|t: int, r: int|
            0 <= t < res.0@.len() && 0 <= r < res.1@.len() ==> stored@[#[trigger] res.0@[t] as int].block_hash@
                != new@[#[trigger] res.1@[r] as int].block_hash@,
        ({
            let r = relocate(stored_hashes(stored@), new_hashes(new@), as_ints(un_s@), as_ints(un_n@));
            &&& as_ints(res.0@) == r.0
            &&& pairs_of(res.2@, res.3@) == r.1
            &&& as_ints(res.1@) == r.2
        }),
{
    let ghost a = stored_hashes(stored@);
    let ghost b = new_hashes(new@);
    let ghost r0 = relocate(a, b, as_ints(un_s@), as_ints(un_n@));
    let mut rem = un_n;
    let mut left: Vec<usize> = Vec::new();
    let mut mv_s: Vec<usize> = Vec::new();
    let mut mv_n: Vec<usize> = Vec::new();
    let ghost all_n = as_ints(rem@).to_multiset();
    let ghost n_len = rem@.len();
    proof {
        lemma_empty_ms::<int>();
        assert(as_ints(left@) =~= Seq::<int>::empty());
        assert(as_ints(mv_s@) =~= Seq::<int>::empty());
        assert(as_ints(mv_n@) =~= Seq::<int>::empty());
        assert(as_ints(un_s@).subrange(0, un_s@.len() as int) =~= as_ints(un_s@));
        assert(as_ints(left@).to_multiset().add(as_ints(mv_s@).to_multiset()).add(
            as_ints(un_s@).subrange(0, un_s@.len() as int).to_multiset(),
        ) =~= as_ints(un_s@).to_multiset());
        assert(as_ints(rem@).to_multiset().add(as_ints(mv_n@).to_multiset()) =~= all_n);
    }
    proof {
        assert(as_ints(un_s@).skip(0) =~= as_ints(un_s@));
        assert(as_ints(left@) + r0.0 =~= r0.0);
        assert(pairs_of(mv_s@, mv_n@) + r0.1 =~= r0.1);
    }
    let mut k: usize = 0;
    while k < un_s.len()
        invariant
            k <= un_s@.len(),
            a == stored_hashes(stored@),
            b == new_hashes(new@),
            r0 == relocate(a, b, as_ints(un_s@), as_ints(un_n@)),
            ({
                let r = relocate(a, b, as_ints(un_s@).skip(k as int), as_ints(rem@));
                &&& as_ints(left@) + r.0 == r0.0
                &&& pairs_of(mv_s@, mv_n@) + r.1 == r0.1
                &&& r.2 == r0.2
            }),
            forall|t: int| 0 <= t < un_s@.len() ==> #[trigger] un_s@[t] < stored.len(),
            all_n == as_ints(un_n@).to_multiset(),
            n_len == un_n@.len(),
            as_ints(left@).to_multiset().add(as_ints(mv_s@).to_multiset()).add(
                as_ints(un_s@).subrange(k as int, un_s@.len() as int).to_multiset(),
            ) == as_ints(un_s@).to_multiset(),
            as_ints(rem@).to_multiset().add(as_ints(mv_n@).to_multiset()) == all_n,
            mv_s@.len() == mv_n@.len(),
            left@.len() + mv_s@.len() == k,
            rem@.len() + mv_n@.len() == n_len,
            forall|t: int| 0 <= t < left@.len() ==> #[trigger] left@[t] < stored.len(),
            forall|t: int| 0 <= t < rem@.len() ==> #[trigger] rem@[t] < new.len(),
            forall|t: int| 0 <= t < mv_s@.len() ==> #[trigger] mv_s@[t] < stored.len(),
            forall|t: int| 0 <= t < mv_n@.len() ==> #[trigger] mv_n@[t] < new.len(),
            forall|t: int|
                0 <= t < mv_s@.len() ==> stored@[#[trigger] mv_s@[t] as int].block_hash@ == new@[mv_n@[t] as int].block_hash@,
            forall|t: int, r: int|
                0 <= t < left@.len() && 0 <= r < rem@.len() ==> stored@[#[trigger] left@[t] as int].block_hash@
                    != new@[#[trigger] rem@[r] as int].block_hash@,
        decreases un_s@.len() - k,
    {
        let s_idx = un_s[k];
        proof {
            lemma_take_at(as_ints(un_s@), k as int);
        }
        let ghost old_rem = rem@;
        let ghost old_left = left@;
        let ghost old_mv_s = mv_s@;
        let ghost old_mv_n = mv_n@;
        match find_index_with_hash(new, &rem, &stored[s_idx].block_hash) {
            Some(p) => {
                proof {
                    let us = as_ints(un_s@).skip(k as int);
                    assert(us[0] == s_idx as int);
                    assert(us.drop_first() =~= as_ints(un_s@).skip(k + 1));
                    assert(a[s_idx as int] == stored@[s_idx as int].block_hash@);
                    assert forall|q: int| 0 <= q < p implies b[#[trigger] as_ints(rem@)[q]] != a[s_idx as int] by {
                        assert(new@[rem@[q] as int].block_hash@ != stored@[s_idx as int].block_hash@);
                    }
                    lemma_first_with_hash(b, as_ints(rem@), a[s_idx as int], p as int);
                }
                let jj = rem.remove(p);
                proof {
                    assert(as_ints(rem@) =~= as_ints(old_rem).remove(p as int));
                    vstd::seq_lib::to_multiset_remove(as_ints(old_rem), p as int);
                    vstd::seq_lib::to_multiset_contains(as_ints(old_rem), jj as int);
                    assert(as_ints(old_rem)[p as int] == jj as int);
                    assert(as_ints(old_rem).contains(jj as int));
                    lemma_as_ints_push(old_mv_n, jj);
                    lemma_as_ints_push(old_mv_s, s_idx);
                }
                mv_s.push(s_idx);
                mv_n.push(jj);
                proof {
                    let r2 = relocate(a, b, as_ints(un_s@).skip(k + 1), as_ints(rem@));
                    assert(as_ints(rem@) =~= as_ints(old_rem).remove(p as int));
                    assert(pairs_of(mv_s@, mv_n@) =~= pairs_of(old_mv_s, old_mv_n).push((s_idx as int, jj as int)));
                    assert(pairs_of(mv_s@, mv_n@) + r2.1 =~= pairs_of(old_mv_s, old_mv_n) + (seq![
                        (s_idx as int, jj as int),
                    ] + r2.1));
                    assert(as_ints(rem@).to_multiset().add(as_ints(mv_n@).to_multiset()) =~= all_n);
                    assert(as_ints(left@).to_multiset().add(as_ints(mv_s@).to_multiset()).add(
                        as_ints(un_s@).subrange(k + 1, un_s@.len() as int).to_multiset(),
                    ) =~= as_ints(un_s@).to_multiset());
                    assert forall|t: int| 0 <= t < rem@.len() implies #[trigger] rem@[t] < new.len() by {
                        if t < p { assert(rem@[t] == old_rem[t]); } else { assert(rem@[t] == old_rem[t + 1]); }
                    }
                    assert forall|t: int, r: int| 0 <= t < left@.len() && 0 <= r < rem@.len() implies stored@[
                        #[trigger] left@[t] as int].block_hash@ != new@[#[trigger] rem@[r] as int].block_hash@ by {
                        if r < p { assert(rem@[r] == old_rem[r]); } else { assert(rem@[r] == old_rem[r + 1]); }
                    }
                    assert forall|t: int| 0 <= t < mv_s@.len() implies stored@[#[trigger] mv_s@[t] as int].block_hash@
                        == new@[mv_n@[t] as int].block_hash@ by {
                        if t < old_mv_s.len() { assert(mv_s@[t] == old_mv_s[t]); assert(mv_n@[t] == old_mv_n[t]); }
                    }
                }
            },
            None => {
                proof {
                    lemma_as_ints_push(old_left, s_idx);
                    let us = as_ints(un_s@).skip(k as int);
                    assert(us[0] == s_idx as int);
                    assert(us.drop_first() =~= as_ints(un_s@).skip(k + 1));
                    assert(a[s_idx as int] == stored@[s_idx as int].block_hash@);
                    assert forall|q: int| 0 <= q < rem@.len() implies b[#[trigger] as_ints(rem@)[q]] != a[s_idx as int] by {
                        assert(new@[rem@[q] as int].block_hash@ != stored@[s_idx as int].block_hash@);
                    }
                    lemma_first_with_hash(b, as_ints(rem@), a[s_idx as int], rem@.len() as int);
                }
                left.push(s_idx);
                proof {
                    let r2 = relocate(a, b, as_ints(un_s@).skip(k + 1), as_ints(rem@));
                    assert(as_ints(left@) + r2.0 =~= as_ints(old_left) + (seq![s_idx as int] + r2.0));
                    assert(as_ints(left@).to_multiset().add(as_ints(mv_s@).to_multiset()).add(
                        as_ints(un_s@).subrange(k + 1, un_s@.len() as int).to_multiset(),
                    ) =~= as_ints(un_s@).to_multiset());
                    assert forall|t: int, r: int| 0 <= t < left@.len() && 0 <= r < rem@.len() implies stored@[
                        #[trigger] left@[t] as int].block_hash@ != new@[#[trigger] rem@[r] as int].block_hash@ by {
                        if t < old_left.len() { assert(left@[t] == old_left[t]); }
                    }
                }
            },
        }
        k = k + 1;
    }
    proof {
        lemma_empty_ms::<int>();
        assert(as_ints(un_s@).subrange(k as int, un_s@.len() as int) =~= Seq::<int>::empty());
        assert(as_ints(left@).to_multiset().add(as_ints(mv_s@).to_multiset()) =~= as_ints(un_s@).to_multiset());
    }
    proof {
        let r = relocate(a, b, as_ints(un_s@).skip(k as int), as_ints(rem@));
        assert(as_ints(un_s@).skip(k as int) =~= Seq::<int>::empty());
        assert(as_ints(left@) =~= as_ints(left@) + r.0);
        assert(pairs_of(mv_s@, mv_n@) =~= pairs_of(mv_s@, mv_n@) + r.1);
    }
    (left, rem, mv_s, mv_n)
}


proof fn lemma_count_tag_zero(cs: Seq<BlockChange>, tag: int)
    requires
        count_tag(cs, tag) == 0,
    ensures
        forall|k: int| 0 <= k < cs.len() ==> change_tag(#[trigger] cs[k]) != tag,
    decreases cs.len(),
{
    if cs.len() > 0 {
        lemma_count_tag_zero(cs.drop_last(), tag);
        assert forall|k: int| 0 <= k < cs.len() implies change_tag(#[trigger] cs[k]) != tag by {
            if k < cs.len() - 1 {
                assert(cs[k] == cs.drop_last()[k]);
            }
        }
    }
}

/// Changed pairs: the `t` first leftover stored and new indices, in order.
pub open spec fn changed_part(stored: Seq<StoredBlock>, new: Seq<NewBlock>, ls: Seq<int>, rs: Seq<int>, t: int) -> Seq<
    BlockChange,
> {
    Seq::new(t as nat, |q: int| BlockChange::Changed { old: stored[ls[q]], new: new[rs[q]] })
}

/// Removed blocks: the leftover stored indices `ls[from..to]`.
pub open spec fn removed_part(stored: Seq<StoredBlock>, ls: Seq<int>, from: int, to: int) -> Seq<BlockChange> {
    Seq::new((to - from) as nat, |q: int| BlockChange::Removed { stored: stored[ls[from + q]] })
}

/// Added blocks: the leftover new indices `rs[from..to]`.
pub open spec fn added_part(new: Seq<NewBlock>, rs: Seq<int>, from: int, to: int) -> Seq<BlockChange> {
    Seq::new((to - from) as nat, |q: int| BlockChange::Added { new: new[rs[from + q]] })
}

/// Relocated blocks: the first `t` pairs.
pub open spec fn moved_part(stored: Seq<StoredBlock>, new: Seq<NewBlock>, ps: Seq<(int, int)>, t: int) -> Seq<
    BlockChange,
> {
    Seq::new(t as nat, |q: int| BlockChange::Moved { stored: stored[ps[q].0], new: new[ps[q].1] })
}

/// The changes of the LCS diff: the matched pairs in order; then the
/// leftover stored and new blocks paired in order as changed; the rest of
/// the stored leftovers removed and of the new leftovers added; then the
/// relocated pairs as moved.
pub open spec fn lcs_changes(stored: Seq<StoredBlock>, new: Seq<NewBlock>) -> Seq<BlockChange> {
    let a = stored_hashes(stored);
    let b = new_hashes(new);
    let w = walk(a, b, 0, 0);
    let r = relocate(a, b, w.1, w.2);
    let pc = if r.0.len() < r.2.len() {
        r.0.len() as int
    } else {
        r.2.len() as int
    };
    matched_changes(stored, new, w.0) + changed_part(stored, new, r.0, r.2, pc) + removed_part(
        stored,
        r.0,
        pc,
        r.0.len() as int,
    ) + added_part(new, r.2, pc, r.2.len() as int) + moved_part(stored, new, r.1, r.1.len() as int)
}

/// Diffs the stored block rows of a file against its freshly parsed blocks.
///
/// Up to `MAX_LCS_BLOCKS` blocks on each side:
/// 1. a longest common subsequence of the two hash sequences is matched in
///    order (`Unchanged` at the same index, `Moved` otherwise);
/// 2. each unmatched stored block takes the first remaining unmatched new block
///    of the same hash (a relocation, `Moved`);
/// 3. the stored and new blocks still left pair in order into `Changed`, and
///    whichever side is longer leaves `Removed` or `Added` blocks.
///
/// The changes come out as the matched pairs, then `Changed`, `Removed`,
/// `Added`, and last the relocations. Above the limit `diff_by_set` runs.
#[verifier::rlimit(40)]
pub fn diff_block_lists(stored: &[StoredBlock], new: &[NewBlock]) -> (d: FileDiff)
    requires
        stored.len() + new.len() < usize::MAX,
    ensures
        diff_ok(d, stored@, new@),
        stored.len() > MAX_LCS_BLOCKS || new.len() > MAX_LCS_BLOCKS ==> d.changed == 0 && d.changes@ == set_changes(
            stored@,
            new@,
            0,
            index_range(new.len() as nat),
        ),
        stored.len() <= MAX_LCS_BLOCKS && new.len() <= MAX_LCS_BLOCKS ==> {
            &&& d.changes@ == lcs_changes(stored@, new@)
            &&& !(d.removed > 0 && d.added > 0)
            &&& d.unchanged + d.moved >= lcs_len(stored_hashes(stored@), new_hashes(new@))
        },
{
    if stored.len() > MAX_LCS_BLOCKS || new.len() > MAX_LCS_BLOCKS {
        return diff_by_set(stored, new);
    }
    let n = stored.len();
    let m = new.len();
    let ghost lcs = lcs_len(stored_hashes(stored@), new_hashes(new@));
    let rows = lcs_table(stored, new);
    let (mut diff, un_s, un_n, Ghost(pos0)) = lcs_backtrack(stored, new, &rows);
    let ghost mut pos = pos0;
    let ghost base_len = diff.changes@.len();
    let ghost un_s_len = un_s@.len();
    let ghost un_n_len = un_n@.len();
    let (left, rem, mv_s, mv_n) = pair_relocations(stored, new, &un_s, un_n);
    let ghost ls = as_ints(left@);
    let ghost rs = as_ints(rem@);
    let ghost ms_s = as_ints(mv_s@);
    let ghost ms_n = as_ints(mv_n@);
    let pc = if left.len() < rem.len() { left.len() } else { rem.len() };
    let ghost mat = diff.changes@;
    let ghost ps = pairs_of(mv_s@, mv_n@);
    proof {
        assert(mat + changed_part(stored@, new@, ls, rs, 0) =~= mat);
    }
    proof {
        assert(ls.subrange(0, ls.len() as int) =~= ls);
        assert(rs.subrange(0, rs.len() as int) =~= rs);
        assert(accounted(
            diff.changes@,
            pos,
            ls.subrange(0, ls.len() as int).to_multiset().add(ms_s.to_multiset()),
            rs.subrange(0, rs.len() as int).to_multiset().add(ms_n.to_multiset()),
            stored@,
            new@,
        ));
    }
    // Changed pairs.
    let mut t: usize = 0;
    while t < pc
        invariant
            t <= pc,
            pc <= left@.len(),
            pc <= rem@.len(),
            pc == left@.len() || pc == rem@.len(),
            n == stored@.len(),
            m == new@.len(),
            n + m < usize::MAX,
            ls == as_ints(left@),
            rs == as_ints(rem@),
            ms_s == as_ints(mv_s@),
            ms_n == as_ints(mv_n@),
            base_len + un_s_len == n,
            base_len + un_n_len == m,
            left@.len() + mv_s@.len() == un_s_len,
            rem@.len() + mv_n@.len() == un_n_len,
            forall|q: int| 0 <= q < left@.len() ==> #[trigger] left@[q] < n,
            forall|q: int| 0 <= q < rem@.len() ==> #[trigger] rem@[q] < m,
            forall|q: int, r: int|
                0 <= q < left@.len() && 0 <= r < rem@.len() ==> stored@[#[trigger] left@[q] as int].block_hash@
                    != new@[#[trigger] rem@[r] as int].block_hash@,
            diff.wf(),
            diff.changes@.len() == base_len + t,
            diff.changes@ == mat + changed_part(stored@, new@, ls, rs, t as int),
            diff.changed == t && diff.removed == 0 && diff.added == 0,
            diff.unchanged + diff.moved >= lcs,
            same_hashes(stored@, new@) ==> {
                &&& left@.len() == 0 && rem@.len() == 0 && mv_s@.len() == 0
                &&& diff.changes@.len() == n
                &&& forall|k: int| 0 <= k < diff.changes@.len() ==> (#[trigger] diff.changes@[k]) is Unchanged
            },
            accounted(
                diff.changes@,
                pos,
                ls.subrange(t as int, ls.len() as int).to_multiset().add(ms_s.to_multiset()),
                rs.subrange(t as int, rs.len() as int).to_multiset().add(ms_n.to_multiset()),
                stored@,
                new@,
            ),
        decreases pc - t,
    {
        let si = left[t];
        let nj = rem[t];
        let change = BlockChange::Changed { old: stored[si].copy(), new: new[nj].copy() };
        proof {
            lemma_take_at(ls, t as int);
            lemma_take_at(rs, t as int);
            assert(ls.subrange(t as int, ls.len() as int).to_multiset().add(ms_s.to_multiset())
                =~= ls.subrange(t + 1, ls.len() as int).to_multiset().add(ms_s.to_multiset()).insert(si as int));
            assert(rs.subrange(t as int, rs.len() as int).to_multiset().add(ms_n.to_multiset())
                =~= rs.subrange(t + 1, rs.len() as int).to_multiset().add(ms_n.to_multiset()).insert(nj as int));
            assert(stored@[left@[t as int] as int].block_hash@ != new@[rem@[t as int] as int].block_hash@);
            lemma_account_push(
                diff.changes@,
                pos,
                ls.subrange(t as int, ls.len() as int).to_multiset().add(ms_s.to_multiset()),
                rs.subrange(t as int, rs.len() as int).to_multiset().add(ms_n.to_multiset()),
                stored@,
                new@,
                change,
                (si as int, nj as int),
                ls.subrange(t + 1, ls.len() as int).to_multiset().add(ms_s.to_multiset()),
                rs.subrange(t + 1, rs.len() as int).to_multiset().add(ms_n.to_multiset()),
            );
        }
        diff.record(change);
        proof {
            pos = pos.push((si as int, nj as int));
            assert(mat + changed_part(stored@, new@, ls, rs, t + 1) =~= (mat + changed_part(
                stored@,
                new@,
                ls,
                rs,
                t as int,
            )).push(change));
        }
        t = t + 1;
    }
    proof {
        assert(mat + changed_part(stored@, new@, ls, rs, pc as int) + removed_part(stored@, ls, pc as int, pc as int)
            =~= mat + changed_part(stored@, new@, ls, rs, pc as int));
    }
    // Stored blocks left over.
    let mut t: usize = pc;
    while t < left.len()
        invariant
            pc <= t <= left@.len(),
            pc <= rem@.len(),
            pc == left@.len() || pc == rem@.len(),
            n == stored@.len(),
            m == new@.len(),
            n + m < usize::MAX,
            ls == as_ints(left@),
            rs == as_ints(rem@),
            ms_s == as_ints(mv_s@),
            ms_n == as_ints(mv_n@),
            base_len + un_s_len == n,
            base_len + un_n_len == m,
            left@.len() + mv_s@.len() == un_s_len,
            rem@.len() + mv_n@.len() == un_n_len,
            forall|q: int| 0 <= q < left@.len() ==> #[trigger] left@[q] < n,
            diff.wf(),
            diff.changes@.len() == base_len + t,
            mat == matched_changes(stored@, new@, walk(stored_hashes(stored@), new_hashes(new@), 0, 0).0),
            diff.changes@ == mat + changed_part(stored@, new@, ls, rs, pc as int) + removed_part(
                stored@,
                ls,
                pc as int,
                t as int,
            ),
            diff.changed == pc && diff.removed == t - pc && diff.added == 0,
            diff.unchanged + diff.moved >= lcs,
            same_hashes(stored@, new@) ==> {
                &&& left@.len() == 0 && rem@.len() == 0 && mv_s@.len() == 0
                &&& diff.changes@.len() == n
                &&& forall|k: int| 0 <= k < diff.changes@.len() ==> (#[trigger] diff.changes@[k]) is Unchanged
            },
            accounted(
                diff.changes@,
                pos,
                ls.subrange(t as int, ls.len() as int).to_multiset().add(ms_s.to_multiset()),
                rs.subrange(pc as int, rs.len() as int).to_multiset().add(ms_n.to_multiset()),
                stored@,
                new@,
            ),
        decreases left@.len() - t,
    {
        let si = left[t];
        let change = BlockChange::Removed { stored: stored[si].copy() };
        proof {
            lemma_take_at(ls, t as int);
            assert(ls.subrange(t as int, ls.len() as int).to_multiset().add(ms_s.to_multiset())
                =~= ls.subrange(t + 1, ls.len() as int).to_multiset().add(ms_s.to_multiset()).insert(si as int));
            lemma_account_push(
                diff.changes@,
                pos,
                ls.subrange(t as int, ls.len() as int).to_multiset().add(ms_s.to_multiset()),
                rs.subrange(pc as int, rs.len() as int).to_multiset().add(ms_n.to_multiset()),
                stored@,
                new@,
                change,
                (si as int, -1),
                ls.subrange(t + 1, ls.len() as int).to_multiset().add(ms_s.to_multiset()),
                rs.subrange(pc as int, rs.len() as int).to_multiset().add(ms_n.to_multiset()),
            );
        }
        diff.record(change);
        proof {
            pos = pos.push((si as int, -1));
            assert(mat + changed_part(stored@, new@, ls, rs, pc as int) + removed_part(stored@, ls, pc as int, t + 1)
                =~= (mat + changed_part(stored@, new@, ls, rs, pc as int) + removed_part(
                stored@,
                ls,
                pc as int,
                t as int,
            )).push(change));
        }
        t = t + 1;
    }
    proof {
        let front = mat + changed_part(stored@, new@, ls, rs, pc as int) + removed_part(
            stored@,
            ls,
            pc as int,
            ls.len() as int,
        );
        assert(front + added_part(new@, rs, pc as int, pc as int) =~= front);
    }
    // New blocks left over.
    let mut t: usize = pc;
    while t < rem.len()
        invariant
            pc <= t <= rem@.len(),
            pc <= left@.len(),
            pc == left@.len() || pc == rem@.len(),
            n == stored@.len(),
            m == new@.len(),
            n + m < usize::MAX,
            ls == as_ints(left@),
            rs == as_ints(rem@),
            ms_s == as_ints(mv_s@),
            ms_n == as_ints(mv_n@),
            base_len + un_s_len == n,
            base_len + un_n_len == m,
            left@.len() + mv_s@.len() == un_s_len,
            rem@.len() + mv_n@.len() == un_n_len,
            forall|q: int| 0 <= q < rem@.len() ==> #[trigger] rem@[q] < m,
            diff.wf(),
            diff.changes@.len() == base_len + left@.len() + t - pc,
            diff.changes@ == mat + changed_part(stored@, new@, ls, rs, pc as int) + removed_part(
                stored@,
                ls,
                pc as int,
                ls.len() as int,
            ) + added_part(new@, rs, pc as int, t as int),
            diff.changed == pc && diff.removed == left@.len() - pc && diff.added == t - pc,
            diff.unchanged + diff.moved >= lcs,
            same_hashes(stored@, new@) ==> {
                &&& left@.len() == 0 && rem@.len() == 0 && mv_s@.len() == 0
                &&& diff.changes@.len() == n
                &&& forall|k: int| 0 <= k < diff.changes@.len() ==> (#[trigger] diff.changes@[k]) is Unchanged
            },
            accounted(
                diff.changes@,
                pos,
                ls.subrange(ls.len() as int, ls.len() as int).to_multiset().add(ms_s.to_multiset()),
                rs.subrange(t as int, rs.len() as int).to_multiset().add(ms_n.to_multiset()),
                stored@,
                new@,
            ),
        decreases rem@.len() - t,
    {
        let nj = rem[t];
        let change = BlockChange::Added { new: new[nj].copy() };
        proof {
            lemma_take_at(rs, t as int);
            assert(rs.subrange(t as int, rs.len() as int).to_multiset().add(ms_n.to_multiset())
                =~= rs.subrange(t + 1, rs.len() as int).to_multiset().add(ms_n.to_multiset()).insert(nj as int));
            lemma_account_push(
                diff.changes@,
                pos,
                ls.subrange(ls.len() as int, ls.len() as int).to_multiset().add(ms_s.to_multiset()),
                rs.subrange(t as int, rs.len() as int).to_multiset().add(ms_n.to_multiset()),
                stored@,
                new@,
                change,
                (-1, nj as int),
                ls.subrange(ls.len() as int, ls.len() as int).to_multiset().add(ms_s.to_multiset()),
                rs.subrange(t + 1, rs.len() as int).to_multiset().add(ms_n.to_multiset()),
            );
        }
        diff.record(change);
        proof {
            pos = pos.push((-1, nj as int));
            let front = mat + changed_part(stored@, new@, ls, rs, pc as int) + removed_part(
                stored@,
                ls,
                pc as int,
                ls.len() as int,
            );
            assert(front + added_part(new@, rs, pc as int, t + 1) =~= (front + added_part(
                new@,
                rs,
                pc as int,
                t as int,
            )).push(change));
        }
        t = t + 1;
    }
    let ghost pre_moved = diff.changes@;
    proof {
        assert(pre_moved + moved_part(stored@, new@, ps, 0) =~= pre_moved);
    }
    proof {
        lemma_empty_ms::<int>();
        assert(ls.subrange(ls.len() as int, ls.len() as int) =~= Seq::<int>::empty());
        assert(rs.subrange(rs.len() as int, rs.len() as int) =~= Seq::<int>::empty());
        assert(ms_s.subrange(0, ms_s.len() as int) =~= ms_s);
        assert(ms_n.subrange(0, ms_n.len() as int) =~= ms_n);
        assert(ls.subrange(ls.len() as int, ls.len() as int).to_multiset().add(ms_s.to_multiset())
            =~= ms_s.subrange(0, ms_s.len() as int).to_multiset());
        assert(rs.subrange(rs.len() as int, rs.len() as int).to_multiset().add(ms_n.to_multiset())
            =~= ms_n.subrange(0, ms_n.len() as int).to_multiset());
    }
    let ghost removed_after = diff.removed;
    let ghost added_after = diff.added;
    // Relocated pairs.
    let mut t: usize = 0;
    while t < mv_s.len()
        invariant
            t <= mv_s@.len() == mv_n@.len(),
            n == stored@.len(),
            m == new@.len(),
            n + m < usize::MAX,
            ms_s == as_ints(mv_s@),
            ms_n == as_ints(mv_n@),
            base_len + un_s_len == n,
            base_len + un_n_len == m,
            left@.len() + mv_s@.len() == un_s_len,
            rem@.len() + mv_n@.len() == un_n_len,
            forall|q: int| 0 <= q < mv_s@.len() ==> #[trigger] mv_s@[q] < n,
            forall|q: int| 0 <= q < mv_n@.len() ==> #[trigger] mv_n@[q] < m,
            forall|q: int|
                0 <= q < mv_s@.len() ==> stored@[#[trigger] mv_s@[q] as int].block_hash@ == new@[mv_n@[q] as int].block_hash@,
            diff.wf(),
            diff.changes@.len() == base_len + left@.len() + rem@.len() - pc + t,
            ps == pairs_of(mv_s@, mv_n@),
            diff.changes@ == pre_moved + moved_part(stored@, new@, ps, t as int),
            diff.removed == removed_after && diff.added == added_after,
            diff.unchanged + diff.moved >= lcs,
            same_hashes(stored@, new@) ==> {
                &&& left@.len() == 0 && rem@.len() == 0 && mv_s@.len() == 0
                &&& diff.changes@.len() == n
                &&& forall|k: int| 0 <= k < diff.changes@.len() ==> (#[trigger] diff.changes@[k]) is Unchanged
            },
            accounted(
                diff.changes@,
                pos,
                ms_s.subrange(t as int, ms_s.len() as int).to_multiset(),
                ms_n.subrange(t as int, ms_n.len() as int).to_multiset(),
                stored@,
                new@,
            ),
        decreases mv_s@.len() - t,
    {
        let si = mv_s[t];
        let nj = mv_n[t];
        let change = BlockChange::Moved { stored: stored[si].copy(), new: new[nj].copy() };
        proof {
            lemma_take_at(ms_s, t as int);
            lemma_take_at(ms_n, t as int);
            lemma_account_push(
                diff.changes@,
                pos,
                ms_s.subrange(t as int, ms_s.len() as int).to_multiset(),
                ms_n.subrange(t as int, ms_n.len() as int).to_multiset(),
                stored@,
                new@,
                change,
                (si as int, nj as int),
                ms_s.subrange(t + 1, ms_s.len() as int).to_multiset(),
                ms_n.subrange(t + 1, ms_n.len() as int).to_multiset(),
            );
        }
        diff.record(change);
        proof {
            pos = pos.push((si as int, nj as int));
            assert(pre_moved + moved_part(stored@, new@, ps, t + 1) =~= (pre_moved + moved_part(
                stored@,
                new@,
                ps,
                t as int,
            )).push(change));
        }
        t = t + 1;
    }
    proof {
        lemma_empty_ms::<int>();
        assert(ms_s.subrange(t as int, ms_s.len() as int) =~= Seq::<int>::empty());
        assert(ms_n.subrange(t as int, ms_n.len() as int) =~= Seq::<int>::empty());
        assert(stored_slots(pos).to_multiset() =~= index_range(n as nat).to_multiset());
        assert(new_slots(pos).to_multiset() =~= index_range(m as nat).to_multiset());
        assert(covers(diff.changes@, pos, stored@, new@));
        if diff.removed == 0 {
            lemma_count_tag_zero(diff.changes@, 4);
        } else {
            lemma_count_tag_zero(diff.changes@, 1);
        }
        assert(removed_added_disjoint(diff.changes@));
    }
    diff
}

} // verus!
