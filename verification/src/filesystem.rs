//! Directory listings as the folder tree shows them: directories first,
//! then by case-insensitive name, entries with equal keys keeping the order
//! in which the directory yielded them.

use vstd::prelude::*;

use crate::text::{bytes_lt, lemma_bytes_lt_irreflexive, lemma_bytes_lt_transitive, str_lowercase, str_lt, to_lowercase, utf8};

verus! {

/// One entry of a directory listing.
#[derive(Debug, Clone, PartialEq, Eq)]
pub struct FileEntry {
    pub name: String,
    pub path: String,
    pub is_dir: bool,
}

impl FileEntry {
    /// A field-for-field copy.
    pub fn copy(&self) -> (r: FileEntry)
        ensures
            r == *self,
    {
        FileEntry { name: self.name.clone(), path: self.path.clone(), is_dir: self.is_dir }
    }
}

/// The sort key of an entry: whether it is a directory, and its lowercase
/// name.
pub open spec fn entry_key(e: FileEntry) -> (bool, Seq<char>) {
    (e.is_dir, str_lowercase(e.name@))
}

/// `a` is listed before `b`: directories before files, then by lowercase
/// name.
pub open spec fn listed_before(a: FileEntry, b: FileEntry) -> bool {
    (a.is_dir && !b.is_dir) || (a.is_dir == b.is_dir && str_lt(str_lowercase(a.name@), str_lowercase(b.name@)))
}

/// The entries of a list that have a given key, in order.
pub open spec fn with_key(s: Seq<FileEntry>, k: (bool, Seq<char>)) -> Seq<FileEntry> {
    s.filter(|e: FileEntry| entry_key(e) == k)
}

/// No entry is listed before an earlier one.
pub open spec fn listing_sorted(s: Seq<FileEntry>) -> bool {
    forall|i: int, j: int| 0 <= i < j < s.len() ==> !listed_before(#[trigger] s[j], #[trigger] s[i])
}

proof fn lemma_before_irreflexive(a: FileEntry)
    ensures
        !listed_before(a, a),
{
    lemma_bytes_lt_irreflexive(utf8(str_lowercase(a.name@)));
}

proof fn lemma_before_transitive(a: FileEntry, b: FileEntry, c: FileEntry)
    requires
        listed_before(a, b),
        listed_before(b, c),
    ensures
        listed_before(a, c),
{
    if a.is_dir == b.is_dir && b.is_dir == c.is_dir {
        lemma_bytes_lt_transitive(
            utf8(str_lowercase(a.name@)),
            utf8(str_lowercase(b.name@)),
            utf8(str_lowercase(c.name@)),
        );
    }
}

/// Whether `a` (with lowercase name `ka`) is listed before `b`.
fn before(a: &FileEntry, ka: &String, b: &FileEntry, kb: &String) -> (r: bool)
    requires
        ka@ == str_lowercase(a.name@),
        kb@ == str_lowercase(b.name@),
    ensures
        r == listed_before(*a, *b),
{
    if a.is_dir != b.is_dir {
        a.is_dir
    } else {
        crate::text::string_lt(ka, kb)
    }
}

/// Sorts a directory listing for the folder tree: directories first, then
/// by lowercase name; entries with equal keys keep their order.
pub fn sort_entries(entries: Vec<FileEntry>) -> (r: Vec<FileEntry>)
    ensures
        listing_sorted(r@),
        forall|k: (bool, Seq<char>)| #[trigger] with_key(r@, k) == with_key(entries@, k),
{
    let mut out: Vec<FileEntry> = Vec::new();
    let mut keys: Vec<String> = Vec::new();
    let mut i: usize = 0;
    while i < entries.len()
        invariant
            i <= entries@.len(),
            out@.len() == keys@.len(),
            forall|t: int| 0 <= t < out@.len() ==> (#[trigger] keys@[t])@ == str_lowercase(out@[t].name@),
            listing_sorted(out@),
            forall|k: (bool, Seq<char>)| #[trigger] with_key(out@, k) == with_key(entries@.take(i as int), k),
        decreases entries@.len() - i,
    {
        let x = entries[i].copy();
        let kx = to_lowercase(x.name.as_str());
        let mut p: usize = 0;
        while p < out.len() && !before(&x, &kx, &out[p], &keys[p])
            invariant
                p <= out@.len(),
                out@.len() == keys@.len(),
                forall|t: int| 0 <= t < out@.len() ==> (#[trigger] keys@[t])@ == str_lowercase(out@[t].name@),
                kx@ == str_lowercase(x.name@),
                forall|t: int| 0 <= t < p ==> !listed_before(x, #[trigger] out@[t]),
            decreases out@.len() - p,
        {
            p = p + 1;
        }
        let ghost old_out = out@;
        proof {
            assert(x == entries@[i as int]);
            // every entry from `p` on is listed after `x`
            assert forall|t: int| p <= t < old_out.len() implies !listed_before(#[trigger] old_out[t], x) by {
                if listed_before(old_out[t], x) {
                    lemma_before_transitive(old_out[t], x, old_out[p as int]);
                    if t == p {
                        lemma_before_irreflexive(old_out[t]);
                    }
                }
            }
            assert forall|t: int| p <= t < old_out.len() implies entry_key(#[trigger] old_out[t]) != entry_key(x) by {
                if entry_key(old_out[t]) == entry_key(x) {
                    assert(listed_before(x, old_out[p as int]));
                    assert(listed_before(old_out[t], old_out[p as int]));
                    if t == p {
                        lemma_before_irreflexive(old_out[t]);
                    }
                }
            }
        }
        out.insert(p, x);
        keys.insert(p, kx);
        proof {
            let new_out = out@;
            assert(new_out =~= old_out.take(p as int) + seq![x] + old_out.skip(p as int));
            assert forall|a: int, b: int| 0 <= a < b < new_out.len() implies !listed_before(
                #[trigger] new_out[b],
                #[trigger] new_out[a],
            ) by {
                if a < p && b < p {
                    assert(new_out[a] == old_out[a] && new_out[b] == old_out[b]);
                } else if a < p && b == p {
                    assert(new_out[a] == old_out[a]);
                } else if a < p {
                    assert(new_out[a] == old_out[a] && new_out[b] == old_out[b - 1]);
                } else if a == p {
                    assert(new_out[b] == old_out[b - 1]);
                } else {
                    assert(new_out[a] == old_out[a - 1] && new_out[b] == old_out[b - 1]);
                }
            }
            assert forall|t: int| 0 <= t < new_out.len() implies (#[trigger] keys@[t])@ == str_lowercase(
                new_out[t].name@,
            ) by {
                if t < p {
                    assert(new_out[t] == old_out[t]);
                } else if t > p {
                    assert(new_out[t] == old_out[t - 1]);
                }
            }
            assert(entries@.take(i + 1) =~= entries@.take(i as int).push(x));
            assert forall|k: (bool, Seq<char>)| #[trigger] with_key(new_out, k) == with_key(
                entries@.take(i + 1),
                k,
            ) by {
                let pred = |e: FileEntry| entry_key(e) == k;
                let front = old_out.take(p as int);
                let back = old_out.skip(p as int);
                assert(old_out =~= front + back);
                Seq::filter_distributes_over_add(front, back, pred);
                Seq::filter_distributes_over_add(front + seq![x], back, pred);
                Seq::filter_distributes_over_add(front, seq![x], pred);
                entries@.take(i as int).lemma_filter_push(x, pred);
                assert(with_key(old_out, k) == with_key(entries@.take(i as int), k));
                if entry_key(x) == k {
                    assert(back.filter(pred) =~= Seq::<FileEntry>::empty()) by {
                        if back.filter(pred).len() > 0 {
                            let e = back.filter(pred)[0];
                            assert(back.filter(pred).contains(e));
                            back.lemma_filter_contains_rev(pred, e);
                            let t = choose|t: int| 0 <= t < back.len() && back[t] == e;
                            assert(back[t] == old_out[p + t]);
                        }
                    }
                    assert(seq![x].filter(pred) =~= seq![x]) by {
                        Seq::<FileEntry>::empty().lemma_filter_push(x, pred);
                        assert(Seq::<FileEntry>::empty().push(x) =~= seq![x]);
                    }
                } else {
                    assert(seq![x].filter(pred) =~= Seq::<FileEntry>::empty()) by {
                        Seq::<FileEntry>::empty().lemma_filter_push(x, pred);
                        assert(Seq::<FileEntry>::empty().push(x) =~= seq![x]);
                    }
                }
            }
        }
        i = i + 1;
    }
    assert(entries@.take(i as int) =~= entries@);
    out
}

/// In a sorted listing every directory comes before every file.
pub proof fn lemma_directories_first(s: Seq<FileEntry>)
    requires
        listing_sorted(s),
    ensures
        forall|i: int, j: int| 0 <= i < j < s.len() && (#[trigger] s[j]).is_dir ==> (#[trigger] s[i]).is_dir,
{
    assert forall|i: int, j: int| 0 <= i < j < s.len() && (#[trigger] s[j]).is_dir implies (#[trigger] s[i]).is_dir by {
        assert(!listed_before(s[j], s[i]));
    }
}

} // verus!
