//! The in-memory store of active and completed tasks, with the set of dedup
//! identities of the tasks still in flight.

use vstd::prelude::*;

use crate::pipeline::routing::Trigger;
use crate::tasks::ids::{DedupIdentity, DedupKey};
use crate::tasks::types::{TaskMetadata, TaskStatus};
use crate::text::str_eq;

verus! {

/// The tasks of a list keyed by id; a later entry wins.
pub open spec fn map_of(ts: Seq<TaskMetadata>) -> Map<Seq<char>, TaskMetadata>
    decreases ts.len(),
{
    if ts.len() == 0 {
        Map::empty()
    } else {
        map_of(ts.drop_last()).insert(ts.last().task_id@, ts.last())
    }
}

/// No two entries share a task id.
pub open spec fn distinct_ids(ts: Seq<TaskMetadata>) -> bool {
    forall|i: int, j: int| 0 <= i < ts.len() && 0 <= j < ts.len() && i != j ==> (#[trigger] ts[i]).task_id@
        != (#[trigger] ts[j]).task_id@
}

/// No two entries are the same identity.
pub open spec fn distinct_keys(xs: Seq<DedupIdentity>) -> bool {
    forall|i: int, j: int| 0 <= i < xs.len() && 0 <= j < xs.len() && i != j ==> (#[trigger] xs[i]).key()
        != (#[trigger] xs[j]).key()
}

/// The identities of a list.
pub open spec fn keys_of(xs: Seq<DedupIdentity>) -> Set<DedupKey> {
    Set::new(|k: DedupKey| exists|i: int| 0 <= i < xs.len() && (#[trigger] xs[i]).key() == k)
}

proof fn lemma_map_of_dom(ts: Seq<TaskMetadata>, id: Seq<char>)
    ensures
        map_of(ts).dom().contains(id) <==> exists|i: int| 0 <= i < ts.len() && (#[trigger] ts[i]).task_id@ == id,
    decreases ts.len(),
{
    if ts.len() > 0 {
        lemma_map_of_dom(ts.drop_last(), id);
        if exists|i: int| 0 <= i < ts.drop_last().len() && (#[trigger] ts.drop_last()[i]).task_id@ == id {
            let i = choose|i: int| 0 <= i < ts.drop_last().len() && (#[trigger] ts.drop_last()[i]).task_id@ == id;
            assert(ts[i] == ts.drop_last()[i]);
        }
        if exists|i: int| 0 <= i < ts.len() && (#[trigger] ts[i]).task_id@ == id {
            let i = choose|i: int| 0 <= i < ts.len() && (#[trigger] ts[i]).task_id@ == id;
            if i < ts.len() - 1 {
                assert(ts.drop_last()[i] == ts[i]);
            }
        }
    }
}

proof fn lemma_map_of_at(ts: Seq<TaskMetadata>, i: int)
    requires
        distinct_ids(ts),
        0 <= i < ts.len(),
    ensures
        map_of(ts).dom().contains(ts[i].task_id@),
        map_of(ts)[ts[i].task_id@] == ts[i],
    decreases ts.len(),
{
    if i < ts.len() - 1 {
        assert(distinct_ids(ts.drop_last())) by {
            assert forall|a: int, b: int| 0 <= a < ts.drop_last().len() && 0 <= b < ts.drop_last().len() && a != b implies (
            #[trigger] ts.drop_last()[a]).task_id@ != (#[trigger] ts.drop_last()[b]).task_id@ by {
                assert(ts.drop_last()[a] == ts[a] && ts.drop_last()[b] == ts[b]);
            }
        }
        assert(ts.drop_last()[i] == ts[i]);
        lemma_map_of_at(ts.drop_last(), i);
        assert(ts.last().task_id@ != ts[i].task_id@);
    }
}

proof fn lemma_map_of_update(ts: Seq<TaskMetadata>, i: int, m: TaskMetadata)
    requires
        distinct_ids(ts),
        0 <= i < ts.len(),
        m.task_id@ == ts[i].task_id@,
    ensures
        map_of(ts.update(i, m)) == map_of(ts).insert(m.task_id@, m),
        distinct_ids(ts.update(i, m)),
{
    let ts2 = ts.update(i, m);
    assert(distinct_ids(ts2)) by {
        assert forall|a: int, b: int| 0 <= a < ts2.len() && 0 <= b < ts2.len() && a != b implies (
        #[trigger] ts2[a]).task_id@ != (#[trigger] ts2[b]).task_id@ by {
            assert(ts2[a].task_id@ == ts[a].task_id@);
            assert(ts2[b].task_id@ == ts[b].task_id@);
        }
    }
    assert forall|id: Seq<char>| #[trigger] map_of(ts2).dom().contains(id) <==> map_of(ts).insert(m.task_id@, m).dom().contains(id) by {
        lemma_map_of_dom(ts2, id);
        lemma_map_of_dom(ts, id);
        if exists|a: int| 0 <= a < ts.len() && (#[trigger] ts[a]).task_id@ == id {
            let a = choose|a: int| 0 <= a < ts.len() && (#[trigger] ts[a]).task_id@ == id;
            assert(ts2[a].task_id@ == id);
        }
        if exists|a: int| 0 <= a < ts2.len() && (#[trigger] ts2[a]).task_id@ == id {
            let a = choose|a: int| 0 <= a < ts2.len() && (#[trigger] ts2[a]).task_id@ == id;
            assert(ts[a].task_id@ == id);
        }
    }
    assert forall|id: Seq<char>| #[trigger] map_of(ts2).dom().contains(id) implies map_of(ts2)[id] == map_of(ts).insert(
        m.task_id@,
        m,
    )[id] by {
        lemma_map_of_dom(ts2, id);
        let a = choose|a: int| 0 <= a < ts2.len() && (#[trigger] ts2[a]).task_id@ == id;
        lemma_map_of_at(ts2, a);
        if a != i {
            lemma_map_of_at(ts, a);
        }
    }
    assert(map_of(ts2) =~= map_of(ts).insert(m.task_id@, m));
}

/// The in-memory task store.
pub struct TaskStore {
    tasks: Vec<TaskMetadata>,
    active_dedup: Vec<DedupIdentity>,
}

impl Default for TaskStore {
    /// An empty store.
    fn default() -> (s: TaskStore)
        ensures
            s.wf(),
            s.tasks_view() == Map::<Seq<char>, TaskMetadata>::empty(),
            s.active_view() == Set::<DedupKey>::empty(),
    {
        TaskStore::new()
    }
}

impl TaskStore {
    /// The tasks by id.
    pub closed spec fn tasks_view(&self) -> Map<Seq<char>, TaskMetadata> {
        map_of(self.tasks@)
    }

    /// The identities of the tasks still in flight.
    pub closed spec fn active_view(&self) -> Set<DedupKey> {
        keys_of(self.active_dedup@)
    }

    /// Task ids are unique and so are active identities.
    pub closed spec fn wf(&self) -> bool {
        &&& distinct_ids(self.tasks@)
        &&& distinct_keys(self.active_dedup@)
    }

    /// An empty store.
    pub fn new() -> (s: TaskStore)
        ensures
            s.wf(),
            s.tasks_view() == Map::<Seq<char>, TaskMetadata>::empty(),
            s.active_view() == Set::<DedupKey>::empty(),
    {
        let s = TaskStore { tasks: Vec::new(), active_dedup: Vec::new() };
        assert(s.active_view() =~= Set::<DedupKey>::empty());
        s
    }

    fn find_task(&self, task_id: &str) -> (r: Option<usize>)
        ensures
            match r {
                Some(i) => i < self.tasks@.len() && self.tasks@[i as int].task_id@ == task_id@,
                None => forall|i: int| 0 <= i < self.tasks@.len() ==> (#[trigger] self.tasks@[i]).task_id@ != task_id@,
            },
    {
        let mut i: usize = 0;
        while i < self.tasks.len()
            invariant
                i <= self.tasks@.len(),
                forall|j: int| 0 <= j < i ==> (#[trigger] self.tasks@[j]).task_id@ != task_id@,
            decreases self.tasks@.len() - i,
        {
            if str_eq(self.tasks[i].task_id.as_str(), task_id) {
                return Some(i);
            }
            i = i + 1;
        }
        None
    }

    fn find_active(&self, identity: &DedupIdentity) -> (r: Option<usize>)
        ensures
            match r {
                Some(i) => i < self.active_dedup@.len() && self.active_dedup@[i as int].key() == identity.key(),
                None => !keys_of(self.active_dedup@).contains(identity.key()),
            },
    {
        let mut i: usize = 0;
        while i < self.active_dedup.len()
            invariant
                i <= self.active_dedup@.len(),
                forall|j: int| 0 <= j < i ==> (#[trigger] self.active_dedup@[j]).key() != identity.key(),
            decreases self.active_dedup@.len() - i,
        {
            if self.active_dedup[i].same(identity) {
                return Some(i);
            }
            i = i + 1;
        }
        None
    }

    /// Inserts a task and returns its id. An automatic task whose identity is
    /// already active is a duplicate: nothing changes and `None` comes back.
    /// Explicit commands are never deduplicated. A task with an id already in
    /// the store replaces it.
    pub fn insert(&mut self, metadata: TaskMetadata, identity: &DedupIdentity) -> (r: Option<String>)
        requires
            old(self).wf(),
        ensures
            final(self).wf(),
            identity.trigger == Trigger::Automatic && old(self).active_view().contains(identity.key()) ==> {
                &&& r is None
                &&& final(self).tasks_view() == old(self).tasks_view()
                &&& final(self).active_view() == old(self).active_view()
            },
            !(identity.trigger == Trigger::Automatic && old(self).active_view().contains(identity.key())) ==> {
                &&& r matches Some(id) && id@ == metadata.task_id@
                &&& final(self).tasks_view() == old(self).tasks_view().insert(metadata.task_id@, metadata)
                &&& final(self).active_view() == old(self).active_view().insert(identity.key())
            },
    {
        let found = self.find_active(identity);
        if identity.trigger == Trigger::Automatic && found.is_some() {
            return None;
        }
        let ghost old_active = self.active_dedup@;
        let ghost old_tasks = self.tasks@;
        if found.is_none() {
            self.active_dedup.push(identity.copy());
            proof {
                lemma_keys_push(old_active, *identity);
            }
        } else {
            assert(keys_of(old_active).insert(identity.key()) =~= keys_of(old_active));
        }
        let task_id = metadata.task_id.clone();
        match self.find_task(metadata.task_id.as_str()) {
            Some(i) => {
                proof {
                    lemma_map_of_update(old_tasks, i as int, metadata);
                }
                self.tasks.set(i, metadata);
            },
            None => {
                self.tasks.push(metadata);
                proof {
                    assert(self.tasks@.drop_last() =~= old_tasks);
                    assert(distinct_ids(self.tasks@)) by {
                        assert forall|a: int, b: int| 0 <= a < self.tasks@.len() && 0 <= b < self.tasks@.len() && a != b implies (
                        #[trigger] self.tasks@[a]).task_id@ != (#[trigger] self.tasks@[b]).task_id@ by {
                            if a < old_tasks.len() && b < old_tasks.len() {
                                assert(self.tasks@[a] == old_tasks[a] && self.tasks@[b] == old_tasks[b]);
                            } else if a < old_tasks.len() {
                                assert(self.tasks@[a] == old_tasks[a]);
                            } else {
                                assert(self.tasks@[b] == old_tasks[b]);
                            }
                        }
                    }
                }
            },
        }
        Some(task_id)
    }

    /// A copy of the task with this id, if the store has one.
    pub fn get(&self, task_id: &str) -> (r: Option<TaskMetadata>)
        requires
            self.wf(),
        ensures
            r == if self.tasks_view().dom().contains(task_id@) {
                Some(self.tasks_view()[task_id@])
            } else {
                None::<TaskMetadata>
            },
    {
        match self.find_task(task_id) {
            Some(i) => {
                proof {
                    lemma_map_of_at(self.tasks@, i as int);
                }
                Some(self.tasks[i].copy())
            },
            None => {
                proof {
                    lemma_map_of_dom(self.tasks@, task_id@);
                }
                None
            },
        }
    }

    /// Sets a task's status, stale flag and error; a task id the store does
    /// not have changes nothing.
    pub fn update(&mut self, task_id: &str, status: TaskStatus, stale: bool, error: Option<String>)
        requires
            old(self).wf(),
        ensures
            final(self).wf(),
            final(self).active_view() == old(self).active_view(),
            final(self).tasks_view() == if old(self).tasks_view().dom().contains(task_id@) {
                old(self).tasks_view().insert(
                    task_id@,
                    TaskMetadata { status, stale, error, ..old(self).tasks_view()[task_id@] },
                )
            } else {
                old(self).tasks_view()
            },
    {
        match self.find_task(task_id) {
            Some(i) => {
                let ghost old_tasks = self.tasks@;
                let current = self.tasks[i].copy();
                let updated = TaskMetadata { status, stale, error, ..current };
                proof {
                    lemma_map_of_at(old_tasks, i as int);
                    lemma_map_of_update(old_tasks, i as int, updated);
                }
                self.tasks.set(i, updated);
            },
            None => {
                proof {
                    lemma_map_of_dom(self.tasks@, task_id@);
                }
            },
        }
    }

    /// Removes an identity from the active set (when its task completes or
    /// fails).
    pub fn clear_dedup(&mut self, identity: &DedupIdentity)
        requires
            old(self).wf(),
        ensures
            final(self).wf(),
            final(self).tasks_view() == old(self).tasks_view(),
            final(self).active_view() == old(self).active_view().remove(identity.key()),
    {
        match self.find_active(identity) {
            Some(i) => {
                let ghost old_active = self.active_dedup@;
                self.active_dedup.remove(i);
                proof {
                    lemma_keys_remove(old_active, i as int);
                }
            },
            None => {
                assert(keys_of(self.active_dedup@).remove(identity.key()) =~= keys_of(self.active_dedup@));
            },
        }
    }
}

proof fn lemma_keys_push(xs: Seq<DedupIdentity>, x: DedupIdentity)
    requires
        distinct_keys(xs),
        !keys_of(xs).contains(x.key()),
    ensures
        distinct_keys(xs.push(x)),
        keys_of(xs.push(x)) == keys_of(xs).insert(x.key()),
{
    let ys = xs.push(x);
    assert forall|a: int, b: int| 0 <= a < ys.len() && 0 <= b < ys.len() && a != b implies (#[trigger] ys[a]).key()
        != (#[trigger] ys[b]).key() by {
        if a < xs.len() && b < xs.len() {
            assert(ys[a] == xs[a] && ys[b] == xs[b]);
        } else if a < xs.len() {
            assert(ys[a] == xs[a]);
            assert(keys_of(xs).contains(xs[a].key()));
        } else {
            assert(ys[b] == xs[b]);
            assert(keys_of(xs).contains(xs[b].key()));
        }
    }
    assert forall|k: DedupKey| #[trigger] keys_of(ys).contains(k) <==> keys_of(xs).insert(x.key()).contains(k) by {
        if keys_of(xs).contains(k) {
            let i = choose|i: int| 0 <= i < xs.len() && (#[trigger] xs[i]).key() == k;
            assert(ys[i] == xs[i]);
        }
        if keys_of(ys).contains(k) {
            let i = choose|i: int| 0 <= i < ys.len() && (#[trigger] ys[i]).key() == k;
            if i < xs.len() {
                assert(ys[i] == xs[i]);
            }
        }
        if k == x.key() {
            assert(ys[xs.len() as int] == x);
        }
    }
    assert(keys_of(ys) =~= keys_of(xs).insert(x.key()));
}

proof fn lemma_keys_remove(xs: Seq<DedupIdentity>, i: int)
    requires
        distinct_keys(xs),
        0 <= i < xs.len(),
    ensures
        distinct_keys(xs.remove(i)),
        keys_of(xs.remove(i)) == keys_of(xs).remove(xs[i].key()),
{
    let ys = xs.remove(i);
    assert forall|a: int| 0 <= a < ys.len() implies #[trigger] ys[a] == xs[if a < i { a } else { a + 1 }] by {}
    assert forall|a: int, b: int| 0 <= a < ys.len() && 0 <= b < ys.len() && a != b implies (#[trigger] ys[a]).key()
        != (#[trigger] ys[b]).key() by {
        assert(ys[a] == xs[if a < i { a } else { a + 1 }]);
        assert(ys[b] == xs[if b < i { b } else { b + 1 }]);
    }
    assert forall|k: DedupKey| #[trigger] keys_of(ys).contains(k) <==> keys_of(xs).remove(xs[i].key()).contains(k) by {
        if keys_of(ys).contains(k) {
            let a = choose|a: int| 0 <= a < ys.len() && (#[trigger] ys[a]).key() == k;
            assert(ys[a] == xs[if a < i { a } else { a + 1 }]);
        }
        if keys_of(xs).remove(xs[i].key()).contains(k) {
            let a = choose|a: int| 0 <= a < xs.len() && (#[trigger] xs[a]).key() == k;
            assert(a != i);
            let b = if a < i { a } else { a - 1 };
            assert(ys[b] == xs[a]);
        }
    }
    assert(keys_of(ys) =~= keys_of(xs).remove(xs[i].key()));
}

/// A task read back after it was inserted is the inserted task.
pub proof fn lemma_get_after_insert(tasks: Map<Seq<char>, TaskMetadata>, m: TaskMetadata)
    ensures
        tasks.insert(m.task_id@, m).dom().contains(m.task_id@),
        tasks.insert(m.task_id@, m)[m.task_id@] == m,
{
}

/// An identity recorded as in flight stays refused until it is cleared,
/// and clearing it makes it acceptable again; other identities are not
/// affected.
pub proof fn lemma_dedup_until_cleared(active: Set<DedupKey>, k: DedupKey, other: DedupKey)
    requires
        other != k,
    ensures
        active.insert(k).contains(k),
        !active.insert(k).remove(k).contains(k),
        active.insert(k).remove(k).contains(other) == active.contains(other),
{
}

} // verus!
