//! The task store: the canonical task records plus the secondary indexes
//! (status, kind, target index, and the three timestamp maps), all kept as
//! roaring bitmaps, together with the consistency invariant that every
//! committed operation preserves.
//!
//! Tasks are held densely by uid in a vector, so the uid of a task equals its
//! position. The association lists that stand for the string-keyed and
//! time-keyed tables hold one bitmap per key, with unique keys.

use vstd::prelude::*;
use roaring::RoaringBitmap;
use crate::bitmaps::{elems, rb_clone, rb_contains, rb_insert, rb_new, rb_or, rb_remove};
use crate::error::Error;
use crate::task::{
    details_opt_view, DetailsModel, Kind, KindModel, KindWithContent, Status, Task, TaskModel,
    KIND_COUNT, STATUS_COUNT,
};
use crate::TaskId;

verus! {

/// What the index mapper records about one index.
pub struct IndexData {
    pub primary_key: Option<String>,
    pub number_of_documents: u64,
}

// --- association lists keyed by strings -----------------------------------

/// Whether the string-keyed association list has an entry for `k`.
pub open spec fn skey_has(s: Seq<(String, RoaringBitmap)>, k: Seq<char>) -> bool {
    exists|i: int| 0 <= i < s.len() && (#[trigger] s[i].0)@ == k
}

/// The position of the entry for `k`.
pub open spec fn skey_at(s: Seq<(String, RoaringBitmap)>, k: Seq<char>) -> int {
    choose|i: int| 0 <= i < s.len() && (#[trigger] s[i].0)@ == k
}

/// The set of task ids recorded under `k`; empty when no entry exists.
pub open spec fn skey_set(s: Seq<(String, RoaringBitmap)>, k: Seq<char>) -> Set<u32> {
    if skey_has(s, k) {
        elems(s[skey_at(s, k)].1)
    } else {
        Set::empty()
    }
}

/// No two entries share a key.
pub open spec fn skeys_unique(s: Seq<(String, RoaringBitmap)>) -> bool {
    forall|i: int, j: int| 0 <= i < j < s.len() ==> (#[trigger] s[i].0)@ != (#[trigger] s[j].0)@
}

/// With unique keys, the entry holding `k` is the entry [`skey_at`] points to.
pub proof fn lemma_skey_at(s: Seq<(String, RoaringBitmap)>, i: int)
    requires
        skeys_unique(s),
        0 <= i < s.len(),
    ensures
        skey_has(s, s[i].0@),
        skey_at(s, s[i].0@) == i,
        skey_set(s, s[i].0@) == elems(s[i].1),
{
    assert(skey_has(s, s[i].0@));
    let j = skey_at(s, s[i].0@);
    assert(0 <= j < s.len() && s[j].0@ == s[i].0@);
    if i != j {
        assert(false);
    }
}

// --- association lists keyed by timestamps --------------------------------

/// Whether the time-keyed association list has an entry for `t`.
pub open spec fn tkey_has(s: Seq<(i128, RoaringBitmap)>, t: i128) -> bool {
    exists|i: int| 0 <= i < s.len() && (#[trigger] s[i].0) == t
}

/// The position of the entry for `t`.
pub open spec fn tkey_at(s: Seq<(i128, RoaringBitmap)>, t: i128) -> int {
    choose|i: int| 0 <= i < s.len() && (#[trigger] s[i].0) == t
}

/// The set of task ids recorded at time `t`; empty when no entry exists.
pub open spec fn tkey_set(s: Seq<(i128, RoaringBitmap)>, t: i128) -> Set<u32> {
    if tkey_has(s, t) {
        elems(s[tkey_at(s, t)].1)
    } else {
        Set::empty()
    }
}

/// No two entries share a key.
pub open spec fn tkeys_unique(s: Seq<(i128, RoaringBitmap)>) -> bool {
    forall|i: int, j: int| 0 <= i < j < s.len() ==> (#[trigger] s[i].0) != (#[trigger] s[j].0)
}

/// With unique keys, the entry holding `t` is the entry [`tkey_at`] points to.
pub proof fn lemma_tkey_at(s: Seq<(i128, RoaringBitmap)>, i: int)
    requires
        tkeys_unique(s),
        0 <= i < s.len(),
    ensures
        tkey_has(s, s[i].0),
        tkey_at(s, s[i].0) == i,
        tkey_set(s, s[i].0) == elems(s[i].1),
{
    assert(tkey_has(s, s[i].0));
    let j = tkey_at(s, s[i].0);
    assert(0 <= j < s.len() && s[j].0 == s[i].0);
    if i != j {
        assert(false);
    }
}

/// The four kinds the scheduler batches globally, outside any index run.
pub open spec fn control_tag(k: Kind) -> bool {
    k is TaskCancelation || k is TaskDeletion || k is DumpCreation || k is Snapshot
}

/// A payload that passes validation targets an index unless it is of a
/// control kind.
pub proof fn lemma_valid_kind_indexed(k: KindModel)
    requires
        k.is_valid(),
    ensures
        k.index_uids().len() > 0 || control_tag(k.tag()),
{
    match k {
        KindModel::IndexSwap { swaps } => {
            assert(k.index_uids().len() == 2 * swaps.len());
        },
        _ => {},
    }
}

// --- the scheduler ---------------------------------------------------------

/// The index scheduler: the task store, its secondary indexes, the index
/// mapper model and the content file store model.
pub struct IndexScheduler {
    /// Task records, densely indexed by uid.
    pub all_tasks: Vec<Task>,
    /// One bitmap per status, indexed by `Status::rank`.
    pub statuses: Vec<RoaringBitmap>,
    /// One bitmap per kind, indexed by `Kind::rank`.
    pub kinds: Vec<RoaringBitmap>,
    /// Tasks touching each index uid.
    pub index_tasks: Vec<(String, RoaringBitmap)>,
    /// Tasks by enqueue time.
    pub enqueued_at: Vec<(i128, RoaringBitmap)>,
    /// Tasks by start time.
    pub started_at: Vec<(i128, RoaringBitmap)>,
    /// Tasks by finish time.
    pub finished_at: Vec<(i128, RoaringBitmap)>,
    /// Uids whose records were removed by a task deletion; their slots are
    /// tombstones and the uid is never handed out again.
    pub deleted: RoaringBitmap,
    /// Content files currently present in the store.
    pub file_store: Vec<u128>,
    /// The index mapper model: existing indexes by name.
    pub indexes: Vec<(String, IndexData)>,
    /// Whether runs of tasks may be merged into one batch.
    pub autobatching_enabled: bool,
    /// The cooperative stop flag polled by the executor.
    pub must_stop_processing: bool,
}

impl IndexScheduler {
    /// The number of registered tasks.
    pub open spec fn n_tasks(self) -> int {
        self.all_tasks@.len() as int
    }

    /// The model of the task with the given uid.
    pub open spec fn task(self, uid: int) -> TaskModel {
        self.all_tasks@[uid]@
    }

    /// Whether a task with this uid currently exists: the uid was assigned
    /// and the record was not removed by a task deletion.
    pub open spec fn live(self, x: u32) -> bool {
        (x as int) < self.n_tasks() && !elems(self.deleted).contains(x)
    }

    /// The set of uids recorded under the given status.
    pub open spec fn status_set(self, s: Status) -> Set<u32> {
        elems(self.statuses@[s.rank_spec()])
    }

    /// The set of uids recorded under the given kind.
    pub open spec fn kind_set(self, k: Kind) -> Set<u32> {
        elems(self.kinds@[k.rank_spec()])
    }

    /// The set of uids recorded under the given index uid.
    pub open spec fn index_set(self, u: Seq<char>) -> Set<u32> {
        skey_set(self.index_tasks@, u)
    }

    /// The set of uids enqueued at time `t`.
    pub open spec fn enqueued_set(self, t: i128) -> Set<u32> {
        tkey_set(self.enqueued_at@, t)
    }

    /// The set of uids started at time `t`.
    pub open spec fn started_set(self, t: i128) -> Set<u32> {
        tkey_set(self.started_at@, t)
    }

    /// The set of uids finished at time `t`.
    pub open spec fn finished_set(self, t: i128) -> Set<u32> {
        tkey_set(self.finished_at@, t)
    }

    /// The content files present in the store.
    pub open spec fn files(self) -> Seq<u128> {
        self.file_store@
    }

    /// Whether an index with the given uid exists.
    pub open spec fn has_index(self, u: Seq<char>) -> bool {
        exists|i: int| 0 <= i < self.indexes@.len() && (#[trigger] self.indexes@[i].0)@ == u
    }

    // --- the consistency invariant -----------------------------------------

    /// Field sizes and the machine bound on the number of tasks.
    pub open spec fn wf_counts(self) -> bool {
        &&& self.statuses@.len() == STATUS_COUNT
        &&& self.kinds@.len() == KIND_COUNT
        &&& self.n_tasks() <= 0x1_0000_0000
        &&& elems(self.deleted).finite()
        &&& forall|x: u32| elems(self.deleted).contains(x) ==> (x as int) < self.n_tasks()
    }

    /// Uids are dense: the task at position `i` has uid `i`.
    pub open spec fn wf_dense(self) -> bool {
        forall|i: int| 0 <= i < self.n_tasks() ==> (#[trigger] self.task(i)).uid == i
    }

    /// The status bitmaps hold exactly the uids of the tasks in each status.
    pub open spec fn wf_status(self) -> bool {
        &&& forall|j: int|
            0 <= j < STATUS_COUNT ==> (#[trigger] elems(self.statuses@[j])).finite()
        &&& forall|j: int, x: u32|
            0 <= j < STATUS_COUNT ==> ((#[trigger] elems(self.statuses@[j]).contains(x)) <==> (
            self.live(x) && self.task(x as int).status.rank_spec() == j))
    }

    /// The kind bitmaps hold exactly the uids of the tasks of each kind.
    pub open spec fn wf_kind(self) -> bool {
        &&& forall|j: int| 0 <= j < KIND_COUNT ==> (#[trigger] elems(self.kinds@[j])).finite()
        &&& forall|j: int, x: u32|
            0 <= j < KIND_COUNT ==> ((#[trigger] elems(self.kinds@[j]).contains(x)) <==> (
            self.live(x) && self.task(x as int).kind.tag().rank_spec() == j))
    }

    /// The per-index bitmaps hold exactly the uids of the tasks that mention
    /// each index uid.
    pub open spec fn wf_index(self) -> bool {
        &&& skeys_unique(self.index_tasks@)
        &&& forall|u: Seq<char>, x: u32|
            #[trigger] skey_set(self.index_tasks@, u).contains(x) ==> (self.live(x)
                && self.task(x as int).kind.index_uids().contains(u))
        &&& forall|x: u32, j: int|
            self.live(x) && 0 <= j < self.task(x as int).kind.index_uids().len()
                ==> skey_set(
                self.index_tasks@,
                #[trigger] self.task(x as int).kind.index_uids()[j],
            ).contains(x)
    }

    /// A time-keyed map holds exactly the uids of the tasks whose timestamp,
    /// given by `f`, is the entry's key.
    pub open spec fn wf_time_map(
        self,
        s: Seq<(i128, RoaringBitmap)>,
        f: spec_fn(TaskModel) -> Option<i128>,
    ) -> bool {
        &&& tkeys_unique(s)
        &&& forall|t: i128, x: u32|
            #[trigger] tkey_set(s, t).contains(x) ==> (self.live(x) && f(self.task(x as int))
                == Some(t))
        &&& forall|x: u32|
            self.live(x) && (#[trigger] f(self.task(x as int))) is Some ==> tkey_set(
                s,
                f(self.task(x as int))->0,
            ).contains(x)
    }

    /// All three timestamp maps are consistent with the task records.
    pub open spec fn wf_time(self) -> bool {
        &&& self.wf_time_map(self.enqueued_at@, |t: TaskModel| Some(t.enqueued_at))
        &&& self.wf_time_map(self.started_at@, |t: TaskModel| t.started_at)
        &&& self.wf_time_map(self.finished_at@, |t: TaskModel| t.finished_at)
    }

    /// A content file is present exactly while some non-terminal task refers
    /// to it, and no two tasks share a content file.
    pub open spec fn wf_files(self) -> bool {
        &&& forall|i: int, j: int|
            0 <= i < j < self.files().len() ==> self.files()[i] != self.files()[j]
        &&& forall|f: u128|
            self.files().contains(f) <==> exists|x: u32|
                self.live(x) && (#[trigger] self.task(x as int).kind.content_file_id())
                    == Some(f) && !self.task(x as int).status.is_terminal()
        &&& forall|x: u32, y: u32|
            x < self.n_tasks() && y < self.n_tasks() && x != y && (#[trigger] self.task(
                x as int,
            ).kind.content_file_id()) is Some ==> self.task(x as int).kind.content_file_id()
                != #[trigger] self.task(y as int).kind.content_file_id()
    }

    /// Every existing task either targets at least one index or is one of
    /// the four control kinds, which the scheduler batches globally.
    pub open spec fn wf_kinds_indexed(self) -> bool {
        forall|x: u32|
            #[trigger] self.live(x) ==> (self.task(x as int).kind.index_uids().len() > 0
                || control_tag(self.task(x as int).kind.tag()))
    }

    /// Index names in the mapper are unique.
    pub open spec fn wf_indexes(self) -> bool {
        forall|i: int, j: int|
            0 <= i < j < self.indexes@.len() ==> (#[trigger] self.indexes@[i].0)@ != (
            #[trigger] self.indexes@[j].0)@
    }

    /// The whole consistency invariant: holds after construction and is
    /// preserved by every operation.
    pub open spec fn wf(self) -> bool {
        &&& self.wf_counts()
        &&& self.wf_dense()
        &&& self.wf_status()
        &&& self.wf_kind()
        &&& self.wf_index()
        &&& self.wf_time()
        &&& self.wf_files()
        &&& self.wf_kinds_indexed()
        &&& self.wf_indexes()
    }

    // --- construction -------------------------------------------------------

    /// An empty scheduler.
    pub fn new(autobatching_enabled: bool) -> (r: IndexScheduler)
        ensures
            r.wf(),
            r.n_tasks() == 0,
            elems(r.deleted) == Set::<u32>::empty(),
            r.files() == Seq::<u128>::empty(),
            r.indexes@.len() == 0,
            r.autobatching_enabled == autobatching_enabled,
            !r.must_stop_processing,
    {
        let mut statuses: Vec<RoaringBitmap> = Vec::new();
        for i in 0..STATUS_COUNT
            invariant
                statuses@.len() == i,
                forall|j: int|
                    0 <= j < i ==> (#[trigger] elems(statuses@[j])) =~= Set::<u32>::empty()
                        && elems(statuses@[j]).finite(),
        {
            statuses.push(rb_new());
        }
        let mut kinds: Vec<RoaringBitmap> = Vec::new();
        for i in 0..KIND_COUNT
            invariant
                kinds@.len() == i,
                forall|j: int|
                    0 <= j < i ==> (#[trigger] elems(kinds@[j])) =~= Set::<u32>::empty()
                        && elems(kinds@[j]).finite(),
        {
            kinds.push(rb_new());
        }
        IndexScheduler {
            all_tasks: Vec::new(),
            statuses,
            kinds,
            index_tasks: Vec::new(),
            enqueued_at: Vec::new(),
            started_at: Vec::new(),
            finished_at: Vec::new(),
            deleted: rb_new(),
            file_store: Vec::new(),
            indexes: Vec::new(),
            autobatching_enabled,
            must_stop_processing: false,
        }
    }

    // --- point reads --------------------------------------------------------

    /// One more than the uid of the last registered task, if any.
    pub fn last_task_id(&self) -> (r: Option<TaskId>)
        requires
            self.wf(),
        ensures
            self.n_tasks() == 0 ==> r is None,
            self.n_tasks() > 0 ==> r == Some(self.n_tasks() as TaskId),
    {
        let n = self.all_tasks.len();
        if n == 0 {
            None
        } else {
            Some(n as TaskId)
        }
    }

    /// The uid the next registered task will receive.
    pub fn next_task_id(&self) -> (r: TaskId)
        requires
            self.wf(),
        ensures
            r == self.n_tasks() as TaskId,
    {
        match self.last_task_id() {
            Some(n) => n,
            None => 0,
        }
    }

    /// A copy of the task with the given uid, if it exists.
    pub fn get_task(&self, uid: TaskId) -> (r: Option<Task>)
        requires
            self.wf(),
        ensures
            self.live(uid) ==> (r matches Some(t) && t@ == self.task(uid as int)),
            !self.live(uid) ==> r is None,
    {
        if (uid as usize) < self.all_tasks.len() && !rb_contains(&self.deleted, uid) {
            Some(self.all_tasks[uid as usize].duplicate())
        } else {
            None
        }
    }

    /// Copies of the tasks with the given uids; any missing uid means the
    /// queue is corrupted.
    pub fn get_existing_tasks(&self, ids: &Vec<TaskId>) -> (r: Result<Vec<Task>, Error>)
        requires
            self.wf(),
        ensures
            (forall|i: int| 0 <= i < ids@.len() ==> self.live(#[trigger] ids@[i])) ==> (
            r matches Ok(ts) && ts@.len() == ids@.len() && (forall|i: int|
                0 <= i < ids@.len() ==> (#[trigger] ts@[i])@ == self.task(ids@[i] as int))),
            (exists|i: int| 0 <= i < ids@.len() && !self.live(#[trigger] ids@[i])) ==> (
            r matches Err(e) && e is CorruptedTaskQueue),
    {
        let mut out: Vec<Task> = Vec::new();
        for i in 0..ids.len()
            invariant
                self.wf(),
                out@.len() == i,
                forall|j: int| 0 <= j < i ==> self.live(#[trigger] ids@[j]),
                forall|j: int| 0 <= j < i ==> (#[trigger] out@[j])@ == self.task(ids@[j] as int),
        {
            match self.get_task(ids[i]) {
                Some(t) => out.push(t),
                None => {
                    return Err(Error::CorruptedTaskQueue);
                },
            }
        }
        Ok(out)
    }

    /// A copy of the bitmap of tasks in the given status.
    pub fn get_status(&self, status: Status) -> (r: RoaringBitmap)
        requires
            self.wf(),
        ensures
            elems(r) == self.status_set(status),
            elems(r).finite(),
    {
        rb_clone(&self.statuses[status.rank()])
    }

    /// A copy of the bitmap of tasks of the given kind.
    pub fn get_kind(&self, kind: Kind) -> (r: RoaringBitmap)
        requires
            self.wf(),
        ensures
            elems(r) == self.kind_set(kind),
            elems(r).finite(),
    {
        rb_clone(&self.kinds[kind.rank()])
    }

    /// A copy of the bitmap of tasks that mention the given index uid; empty
    /// when the index uid was never mentioned.
    pub fn index_tasks(&self, index: &String) -> (r: RoaringBitmap)
        requires
            self.wf(),
        ensures
            elems(r) == self.index_set(index@),
            elems(r).finite(),
    {
        let n: usize = self.index_tasks.len();
        for i in 0..n
            invariant
                n == self.index_tasks@.len(),
                self.wf(),
                forall|j: int| 0 <= j < i ==> (#[trigger] self.index_tasks@[j].0)@ != index@,
        {
            if self.index_tasks[i].0 == *index {
                proof {
                    lemma_skey_at(self.index_tasks@, i as int);
                }
                return rb_clone(&self.index_tasks[i].1);
            }
        }
        proof {
            if skey_has(self.index_tasks@, index@) {
                let i = skey_at(self.index_tasks@, index@);
                assert(0 <= i < self.index_tasks@.len() && self.index_tasks@[i].0@ == index@);
                assert(false);
            }
            assert(skey_set(self.index_tasks@, index@) =~= Set::<u32>::empty());
        }
        let r = rb_new();
        proof {
            assert(elems(r) =~= skey_set(self.index_tasks@, index@));
        }
        r
    }

    /// The set of all task uids, as the union of the status bitmaps.
    pub fn all_task_ids(&self) -> (r: RoaringBitmap)
        requires
            self.wf(),
        ensures
            elems(r) == Set::new(|x: u32| self.live(x)),
            elems(r).finite(),
    {
        let mut r = rb_new();
        for i in 0..STATUS_COUNT
            invariant
                self.wf(),
                elems(r).finite(),
                forall|x: u32|
                    (#[trigger] elems(r).contains(x)) <==> (self.live(x) && 0 <= self.task(
                        x as int,
                    ).status.rank_spec() < i),
        {
            let ghost prev: Set<u32> = elems(r);
            proof {
                assert(forall|x: u32|
                    (#[trigger] prev.contains(x)) <==> (self.live(x) && 0 <= self.task(
                        x as int,
                    ).status.rank_spec() < i));
            }
            let next = rb_or(&r, &self.statuses[i]);
            r = next;
            proof {
                assert forall|x: u32|
                    elems(r).contains(x) <==> (self.live(x) && 0 <= self.task(
                        x as int,
                    ).status.rank_spec() < i + 1) by {
                    assert(elems(r) == prev.union(elems(self.statuses@[i as int])));
                    assert(prev.contains(x) <==> (self.live(x) && 0 <= self.task(
                        x as int,
                    ).status.rank_spec() < i));
                    assert(elems(self.statuses@[i as int]).contains(x) <==> (self.live(x)
                        && self.task(x as int).status.rank_spec() == i));
                }
            }
        }
        proof {
            assert forall|x: u32| elems(r).contains(x) <==> self.live(x) by {
                if self.live(x) {
                    assert(0 <= self.task(x as int).status.rank_spec() < STATUS_COUNT);
                }
            }
            assert(elems(r) =~= Set::new(|x: u32| self.live(x)));
        }
        r
    }
}

// --- field-update helpers ---------------------------------------------------

/// Everything except the status bitmaps agrees between the two states.
pub open spec fn eq_except_statuses(a: IndexScheduler, b: IndexScheduler) -> bool {
    &&& a.all_tasks == b.all_tasks
    &&& a.kinds == b.kinds
    &&& a.index_tasks == b.index_tasks
    &&& a.enqueued_at == b.enqueued_at
    &&& a.started_at == b.started_at
    &&& a.finished_at == b.finished_at
    &&& a.deleted == b.deleted
    &&& a.file_store == b.file_store
    &&& a.indexes == b.indexes
    &&& a.autobatching_enabled == b.autobatching_enabled
    &&& a.must_stop_processing == b.must_stop_processing
}

/// Everything except the kind bitmaps agrees between the two states.
pub open spec fn eq_except_kinds(a: IndexScheduler, b: IndexScheduler) -> bool {
    &&& a.all_tasks == b.all_tasks
    &&& a.statuses == b.statuses
    &&& a.index_tasks == b.index_tasks
    &&& a.enqueued_at == b.enqueued_at
    &&& a.started_at == b.started_at
    &&& a.finished_at == b.finished_at
    &&& a.deleted == b.deleted
    &&& a.file_store == b.file_store
    &&& a.indexes == b.indexes
    &&& a.autobatching_enabled == b.autobatching_enabled
    &&& a.must_stop_processing == b.must_stop_processing
}

impl IndexScheduler {
    /// Adds a uid to one status bitmap.
    fn status_add(&mut self, s: Status, x: u32)
        requires
            old(self).statuses@.len() == STATUS_COUNT,
            forall|j: int|
                0 <= j < STATUS_COUNT ==> (#[trigger] elems(old(self).statuses@[j])).finite(),
        ensures
            eq_except_statuses(*final(self), *old(self)),
            final(self).statuses@.len() == STATUS_COUNT,
            forall|j: int|
                0 <= j < STATUS_COUNT && j != s.rank_spec() ==> final(self).statuses@[j] == old(
                    self,
                ).statuses@[j],
            elems(final(self).statuses@[s.rank_spec()]) == elems(
                old(self).statuses@[s.rank_spec()],
            ).insert(x),
            forall|j: int|
                0 <= j < STATUS_COUNT ==> (#[trigger] elems(final(self).statuses@[j])).finite(),
    {
        let idx = s.rank();
        let mut bm = rb_clone(&self.statuses[idx]);
        rb_insert(&mut bm, x);
        self.statuses[idx] = bm;
    }

    /// Removes a uid from one status bitmap.
    fn status_remove(&mut self, s: Status, x: u32)
        requires
            old(self).statuses@.len() == STATUS_COUNT,
            forall|j: int|
                0 <= j < STATUS_COUNT ==> (#[trigger] elems(old(self).statuses@[j])).finite(),
        ensures
            eq_except_statuses(*final(self), *old(self)),
            final(self).statuses@.len() == STATUS_COUNT,
            forall|j: int|
                0 <= j < STATUS_COUNT && j != s.rank_spec() ==> final(self).statuses@[j] == old(
                    self,
                ).statuses@[j],
            elems(final(self).statuses@[s.rank_spec()]) == elems(
                old(self).statuses@[s.rank_spec()],
            ).remove(x),
            forall|j: int|
                0 <= j < STATUS_COUNT ==> (#[trigger] elems(final(self).statuses@[j])).finite(),
    {
        let idx = s.rank();
        let mut bm = rb_clone(&self.statuses[idx]);
        rb_remove(&mut bm, x);
        self.statuses[idx] = bm;
    }

    /// Adds a uid to one kind bitmap.
    fn kind_add(&mut self, k: Kind, x: u32)
        requires
            old(self).kinds@.len() == KIND_COUNT,
            forall|j: int|
                0 <= j < KIND_COUNT ==> (#[trigger] elems(old(self).kinds@[j])).finite(),
        ensures
            eq_except_kinds(*final(self), *old(self)),
            final(self).kinds@.len() == KIND_COUNT,
            forall|j: int|
                0 <= j < KIND_COUNT && j != k.rank_spec() ==> final(self).kinds@[j] == old(
                    self,
                ).kinds@[j],
            elems(final(self).kinds@[k.rank_spec()]) == elems(
                old(self).kinds@[k.rank_spec()],
            ).insert(x),
            forall|j: int|
                0 <= j < KIND_COUNT ==> (#[trigger] elems(final(self).kinds@[j])).finite(),
    {
        let idx = k.rank();
        let mut bm = rb_clone(&self.kinds[idx]);
        rb_insert(&mut bm, x);
        self.kinds[idx] = bm;
    }

    /// Removes a uid from one kind bitmap.
    fn kind_remove(&mut self, k: Kind, x: u32)
        requires
            old(self).kinds@.len() == KIND_COUNT,
            forall|j: int|
                0 <= j < KIND_COUNT ==> (#[trigger] elems(old(self).kinds@[j])).finite(),
        ensures
            eq_except_kinds(*final(self), *old(self)),
            final(self).kinds@.len() == KIND_COUNT,
            forall|j: int|
                0 <= j < KIND_COUNT && j != k.rank_spec() ==> final(self).kinds@[j] == old(
                    self,
                ).kinds@[j],
            elems(final(self).kinds@[k.rank_spec()]) == elems(
                old(self).kinds@[k.rank_spec()],
            ).remove(x),
            forall|j: int|
                0 <= j < KIND_COUNT ==> (#[trigger] elems(final(self).kinds@[j])).finite(),
    {
        let idx = k.rank();
        let mut bm = rb_clone(&self.kinds[idx]);
        rb_remove(&mut bm, x);
        self.kinds[idx] = bm;
    }
}

/// Adds a uid under a string key, creating the entry when missing.
fn string_map_add(v: &mut Vec<(String, RoaringBitmap)>, key: &String, x: u32)
    requires
        skeys_unique(old(v)@),
    ensures
        skeys_unique(final(v)@),
        forall|k: Seq<char>|
            #[trigger] skey_has(final(v)@, k) <==> (skey_has(old(v)@, k) || k == key@),
        skey_set(final(v)@, key@) == skey_set(old(v)@, key@).insert(x),
        forall|k: Seq<char>|
            k != key@ ==> #[trigger] skey_set(final(v)@, k) == skey_set(old(v)@, k),
{
    let n: usize = v.len();
    for i in 0..n
        invariant
            v@ == old(v)@,
            n == v@.len(),
            skeys_unique(v@),
            forall|j: int| 0 <= j < i ==> (#[trigger] v@[j].0)@ != key@,
    {
        if v[i].0 == *key {
            proof {
                lemma_skey_at(v@, i as int);
            }
            let mut bm = rb_clone(&v[i].1);
            rb_insert(&mut bm, x);
            let entry = (key.clone(), bm);
            let ghost prev = v@;
            v[i] = entry;
            proof {
                assert forall|a: int, b: int| 0 <= a < b < v@.len() implies (#[trigger] v@[a].0)@
                    != (#[trigger] v@[b].0)@ by {
                    assert(prev[a].0@ == v@[a].0@ && prev[b].0@ == v@[b].0@);
                }
                assert forall|k: Seq<char>| #[trigger] skey_has(v@, k) == (skey_has(prev, k) || k
                    == key@) by {
                    if skey_has(v@, k) {
                        let a = skey_at(v@, k);
                        if a == i {
                            assert(k == key@);
                        } else {
                            assert(prev[a].0@ == k);
                        }
                    }
                    if skey_has(prev, k) {
                        let a = skey_at(prev, k);
                        if a == i {
                            assert(v@[a].0@ == key@ && prev[a].0@ == key@);
                            assert(skey_has(v@, k));
                        } else {
                            assert(v@[a].0@ == k);
                        }
                    }
                    if k == key@ {
                        assert(v@[i as int].0@ == key@);
                        assert(skey_has(v@, k));
                    }
                }
                lemma_skey_at(v@, i as int);
                assert(skey_set(v@, key@) == skey_set(prev, key@).insert(x));
                assert forall|k: Seq<char>| k != key@ implies #[trigger] skey_set(v@, k)
                    == skey_set(prev, k) by {
                    if skey_has(v@, k) {
                        let a = skey_at(v@, k);
                        assert(a != i);
                        lemma_skey_at(prev, a);
                    }
                }
            }
            return;
        }
    }
    let mut bm = rb_new();
    rb_insert(&mut bm, x);
    let entry = (key.clone(), bm);
    let ghost prev = v@;
    let ghost n_old = v@.len() as int;
    v.push(entry);
    proof {
        assert forall|a: int, b: int| 0 <= a < b < v@.len() implies (#[trigger] v@[a].0)@ != (
        #[trigger] v@[b].0)@ by {
            if b < n_old {
                assert(prev[a].0@ != prev[b].0@);
            } else {
                assert(v@[b].0@ == key@);
                assert(prev[a].0@ != key@);
            }
        }
        assert forall|k: Seq<char>| #[trigger] skey_has(v@, k) == (skey_has(prev, k) || k == key@)
            by {
            if skey_has(v@, k) {
                let a = skey_at(v@, k);
                if a == n_old {
                    assert(k == key@);
                } else {
                    assert(prev[a].0@ == k);
                }
            }
            if skey_has(prev, k) {
                let a = skey_at(prev, k);
                assert(v@[a].0@ == k);
            }
            if k == key@ {
                assert(v@[n_old].0@ == key@);
            }
        }
        lemma_skey_at(v@, n_old);
        assert(!skey_has(prev, key@));
        assert(skey_set(v@, key@) =~= skey_set(prev, key@).insert(x));
        assert forall|k: Seq<char>| k != key@ implies #[trigger] skey_set(v@, k) == skey_set(
            prev,
            k,
        ) by {
            if skey_has(v@, k) {
                let a = skey_at(v@, k);
                assert(a != n_old);
                lemma_skey_at(prev, a);
            }
        }
    }
}

/// Adds a uid under a time key, creating the entry when missing.
fn time_map_add(v: &mut Vec<(i128, RoaringBitmap)>, t: i128, x: u32)
    requires
        tkeys_unique(old(v)@),
    ensures
        tkeys_unique(final(v)@),
        forall|u: i128| #[trigger] tkey_has(final(v)@, u) <==> (tkey_has(old(v)@, u) || u == t),
        tkey_set(final(v)@, t) == tkey_set(old(v)@, t).insert(x),
        forall|u: i128| u != t ==> #[trigger] tkey_set(final(v)@, u) == tkey_set(old(v)@, u),
{
    let n: usize = v.len();
    for i in 0..n
        invariant
            v@ == old(v)@,
            n == v@.len(),
            tkeys_unique(v@),
            forall|j: int| 0 <= j < i ==> (#[trigger] v@[j].0) != t,
    {
        if v[i].0 == t {
            proof {
                lemma_tkey_at(v@, i as int);
            }
            let mut bm = rb_clone(&v[i].1);
            rb_insert(&mut bm, x);
            let entry = (t, bm);
            let ghost prev = v@;
            v[i] = entry;
            proof {
                assert forall|a: int, b: int| 0 <= a < b < v@.len() implies (#[trigger] v@[a].0)
                    != (#[trigger] v@[b].0) by {
                    assert(prev[a].0 == v@[a].0 && prev[b].0 == v@[b].0);
                }
                assert forall|u: i128| #[trigger] tkey_has(v@, u) == (tkey_has(prev, u) || u == t)
                    by {
                    if tkey_has(v@, u) {
                        let a = tkey_at(v@, u);
                        if a != i {
                            assert(prev[a].0 == u);
                        }
                    }
                    if tkey_has(prev, u) {
                        let a = tkey_at(prev, u);
                        if a == i {
                            assert(v@[a].0 == t);
                            assert(tkey_has(v@, u));
                        } else {
                            assert(v@[a].0 == u);
                        }
                    }
                    if u == t {
                        assert(v@[i as int].0 == t);
                        assert(tkey_has(v@, u));
                    }
                }
                lemma_tkey_at(v@, i as int);
                assert(tkey_set(v@, t) == tkey_set(prev, t).insert(x));
                assert forall|u: i128| u != t implies #[trigger] tkey_set(v@, u) == tkey_set(
                    prev,
                    u,
                ) by {
                    if tkey_has(v@, u) {
                        let a = tkey_at(v@, u);
                        assert(a != i);
                        lemma_tkey_at(prev, a);
                    }
                }
            }
            return;
        }
    }
    let mut bm = rb_new();
    rb_insert(&mut bm, x);
    let entry = (t, bm);
    let ghost prev = v@;
    let ghost n_old = v@.len() as int;
    v.push(entry);
    proof {
        assert forall|a: int, b: int| 0 <= a < b < v@.len() implies (#[trigger] v@[a].0) != (
        #[trigger] v@[b].0) by {
            if b < n_old {
                assert(prev[a].0 != prev[b].0);
            } else {
                assert(v@[b].0 == t);
                assert(prev[a].0 != t);
            }
        }
        assert forall|u: i128| #[trigger] tkey_has(v@, u) == (tkey_has(prev, u) || u == t) by {
            if tkey_has(v@, u) {
                let a = tkey_at(v@, u);
                if a != n_old {
                    assert(prev[a].0 == u);
                }
            }
            if tkey_has(prev, u) {
                let a = tkey_at(prev, u);
                assert(v@[a].0 == u);
            }
            if u == t {
                assert(v@[n_old].0 == t);
            }
        }
        lemma_tkey_at(v@, n_old);
        assert(!tkey_has(prev, t));
        assert(tkey_set(v@, t) =~= tkey_set(prev, t).insert(x));
        assert forall|u: i128| u != t implies #[trigger] tkey_set(v@, u) == tkey_set(prev, u) by {
            if tkey_has(v@, u) {
                let a = tkey_at(v@, u);
                assert(a != n_old);
                lemma_tkey_at(prev, a);
            }
        }
    }
}

/// Membership in a prefix one longer: the old prefix or the new element.
proof fn lemma_take_contains<T>(s: Seq<T>, i: int, x: T)
    requires
        0 <= i < s.len(),
    ensures
        s.take(i + 1).contains(x) <==> (s.take(i).contains(x) || s[i] == x),
{
    let a = s.take(i + 1);
    let b = s.take(i);
    if a.contains(x) {
        let j = choose|j: int| 0 <= j < a.len() && (#[trigger] a[j]) == x;
        if j < i {
            assert(b[j] == x);
        } else {
            assert(s[i] == x);
        }
    }
    if b.contains(x) {
        let j = choose|j: int| 0 <= j < b.len() && (#[trigger] b[j]) == x;
        assert(a[j] == x);
    }
    if s[i] == x {
        assert(s.take(i + 1)[i] == x);
    }
}

impl IndexScheduler {
    /// No registered task refers to the given content file.
    pub open spec fn content_file_fresh(self, f: u128) -> bool {
        forall|x: u32|
            (x as int) < self.n_tasks() ==> (#[trigger] self.task(x as int).kind.content_file_id())
                != Some(f)
    }

    /// Whether a submitted kind passes registration: its payload is valid and
    /// its content file, if any, is not already in use.
    pub open spec fn register_accepts(self, kind: KindModel) -> bool {
        &&& kind.is_valid()
        &&& match kind.content_file_id() {
            Some(f) => self.content_file_fresh(f),
            None => true,
        }
    }

    /// The record a freshly registered task gets.
    pub open spec fn fresh_task(self, kind: KindModel, now: i128) -> TaskModel {
        TaskModel {
            uid: self.n_tasks() as TaskId,
            enqueued_at: now,
            started_at: None,
            finished_at: None,
            error: None,
            canceled_by: None,
            details: kind.initial_details(),
            status: Status::Enqueued,
            kind: kind,
        }
    }

    /// Whether some registered task refers to the given content file.
    fn content_file_in_use(&self, f: u128) -> (r: bool)
        requires
            self.wf(),
        ensures
            r == !self.content_file_fresh(f),
    {
        let n: usize = self.all_tasks.len();
        for i in 0..n
            invariant
                self.wf(),
                n == self.all_tasks@.len(),
                forall|x: u32|
                    (x as int) < i ==> (#[trigger] self.task(x as int).kind.content_file_id())
                        != Some(f),
        {
            match self.all_tasks[i].kind.content_uuid() {
                Some(g) => {
                    if g == f {
                        proof {
                            assert(self.task(i as int).kind.content_file_id() == Some(f));
                            assert(((i as u32) as int) < self.n_tasks());
                        }
                        return true;
                    }
                },
                None => {},
            }
        }
        false
    }

    /// Registers a submitted task: validates the payload, assigns the next
    /// uid, seeds the details, writes the record together with every
    /// secondary-index entry, and records the content file, all as one
    /// in-memory transaction. Rejected submissions leave the store untouched.
    #[verifier::rlimit(60)]
    pub fn register(&mut self, kind: KindWithContent, now: i128) -> (r: Result<Task, Error>)
        requires
            old(self).wf(),
            old(self).n_tasks() < 0x1_0000_0000,
        ensures
            final(self).wf(),
            !old(self).register_accepts(kind@) ==> (r matches Err(e) && e is InvalidRequest
                && *final(self) == *old(self)),
            old(self).register_accepts(kind@) ==> ({
                &&& r matches Ok(t) && t@ == old(self).fresh_task(kind@, now)
                &&& final(self).n_tasks() == old(self).n_tasks() + 1
                &&& final(self).task(old(self).n_tasks()) == old(self).fresh_task(kind@, now)
                &&& forall|i: int|
                    0 <= i < old(self).n_tasks() ==> final(self).all_tasks@[i] == old(
                        self,
                    ).all_tasks@[i]
                &&& final(self).deleted == old(self).deleted
                &&& match kind@.content_file_id() {
                    Some(f) => final(self).files() == old(self).files().push(f),
                    None => final(self).files() == old(self).files(),
                }
                &&& final(self).indexes == old(self).indexes
                &&& final(self).autobatching_enabled == old(self).autobatching_enabled
                &&& final(self).must_stop_processing == old(self).must_stop_processing
            }),
    {
        if !kind.validate() {
            return Err(Error::InvalidRequest);
        }
        match kind.content_uuid() {
            Some(f) => {
                if self.content_file_in_use(f) {
                    return Err(Error::InvalidRequest);
                }
            },
            None => {},
        }
        let uid: TaskId = self.all_tasks.len() as TaskId;
        let details = kind.default_details();
        let task = Task {
            uid,
            enqueued_at: now,
            started_at: None,
            finished_at: None,
            error: None,
            canceled_by: None,
            details,
            status: Status::Enqueued,
            kind,
        };
        let copy = task.duplicate();
        let tag = task.kind.as_kind();
        let uids = task.kind.indexes();
        let file = task.kind.content_uuid();
        let ghost prior = *self;
        let ghost nt = self.n_tasks();
        let ghost fresh = prior.fresh_task(task.kind@, now);
        self.all_tasks.push(task);
        self.status_add(Status::Enqueued, uid);
        self.kind_add(tag, uid);
        let ghost imap0 = self.index_tasks@;
        let ghost us: Seq<Seq<char>> = uids.deep_view();
        let ghost mid = *self;
        let m: usize = uids.len();
        for i in 0..m
            invariant
                m == uids@.len(),
                us == uids.deep_view(),
                self.all_tasks == mid.all_tasks,
                self.statuses == mid.statuses,
                self.kinds == mid.kinds,
                self.enqueued_at == mid.enqueued_at,
                self.started_at == mid.started_at,
                self.finished_at == mid.finished_at,
                self.deleted == mid.deleted,
                self.file_store == mid.file_store,
                self.indexes == mid.indexes,
                self.autobatching_enabled == mid.autobatching_enabled,
                self.must_stop_processing == mid.must_stop_processing,
                skeys_unique(self.index_tasks@),
                forall|k: Seq<char>|
                    #[trigger] skey_set(self.index_tasks@, k) == if us.take(i as int).contains(k) {
                        skey_set(imap0, k).insert(uid)
                    } else {
                        skey_set(imap0, k)
                    },
        {
            let ghost prev_map = self.index_tasks@;
            string_map_add(&mut self.index_tasks, &uids[i], uid);
            proof {
                assert(uids@[i as int]@ == us[i as int]);
                assert forall|k: Seq<char>| #[trigger] skey_set(self.index_tasks@, k) == (if us.take(
                    i + 1,
                ).contains(k) {
                    skey_set(imap0, k).insert(uid)
                } else {
                    skey_set(imap0, k)
                }) by {
                    lemma_take_contains(us, i as int, k);
                    if k == us[i as int] {
                        if us.take(i as int).contains(k) {
                            assert(skey_set(prev_map, k) == skey_set(imap0, k).insert(uid));
                            assert(skey_set(imap0, k).insert(uid).insert(uid) =~= skey_set(
                                imap0,
                                k,
                            ).insert(uid));
                        }
                    }
                }
            }
        }
        proof {
            assert(us.take(m as int) =~= us);
        }
        time_map_add(&mut self.enqueued_at, now, uid);
        match file {
            Some(f) => {
                self.file_store.push(f);
            },
            None => {},
        }
        proof {
            let post = *self;
            assert(post.n_tasks() == nt + 1);
            assert(post.deleted == prior.deleted);
            assert forall|x: u32| x < nt implies (#[trigger] post.live(x)) == prior.live(x) by {}
            assert(post.live(uid));
            assert(post.task(nt) == fresh);
            assert(forall|i: int| 0 <= i < nt ==> post.all_tasks@[i] == prior.all_tasks@[i]);
            assert(forall|i: int|
                0 <= i < nt ==> (#[trigger] post.task(i)) == prior.task(i));
            // statuses
            assert forall|j: int, x: u32| 0 <= j < STATUS_COUNT implies ((#[trigger] elems(
                post.statuses@[j],
            ).contains(x)) <==> (post.live(x) && post.task(x as int).status.rank_spec()
                == j)) by {
                assert(elems(prior.statuses@[j]).contains(x) <==> (prior.live(x) && prior.task(
                    x as int,
                ).status.rank_spec() == j));
                if x < nt {
                    assert(post.live(x) == prior.live(x));
                }
                if j == Status::Enqueued.rank_spec() {
                    assert(elems(post.statuses@[j]) == elems(prior.statuses@[j]).insert(uid));
                } else {
                    assert(post.statuses@[j] == prior.statuses@[j]);
                }
            }
            // kinds
            assert forall|j: int, x: u32| 0 <= j < KIND_COUNT implies ((#[trigger] elems(
                post.kinds@[j],
            ).contains(x)) <==> (post.live(x) && post.task(x as int).kind.tag().rank_spec()
                == j)) by {
                assert(elems(prior.kinds@[j]).contains(x) <==> (prior.live(x) && prior.task(
                    x as int,
                ).kind.tag().rank_spec() == j));
                if x < nt {
                    assert(post.live(x) == prior.live(x));
                }
                if j == fresh.kind.tag().rank_spec() {
                    assert(elems(post.kinds@[j]) == elems(prior.kinds@[j]).insert(uid));
                } else {
                    assert(post.kinds@[j] == prior.kinds@[j]);
                }
            }
            // index map
            assert forall|u: Seq<char>, x: u32| #[trigger] skey_set(
                post.index_tasks@,
                u,
            ).contains(x) implies (post.live(x) && post.task(
                x as int,
            ).kind.index_uids().contains(u)) by {
                if us.contains(u) {
                    assert(skey_set(post.index_tasks@, u) == skey_set(imap0, u).insert(uid));
                    if x != uid {
                        assert(skey_set(prior.index_tasks@, u).contains(x));
                        assert(prior.live(x));
                    } else {
                        assert(post.task(nt).kind.index_uids() == us);
                    }
                } else {
                    assert(skey_set(post.index_tasks@, u) == skey_set(imap0, u));
                    assert(skey_set(prior.index_tasks@, u).contains(x));
                    assert(prior.live(x) && prior.task(x as int).kind.index_uids().contains(u));
                }
            }
            assert forall|x: u32, j: int| post.live(x) && 0 <= j < post.task(
                x as int,
            ).kind.index_uids().len() implies skey_set(
                post.index_tasks@,
                #[trigger] post.task(x as int).kind.index_uids()[j],
            ).contains(x) by {
                let u = post.task(x as int).kind.index_uids()[j];
                if x < nt {
                    assert(prior.task(x as int).kind.index_uids()[j] == u);
                    assert(skey_set(prior.index_tasks@, u).contains(x));
                    if us.contains(u) {
                        assert(skey_set(post.index_tasks@, u) == skey_set(imap0, u).insert(uid));
                    } else {
                        assert(skey_set(post.index_tasks@, u) == skey_set(imap0, u));
                    }
                } else {
                    assert(post.task(x as int).kind.index_uids() == us);
                    assert(us.contains(u));
                    assert(skey_set(post.index_tasks@, u) == skey_set(imap0, u).insert(uid));
                }
            }
            // time maps
            let fe = |t: TaskModel| Some(t.enqueued_at);
            assert forall|t: i128, x: u32| #[trigger] tkey_set(
                post.enqueued_at@,
                t,
            ).contains(x) implies (post.live(x) && fe(post.task(x as int)) == Some(t)) by {
                if t == now && x == uid {
                    assert(fe(post.task(nt)) == Some(now));
                } else {
                    assert(tkey_set(prior.enqueued_at@, t).contains(x));
                    assert(prior.live(x));
                }
            }
            assert forall|x: u32| post.live(x) && (#[trigger] fe(
                post.task(x as int),
            )) is Some implies tkey_set(post.enqueued_at@, fe(post.task(x as int))->0).contains(
                x,
            ) by {
                if x < nt {
                    assert(tkey_set(prior.enqueued_at@, prior.task(x as int).enqueued_at).contains(
                        x,
                    ));
                    if prior.task(x as int).enqueued_at == now {
                        assert(tkey_set(post.enqueued_at@, now) == tkey_set(
                            prior.enqueued_at@,
                            now,
                        ).insert(uid));
                    } else {
                        assert(tkey_set(post.enqueued_at@, prior.task(x as int).enqueued_at)
                            == tkey_set(prior.enqueued_at@, prior.task(x as int).enqueued_at));
                    }
                } else {
                    assert(tkey_set(post.enqueued_at@, now) == tkey_set(
                        prior.enqueued_at@,
                        now,
                    ).insert(uid));
                }
            }
            let fs = |t: TaskModel| t.started_at;
            assert forall|t: i128, x: u32| #[trigger] tkey_set(
                post.started_at@,
                t,
            ).contains(x) implies (post.live(x) && fs(post.task(x as int)) == Some(t)) by {
                assert(tkey_set(prior.started_at@, t).contains(x));
                assert(prior.live(x));
            }
            assert forall|x: u32| post.live(x) && (#[trigger] fs(
                post.task(x as int),
            )) is Some implies tkey_set(post.started_at@, fs(post.task(x as int))->0).contains(
                x,
            ) by {
                assert(x < nt);
                assert(fs(prior.task(x as int)) is Some);
            }
            let ff = |t: TaskModel| t.finished_at;
            assert forall|t: i128, x: u32| #[trigger] tkey_set(
                post.finished_at@,
                t,
            ).contains(x) implies (post.live(x) && ff(post.task(x as int)) == Some(t)) by {
                assert(tkey_set(prior.finished_at@, t).contains(x));
                assert(prior.live(x));
            }
            assert forall|x: u32| post.live(x) && (#[trigger] ff(
                post.task(x as int),
            )) is Some implies tkey_set(post.finished_at@, ff(post.task(x as int))->0).contains(
                x,
            ) by {
                assert(x < nt);
                assert(ff(prior.task(x as int)) is Some);
            }
            // files
            match fresh.kind.content_file_id() {
                Some(f) => {
                    assert(prior.content_file_fresh(f));
                    if prior.files().contains(f) {
                        let x = choose|x: u32|
                            prior.live(x) && (#[trigger] prior.task(
                                x as int,
                            ).kind.content_file_id()) == Some(f) && !prior.task(
                                x as int,
                            ).status.is_terminal();
                        assert(false);
                    }
                    assert(post.files() == prior.files().push(f));
                },
                None => {
                    assert(post.files() == prior.files());
                },
            }
            assert forall|g: u128| post.files().contains(g) implies exists|x: u32|
                post.live(x) && (#[trigger] post.task(x as int).kind.content_file_id())
                    == Some(g) && !post.task(x as int).status.is_terminal() by {
                if prior.files().contains(g) {
                    let x = choose|x: u32|
                        prior.live(x) && (#[trigger] prior.task(x as int).kind.content_file_id())
                            == Some(g) && !prior.task(x as int).status.is_terminal();
                    assert(post.live(x));
                    assert(post.task(x as int).kind.content_file_id() == Some(g)
                        && !post.task(x as int).status.is_terminal());
                } else {
                    assert(fresh.kind.content_file_id() == Some(g));
                    assert(post.task(nt).kind.content_file_id() == Some(g));
                    assert((nt as u32) as int == nt);
                }
            }
            assert forall|g: u128| (exists|x: u32|
                post.live(x) && (#[trigger] post.task(x as int).kind.content_file_id())
                    == Some(g) && !post.task(x as int).status.is_terminal()) implies post.files(
            ).contains(g) by {
                let x = choose|x: u32|
                    post.live(x) && (#[trigger] post.task(x as int).kind.content_file_id())
                        == Some(g) && !post.task(x as int).status.is_terminal();
                if x < nt {
                    assert(prior.live(x));
                    assert(prior.files().contains(g));
                    let idx = choose|i: int|
                        0 <= i < prior.files().len() && (#[trigger] prior.files()[i]) == g;
                    match fresh.kind.content_file_id() {
                        Some(f) => {
                            assert(post.files() == prior.files().push(f));
                            assert(post.files()[idx] == g);
                        },
                        None => {
                            assert(post.files()[idx] == g);
                        },
                    }
                } else {
                    assert(fresh.kind.content_file_id() == Some(g));
                    assert(post.files()[prior.files().len() as int] == g);
                }
            }
            assert(post.wf_kinds_indexed()) by {
                assert forall|x: u32| #[trigger] post.live(x) implies (post.task(
                    x as int,
                ).kind.index_uids().len() > 0 || control_tag(post.task(x as int).kind.tag())) by {
                    if x < nt {
                        assert(prior.live(x));
                        assert(post.task(x as int) == prior.task(x as int));
                    } else {
                        lemma_valid_kind_indexed(fresh.kind);
                    }
                }
            }
            assert forall|i: int, j: int| 0 <= i < j < post.files().len() implies post.files()[i]
                != post.files()[j] by {
                match fresh.kind.content_file_id() {
                    Some(f) => {
                        if j == post.files().len() - 1 && post.files()[j] == f {
                            if prior.files().contains(f) {
                                assert(false);
                            }
                            if post.files()[i] == f {
                                assert(prior.files()[i] == f);
                                assert(prior.files().contains(f));
                            }
                        }
                    },
                    None => {},
                }
            }
            assert forall|x: u32, y: u32| x < post.n_tasks() && y < post.n_tasks() && x != y && (
            #[trigger] post.task(x as int).kind.content_file_id()) is Some implies post.task(
                x as int,
            ).kind.content_file_id() != #[trigger] post.task(y as int).kind.content_file_id() by {
                if x < nt && y < nt {
                    assert(prior.task(x as int).kind.content_file_id() is Some);
                } else if x < nt {
                    match fresh.kind.content_file_id() {
                        Some(f) => {
                            assert(prior.task(x as int).kind.content_file_id() != Some(f));
                        },
                        None => {},
                    }
                } else {
                    assert(y < nt);
                    match fresh.kind.content_file_id() {
                        Some(f) => {
                            assert(prior.task(y as int).kind.content_file_id() != Some(f));
                        },
                        None => {},
                    }
                }
            }
        }
        Ok(copy)
    }
}

/// Removes a content file id from the store, if present.
fn file_store_remove(v: &mut Vec<u128>, f: u128)
    requires
        forall|i: int, j: int| 0 <= i < j < old(v)@.len() ==> old(v)@[i] != old(v)@[j],
    ensures
        forall|i: int, j: int| 0 <= i < j < final(v)@.len() ==> final(v)@[i] != final(v)@[j],
        forall|g: u128| final(v)@.contains(g) <==> (old(v)@.contains(g) && g != f),
{
    let n: usize = v.len();
    for i in 0..n
        invariant
            v@ == old(v)@,
            n == v@.len(),
            forall|a: int, b: int| 0 <= a < b < v@.len() ==> v@[a] != v@[b],
            forall|j: int| 0 <= j < i ==> v@[j] != f,
    {
        if v[i] == f {
            let ghost prev = v@;
            v.remove(i);
            proof {
                assert forall|a: int, b: int| 0 <= a < b < v@.len() implies v@[a] != v@[b] by {
                    if a < i {
                        if b < i {
                            assert(prev[a] != prev[b]);
                        } else {
                            assert(v@[b] == prev[b + 1]);
                        }
                    } else {
                        assert(v@[a] == prev[a + 1] && v@[b] == prev[b + 1]);
                    }
                }
                assert forall|g: u128| v@.contains(g) == (prev.contains(g) && g != f) by {
                    if v@.contains(g) {
                        let a = choose|a: int| 0 <= a < v@.len() && (#[trigger] v@[a]) == g;
                        if a < i {
                            assert(prev[a] == g);
                            if g == f {
                                assert(prev[i as int] == f);
                                assert(false);
                            }
                        } else {
                            assert(prev[a + 1] == g);
                            if g == f {
                                assert(prev[i as int] == f);
                                assert(false);
                            }
                        }
                    }
                    if prev.contains(g) && g != f {
                        let a = choose|a: int| 0 <= a < prev.len() && (#[trigger] prev[a]) == g;
                        if a < i {
                            assert(v@[a] == g);
                        } else {
                            assert(a != i);
                            assert(v@[a - 1] == g);
                        }
                    }
                }
            }
            return;
        }
    }
    proof {
        assert forall|g: u128| v@.contains(g) implies g != f by {
            let a = choose|a: int| 0 <= a < v@.len() && (#[trigger] v@[a]) == g;
        }
    }
}

impl IndexScheduler {
    /// The precondition for rewriting a task record in place: the uid and the
    /// enqueue time are unchanged, the start and finish times are set at most
    /// once, a terminal task is never mutated, and the payload keeps its
    /// index uids and its content file.
    pub open spec fn update_admissible(t_old: TaskModel, t_new: TaskModel) -> bool {
        &&& t_new.uid == t_old.uid
        &&& t_new.enqueued_at == t_old.enqueued_at
        &&& (t_old.started_at is Some ==> t_new.started_at == t_old.started_at)
        &&& (t_old.finished_at is Some ==> t_new.finished_at == t_old.finished_at)
        &&& (t_old.status.is_terminal() ==> t_new.status == t_old.status)
        &&& t_new.kind.index_uids() == t_old.kind.index_uids()
        &&& t_new.kind.tag() == t_old.kind.tag()
        &&& t_new.kind.content_file_id() == t_old.kind.content_file_id()
    }

    /// Rewrites a task record, reconciling the status bitmap, the timestamp
    /// maps, and the content file store (a task reaching a terminal status
    /// gives up its content file). (spec §4.1 `update`)
    #[verifier::rlimit(100)]
    #[verifier::spinoff_prover]
    pub fn update_task(&mut self, task: &Task) -> (r: Result<(), Error>)
        requires
            old(self).wf(),
            old(self).live(task@.uid) ==> Self::update_admissible(
                old(self).task(task@.uid as int),
                task@,
            ),
        ensures
            final(self).wf(),
            !old(self).live(task@.uid) ==> (r matches Err(e) && e is CorruptedTaskQueue
                && *final(self) == *old(self)),
            old(self).live(task@.uid) ==> ({
                &&& r is Ok
                &&& final(self).n_tasks() == old(self).n_tasks()
                &&& final(self).deleted == old(self).deleted
                &&& final(self).task(task@.uid as int) == task@
                &&& forall|i: int|
                    0 <= i < old(self).n_tasks() && i != task@.uid ==> final(self).all_tasks@[i]
                        == old(self).all_tasks@[i]
                &&& ({
                    let t_old = old(self).task(task@.uid as int);
                    match t_old.kind.content_file_id() {
                        Some(f) => {
                            if !t_old.status.is_terminal() && task@.status.is_terminal() {
                                forall|g: u128|
                                    final(self).files().contains(g) <==> (old(
                                        self,
                                    ).files().contains(g) && g != f)
                            } else {
                                final(self).files() == old(self).files()
                            }
                        },
                        None => final(self).files() == old(self).files(),
                    }
                })
                &&& final(self).indexes == old(self).indexes
                &&& final(self).autobatching_enabled == old(self).autobatching_enabled
                &&& final(self).must_stop_processing == old(self).must_stop_processing
            }),
    {
        let uid = task.uid;
        if !((uid as usize) < self.all_tasks.len()) || rb_contains(&self.deleted, uid) {
            return Err(Error::CorruptedTaskQueue);
        }
        let ghost prior = *self;
        let ghost t_old = self.task(uid as int);
        let old_status = self.all_tasks[uid as usize].status;
        if old_status != task.status {
            self.status_remove(old_status, uid);
            self.status_add(task.status, uid);
        }
        let add_started = self.all_tasks[uid as usize].started_at.is_none()
            && task.started_at.is_some();
        if add_started {
            match task.started_at {
                Some(t) => time_map_add(&mut self.started_at, t, uid),
                None => {},
            }
        }
        let add_finished = self.all_tasks[uid as usize].finished_at.is_none()
            && task.finished_at.is_some();
        if add_finished {
            match task.finished_at {
                Some(t) => time_map_add(&mut self.finished_at, t, uid),
                None => {},
            }
        }
        let became_terminal = !old_status.terminal() && task.status.terminal();
        if became_terminal {
            match task.kind.content_uuid() {
                Some(f) => {
                    proof {
                        assert(self.file_store@ == prior.files());
                        assert(forall|a: int, b: int|
                            0 <= a < b < prior.files().len() ==> prior.files()[a]
                                != prior.files()[b]);
                    }
                    file_store_remove(&mut self.file_store, f);
                },
                None => {},
            }
        }
        self.all_tasks[uid as usize] = task.duplicate();
        proof {
            let post = *self;
            assert forall|x: u32| (x as int) < post.n_tasks() implies (#[trigger] post.live(x))
                == prior.live(x) by {}
            assert(IndexScheduler::update_shape(
                prior,
                post,
                uid,
                task@,
                add_started,
                add_finished,
                became_terminal,
            ));
            IndexScheduler::lemma_upd_status(prior, post, uid, task@, add_started, add_finished, became_terminal);
            IndexScheduler::lemma_upd_kind(prior, post, uid, task@, add_started, add_finished, became_terminal);
            IndexScheduler::lemma_upd_index(prior, post, uid, task@, add_started, add_finished, became_terminal);
            IndexScheduler::lemma_upd_time(prior, post, uid, task@, add_started, add_finished, became_terminal);
            IndexScheduler::lemma_upd_files(prior, post, uid, task@, add_started, add_finished, became_terminal);
            assert(post.wf_counts()) by {
                assert(post.deleted == prior.deleted);
            }
            assert(post.wf_dense()) by {
                assert forall|i: int| 0 <= i < post.n_tasks() implies (#[trigger] post.task(
                    i,
                )).uid == i by {
                    if i != uid {
                        assert(post.task(i) == prior.task(i));
                    }
                }
            }
            assert(post.wf_indexes()) by {
                assert(post.indexes == prior.indexes);
            }
            assert(post.wf_kinds_indexed()) by {
                assert forall|x: u32| #[trigger] post.live(x) implies (post.task(
                    x as int,
                ).kind.index_uids().len() > 0 || control_tag(post.task(x as int).kind.tag())) by {
                    assert(prior.live(x));
                    if x != uid {
                        assert(post.task(x as int) == prior.task(x as int));
                    } else {
                        assert(post.task(x as int).kind.index_uids() == t_old.kind.index_uids());
                        assert(post.task(x as int).kind.tag() == t_old.kind.tag());
                    }
                }
            }
        }
        Ok(())
    }
}

impl IndexScheduler {
    /// How the store changes when one task record is rewritten in place:
    /// the pre- and post-states of [`Self::update_task`]'s commit.
    pub open spec fn update_shape(
        prior: IndexScheduler,
        post: IndexScheduler,
        uid: u32,
        t_new: TaskModel,
        add_started: bool,
        add_finished: bool,
        became_terminal: bool,
    ) -> bool {
        let t_old = prior.task(uid as int);
        &&& prior.wf()
        &&& prior.live(uid)
        &&& Self::update_admissible(t_old, t_new)
        &&& post.n_tasks() == prior.n_tasks()
        &&& post.deleted == prior.deleted
        &&& post.task(uid as int) == t_new
        &&& forall|i: int|
            0 <= i < prior.n_tasks() && i != uid ==> post.all_tasks@[i] == prior.all_tasks@[i]
        &&& post.indexes == prior.indexes
        &&& post.index_tasks == prior.index_tasks
        &&& post.enqueued_at == prior.enqueued_at
        &&& post.kinds == prior.kinds
        &&& post.statuses@.len() == STATUS_COUNT
        &&& forall|j: int|
            0 <= j < STATUS_COUNT ==> (#[trigger] elems(post.statuses@[j])).finite()
        &&& if t_new.status == t_old.status {
            post.statuses == prior.statuses
        } else {
            (forall|j: int|
                0 <= j < STATUS_COUNT && j != t_old.status.rank_spec() && j
                    != t_new.status.rank_spec() ==> post.statuses@[j] == prior.statuses@[j])
                && elems(post.statuses@[t_old.status.rank_spec()]) == elems(
                prior.statuses@[t_old.status.rank_spec()],
            ).remove(uid) && elems(post.statuses@[t_new.status.rank_spec()]) == elems(
                prior.statuses@[t_new.status.rank_spec()],
            ).insert(uid)
        }
        &&& add_started == (t_old.started_at is None && t_new.started_at is Some)
        &&& if add_started {
            tkeys_unique(post.started_at@) && tkey_set(post.started_at@, t_new.started_at->0)
                == tkey_set(prior.started_at@, t_new.started_at->0).insert(uid) && (forall|u: i128|
                u != t_new.started_at->0 ==> #[trigger] tkey_set(post.started_at@, u) == tkey_set(
                    prior.started_at@,
                    u,
                ))
        } else {
            post.started_at == prior.started_at
        }
        &&& add_finished == (t_old.finished_at is None && t_new.finished_at is Some)
        &&& if add_finished {
            tkeys_unique(post.finished_at@) && tkey_set(post.finished_at@, t_new.finished_at->0)
                == tkey_set(prior.finished_at@, t_new.finished_at->0).insert(uid) && (forall|
                u: i128,
            |
                u != t_new.finished_at->0 ==> #[trigger] tkey_set(post.finished_at@, u)
                    == tkey_set(prior.finished_at@, u))
        } else {
            post.finished_at == prior.finished_at
        }
        &&& became_terminal == (!t_old.status.is_terminal() && t_new.status.is_terminal())
        &&& if became_terminal && t_new.kind.content_file_id() is Some {
            (forall|i: int, j: int|
                0 <= i < j < post.files().len() ==> post.files()[i] != post.files()[j]) && (forall|
                g: u128,
            |
                #[trigger] post.files().contains(g) <==> (prior.files().contains(g) && g
                    != t_new.kind.content_file_id()->0))
        } else {
            post.file_store == prior.file_store
        }
    }

    proof fn lemma_upd_status(
        prior: IndexScheduler,
        post: IndexScheduler,
        uid: u32,
        t_new: TaskModel,
        add_started: bool,
        add_finished: bool,
        became_terminal: bool,
    )
        requires
            Self::update_shape(prior, post, uid, t_new, add_started, add_finished, became_terminal),
        ensures
            post.wf_status(),
    {
        let t_old = prior.task(uid as int);
        assert forall|j: int, x: u32| 0 <= j < STATUS_COUNT implies ((#[trigger] elems(
            post.statuses@[j],
        ).contains(x)) <==> (post.live(x) && post.task(x as int).status.rank_spec() == j)) by {
            assert(elems(prior.statuses@[j]).contains(x) <==> (prior.live(x) && prior.task(
                x as int,
            ).status.rank_spec() == j));
            if (x as int) < post.n_tasks() {
                assert(post.live(x) == prior.live(x));
                if x != uid {
                    assert(post.task(x as int) == prior.task(x as int));
                }
            }
            if t_new.status != t_old.status {
                if j == t_old.status.rank_spec() && j == t_new.status.rank_spec() {
                    assert(false);
                } else if j == t_old.status.rank_spec() {
                    assert(elems(post.statuses@[j]) == elems(prior.statuses@[j]).remove(uid));
                } else if j == t_new.status.rank_spec() {
                    assert(elems(post.statuses@[j]) == elems(prior.statuses@[j]).insert(uid));
                } else {
                    assert(post.statuses@[j] == prior.statuses@[j]);
                }
            } else {
                assert(post.statuses@[j] == prior.statuses@[j]);
            }
        }
    }

    proof fn lemma_upd_kind(
        prior: IndexScheduler,
        post: IndexScheduler,
        uid: u32,
        t_new: TaskModel,
        add_started: bool,
        add_finished: bool,
        became_terminal: bool,
    )
        requires
            Self::update_shape(prior, post, uid, t_new, add_started, add_finished, became_terminal),
        ensures
            post.wf_kind(),
    {
        let t_old = prior.task(uid as int);
        assert forall|j: int, x: u32| 0 <= j < KIND_COUNT implies ((#[trigger] elems(
            post.kinds@[j],
        ).contains(x)) <==> (post.live(x) && post.task(x as int).kind.tag().rank_spec() == j)) by {
            assert(elems(prior.kinds@[j]).contains(x) <==> (prior.live(x) && prior.task(
                x as int,
            ).kind.tag().rank_spec() == j));
            if (x as int) < post.n_tasks() {
                assert(post.live(x) == prior.live(x));
                if x != uid {
                    assert(post.task(x as int) == prior.task(x as int));
                } else {
                    assert(post.task(x as int).kind.tag() == t_old.kind.tag());
                }
            }
        }
    }

    proof fn lemma_upd_index(
        prior: IndexScheduler,
        post: IndexScheduler,
        uid: u32,
        t_new: TaskModel,
        add_started: bool,
        add_finished: bool,
        became_terminal: bool,
    )
        requires
            Self::update_shape(prior, post, uid, t_new, add_started, add_finished, became_terminal),
        ensures
            post.wf_index(),
    {
        let t_old = prior.task(uid as int);
        assert forall|u: Seq<char>, x: u32| #[trigger] skey_set(
            post.index_tasks@,
            u,
        ).contains(x) implies (post.live(x) && post.task(x as int).kind.index_uids().contains(
            u,
        )) by {
            assert(skey_set(prior.index_tasks@, u).contains(x));
            assert(prior.live(x));
            if x == uid {
                assert(post.task(x as int).kind.index_uids() == t_old.kind.index_uids());
            } else {
                assert(post.task(x as int) == prior.task(x as int));
            }
        }
        assert forall|x: u32, j: int| post.live(x) && 0 <= j < post.task(
            x as int,
        ).kind.index_uids().len() implies skey_set(
            post.index_tasks@,
            #[trigger] post.task(x as int).kind.index_uids()[j],
        ).contains(x) by {
            if x == uid {
                assert(post.task(x as int).kind.index_uids() == t_old.kind.index_uids());
            } else {
                assert(post.task(x as int) == prior.task(x as int));
            }
            assert(prior.live(x));
        }
    }

    proof fn lemma_upd_time(
        prior: IndexScheduler,
        post: IndexScheduler,
        uid: u32,
        t_new: TaskModel,
        add_started: bool,
        add_finished: bool,
        became_terminal: bool,
    )
        requires
            Self::update_shape(prior, post, uid, t_new, add_started, add_finished, became_terminal),
        ensures
            post.wf_time(),
    {
        let t_old = prior.task(uid as int);
        let fe = |t: TaskModel| Some(t.enqueued_at);
        assert forall|t: i128, x: u32| #[trigger] tkey_set(
            post.enqueued_at@,
            t,
        ).contains(x) implies (post.live(x) && fe(post.task(x as int)) == Some(t)) by {
            assert(tkey_set(prior.enqueued_at@, t).contains(x));
            assert(prior.live(x));
            if x != uid {
                assert(post.task(x as int) == prior.task(x as int));
            }
        }
        assert forall|x: u32| post.live(x) && (#[trigger] fe(
            post.task(x as int),
        )) is Some implies tkey_set(post.enqueued_at@, fe(post.task(x as int))->0).contains(x) by {
            if x != uid {
                assert(post.task(x as int) == prior.task(x as int));
            }
            assert(fe(prior.task(x as int)) == fe(post.task(x as int)));
        }
        let fs = |t: TaskModel| t.started_at;
        assert forall|t: i128, x: u32| #[trigger] tkey_set(
            post.started_at@,
            t,
        ).contains(x) implies (post.live(x) && fs(post.task(x as int)) == Some(t)) by {
            if add_started && t == t_new.started_at->0 && x == uid {
                assert(fs(post.task(x as int)) == Some(t));
            } else {
                if add_started {
                    if t == t_new.started_at->0 {
                        assert(tkey_set(post.started_at@, t) == tkey_set(
                            prior.started_at@,
                            t,
                        ).insert(uid));
                        assert(tkey_set(prior.started_at@, t).contains(x));
                    } else {
                        assert(tkey_set(post.started_at@, t) == tkey_set(prior.started_at@, t));
                    }
                }
                assert(tkey_set(prior.started_at@, t).contains(x));
                assert(prior.live(x));
                if x == uid {
                    assert(fs(prior.task(x as int)) == Some(t));
                    assert(t_old.started_at is Some);
                    assert(t_new.started_at == t_old.started_at);
                } else {
                    assert(post.task(x as int) == prior.task(x as int));
                }
            }
        }
        assert forall|x: u32| post.live(x) && (#[trigger] fs(
            post.task(x as int),
        )) is Some implies tkey_set(post.started_at@, fs(post.task(x as int))->0).contains(x) by {
            let t = fs(post.task(x as int))->0;
            if x == uid {
                if add_started {
                    assert(tkey_set(post.started_at@, t) == tkey_set(prior.started_at@, t).insert(
                        uid,
                    ));
                } else {
                    assert(t_old.started_at == t_new.started_at);
                    assert(tkey_set(prior.started_at@, t).contains(x));
                }
            } else {
                assert(post.task(x as int) == prior.task(x as int));
                assert(fs(prior.task(x as int)) is Some);
                assert(tkey_set(prior.started_at@, t).contains(x));
                if add_started && t == t_new.started_at->0 {
                    assert(tkey_set(post.started_at@, t) == tkey_set(prior.started_at@, t).insert(
                        uid,
                    ));
                }
            }
        }
        let ff = |t: TaskModel| t.finished_at;
        assert forall|t: i128, x: u32| #[trigger] tkey_set(
            post.finished_at@,
            t,
        ).contains(x) implies (post.live(x) && ff(post.task(x as int)) == Some(t)) by {
            if add_finished && t == t_new.finished_at->0 && x == uid {
                assert(ff(post.task(x as int)) == Some(t));
            } else {
                if add_finished {
                    if t == t_new.finished_at->0 {
                        assert(tkey_set(post.finished_at@, t) == tkey_set(
                            prior.finished_at@,
                            t,
                        ).insert(uid));
                        assert(tkey_set(prior.finished_at@, t).contains(x));
                    } else {
                        assert(tkey_set(post.finished_at@, t) == tkey_set(prior.finished_at@, t));
                    }
                }
                assert(tkey_set(prior.finished_at@, t).contains(x));
                assert(prior.live(x));
                if x == uid {
                    assert(ff(prior.task(x as int)) == Some(t));
                    assert(t_old.finished_at is Some);
                    assert(t_new.finished_at == t_old.finished_at);
                } else {
                    assert(post.task(x as int) == prior.task(x as int));
                }
            }
        }
        assert forall|x: u32| post.live(x) && (#[trigger] ff(
            post.task(x as int),
        )) is Some implies tkey_set(post.finished_at@, ff(post.task(x as int))->0).contains(x) by {
            let t = ff(post.task(x as int))->0;
            if x == uid {
                if add_finished {
                    assert(tkey_set(post.finished_at@, t) == tkey_set(
                        prior.finished_at@,
                        t,
                    ).insert(uid));
                } else {
                    assert(t_old.finished_at == t_new.finished_at);
                    assert(tkey_set(prior.finished_at@, t).contains(x));
                }
            } else {
                assert(post.task(x as int) == prior.task(x as int));
                assert(ff(prior.task(x as int)) is Some);
                assert(tkey_set(prior.finished_at@, t).contains(x));
                if add_finished && t == t_new.finished_at->0 {
                    assert(tkey_set(post.finished_at@, t) == tkey_set(
                        prior.finished_at@,
                        t,
                    ).insert(uid));
                }
            }
        }
    }

    proof fn lemma_upd_files(
        prior: IndexScheduler,
        post: IndexScheduler,
        uid: u32,
        t_new: TaskModel,
        add_started: bool,
        add_finished: bool,
        became_terminal: bool,
    )
        requires
            Self::update_shape(prior, post, uid, t_new, add_started, add_finished, became_terminal),
        ensures
            post.wf_files(),
    {
        let t_old = prior.task(uid as int);
        let dropping = became_terminal && t_new.kind.content_file_id() is Some;
        assert forall|g: u128| post.files().contains(g) implies exists|x: u32|
            post.live(x) && (#[trigger] post.task(x as int).kind.content_file_id()) == Some(g)
                && !post.task(x as int).status.is_terminal() by {
            assert(prior.files().contains(g));
            let x = choose|x: u32|
                prior.live(x) && (#[trigger] prior.task(x as int).kind.content_file_id()) == Some(
                    g,
                ) && !prior.task(x as int).status.is_terminal();
            if x == uid {
                assert(t_old.kind.content_file_id() == Some(g));
                assert(t_new.kind.content_file_id() == Some(g));
                if dropping {
                    assert(!post.files().contains(g));
                    assert(false);
                }
                assert(!became_terminal);
                assert(!t_new.status.is_terminal());
                assert(post.task(x as int).kind.content_file_id() == Some(g));
            } else {
                assert(post.task(x as int) == prior.task(x as int));
            }
        }
        assert forall|g: u128| (exists|x: u32|
            post.live(x) && (#[trigger] post.task(x as int).kind.content_file_id()) == Some(g)
                && !post.task(x as int).status.is_terminal()) implies post.files().contains(g) by {
            let x = choose|x: u32|
                post.live(x) && (#[trigger] post.task(x as int).kind.content_file_id()) == Some(g)
                    && !post.task(x as int).status.is_terminal();
            if x == uid {
                assert(t_old.kind.content_file_id() == Some(g));
                assert(!t_new.status.is_terminal());
                if t_old.status.is_terminal() {
                    assert(t_new.status == t_old.status);
                    assert(false);
                }
                assert(prior.files().contains(g));
                assert(!became_terminal);
            } else {
                assert(post.task(x as int) == prior.task(x as int));
                assert(prior.files().contains(g));
                if dropping {
                    let f = t_new.kind.content_file_id()->0;
                    assert(prior.task(uid as int).kind.content_file_id() == Some(f));
                    assert(g != f);
                }
            }
        }
        assert forall|i: int, j: int| 0 <= i < j < post.files().len() implies post.files()[i]
            != post.files()[j] by {
            if !dropping {
                assert(post.file_store == prior.file_store);
                assert(prior.files()[i] != prior.files()[j]);
            }
        }
        assert forall|x: u32, y: u32| (x as int) < post.n_tasks() && (y as int) < post.n_tasks()
            && x != y && (#[trigger] post.task(x as int).kind.content_file_id()) is Some implies
            post.task(x as int).kind.content_file_id() != #[trigger] post.task(
            y as int,
        ).kind.content_file_id() by {
            assert(post.task(x as int).kind.content_file_id() == prior.task(
                x as int,
            ).kind.content_file_id());
            assert(post.task(y as int).kind.content_file_id() == prior.task(
                y as int,
            ).kind.content_file_id());
        }
    }
}

} // verus!
