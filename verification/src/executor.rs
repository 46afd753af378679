//! The batch executor: applies a batch to the in-memory index model, updates
//! task statuses and details, and reconciles the secondary indexes, all while
//! preserving the store's consistency invariant.

use vstd::prelude::*;
use roaring::RoaringBitmap;
use crate::autobatcher::{autobatch_spec, BatchKindModel};
use crate::batch::{models_of, uids_of, Batch, IndexOperation};
use crate::bitmaps::{elems, rb_and, rb_clone, rb_contains, rb_insert, rb_is_empty, rb_len, rb_new, rb_or, rb_or_assign, rb_remove, rb_remove_from, rb_sub, rb_sub_assign, rb_to_vec};
use crate::error::Error;
use crate::queue::{
    skey_has, skey_set, skeys_unique, tkey_has, tkey_set, tkeys_unique, IndexData, IndexScheduler,
};
use crate::task::{
    Details, Kind, KindModel, KindWithContent, Status, Task, TaskModel, KIND_COUNT, STATUS_COUNT,
};
use crate::TaskId;

verus! {

// --- the index mapper model -------------------------------------------------

impl IndexScheduler {
    /// The position of the mapper entry for `u`.
    pub open spec fn index_at(self, u: Seq<char>) -> int {
        choose|i: int| 0 <= i < self.indexes@.len() && (#[trigger] self.indexes@[i].0)@ == u
    }

    /// The primary key recorded for index `u`.
    pub open spec fn index_pk(self, u: Seq<char>) -> Option<Seq<char>> {
        if self.has_index(u) {
            self.indexes@[self.index_at(u)].1.primary_key.deep_view()
        } else {
            None
        }
    }

    /// The number of documents recorded for index `u`.
    pub open spec fn index_docs(self, u: Seq<char>) -> u64 {
        if self.has_index(u) {
            self.indexes@[self.index_at(u)].1.number_of_documents
        } else {
            0
        }
    }

    /// Everything but the mapper agrees between the two states.
    pub open spec fn eq_except_indexes(self, other: IndexScheduler) -> bool {
        &&& self.all_tasks == other.all_tasks
        &&& self.statuses == other.statuses
        &&& self.kinds == other.kinds
        &&& self.index_tasks == other.index_tasks
        &&& self.enqueued_at == other.enqueued_at
        &&& self.started_at == other.started_at
        &&& self.finished_at == other.finished_at
        &&& self.deleted == other.deleted
        &&& self.file_store == other.file_store
        &&& self.autobatching_enabled == other.autobatching_enabled
        &&& self.must_stop_processing == other.must_stop_processing
    }

    /// With unique names, the entry holding `u` is the one `index_at` points
    /// to.
    proof fn lemma_index_at(self, i: int)
        requires
            self.wf_indexes(),
            0 <= i < self.indexes@.len(),
        ensures
            self.has_index(self.indexes@[i].0@),
            self.index_at(self.indexes@[i].0@) == i,
    {
        assert(self.has_index(self.indexes@[i].0@));
        let j = self.index_at(self.indexes@[i].0@);
        if i != j {
            assert(false);
        }
    }

    /// Creates an index in the mapper.
    fn mapper_create(&mut self, u: &String)
        requires
            old(self).wf_indexes(),
            !old(self).has_index(u@),
        ensures
            final(self).wf_indexes(),
            final(self).eq_except_indexes(*old(self)),
            forall|k: Seq<char>|
                #[trigger] final(self).has_index(k) == (old(self).has_index(k) || k == u@),
            final(self).index_pk(u@) is None,
            final(self).index_docs(u@) == 0,
            forall|k: Seq<char>|
                k != u@ ==> #[trigger] final(self).index_pk(k) == old(self).index_pk(k),
            forall|k: Seq<char>|
                k != u@ ==> #[trigger] final(self).index_docs(k) == old(self).index_docs(k),
    {
        let ghost prev = self.indexes@;
        let ghost n_old = self.indexes@.len() as int;
        let entry = (u.clone(), IndexData { primary_key: None, number_of_documents: 0 });
        self.indexes.push(entry);
        proof {
            assert forall|a: int, b: int| 0 <= a < b < self.indexes@.len() implies (
            #[trigger] self.indexes@[a].0)@ != (#[trigger] self.indexes@[b].0)@ by {
                if b < n_old {
                    assert(prev[a].0@ != prev[b].0@);
                } else {
                    assert(self.indexes@[b].0@ == u@);
                    if prev[a].0@ == u@ {
                        assert(old(self).has_index(u@));
                    }
                }
            }
            assert forall|k: Seq<char>| #[trigger] self.has_index(k) == (old(self).has_index(k)
                || k == u@) by {
                if self.has_index(k) {
                    let a = self.index_at(k);
                    if a < n_old {
                        assert(prev[a].0@ == k);
                        assert(old(self).has_index(k));
                    } else {
                        assert(k == u@);
                    }
                }
                if old(self).has_index(k) {
                    let a = old(self).index_at(k);
                    assert(self.indexes@[a].0@ == k);
                    assert(self.has_index(k));
                }
                if k == u@ {
                    assert(self.indexes@[n_old].0@ == u@);
                    assert(self.has_index(k));
                }
            }
            self.lemma_index_at(n_old);
            assert forall|k: Seq<char>| k != u@ implies #[trigger] self.index_pk(k) == old(
                self,
            ).index_pk(k) && self.index_docs(k) == old(self).index_docs(k) by {
                if self.has_index(k) {
                    let a = self.index_at(k);
                    assert(a != n_old);
                    assert(prev[a].0@ == k);
                    old(self).lemma_index_at(a);
                }
            }
        }
    }

    /// Removes an index from the mapper, if present.
    fn mapper_delete(&mut self, u: &String)
        requires
            old(self).wf_indexes(),
        ensures
            final(self).wf_indexes(),
            final(self).eq_except_indexes(*old(self)),
            forall|k: Seq<char>|
                #[trigger] final(self).has_index(k) == (old(self).has_index(k) && k != u@),
            forall|k: Seq<char>|
                k != u@ ==> #[trigger] final(self).index_pk(k) == old(self).index_pk(k),
            forall|k: Seq<char>|
                k != u@ ==> #[trigger] final(self).index_docs(k) == old(self).index_docs(k),
    {
        let n: usize = self.indexes.len();
        for i in 0..n
            invariant
                self.wf_indexes(),
                *self == *old(self),
                n == self.indexes@.len(),
                forall|j: int| 0 <= j < i ==> (#[trigger] self.indexes@[j].0)@ != u@,
        {
            if self.indexes[i].0 == *u {
                let ghost prev = self.indexes@;
                self.indexes.remove(i);
                proof {
                    assert forall|a: int, b: int| 0 <= a < b < self.indexes@.len() implies (
                    #[trigger] self.indexes@[a].0)@ != (#[trigger] self.indexes@[b].0)@ by {
                        if a < i {
                            if b < i {
                                assert(prev[a].0@ != prev[b].0@);
                            } else {
                                assert(self.indexes@[b] == prev[b + 1]);
                            }
                        } else {
                            assert(self.indexes@[a] == prev[a + 1] && self.indexes@[b] == prev[b
                                + 1]);
                        }
                    }
                    assert forall|k: Seq<char>| #[trigger] self.has_index(k) == (old(
                        self,
                    ).has_index(k) && k != u@) by {
                        if self.has_index(k) {
                            let a = self.index_at(k);
                            if a < i {
                                assert(prev[a].0@ == k);
                            } else {
                                assert(prev[a + 1].0@ == k);
                            }
                            assert(old(self).has_index(k));
                            if k == u@ {
                                old(self).lemma_index_at(i as int);
                                assert(false);
                            }
                        }
                        if old(self).has_index(k) && k != u@ {
                            let a = old(self).index_at(k);
                            assert(prev[a].0@ == k);
                            assert(a != i);
                            if a < i {
                                assert(self.indexes@[a].0@ == k);
                            } else {
                                assert(self.indexes@[a - 1].0@ == k);
                            }
                            assert(self.has_index(k));
                        }
                    }
                    assert forall|k: Seq<char>| k != u@ implies #[trigger] self.index_pk(k) == old(
                        self,
                    ).index_pk(k) && self.index_docs(k) == old(self).index_docs(k) by {
                        if self.has_index(k) {
                            let a = self.index_at(k);
                            old(self).lemma_index_at(if a < i {
                                a
                            } else {
                                a + 1
                            });
                            if a < i {
                                assert(self.indexes@[a] == prev[a]);
                            } else {
                                assert(self.indexes@[a] == prev[a + 1]);
                            }
                        }
                    }
                }
                return;
            }
        }
        proof {
            assert forall|k: Seq<char>| #[trigger] self.has_index(k) == (old(self).has_index(k)
                && k != u@) by {
                if self.has_index(k) && k == u@ {
                    let a = self.index_at(k);
                    assert(false);
                }
            }
        }
    }

    /// Overwrites the data recorded for an existing index.
    fn mapper_set(&mut self, u: &String, data: IndexData)
        requires
            old(self).wf_indexes(),
            old(self).has_index(u@),
        ensures
            final(self).wf_indexes(),
            final(self).eq_except_indexes(*old(self)),
            forall|k: Seq<char>| #[trigger] final(self).has_index(k) == old(self).has_index(k),
            final(self).index_pk(u@) == data.primary_key.deep_view(),
            final(self).index_docs(u@) == data.number_of_documents,
            forall|k: Seq<char>|
                k != u@ ==> #[trigger] final(self).index_pk(k) == old(self).index_pk(k),
            forall|k: Seq<char>|
                k != u@ ==> #[trigger] final(self).index_docs(k) == old(self).index_docs(k),
    {
        let n: usize = self.indexes.len();
        for i in 0..n
            invariant
                self.wf_indexes(),
                *self == *old(self),
                old(self).has_index(u@),
                n == self.indexes@.len(),
                forall|j: int| 0 <= j < i ==> (#[trigger] self.indexes@[j].0)@ != u@,
        {
            if self.indexes[i].0 == *u {
                let ghost prev = self.indexes@;
                let entry = (u.clone(), data);
                self.indexes[i] = entry;
                proof {
                    assert forall|a: int, b: int| 0 <= a < b < self.indexes@.len() implies (
                    #[trigger] self.indexes@[a].0)@ != (#[trigger] self.indexes@[b].0)@ by {
                        assert(prev[a].0@ == self.indexes@[a].0@ && prev[b].0@
                            == self.indexes@[b].0@);
                    }
                    assert forall|k: Seq<char>| #[trigger] self.has_index(k) == old(
                        self,
                    ).has_index(k) by {
                        if self.has_index(k) {
                            let a = self.index_at(k);
                            assert(prev[a].0@ == k);
                            assert(old(self).has_index(k));
                        }
                        if old(self).has_index(k) {
                            let a = old(self).index_at(k);
                            assert(self.indexes@[a].0@ == k);
                            assert(self.has_index(k));
                        }
                    }
                    self.lemma_index_at(i as int);
                    assert forall|k: Seq<char>| k != u@ implies #[trigger] self.index_pk(k) == old(
                        self,
                    ).index_pk(k) && self.index_docs(k) == old(self).index_docs(k) by {
                        if self.has_index(k) {
                            let a = self.index_at(k);
                            assert(a != i);
                            assert(self.indexes@[a] == prev[a]);
                            old(self).lemma_index_at(a);
                        }
                    }
                }
                return;
            }
        }
        proof {
            let a = old(self).index_at(u@);
            assert(old(self).indexes@[a].0@ == u@);
            assert(false);
        }
    }

    /// Reads the data recorded for an index, if it exists.
    pub fn mapper_get(&self, u: &String) -> (r: Option<IndexData>)
        requires
            self.wf_indexes(),
        ensures
            self.has_index(u@) ==> (r matches Some(d) && d.primary_key.deep_view()
                == self.index_pk(u@) && d.number_of_documents == self.index_docs(u@)),
            !self.has_index(u@) ==> r is None,
    {
        let n: usize = self.indexes.len();
        for i in 0..n
            invariant
                self.wf_indexes(),
                n == self.indexes@.len(),
                forall|j: int| 0 <= j < i ==> (#[trigger] self.indexes@[j].0)@ != u@,
        {
            if self.indexes[i].0 == *u {
                proof {
                    self.lemma_index_at(i as int);
                }
                let d = IndexData {
                    primary_key: crate::task::clone_opt_string(&self.indexes[i].1.primary_key),
                    number_of_documents: self.indexes[i].1.number_of_documents,
                };
                return Some(d);
            }
        }
        proof {
            if self.has_index(u@) {
                let a = self.index_at(u@);
                assert(false);
            }
        }
        None
    }
}


impl IndexScheduler {
    /// The consistency invariant does not depend on the mapper: it transfers
    /// to any state that differs only in the `indexes` field and keeps the
    /// names unique.
    proof fn lemma_wf_except_indexes(a: IndexScheduler, b: IndexScheduler)
        requires
            a.wf(),
            b.eq_except_indexes(a),
            b.wf_indexes(),
        ensures
            b.wf(),
    {
        assert(b.n_tasks() == a.n_tasks());
        assert(forall|i: int| 0 <= i < b.n_tasks() ==> #[trigger] b.task(i) == a.task(i));
        assert(forall|x: u32| #[trigger] b.live(x) == a.live(x));
        assert(b.wf_counts());
        assert(b.wf_dense()) by {
            assert(forall|i: int|
                0 <= i < b.n_tasks() ==> (#[trigger] b.task(i)).uid == a.task(i).uid);
        }
        assert(b.wf_status()) by {
            assert(forall|j: int|
                0 <= j < STATUS_COUNT ==> #[trigger] b.statuses@[j] == a.statuses@[j]);
        }
        assert(b.wf_kind()) by {
            assert(forall|j: int| 0 <= j < KIND_COUNT ==> #[trigger] b.kinds@[j] == a.kinds@[j]);
        }
        assert(b.wf_index()) by {
            assert(b.index_tasks@ == a.index_tasks@);
        }
        assert(b.wf_time()) by {
            assert(b.enqueued_at@ == a.enqueued_at@);
            assert(b.started_at@ == a.started_at@);
            assert(b.finished_at@ == a.finished_at@);
        }
        assert(b.wf_files()) by {
            assert(b.files() == a.files());
            assert forall|f: u128| b.files().contains(f) implies exists|x: u32|
                b.live(x) && (#[trigger] b.task(x as int).kind.content_file_id()) == Some(f)
                    && !b.task(x as int).status.is_terminal() by {
                let x = choose|x: u32|
                    a.live(x) && (#[trigger] a.task(x as int).kind.content_file_id()) == Some(f)
                        && !a.task(x as int).status.is_terminal();
                assert(b.task(x as int) == a.task(x as int));
            }
            assert forall|f: u128| (exists|x: u32|
                b.live(x) && (#[trigger] b.task(x as int).kind.content_file_id()) == Some(f)
                    && !b.task(x as int).status.is_terminal()) implies b.files().contains(f) by {
                let x = choose|x: u32|
                    b.live(x) && (#[trigger] b.task(x as int).kind.content_file_id()) == Some(f)
                        && !b.task(x as int).status.is_terminal();
                assert(a.task(x as int) == b.task(x as int));
                assert(a.files().contains(f));
            }
        }
    }
}

// --- bulk purge helpers -----------------------------------------------------

/// Subtracts `b` from every bitmap of a slot vector.
fn purge_slots(v: &mut Vec<RoaringBitmap>, b: &RoaringBitmap)
    ensures
        final(v)@.len() == old(v)@.len(),
        forall|j: int|
            0 <= j < old(v)@.len() ==> elems(#[trigger] final(v)@[j]) == elems(
                old(v)@[j],
            ).difference(elems(*b)) && elems(final(v)@[j]).finite(),
{
    let n: usize = v.len();
    for i in 0..n
        invariant
            n == v@.len(),
            v@.len() == old(v)@.len(),
            forall|j: int|
                i <= j < n ==> #[trigger] v@[j] == old(v)@[j],
            forall|j: int|
                0 <= j < i ==> elems(#[trigger] v@[j]) == elems(old(v)@[j]).difference(elems(*b))
                    && elems(v@[j]).finite(),
    {
        let bm = rb_sub(&v[i], b);
        v[i] = bm;
    }
}

/// Subtracts `b` from every entry of a string-keyed map.
fn purge_string_map(v: &mut Vec<(String, RoaringBitmap)>, b: &RoaringBitmap)
    requires
        skeys_unique(old(v)@),
    ensures
        skeys_unique(final(v)@),
        forall|k: Seq<char>| #[trigger] skey_has(final(v)@, k) == skey_has(old(v)@, k),
        forall|k: Seq<char>|
            #[trigger] skey_set(final(v)@, k) == skey_set(old(v)@, k).difference(elems(*b)),
{
    let n: usize = v.len();
    for i in 0..n
        invariant
            n == v@.len(),
            v@.len() == old(v)@.len(),
            forall|j: int| 0 <= j < n ==> (#[trigger] v@[j].0)@ == old(v)@[j].0@,
            forall|j: int|
                i <= j < n ==> #[trigger] v@[j] == old(v)@[j],
            forall|j: int|
                0 <= j < i ==> elems(#[trigger] v@[j].1) == elems(old(v)@[j].1).difference(
                    elems(*b),
                ),
    {
        let bm = rb_sub(&v[i].1, b);
        let key = v[i].0.clone();
        let entry = (key, bm);
        v[i] = entry;
    }
    proof {
        assert forall|a: int, c: int| 0 <= a < c < v@.len() implies (#[trigger] v@[a].0)@ != (
        #[trigger] v@[c].0)@ by {
            assert(old(v)@[a].0@ != old(v)@[c].0@);
        }
        assert forall|k: Seq<char>| #[trigger] skey_has(v@, k) == skey_has(old(v)@, k) by {
            if skey_has(v@, k) {
                let a = crate::queue::skey_at(v@, k);
                assert(old(v)@[a].0@ == k);
            }
            if skey_has(old(v)@, k) {
                let a = crate::queue::skey_at(old(v)@, k);
                assert(v@[a].0@ == k);
            }
        }
        assert forall|k: Seq<char>| #[trigger] skey_set(v@, k) == skey_set(
            old(v)@,
            k,
        ).difference(elems(*b)) by {
            if skey_has(v@, k) {
                let a = crate::queue::skey_at(v@, k);
                crate::queue::lemma_skey_at(v@, a);
                crate::queue::lemma_skey_at(old(v)@, a);
                assert(old(v)@[a].0@ == k);
            } else {
                assert(skey_set(v@, k) =~= skey_set(old(v)@, k).difference(elems(*b)));
            }
        }
    }
}

/// Subtracts `b` from every entry of a time-keyed map.
fn purge_time_map(v: &mut Vec<(i128, RoaringBitmap)>, b: &RoaringBitmap)
    requires
        tkeys_unique(old(v)@),
    ensures
        tkeys_unique(final(v)@),
        forall|t: i128| #[trigger] tkey_has(final(v)@, t) == tkey_has(old(v)@, t),
        forall|t: i128|
            #[trigger] tkey_set(final(v)@, t) == tkey_set(old(v)@, t).difference(elems(*b)),
{
    let n: usize = v.len();
    for i in 0..n
        invariant
            n == v@.len(),
            v@.len() == old(v)@.len(),
            forall|j: int| 0 <= j < n ==> (#[trigger] v@[j].0) == old(v)@[j].0,
            forall|j: int|
                i <= j < n ==> #[trigger] v@[j] == old(v)@[j],
            forall|j: int|
                0 <= j < i ==> elems(#[trigger] v@[j].1) == elems(old(v)@[j].1).difference(
                    elems(*b),
                ),
    {
        let bm = rb_sub(&v[i].1, b);
        let key = v[i].0;
        let entry = (key, bm);
        v[i] = entry;
    }
    proof {
        assert forall|a: int, c: int| 0 <= a < c < v@.len() implies (#[trigger] v@[a].0) != (
        #[trigger] v@[c].0) by {
            assert(old(v)@[a].0 != old(v)@[c].0);
        }
        assert forall|t: i128| #[trigger] tkey_has(v@, t) == tkey_has(old(v)@, t) by {
            if tkey_has(v@, t) {
                let a = crate::queue::tkey_at(v@, t);
                assert(old(v)@[a].0 == t);
            }
            if tkey_has(old(v)@, t) {
                let a = crate::queue::tkey_at(old(v)@, t);
                assert(v@[a].0 == t);
            }
        }
        assert forall|t: i128| #[trigger] tkey_set(v@, t) == tkey_set(old(v)@, t).difference(
            elems(*b),
        ) by {
            if tkey_has(v@, t) {
                let a = crate::queue::tkey_at(v@, t);
                crate::queue::lemma_tkey_at(v@, a);
                crate::queue::lemma_tkey_at(old(v)@, a);
                assert(old(v)@[a].0 == t);
            } else {
                assert(tkey_set(v@, t) =~= tkey_set(old(v)@, t).difference(elems(*b)));
            }
        }
    }
}

// --- kind-swap preservation lemmas ------------------------------------------

/// Swapping uids twice is the identity.
proof fn lemma_swap_uid_involution(u: Seq<char>, l: Seq<char>, r: Seq<char>)
    ensures
        crate::task::swap_uid(crate::task::swap_uid(u, l, r), l, r) == u,
{
}

/// How a kind's metadata relates to the same kind with swapped uids: the
/// tag, the content file and the timestamps are untouched, and mentioning an
/// index uid turns into mentioning its counterpart.
proof fn lemma_swap_kind(k: KindModel, l: Seq<char>, r: Seq<char>)
    ensures
        k.with_swapped_uids(l, r).tag() == k.tag(),
        k.with_swapped_uids(l, r).content_file_id() == k.content_file_id(),
        k.with_swapped_uids(l, r).index_uids() == k.index_uids().map_values(
            |u: Seq<char>| crate::task::swap_uid(u, l, r),
        ),
        forall|u: Seq<char>|
            #[trigger] k.with_swapped_uids(l, r).index_uids().contains(u)
                == k.index_uids().contains(crate::task::swap_uid(u, l, r)),
{
    let f = |u: Seq<char>| crate::task::swap_uid(u, l, r);
    match k {
        KindModel::IndexSwap { swaps } => {
            let firsts = swaps.map_values(|p: (Seq<char>, Seq<char>)| p.0);
            let seconds = swaps.map_values(|p: (Seq<char>, Seq<char>)| p.1);
            let sw2 = swaps.map_values(
                |p: (Seq<char>, Seq<char>)| crate::task::swapped_pair(p, l, r),
            );
            assert(sw2.map_values(|p: (Seq<char>, Seq<char>)| p.0) =~= firsts.map_values(f));
            assert(sw2.map_values(|p: (Seq<char>, Seq<char>)| p.1) =~= seconds.map_values(f));
            assert(k.with_swapped_uids(l, r).index_uids() =~= (firsts + seconds).map_values(f));
        },
        _ => {
            assert(k.with_swapped_uids(l, r).index_uids() =~= k.index_uids().map_values(f));
        },
    }
    assert forall|u: Seq<char>| #[trigger] k.with_swapped_uids(l, r).index_uids().contains(u)
        == k.index_uids().contains(crate::task::swap_uid(u, l, r)) by {
        let mapped = k.index_uids().map_values(f);
        if mapped.contains(u) {
            let i = choose|i: int| 0 <= i < mapped.len() && (#[trigger] mapped[i]) == u;
            lemma_swap_uid_involution(k.index_uids()[i], l, r);
            assert(k.index_uids()[i] == crate::task::swap_uid(u, l, r));
        }
        if k.index_uids().contains(crate::task::swap_uid(u, l, r)) {
            let i = choose|i: int|
                0 <= i < k.index_uids().len() && (#[trigger] k.index_uids()[i])
                    == crate::task::swap_uid(u, l, r);
            lemma_swap_uid_involution(u, l, r);
            assert(mapped[i] == u);
        }
    }
}

impl IndexScheduler {
    /// Builds the bitmap of live tasks that mention index `u`.
    fn build_index_bitmap(&self, u: &String) -> (r: RoaringBitmap)
        requires
            self.wf_counts(),
        ensures
            elems(r).finite(),
            forall|x: u32|
                #[trigger] elems(r).contains(x) <==> (self.live(x) && self.task(
                    x as int,
                ).kind.index_uids().contains(u@)),
    {
        let mut r = rb_new();
        let n: usize = self.all_tasks.len();
        for i in 0..n
            invariant
                self.wf_counts(),
                n == self.all_tasks@.len(),
                elems(r).finite(),
                forall|x: u32|
                    #[trigger] elems(r).contains(x) <==> ((x as int) < i && self.live(x)
                        && self.task(x as int).kind.index_uids().contains(u@)),
        {
            let uid: TaskId = i as TaskId;
            if !rb_contains(&self.deleted, uid) && crate::batch::kind_mentions(
                &self.all_tasks[i].kind,
                u,
            ) {
                crate::bitmaps::rb_insert(&mut r, uid);
            }
            proof {
                assert forall|x: u32| #[trigger] elems(r).contains(x) <==> ((x as int) < i + 1
                    && self.live(x) && self.task(x as int).kind.index_uids().contains(u@)) by {}
            }
        }
        r
    }

    /// Writes the exact bitmap for one key of the per-index map, creating
    /// the entry when missing.
    fn index_map_set(&mut self, key: &String, bm: RoaringBitmap)
        requires
            skeys_unique(old(self).index_tasks@),
        ensures
            *final(self) == (IndexScheduler { index_tasks: final(self).index_tasks, ..*old(self) }),
            skeys_unique(final(self).index_tasks@),
            forall|k: Seq<char>|
                #[trigger] skey_has(final(self).index_tasks@, k) == (skey_has(
                    old(self).index_tasks@,
                    k,
                ) || k == key@),
            skey_set(final(self).index_tasks@, key@) == elems(bm),
            forall|k: Seq<char>|
                k != key@ ==> #[trigger] skey_set(final(self).index_tasks@, k) == skey_set(
                    old(self).index_tasks@,
                    k,
                ),
    {
        let n: usize = self.index_tasks.len();
        for i in 0..n
            invariant
                *self == *old(self),
                n == self.index_tasks@.len(),
                skeys_unique(self.index_tasks@),
                forall|j: int| 0 <= j < i ==> (#[trigger] self.index_tasks@[j].0)@ != key@,
        {
            if self.index_tasks[i].0 == *key {
                proof {
                    crate::queue::lemma_skey_at(self.index_tasks@, i as int);
                }
                let ghost prev = self.index_tasks@;
                let entry = (key.clone(), bm);
                self.index_tasks[i] = entry;
                proof {
                    assert forall|a: int, b: int| 0 <= a < b < self.index_tasks@.len() implies (
                    #[trigger] self.index_tasks@[a].0)@ != (#[trigger] self.index_tasks@[b].0)@ by {
                        assert(prev[a].0@ == self.index_tasks@[a].0@ && prev[b].0@
                            == self.index_tasks@[b].0@);
                    }
                    assert forall|k: Seq<char>| #[trigger] skey_has(self.index_tasks@, k) == (
                    skey_has(prev, k) || k == key@) by {
                        if skey_has(self.index_tasks@, k) {
                            let a = crate::queue::skey_at(self.index_tasks@, k);
                            assert(prev[a].0@ == k);
                        }
                        if skey_has(prev, k) {
                            let a = crate::queue::skey_at(prev, k);
                            assert(self.index_tasks@[a].0@ == k);
                        }
                        if k == key@ {
                            assert(self.index_tasks@[i as int].0@ == key@);
                        }
                    }
                    crate::queue::lemma_skey_at(self.index_tasks@, i as int);
                    assert forall|k: Seq<char>| k != key@ implies #[trigger] skey_set(
                        self.index_tasks@,
                        k,
                    ) == skey_set(prev, k) by {
                        if skey_has(self.index_tasks@, k) {
                            let a = crate::queue::skey_at(self.index_tasks@, k);
                            assert(a != i);
                            crate::queue::lemma_skey_at(prev, a);
                        }
                    }
                }
                return;
            }
        }
        let ghost prev = self.index_tasks@;
        let ghost n_old = self.index_tasks@.len() as int;
        let entry = (key.clone(), bm);
        self.index_tasks.push(entry);
        proof {
            assert forall|a: int, b: int| 0 <= a < b < self.index_tasks@.len() implies (
            #[trigger] self.index_tasks@[a].0)@ != (#[trigger] self.index_tasks@[b].0)@ by {
                if b < n_old {
                    assert(prev[a].0@ != prev[b].0@);
                } else {
                    assert(self.index_tasks@[b].0@ == key@);
                    assert(prev[a].0@ != key@);
                }
            }
            assert forall|k: Seq<char>| #[trigger] skey_has(self.index_tasks@, k) == (skey_has(
                prev,
                k,
            ) || k == key@) by {
                if skey_has(self.index_tasks@, k) {
                    let a = crate::queue::skey_at(self.index_tasks@, k);
                    if a < n_old {
                        assert(prev[a].0@ == k);
                    } else {
                        assert(k == key@);
                    }
                }
                if skey_has(prev, k) {
                    let a = crate::queue::skey_at(prev, k);
                    assert(self.index_tasks@[a].0@ == k);
                }
                if k == key@ {
                    assert(self.index_tasks@[n_old].0@ == key@);
                }
            }
            crate::queue::lemma_skey_at(self.index_tasks@, n_old);
            assert forall|k: Seq<char>| k != key@ implies #[trigger] skey_set(
                self.index_tasks@,
                k,
            ) == skey_set(prev, k) by {
                if skey_has(self.index_tasks@, k) {
                    let a = crate::queue::skey_at(self.index_tasks@, k);
                    assert(a != n_old);
                    crate::queue::lemma_skey_at(prev, a);
                }
            }
        }
    }
}


/// Some still-enqueued matched task owns this content file.
pub open spec fn file_of_canceled(s: IndexScheduler, m: Set<u32>, f: u128) -> bool {
    exists|x: u32|
        s.status_set(Status::Enqueued).intersect(m).contains(x) && (#[trigger] s.task(
            x as int,
        ).kind.content_file_id()) == Some(f)
}

/// The record of a task canceled at `now` by the cancelation task `by`.
pub open spec fn canceled_model(t: TaskModel, by: TaskId, now: i128) -> TaskModel {
    TaskModel {
        status: Status::Canceled,
        canceled_by: Some(by),
        finished_at: if t.finished_at is None {
            Some(now)
        } else {
            t.finished_at
        },
        ..t
    }
}

/// The record of a task after an index swap `(l, r)` executed by the swap
/// task: every mention of either side in the kind and details is flipped.
pub open spec fn swapped_model(t: TaskModel, l: Seq<char>, r: Seq<char>) -> TaskModel {
    TaskModel {
        kind: t.kind.with_swapped_uids(l, r),
        details: match t.details {
            Some(d) => Some(d.with_swapped_uids(l, r)),
            None => None,
        },
        ..t
    }
}

impl IndexScheduler {
    /// Cancels every still-enqueued task matched by the cancelation's query
    /// bitmap: each becomes `Canceled` with `canceled_by` and `finished_at`
    /// set, and gives up its content file. Returns how many tasks were
    /// canceled and which content files they owned. (spec §4.4)
    #[verifier::rlimit(60)]
    pub fn cancel_matched_tasks(
        &mut self,
        cancel_task_uid: TaskId,
        matched_tasks: &RoaringBitmap,
        now: i128,
    ) -> (r: (u64, Vec<u128>))
        requires
            old(self).wf(),
        ensures
            final(self).wf(),
            final(self).n_tasks() == old(self).n_tasks(),
            final(self).deleted == old(self).deleted,
            final(self).indexes == old(self).indexes,
            final(self).autobatching_enabled == old(self).autobatching_enabled,
            final(self).must_stop_processing == old(self).must_stop_processing,
            r.0 == old(self).status_set(Status::Enqueued).intersect(elems(*matched_tasks)).len(),
            forall|x: u32|
                (x as int) < old(self).n_tasks() ==> (#[trigger] final(self).task(x as int)) == (
                if old(self).status_set(Status::Enqueued).intersect(elems(*matched_tasks)).contains(
                    x,
                ) {
                    canceled_model(old(self).task(x as int), cancel_task_uid, now)
                } else {
                    old(self).task(x as int)
                }),
            forall|j: int|
                0 <= j < r.1@.len() ==> file_of_canceled(
                    *old(self),
                    elems(*matched_tasks),
                    #[trigger] r.1@[j],
                ),
            forall|a: int, b: int| 0 <= a < b < r.1@.len() ==> r.1@[a] != r.1@[b],
            forall|x: u32|
                old(self).status_set(Status::Enqueued).intersect(elems(*matched_tasks)).contains(x)
                    && (#[trigger] old(self).task(x as int).kind.content_file_id()) is Some
                    ==> r.1@.contains(old(self).task(x as int).kind.content_file_id()->0),
    {
        let enq = self.get_status(Status::Enqueued);
        let to_cancel = rb_and(&enq, matched_tasks);
        let count = rb_len(&to_cancel);
        let ids = rb_to_vec(&to_cancel);
        let ghost cset = old(self).status_set(Status::Enqueued).intersect(elems(*matched_tasks));
        let mut files: Vec<u128> = Vec::new();
        let ghost mut srcs: Seq<u32> = Seq::empty();
        let n: usize = ids.len();
        for idx in 0..n
            invariant
                old(self).wf(),
                self.wf(),
                n == ids@.len(),
                self.n_tasks() == old(self).n_tasks(),
                self.deleted == old(self).deleted,
                self.indexes == old(self).indexes,
                self.autobatching_enabled == old(self).autobatching_enabled,
                self.must_stop_processing == old(self).must_stop_processing,
                cset == old(self).status_set(Status::Enqueued).intersect(elems(*matched_tasks)),
                forall|j: int| 0 <= j < n ==> cset.contains(#[trigger] ids@[j]),
                forall|x: u32| cset.contains(x) ==> ids@.contains(x),
                forall|a: int, b: int| 0 <= a < b < n ==> ids@[a] < ids@[b],
                forall|x: u32|
                    (x as int) < old(self).n_tasks() ==> (#[trigger] self.task(x as int)) == (
                    if ids@.take(idx as int).contains(x) {
                        canceled_model(old(self).task(x as int), cancel_task_uid, now)
                    } else {
                        old(self).task(x as int)
                    }),
                srcs.len() == files@.len(),
                forall|j: int|
                    0 <= j < srcs.len() ==> ids@.take(idx as int).contains(#[trigger] srcs[j])
                        && old(self).task(srcs[j] as int).kind.content_file_id() == Some(
                        files@[j],
                    ),
                forall|a: int, b: int| 0 <= a < b < srcs.len() ==> srcs[a] != srcs[b],
                forall|a: int|
                    0 <= a < idx && (#[trigger] old(self).task(
                        ids@[a] as int,
                    ).kind.content_file_id()) is Some ==> files@.contains(
                        old(self).task(ids@[a] as int).kind.content_file_id()->0,
                    ),
        {
            let uid = ids[idx];
            proof {
                assert(cset.contains(uid));
                assert(old(self).status_set(Status::Enqueued).contains(uid));
                assert(old(self).live(uid));
                assert(!ids@.take(idx as int).contains(uid)) by {
                    if ids@.take(idx as int).contains(uid) {
                        let a = choose|a: int|
                            0 <= a < idx && (#[trigger] ids@.take(idx as int)[a]) == uid;
                        assert(ids@[a] < ids@[idx as int]);
                    }
                }
                assert(self.task(uid as int) == old(self).task(uid as int));
                assert(self.live(uid));
            }
            let mut t = self.all_tasks[uid as usize].duplicate();
            let ghost files0 = files@;
            let ghost srcs0 = srcs;
            match t.kind.content_uuid() {
                Some(f) => {
                    files.push(f);
                    proof {
                        srcs = srcs.push(uid);
                        assert(old(self).task(uid as int).kind.content_file_id() == Some(f));
                        assert(!ids@.take(idx as int).contains(uid)) by {
                            if ids@.take(idx as int).contains(uid) {
                                let c = choose|c: int|
                                    0 <= c < idx && (#[trigger] ids@.take(idx as int)[c]) == uid;
                                assert(ids@[c] < ids@[idx as int]);
                            }
                        }
                        assert forall|j: int| 0 <= j < srcs.len() implies ids@.take(
                            idx + 1,
                        ).contains(#[trigger] srcs[j]) && old(self).task(
                            srcs[j] as int,
                        ).kind.content_file_id() == Some(files@[j]) by {
                            if j < srcs0.len() {
                                assert(ids@.take(idx as int).contains(srcs0[j]));
                                let c = choose|c: int|
                                    0 <= c < idx && (#[trigger] ids@.take(idx as int)[c])
                                        == srcs0[j];
                                assert(ids@.take(idx + 1)[c] == srcs0[j]);
                                assert(files@[j] == files0[j]);
                            } else {
                                assert(ids@.take(idx + 1)[idx as int] == uid);
                                assert(files@[j] == f);
                            }
                        }
                        assert forall|a: int, b: int| 0 <= a < b < srcs.len() implies srcs[a]
                            != srcs[b] by {
                            if b == srcs.len() - 1 {
                                assert(ids@.take(idx as int).contains(srcs0[a]));
                            } else {
                                assert(srcs0[a] != srcs0[b]);
                            }
                        }
                        assert forall|a: int| 0 <= a < idx + 1 && (#[trigger] old(self).task(
                            ids@[a] as int,
                        ).kind.content_file_id()) is Some implies files@.contains(
                            old(self).task(ids@[a] as int).kind.content_file_id()->0,
                        ) by {
                            if a < idx {
                                let g = old(self).task(ids@[a] as int).kind.content_file_id()->0;
                                assert(files0.contains(g));
                                let j = choose|j: int|
                                    0 <= j < files0.len() && (#[trigger] files0[j]) == g;
                                assert(files@[j] == g);
                            } else {
                                assert(files@[files@.len() - 1] == f);
                            }
                        }
                    }
                },
                None => {
                    proof {
                        assert forall|j: int| 0 <= j < srcs.len() implies ids@.take(
                            idx + 1,
                        ).contains(#[trigger] srcs[j]) && old(self).task(
                            srcs[j] as int,
                        ).kind.content_file_id() == Some(files@[j]) by {
                            assert(ids@.take(idx as int).contains(srcs[j]));
                            let c = choose|c: int|
                                0 <= c < idx && (#[trigger] ids@.take(idx as int)[c]) == srcs[j];
                            assert(ids@.take(idx + 1)[c] == srcs[j]);
                        }
                        assert forall|a: int| 0 <= a < idx + 1 && (#[trigger] old(self).task(
                            ids@[a] as int,
                        ).kind.content_file_id()) is Some implies files@.contains(
                            old(self).task(ids@[a] as int).kind.content_file_id()->0,
                        ) by {
                            if a < idx {
                            } else {
                                assert(old(self).task(uid as int).kind.content_file_id() is None);
                            }
                        }
                    }
                },
            }
            t.status = Status::Canceled;
            t.canceled_by = Some(cancel_task_uid);
            if t.finished_at.is_none() {
                t.finished_at = Some(now);
            }
            proof {
                assert(t@ == canceled_model(old(self).task(uid as int), cancel_task_uid, now));
                assert(Self::update_admissible(self.task(uid as int), t@));
            }
            proof {
                assert(t@.uid == uid);
            }
            let ghost pre = *self;
            let res = self.update_task(&t);
            proof {
                assert(self.task(uid as int) == t@);
                assert forall|x: u32| (x as int) < old(self).n_tasks() implies (
                #[trigger] self.task(x as int)) == (if ids@.take(idx + 1).contains(x) {
                    canceled_model(old(self).task(x as int), cancel_task_uid, now)
                } else {
                    old(self).task(x as int)
                }) by {
                    if x != uid {
                        assert(self.all_tasks@[x as int] == pre.all_tasks@[x as int]);
                        assert(self.task(x as int) == pre.task(x as int));
                        assert(pre.task(x as int) == (if ids@.take(idx as int).contains(x) {
                            canceled_model(old(self).task(x as int), cancel_task_uid, now)
                        } else {
                            old(self).task(x as int)
                        }));
                    }
                    if ids@.take(idx + 1).contains(x) {
                        let a = choose|a: int|
                            0 <= a < idx + 1 && (#[trigger] ids@.take(idx + 1)[a]) == x;
                        if a < idx {
                            assert(ids@.take(idx as int)[a] == x);
                            assert(x != uid) by {
                                assert(ids@[a] < ids@[idx as int]);
                            }
                        }
                    } else {
                        assert(!ids@.take(idx as int).contains(x)) by {
                            if ids@.take(idx as int).contains(x) {
                                let a = choose|a: int|
                                    0 <= a < idx && (#[trigger] ids@.take(idx as int)[a]) == x;
                                assert(ids@.take(idx + 1)[a] == x);
                            }
                        }
                        assert(x != uid) by {
                            if x == uid {
                                assert(ids@.take(idx + 1)[idx as int] == uid);
                            }
                        }
                    }
                }
            }
        }
        proof {
            assert forall|x: u32| (x as int) < old(self).n_tasks() implies (#[trigger] self.task(
                x as int,
            )) == (if cset.contains(x) {
                canceled_model(old(self).task(x as int), cancel_task_uid, now)
            } else {
                old(self).task(x as int)
            }) by {
                assert(ids@.take(n as int) =~= ids@);
                if cset.contains(x) {
                    assert(ids@.contains(x));
                }
                if ids@.contains(x) {
                    let a = choose|a: int| 0 <= a < n && (#[trigger] ids@[a]) == x;
                    assert(cset.contains(x));
                }
            }
            assert forall|j: int| 0 <= j < files@.len() implies file_of_canceled(
                *old(self),
                elems(*matched_tasks),
                #[trigger] files@[j],
            ) by {
                assert(ids@.take(n as int).contains(srcs[j]));
                assert(ids@.take(n as int) =~= ids@);
                let c = choose|c: int| 0 <= c < n && (#[trigger] ids@[c]) == srcs[j];
                assert(cset.contains(srcs[j]));
                assert(old(self).task(srcs[j] as int).kind.content_file_id() == Some(files@[j]));
            }
            assert forall|a: int, b: int| 0 <= a < b < files@.len() implies files@[a]
                != files@[b] by {
                assert(ids@.take(n as int) =~= ids@);
                assert(ids@.contains(srcs[a]) && ids@.contains(srcs[b]));
                let ca = choose|c: int| 0 <= c < n && (#[trigger] ids@[c]) == srcs[a];
                let cb = choose|c: int| 0 <= c < n && (#[trigger] ids@[c]) == srcs[b];
                assert(cset.contains(srcs[a]) && cset.contains(srcs[b]));
                assert(old(self).live(srcs[a]) && old(self).live(srcs[b]));
                assert(old(self).task(srcs[a] as int).kind.content_file_id() != old(self).task(
                    srcs[b] as int,
                ).kind.content_file_id());
            }
            assert forall|x: u32| cset.contains(x) && (#[trigger] old(self).task(
                x as int,
            ).kind.content_file_id()) is Some implies files@.contains(
                old(self).task(x as int).kind.content_file_id()->0,
            ) by {
                assert(ids@.contains(x));
                let a = choose|a: int| 0 <= a < n && (#[trigger] ids@[a]) == x;
            }
        }
        (count, files)
    }

    /// Removes every matched task that is neither enqueued nor processing:
    /// its record and all its secondary-index memberships disappear and the
    /// uid is retired. Returns how many tasks were deleted. (spec §4.4)
    #[verifier::rlimit(100)]
    #[verifier::spinoff_prover]
    pub fn delete_matched_tasks(&mut self, matched_tasks: &RoaringBitmap) -> (r: u64)
        requires
            old(self).wf(),
        ensures
            final(self).wf(),
            final(self).n_tasks() == old(self).n_tasks(),
            final(self).all_tasks == old(self).all_tasks,
            final(self).file_store == old(self).file_store,
            final(self).indexes == old(self).indexes,
            final(self).autobatching_enabled == old(self).autobatching_enabled,
            final(self).must_stop_processing == old(self).must_stop_processing,
            ({
                let td = Set::new(
                    |x: u32|
                        old(self).live(x) && elems(*matched_tasks).contains(x) && !old(
                            self,
                        ).status_set(Status::Enqueued).contains(x) && !old(self).status_set(
                            Status::Processing,
                        ).contains(x),
                );
                &&& r == td.len()
                &&& forall|x: u32| #[trigger] final(self).live(x) == (old(self).live(x) && !td.contains(x))
            }),
    {
        let all = self.all_task_ids();
        let mut td = rb_and(&all, matched_tasks);
        let enq = self.get_status(Status::Enqueued);
        let proc = self.get_status(Status::Processing);
        rb_sub_assign(&mut td, &enq);
        rb_sub_assign(&mut td, &proc);
        let ghost tdset = elems(td);
        proof {
            assert forall|x: u32| #[trigger] tdset.contains(x) == (old(self).live(x) && elems(
                *matched_tasks,
            ).contains(x) && !old(self).status_set(Status::Enqueued).contains(x) && !old(
                self,
            ).status_set(Status::Processing).contains(x)) by {
                assert(elems(all).contains(x) == old(self).live(x));
            }
            assert(tdset =~= Set::new(
                |x: u32|
                    old(self).live(x) && elems(*matched_tasks).contains(x) && !old(
                        self,
                    ).status_set(Status::Enqueued).contains(x) && !old(self).status_set(
                        Status::Processing,
                    ).contains(x),
            ));
        }
        let count = rb_len(&td);
        purge_slots(&mut self.statuses, &td);
        purge_slots(&mut self.kinds, &td);
        purge_string_map(&mut self.index_tasks, &td);
        purge_time_map(&mut self.enqueued_at, &td);
        purge_time_map(&mut self.started_at, &td);
        purge_time_map(&mut self.finished_at, &td);
        rb_or_assign(&mut self.deleted, &td);
        proof {
            let post = *self;
            let prior = *old(self);
            assert forall|x: u32| #[trigger] post.live(x) == (prior.live(x) && !tdset.contains(
                x,
            )) by {}
            assert(post.wf_counts()) by {
                assert forall|x: u32| elems(post.deleted).contains(x) implies (x as int)
                    < post.n_tasks() by {
                    if elems(prior.deleted).contains(x) {
                    } else {
                        assert(tdset.contains(x));
                    }
                }
            }
            assert(post.wf_dense()) by {
                assert forall|i: int| 0 <= i < post.n_tasks() implies (#[trigger] post.task(
                    i,
                )).uid == i by {
                    assert(post.task(i) == prior.task(i));
                }
            }
            assert(post.wf_status()) by {
                assert forall|j: int, x: u32| 0 <= j < STATUS_COUNT implies ((#[trigger] elems(
                    post.statuses@[j],
                ).contains(x)) <==> (post.live(x) && post.task(x as int).status.rank_spec() == j))
                    by {
                    assert(elems(post.statuses@[j]) == elems(prior.statuses@[j]).difference(
                        elems(td),
                    ));
                    assert(elems(prior.statuses@[j]).contains(x) <==> (prior.live(x) && prior.task(
                        x as int,
                    ).status.rank_spec() == j));
                    if (x as int) < post.n_tasks() {
                        assert(post.task(x as int) == prior.task(x as int));
                    }
                }
            }
            assert(post.wf_kind()) by {
                assert forall|j: int, x: u32| 0 <= j < KIND_COUNT implies ((#[trigger] elems(
                    post.kinds@[j],
                ).contains(x)) <==> (post.live(x) && post.task(x as int).kind.tag().rank_spec()
                    == j)) by {
                    assert(elems(post.kinds@[j]) == elems(prior.kinds@[j]).difference(elems(td)));
                    assert(elems(prior.kinds@[j]).contains(x) <==> (prior.live(x) && prior.task(
                        x as int,
                    ).kind.tag().rank_spec() == j));
                    if (x as int) < post.n_tasks() {
                        assert(post.task(x as int) == prior.task(x as int));
                    }
                }
            }
            assert(post.wf_index()) by {
                assert forall|u: Seq<char>, x: u32| #[trigger] skey_set(
                    post.index_tasks@,
                    u,
                ).contains(x) implies (post.live(x) && post.task(
                    x as int,
                ).kind.index_uids().contains(u)) by {
                    assert(skey_set(post.index_tasks@, u) == skey_set(
                        prior.index_tasks@,
                        u,
                    ).difference(elems(td)));
                    assert(skey_set(prior.index_tasks@, u).contains(x));
                    assert(post.task(x as int) == prior.task(x as int));
                }
                assert forall|x: u32, j: int| post.live(x) && 0 <= j < post.task(
                    x as int,
                ).kind.index_uids().len() implies skey_set(
                    post.index_tasks@,
                    #[trigger] post.task(x as int).kind.index_uids()[j],
                ).contains(x) by {
                    let u = post.task(x as int).kind.index_uids()[j];
                    assert(post.task(x as int) == prior.task(x as int));
                    assert(prior.live(x));
                    assert(skey_set(prior.index_tasks@, u).contains(x));
                    assert(skey_set(post.index_tasks@, u) == skey_set(
                        prior.index_tasks@,
                        u,
                    ).difference(elems(td)));
                }
            }
            assert(post.wf_time()) by {
                let fe = |t: TaskModel| Some(t.enqueued_at);
                assert forall|t: i128, x: u32| #[trigger] tkey_set(
                    post.enqueued_at@,
                    t,
                ).contains(x) implies (post.live(x) && fe(post.task(x as int)) == Some(t)) by {
                    assert(tkey_set(post.enqueued_at@, t) == tkey_set(
                        prior.enqueued_at@,
                        t,
                    ).difference(tdset));
                    assert(tkey_set(prior.enqueued_at@, t).contains(x));
                    assert(prior.live(x));
                    assert(post.task(x as int) == prior.task(x as int));
                }
                assert forall|x: u32| post.live(x) && (#[trigger] fe(
                    post.task(x as int),
                )) is Some implies tkey_set(post.enqueued_at@, fe(post.task(x as int))->0).contains(
                    x,
                ) by {
                    assert(prior.live(x) && !tdset.contains(x));
                    assert(post.task(x as int) == prior.task(x as int));
                    assert(tkey_set(prior.enqueued_at@, fe(prior.task(x as int))->0).contains(x));
                    assert(tkey_set(post.enqueued_at@, fe(prior.task(x as int))->0) == tkey_set(
                        prior.enqueued_at@,
                        fe(prior.task(x as int))->0,
                    ).difference(tdset));
                }
                let fs = |t: TaskModel| t.started_at;
                assert forall|t: i128, x: u32| #[trigger] tkey_set(
                    post.started_at@,
                    t,
                ).contains(x) implies (post.live(x) && fs(post.task(x as int)) == Some(t)) by {
                    assert(tkey_set(post.started_at@, t) == tkey_set(
                        prior.started_at@,
                        t,
                    ).difference(tdset));
                    assert(tkey_set(prior.started_at@, t).contains(x));
                    assert(prior.live(x));
                    assert(post.task(x as int) == prior.task(x as int));
                }
                assert forall|x: u32| post.live(x) && (#[trigger] fs(
                    post.task(x as int),
                )) is Some implies tkey_set(post.started_at@, fs(post.task(x as int))->0).contains(
                    x,
                ) by {
                    assert(prior.live(x) && !tdset.contains(x));
                    assert(post.task(x as int) == prior.task(x as int));
                    assert(fs(prior.task(x as int)) is Some);
                    assert(tkey_set(prior.started_at@, fs(prior.task(x as int))->0).contains(x));
                    assert(tkey_set(post.started_at@, fs(prior.task(x as int))->0) == tkey_set(
                        prior.started_at@,
                        fs(prior.task(x as int))->0,
                    ).difference(tdset));
                }
                let ff = |t: TaskModel| t.finished_at;
                assert forall|t: i128, x: u32| #[trigger] tkey_set(
                    post.finished_at@,
                    t,
                ).contains(x) implies (post.live(x) && ff(post.task(x as int)) == Some(t)) by {
                    assert(tkey_set(post.finished_at@, t) == tkey_set(
                        prior.finished_at@,
                        t,
                    ).difference(tdset));
                    assert(tkey_set(prior.finished_at@, t).contains(x));
                    assert(prior.live(x));
                    assert(post.task(x as int) == prior.task(x as int));
                }
                assert forall|x: u32| post.live(x) && (#[trigger] ff(
                    post.task(x as int),
                )) is Some implies tkey_set(post.finished_at@, ff(post.task(x as int))->0).contains(
                    x,
                ) by {
                    assert(prior.live(x) && !tdset.contains(x));
                    assert(post.task(x as int) == prior.task(x as int));
                    assert(ff(prior.task(x as int)) is Some);
                    assert(tkey_set(prior.finished_at@, ff(prior.task(x as int))->0).contains(x));
                    assert(tkey_set(post.finished_at@, ff(prior.task(x as int))->0) == tkey_set(
                        prior.finished_at@,
                        ff(prior.task(x as int))->0,
                    ).difference(tdset));
                }
            }
            assert(post.wf_files()) by {
                assert(post.file_store == prior.file_store);
                assert(post.files() == prior.files());
                assert forall|i: int, j: int| 0 <= i < j < post.files().len() implies post.files()[
                    i
                ] != post.files()[j] by {
                    assert(prior.files()[i] != prior.files()[j]);
                }
                assert forall|x: u32, y: u32| (x as int) < post.n_tasks() && (y as int)
                    < post.n_tasks() && x != y && (#[trigger] post.task(
                    x as int,
                ).kind.content_file_id()) is Some implies post.task(
                    x as int,
                ).kind.content_file_id() != #[trigger] post.task(
                    y as int,
                ).kind.content_file_id() by {
                    assert(post.task(x as int) == prior.task(x as int));
                    assert(post.task(y as int) == prior.task(y as int));
                }
                assert forall|f: u128| post.files().contains(f) implies exists|x: u32|
                    post.live(x) && (#[trigger] post.task(x as int).kind.content_file_id())
                        == Some(f) && !post.task(x as int).status.is_terminal() by {
                    let x = choose|x: u32|
                        prior.live(x) && (#[trigger] prior.task(x as int).kind.content_file_id())
                            == Some(f) && !prior.task(x as int).status.is_terminal();
                    assert(post.task(x as int) == prior.task(x as int));
                    assert(!tdset.contains(x)) by {
                        if tdset.contains(x) {
                            assert(elems(prior.statuses@[Status::Enqueued.rank_spec()]).contains(
                                x,
                            ) <==> (prior.live(x) && prior.task(x as int).status.rank_spec()
                                == Status::Enqueued.rank_spec()));
                            assert(elems(prior.statuses@[Status::Processing.rank_spec()]).contains(
                                x,
                            ) <==> (prior.live(x) && prior.task(x as int).status.rank_spec()
                                == Status::Processing.rank_spec()));
                            assert(prior.task(x as int).status.is_terminal());
                        }
                    }
                    assert(post.live(x));
                }
                assert forall|f: u128| (exists|x: u32|
                    post.live(x) && (#[trigger] post.task(x as int).kind.content_file_id())
                        == Some(f) && !post.task(x as int).status.is_terminal()) implies post.files(
                ).contains(f) by {
                    let x = choose|x: u32|
                        post.live(x) && (#[trigger] post.task(x as int).kind.content_file_id())
                            == Some(f) && !post.task(x as int).status.is_terminal();
                    assert(prior.live(x));
                    assert(post.task(x as int) == prior.task(x as int));
                    assert(prior.files().contains(f));
                }
            }
            assert(post.wf_indexes());
        }
        count
    }
}


impl IndexScheduler {
    /// The tasks affected by a swap `(l, r)` executed by the task with uid
    /// `task_id`: every earlier task that mentions either side.
    pub open spec fn swap_affected(self, task_id: TaskId, l: Seq<char>, r: Seq<char>, x: u32) -> bool {
        self.live(x) && x < task_id && (self.task(x as int).kind.index_uids().contains(l)
            || self.task(x as int).kind.index_uids().contains(r))
    }

    /// Swaps two indexes: rewrites every mention of either name in earlier
    /// task records, rebuilds the two per-index bitmaps, and exchanges the
    /// mapper entries. Fails without effect when either index is missing.
    /// (spec §4.4)
    #[verifier::rlimit(100)]
    #[verifier::spinoff_prover]
    pub fn apply_index_swap(&mut self, task_id: TaskId, lhs: &String, rhs: &String) -> (r: Result<
        (),
        Error,
    >)
        requires
            old(self).wf(),
            lhs@ != rhs@,
        ensures
            final(self).wf(),
            !old(self).has_index(lhs@) ==> (r matches Err(e) && (e matches Error::IndexNotFound(u)
                && u@ == lhs@) && *final(self) == *old(self)),
            (old(self).has_index(lhs@) && !old(self).has_index(rhs@)) ==> (r matches Err(e) && (
            e matches Error::IndexNotFound(u) && u@ == rhs@) && *final(self) == *old(self)),
            (old(self).has_index(lhs@) && old(self).has_index(rhs@)) ==> ({
                &&& r is Ok
                &&& final(self).n_tasks() == old(self).n_tasks()
                &&& final(self).deleted == old(self).deleted
                &&& final(self).file_store == old(self).file_store
                &&& forall|x: u32|
                    (x as int) < old(self).n_tasks() ==> (#[trigger] final(self).task(x as int))
                        == (if old(self).swap_affected(task_id, lhs@, rhs@, x) {
                        swapped_model(old(self).task(x as int), lhs@, rhs@)
                    } else {
                        old(self).task(x as int)
                    })
                &&& final(self).index_pk(lhs@) == old(self).index_pk(rhs@)
                &&& final(self).index_pk(rhs@) == old(self).index_pk(lhs@)
                &&& final(self).index_docs(lhs@) == old(self).index_docs(rhs@)
                &&& final(self).index_docs(rhs@) == old(self).index_docs(lhs@)
            }),
    {
        if !self.index_exists(lhs) {
            return Err(Error::IndexNotFound(lhs.clone()));
        }
        if !self.index_exists(rhs) {
            return Err(Error::IndexNotFound(rhs.clone()));
        }
        let left = self.index_tasks(lhs);
        let right = self.index_tasks(rhs);
        let mut affected = crate::bitmaps::rb_or(&left, &right);
        crate::bitmaps::rb_remove_from(&mut affected, task_id);
        proof {
            assert forall|x: u32| #[trigger] elems(affected).contains(x) == old(
                self,
            ).swap_affected(task_id, lhs@, rhs@, x) by {
                if elems(affected).contains(x) {
                    assert(old(self).index_set(lhs@).contains(x) || old(self).index_set(
                        rhs@,
                    ).contains(x));
                }
                if old(self).swap_affected(task_id, lhs@, rhs@, x) {
                    assert(old(self).index_set(lhs@).contains(x) || old(self).index_set(
                        rhs@,
                    ).contains(x));
                }
            }
        }
        let ids = rb_to_vec(&affected);
        let ghost prior = *self;
        let n: usize = ids.len();
        for idx in 0..n
            invariant
                prior == *old(self),
                prior.wf(),
                lhs@ != rhs@,
                n == ids@.len(),
                forall|j: int|
                    0 <= j < n ==> prior.swap_affected(task_id, lhs@, rhs@, #[trigger] ids@[j]),
                forall|x: u32|
                    prior.swap_affected(task_id, lhs@, rhs@, x) ==> ids@.contains(x),
                forall|a: int, b: int| 0 <= a < b < n ==> ids@[a] < ids@[b],
                self.n_tasks() == prior.n_tasks(),
                self.statuses == prior.statuses,
                self.kinds == prior.kinds,
                self.index_tasks == prior.index_tasks,
                self.enqueued_at == prior.enqueued_at,
                self.started_at == prior.started_at,
                self.finished_at == prior.finished_at,
                self.deleted == prior.deleted,
                self.file_store == prior.file_store,
                self.indexes == prior.indexes,
                self.autobatching_enabled == prior.autobatching_enabled,
                self.must_stop_processing == prior.must_stop_processing,
                forall|x: u32|
                    (x as int) < prior.n_tasks() ==> (#[trigger] self.task(x as int)) == (
                    if ids@.take(idx as int).contains(x) {
                        swapped_model(prior.task(x as int), lhs@, rhs@)
                    } else {
                        prior.task(x as int)
                    }),
        {
            let uid = ids[idx];
            proof {
                assert(prior.swap_affected(task_id, lhs@, rhs@, uid));
                assert(!ids@.take(idx as int).contains(uid)) by {
                    if ids@.take(idx as int).contains(uid) {
                        let a = choose|a: int|
                            0 <= a < idx && (#[trigger] ids@.take(idx as int)[a]) == uid;
                        assert(ids@[a] < ids@[idx as int]);
                    }
                }
                assert(self.task(uid as int) == prior.task(uid as int));
            }
            let mut t = self.all_tasks[uid as usize].duplicate();
            crate::task::swap_index_uid_in_task(&mut t, lhs, rhs);
            proof {
                assert(t@ == swapped_model(prior.task(uid as int), lhs@, rhs@));
            }
            let ghost pre = *self;
            self.all_tasks[uid as usize] = t;
            proof {
                assert(self.task(uid as int) == t@);
                assert forall|x: u32| (x as int) < prior.n_tasks() implies (#[trigger] self.task(
                    x as int,
                )) == (if ids@.take(idx + 1).contains(x) {
                    swapped_model(prior.task(x as int), lhs@, rhs@)
                } else {
                    prior.task(x as int)
                }) by {
                    if x != uid {
                        assert(self.all_tasks@[x as int] == pre.all_tasks@[x as int]);
                        assert(self.task(x as int) == pre.task(x as int));
                        assert(pre.task(x as int) == (if ids@.take(idx as int).contains(x) {
                            swapped_model(prior.task(x as int), lhs@, rhs@)
                        } else {
                            prior.task(x as int)
                        }));
                    }
                    if ids@.take(idx + 1).contains(x) {
                        let a = choose|a: int|
                            0 <= a < idx + 1 && (#[trigger] ids@.take(idx + 1)[a]) == x;
                        if a < idx {
                            assert(ids@.take(idx as int)[a] == x);
                            assert(x != uid) by {
                                assert(ids@[a] < ids@[idx as int]);
                            }
                        }
                    } else {
                        assert(!ids@.take(idx as int).contains(x)) by {
                            if ids@.take(idx as int).contains(x) {
                                let a = choose|a: int|
                                    0 <= a < idx && (#[trigger] ids@.take(idx as int)[a]) == x;
                                assert(ids@.take(idx + 1)[a] == x);
                            }
                        }
                        assert(x != uid) by {
                            if x == uid {
                                assert(ids@.take(idx + 1)[idx as int] == uid);
                            }
                        }
                    }
                }
            }
        }
        proof {
            assert(ids@.take(n as int) =~= ids@);
            assert forall|x: u32| (x as int) < prior.n_tasks() implies (#[trigger] self.task(
                x as int,
            )) == (if prior.swap_affected(task_id, lhs@, rhs@, x) {
                swapped_model(prior.task(x as int), lhs@, rhs@)
            } else {
                prior.task(x as int)
            }) by {
                if ids@.contains(x) {
                    let a = choose|a: int| 0 <= a < n && (#[trigger] ids@[a]) == x;
                }
            }
            assert forall|x: u32| (x as int) < self.n_tasks() implies {
                &&& (#[trigger] self.task(x as int)).status == prior.task(x as int).status
                &&& self.task(x as int).uid == prior.task(x as int).uid
                &&& self.task(x as int).enqueued_at == prior.task(x as int).enqueued_at
                &&& self.task(x as int).started_at == prior.task(x as int).started_at
                &&& self.task(x as int).finished_at == prior.task(x as int).finished_at
                &&& self.task(x as int).kind.tag() == prior.task(x as int).kind.tag()
                &&& self.task(x as int).kind.content_file_id() == prior.task(
                    x as int,
                ).kind.content_file_id()
            } by {
                if prior.swap_affected(task_id, lhs@, rhs@, x) {
                    lemma_swap_kind(prior.task(x as int).kind, lhs@, rhs@);
                }
            }
        }
        proof {
            assert(self.wf_counts()) by {
                assert(self.statuses@.len() == prior.statuses@.len());
                assert(self.kinds@.len() == prior.kinds@.len());
                assert(forall|x: u32|
                    elems(self.deleted).contains(x) ==> (x as int) < self.n_tasks());
            }
            assert(skeys_unique(self.index_tasks@));
            assert(self.wf_indexes());
        }
        let ghost mid = *self;
        let left_new = self.build_index_bitmap(lhs);
        let right_new = self.build_index_bitmap(rhs);
        self.index_map_set(lhs, left_new);
        self.index_map_set(rhs, right_new);
        let dl = match self.mapper_get(lhs) {
            Some(d) => d,
            None => IndexData { primary_key: None, number_of_documents: 0 },
        };
        let dr = match self.mapper_get(rhs) {
            Some(d) => d,
            None => IndexData { primary_key: None, number_of_documents: 0 },
        };
        self.mapper_set(lhs, dr);
        self.mapper_set(rhs, dl);
        proof {
            let post = *self;
            assert(post.n_tasks() == prior.n_tasks());
            assert(post.deleted == prior.deleted);
            assert(forall|x: u32| #[trigger] post.live(x) == prior.live(x));
            assert(forall|x: u32|
                (x as int) < post.n_tasks() ==> #[trigger] post.task(x as int) == mid.task(
                    x as int,
                ));
            // statuses, kinds and timestamps are untouched, and the rewritten
            // kinds keep their tags, files and timestamps
            assert(post.wf_counts());
            assert(post.wf_dense()) by {
                assert forall|i: int| 0 <= i < post.n_tasks() implies (#[trigger] post.task(
                    i,
                )).uid == i by {
                    assert(post.task(i).uid == prior.task(i).uid);
                }
            }
            assert(post.wf_status()) by {
                assert forall|j: int, x: u32| 0 <= j < STATUS_COUNT implies ((#[trigger] elems(
                    post.statuses@[j],
                ).contains(x)) <==> (post.live(x) && post.task(x as int).status.rank_spec() == j))
                    by {
                    assert(post.statuses@[j] == prior.statuses@[j]);
                    assert(elems(prior.statuses@[j]).contains(x) <==> (prior.live(x) && prior.task(
                        x as int,
                    ).status.rank_spec() == j));
                    if (x as int) < post.n_tasks() {
                        assert(post.task(x as int).status == prior.task(x as int).status);
                    }
                }
            }
            assert(post.wf_kind()) by {
                assert forall|j: int, x: u32| 0 <= j < KIND_COUNT implies ((#[trigger] elems(
                    post.kinds@[j],
                ).contains(x)) <==> (post.live(x) && post.task(x as int).kind.tag().rank_spec()
                    == j)) by {
                    assert(post.kinds@[j] == prior.kinds@[j]);
                    assert(elems(prior.kinds@[j]).contains(x) <==> (prior.live(x) && prior.task(
                        x as int,
                    ).kind.tag().rank_spec() == j));
                    if (x as int) < post.n_tasks() {
                        assert(post.task(x as int).kind.tag() == prior.task(x as int).kind.tag());
                    }
                }
            }
            assert(post.wf_index()) by {
                assert forall|u: Seq<char>, x: u32| #[trigger] skey_set(
                    post.index_tasks@,
                    u,
                ).contains(x) implies (post.live(x) && post.task(
                    x as int,
                ).kind.index_uids().contains(u)) by {
                    if u == lhs@ {
                        assert(skey_set(post.index_tasks@, u) == elems(left_new));
                    } else if u == rhs@ {
                        assert(skey_set(post.index_tasks@, u) == elems(right_new));
                    } else {
                        assert(skey_set(post.index_tasks@, u) == skey_set(prior.index_tasks@, u));
                        assert(prior.live(x) && prior.task(x as int).kind.index_uids().contains(
                            u,
                        ));
                        if prior.swap_affected(task_id, lhs@, rhs@, x) {
                            lemma_swap_kind(prior.task(x as int).kind, lhs@, rhs@);
                            assert(crate::task::swap_uid(u, lhs@, rhs@) == u);
                        }
                    }
                }
                assert forall|x: u32, j: int| post.live(x) && 0 <= j < post.task(
                    x as int,
                ).kind.index_uids().len() implies skey_set(
                    post.index_tasks@,
                    #[trigger] post.task(x as int).kind.index_uids()[j],
                ).contains(x) by {
                    let u = post.task(x as int).kind.index_uids()[j];
                    assert(post.task(x as int).kind.index_uids().contains(u));
                    if u == lhs@ {
                        assert(skey_set(post.index_tasks@, u) == elems(left_new));
                    } else if u == rhs@ {
                        assert(skey_set(post.index_tasks@, u) == elems(right_new));
                    } else {
                        assert(skey_set(post.index_tasks@, u) == skey_set(prior.index_tasks@, u));
                        if prior.swap_affected(task_id, lhs@, rhs@, x) {
                            lemma_swap_kind(prior.task(x as int).kind, lhs@, rhs@);
                            assert(prior.task(x as int).kind.index_uids().contains(
                                crate::task::swap_uid(u, lhs@, rhs@),
                            ));
                            assert(crate::task::swap_uid(u, lhs@, rhs@) == u);
                        } else {
                            assert(prior.task(x as int).kind.index_uids().contains(u));
                        }
                    }
                }
            }
            assert(post.wf_time()) by {
                let fe = |t: TaskModel| Some(t.enqueued_at);
                let fs = |t: TaskModel| t.started_at;
                let ff = |t: TaskModel| t.finished_at;
                assert(post.enqueued_at == prior.enqueued_at);
                assert(post.started_at == prior.started_at);
                assert(post.finished_at == prior.finished_at);
                assert forall|t: i128, x: u32| #[trigger] tkey_set(
                    post.enqueued_at@,
                    t,
                ).contains(x) implies (post.live(x) && fe(post.task(x as int)) == Some(t)) by {
                    assert(tkey_set(prior.enqueued_at@, t).contains(x));
                    assert(fe(post.task(x as int)) == fe(prior.task(x as int)));
                }
                assert forall|x: u32| post.live(x) && (#[trigger] fe(
                    post.task(x as int),
                )) is Some implies tkey_set(post.enqueued_at@, fe(post.task(x as int))->0).contains(
                    x,
                ) by {
                    assert(fe(post.task(x as int)) == fe(prior.task(x as int)));
                }
                assert forall|t: i128, x: u32| #[trigger] tkey_set(
                    post.started_at@,
                    t,
                ).contains(x) implies (post.live(x) && fs(post.task(x as int)) == Some(t)) by {
                    assert(tkey_set(prior.started_at@, t).contains(x));
                    assert(fs(post.task(x as int)) == fs(prior.task(x as int)));
                }
                assert forall|x: u32| post.live(x) && (#[trigger] fs(
                    post.task(x as int),
                )) is Some implies tkey_set(post.started_at@, fs(post.task(x as int))->0).contains(
                    x,
                ) by {
                    assert(fs(post.task(x as int)) == fs(prior.task(x as int)));
                    assert(fs(prior.task(x as int)) is Some);
                }
                assert forall|t: i128, x: u32| #[trigger] tkey_set(
                    post.finished_at@,
                    t,
                ).contains(x) implies (post.live(x) && ff(post.task(x as int)) == Some(t)) by {
                    assert(tkey_set(prior.finished_at@, t).contains(x));
                    assert(ff(post.task(x as int)) == ff(prior.task(x as int)));
                }
                assert forall|x: u32| post.live(x) && (#[trigger] ff(
                    post.task(x as int),
                )) is Some implies tkey_set(post.finished_at@, ff(post.task(x as int))->0).contains(
                    x,
                ) by {
                    assert(ff(post.task(x as int)) == ff(prior.task(x as int)));
                    assert(ff(prior.task(x as int)) is Some);
                }
            }
            assert(post.wf_files()) by {
                assert(post.file_store == prior.file_store);
                assert(post.files() == prior.files());
                assert forall|i: int, j: int| 0 <= i < j < post.files().len() implies post.files()[
                    i
                ] != post.files()[j] by {
                    assert(prior.files()[i] != prior.files()[j]);
                }
                assert forall|x: u32, y: u32| (x as int) < post.n_tasks() && (y as int)
                    < post.n_tasks() && x != y && (#[trigger] post.task(
                    x as int,
                ).kind.content_file_id()) is Some implies post.task(
                    x as int,
                ).kind.content_file_id() != #[trigger] post.task(
                    y as int,
                ).kind.content_file_id() by {
                    assert(post.task(x as int).kind.content_file_id() == prior.task(
                        x as int,
                    ).kind.content_file_id());
                    assert(post.task(y as int).kind.content_file_id() == prior.task(
                        y as int,
                    ).kind.content_file_id());
                }
                assert forall|f: u128| post.files().contains(f) implies exists|x: u32|
                    post.live(x) && (#[trigger] post.task(x as int).kind.content_file_id())
                        == Some(f) && !post.task(x as int).status.is_terminal() by {
                    let x = choose|x: u32|
                        prior.live(x) && (#[trigger] prior.task(x as int).kind.content_file_id())
                            == Some(f) && !prior.task(x as int).status.is_terminal();
                    assert(post.task(x as int).kind.content_file_id() == prior.task(
                        x as int,
                    ).kind.content_file_id());
                    assert(post.task(x as int).status == prior.task(x as int).status);
                }
                assert forall|f: u128| (exists|x: u32|
                    post.live(x) && (#[trigger] post.task(x as int).kind.content_file_id())
                        == Some(f) && !post.task(x as int).status.is_terminal()) implies post.files(
                ).contains(f) by {
                    let x = choose|x: u32|
                        post.live(x) && (#[trigger] post.task(x as int).kind.content_file_id())
                            == Some(f) && !post.task(x as int).status.is_terminal();
                    assert(prior.task(x as int).kind.content_file_id() == post.task(
                        x as int,
                    ).kind.content_file_id());
                    assert(prior.task(x as int).status == post.task(x as int).status);
                    assert(prior.files().contains(f));
                }
            }
            assert(post.wf_indexes());
        }
        Ok(())
    }
}



/// `u64` addition that sticks at the maximum instead of wrapping.
pub open spec fn sat_add(a: u64, b: u64) -> u64 {
    if a + b > u64::MAX {
        u64::MAX
    } else {
        (a + b) as u64
    }
}

/// The saturating sum of a sequence of counts.
pub open spec fn sum_sat(s: Seq<u64>) -> u64
    decreases s.len(),
{
    if s.len() == 0 {
        0
    } else {
        sat_add(sum_sat(s.drop_last()), s.last())
    }
}

/// Whether some task before position `j` is a document clear.
pub open spec fn any_clear_before(ts: Seq<TaskModel>, j: int) -> bool
    decreases j,
{
    if j <= 0 {
        false
    } else {
        any_clear_before(ts, j - 1) || ts[j - 1].kind is DocumentClear
    }
}

/// The outcome of task `j` of a clear batch: the first clear task is
/// credited with the whole document count, later clears with zero, and
/// absorbed tasks of other kinds get fresh initial details.
pub open spec fn clear_outcome(ts: Seq<TaskModel>, j: int, count: u64) -> TaskModel {
    TaskModel {
        status: Status::Succeeded,
        details: if ts[j].kind is DocumentClear {
            Some(
                crate::task::DetailsModel::ClearAll {
                    deleted_documents: Some(
                        if any_clear_before(ts, j) {
                            0
                        } else {
                            count
                        },
                    ),
                },
            )
        } else {
            ts[j].kind.initial_details()
        },
        ..ts[j]
    }
}

/// The outcome of task `j` of an import batch: additions are credited with
/// their own document count; an absorbed creation task gets its finished
/// details.
pub open spec fn import_outcome(t: TaskModel) -> TaskModel {
    TaskModel {
        status: Status::Succeeded,
        details: match t.kind {
            KindModel::DocumentAdditionOrUpdate { documents_count, .. } => Some(
                crate::task::DetailsModel::DocumentAdditionOrUpdate {
                    received_documents: documents_count,
                    indexed_documents: Some(documents_count),
                },
            ),
            _ => t.kind.finished_details(),
        },
        ..t
    }
}

/// The outcome of task `j` of a deletion batch: in this model document ids
/// are not tracked, so nothing countable is removed.
pub open spec fn deletion_outcome(t: TaskModel) -> TaskModel {
    TaskModel {
        status: Status::Succeeded,
        details: match t.kind {
            KindModel::DocumentDeletion { documents_ids, .. } => Some(
                crate::task::DetailsModel::DocumentDeletion {
                    received_document_ids: documents_ids.len() as usize,
                    deleted_documents: Some(0),
                },
            ),
            _ => t.kind.finished_details(),
        },
        ..t
    }
}

/// The outcome of a settings task: applied, with its payload echoed.
pub open spec fn settings_outcome(t: TaskModel) -> TaskModel {
    TaskModel { status: Status::Succeeded, details: t.kind.initial_details(), ..t }
}

/// The records an index operation hands back, in batch order, given the
/// pre-state `s` (the clear count reads the index's document count).
pub open spec fn op_outcomes(s: IndexScheduler, op: IndexOperation) -> Seq<TaskModel> {
    match op {
        IndexOperation::DocumentClear { index_uid, tasks } => Seq::new(
            tasks@.len(),
            |j: int| clear_outcome(models_of(tasks@), j, s.index_docs(index_uid@)),
        ),
        IndexOperation::DocumentImport { tasks, .. } => Seq::new(
            tasks@.len(),
            |j: int| import_outcome(tasks@[j]@),
        ),
        IndexOperation::DocumentDeletion { tasks, .. } => Seq::new(
            tasks@.len(),
            |j: int| deletion_outcome(tasks@[j]@),
        ),
        IndexOperation::Settings { tasks, .. } => Seq::new(
            tasks@.len(),
            |j: int| settings_outcome(tasks@[j]@),
        ),
        IndexOperation::DocumentClearAndSetting { index_uid, cleared_tasks, settings_tasks, .. } =>
            Seq::new(
            cleared_tasks@.len(),
            |j: int| clear_outcome(models_of(cleared_tasks@), j, s.index_docs(index_uid@)),
        ) + Seq::new(settings_tasks@.len(), |j: int| settings_outcome(settings_tasks@[j]@)),
        IndexOperation::SettingsAndDocumentImport {
            document_import_tasks, settings_tasks, ..
        } => Seq::new(
            document_import_tasks@.len(),
            |j: int| import_outcome(document_import_tasks@[j]@),
        ) + Seq::new(settings_tasks@.len(), |j: int| settings_outcome(settings_tasks@[j]@)),
    }
}

/// The index's document count after the operation.
pub open spec fn op_docs_after(s: IndexScheduler, op: IndexOperation, u: Seq<char>) -> u64 {
    match op {
        IndexOperation::DocumentClear { .. } => 0,
        IndexOperation::DocumentClearAndSetting { .. } => 0,
        IndexOperation::DocumentImport { documents_counts, .. } => if s.has_index(u) {
            sat_add(s.index_docs(u), sum_sat(documents_counts@))
        } else {
            0
        },
        IndexOperation::SettingsAndDocumentImport { documents_counts, .. } => if s.has_index(u) {
            sat_add(s.index_docs(u), sum_sat(documents_counts@))
        } else {
            0
        },
        _ => s.index_docs(u),
    }
}

/// The index's primary key after the operation: an import sets the batch's
/// declared key when the index had none.
pub open spec fn op_pk_after(s: IndexScheduler, op: IndexOperation, u: Seq<char>) -> Option<
    Seq<char>,
> {
    match op {
        IndexOperation::DocumentImport { primary_key, .. } => if s.has_index(u) && s.index_pk(u)
            is None {
            primary_key.deep_view()
        } else {
            s.index_pk(u)
        },
        IndexOperation::SettingsAndDocumentImport { primary_key, .. } => if s.has_index(u)
            && s.index_pk(u) is None {
            primary_key.deep_view()
        } else {
            s.index_pk(u)
        },
        _ => s.index_pk(u),
    }
}

/// Composite operations sit one level above the simple ones.
pub open spec fn op_nesting(op: IndexOperation) -> int {
    match op {
        IndexOperation::DocumentClearAndSetting { .. } => 1,
        IndexOperation::SettingsAndDocumentImport { .. } => 1,
        _ => 0,
    }
}

impl IndexScheduler {
    /// Whether a computed task record can be committed over the stored one:
    /// the stored task exists and the rewrite is admissible. Everything the
    /// admissibility condition needs is concrete data, so it is checked at
    /// run time before each commit.
    fn can_commit(&self, t: &Task) -> (r: bool)
        requires
            self.wf(),
        ensures
            r == (self.live(t@.uid) && Self::update_admissible(self.task(t@.uid as int), t@)),
    {
        let uid = t.uid;
        if !((uid as usize) < self.all_tasks.len()) || rb_contains(&self.deleted, uid) {
            return false;
        }
        let stored = &self.all_tasks[uid as usize];
        if stored.uid != t.uid || stored.enqueued_at != t.enqueued_at {
            return false;
        }
        let started_ok = match (stored.started_at, t.started_at) {
            (Some(a), Some(b)) => a == b,
            (Some(a), None) => false,
            (None, _) => true,
        };
        if !started_ok {
            return false;
        }
        let finished_ok = match (stored.finished_at, t.finished_at) {
            (Some(a), Some(b)) => a == b,
            (Some(a), None) => false,
            (None, _) => true,
        };
        if !finished_ok {
            return false;
        }
        if stored.status.terminal() && !(stored.status == t.status) {
            return false;
        }
        if !(stored.kind.as_kind() == t.kind.as_kind()) {
            return false;
        }
        let cf_ok = match (stored.kind.content_uuid(), t.kind.content_uuid()) {
            (Some(a), Some(b)) => a == b,
            (None, None) => true,
            _ => false,
        };
        if !cf_ok {
            return false;
        }
        let ua = stored.kind.indexes();
        let ub = t.kind.indexes();
        if ua.len() != ub.len() {
            proof {
                assert(ua.deep_view().len() == ua@.len());
                assert(ub.deep_view().len() == ub@.len());
                assert(self.task(t@.uid as int).kind.index_uids() != t@.kind.index_uids());
            }
            return false;
        }
        let m: usize = ua.len();
        for i in 0..m
            invariant
                m == ua@.len(),
                ua@.len() == ub@.len(),
                ua.deep_view() == self.task(t@.uid as int).kind.index_uids(),
                ub.deep_view() == t@.kind.index_uids(),
                forall|j: int| 0 <= j < i ==> ua.deep_view()[j] == ub.deep_view()[j],
        {
            if !(ua[i] == ub[i]) {
                proof {
                    assert(ua.deep_view()[i as int] != ub.deep_view()[i as int]);
                }
                return false;
            }
        }
        proof {
            assert(ua.deep_view() =~= ub.deep_view());
        }
        true
    }

    /// Applies a batch of data tasks against the index model: document
    /// counts move, the primary key is set when first provided, and every
    /// task of the batch is marked with its outcome. In this model the
    /// engine itself is out of scope, so document-level outcomes always
    /// succeed and deletions by id remove nothing countable. (spec §4.4)
    pub fn apply_index_operation(&mut self, op: IndexOperation) -> (r: Vec<Task>)
        requires
            old(self).wf(),
        ensures
            final(self).wf(),
            final(self).eq_except_indexes(*old(self)),
            forall|j: int|
                0 <= j < r@.len() ==> (#[trigger] r@[j]@).status == Status::Succeeded,
            uids_of(r@) == op.ids_spec(),
            models_of(r@) == op_outcomes(*old(self), op),
            forall|k: Seq<char>|
                #[trigger] final(self).has_index(k) == old(self).has_index(k),
            final(self).index_docs(op_index(op)) == op_docs_after(*old(self), op, op_index(op)),
            final(self).index_pk(op_index(op)) == op_pk_after(*old(self), op, op_index(op)),
            forall|k: Seq<char>|
                k != op_index(op) ==> #[trigger] final(self).index_docs(k) == old(self).index_docs(
                    k,
                ),
            forall|k: Seq<char>|
                k != op_index(op) ==> #[trigger] final(self).index_pk(k) == old(self).index_pk(k),
        decreases op_nesting(op),
    {
        let ghost gop = op;
        let ghost pre = *old(self);
        match op {
            IndexOperation::DocumentClear { index_uid, tasks } => {
                let count = match self.mapper_get(&index_uid) {
                    Some(d) => {
                        let cleared = IndexData {
                            primary_key: d.primary_key,
                            number_of_documents: 0,
                        };
                        let old_count = d.number_of_documents;
                        self.mapper_set(&index_uid, cleared);
                        proof {
                            Self::lemma_wf_except_indexes_pub(pre, *self);
                        }
                        old_count
                    },
                    None => 0,
                };
                proof {
                    assert(count == pre.index_docs(index_uid@));
                    assert(self.index_docs(index_uid@) == 0);
                    assert(self.index_pk(index_uid@) == pre.index_pk(index_uid@));
                }
                let ghost models = models_of(tasks@);
                let mut out: Vec<Task> = Vec::new();
                let mut first_clear_found = false;
                let n: usize = tasks.len();
                for i in 0..n
                    invariant
                        n == tasks@.len(),
                        models == models_of(tasks@),
                        out@.len() == i,
                        first_clear_found == any_clear_before(models, i as int),
                        forall|j: int|
                            0 <= j < i ==> (#[trigger] out@[j])@ == clear_outcome(
                                models,
                                j,
                                count,
                            ),
                {
                    let mut t = tasks[i].duplicate();
                    t.status = Status::Succeeded;
                    t.details = match &t.kind {
                        KindWithContent::DocumentClear { .. } => {
                            let c = if first_clear_found {
                                0
                            } else {
                                count
                            };
                            first_clear_found = true;
                            Some(Details::ClearAll { deleted_documents: Some(c) })
                        },
                        _ => t.kind.default_details(),
                    };
                    out.push(t);
                    proof {
                        assert(out@[i as int]@ == clear_outcome(models, i as int, count));
                    }
                }
                proof {
                    assert(uids_of(out@) =~= uids_of(tasks@));
                    assert(uids_of(out@) == gop.ids_spec());
                    assert(models_of(out@) =~= op_outcomes(pre, gop));
                }
                out
            },
            IndexOperation::DocumentImport {
                index_uid, primary_key, method, documents_counts, content_files, tasks,
            } => {
                match self.mapper_get(&index_uid) {
                    Some(d) => {
                        let new_pk = match (&d.primary_key, &primary_key) {
                            (None, Some(pk)) => Some(pk.clone()),
                            (Some(pk), _) => Some(pk.clone()),
                            (None, None) => None,
                        };
                        let mut total: u64 = 0;
                        let m: usize = documents_counts.len();
                        for i in 0..m
                            invariant
                                m == documents_counts@.len(),
                                total == sum_sat(documents_counts@.take(i as int)),
                        {
                            total = total.saturating_add(documents_counts[i]);
                            proof {
                                assert(documents_counts@.take(i + 1).drop_last()
                                    =~= documents_counts@.take(i as int));
                                assert(documents_counts@.take(i + 1).last()
                                    == documents_counts@[i as int]);
                            }
                        }
                        proof {
                            assert(documents_counts@.take(m as int) =~= documents_counts@);
                        }
                        let updated = IndexData {
                            primary_key: new_pk,
                            number_of_documents: d.number_of_documents.saturating_add(total),
                        };
                        self.mapper_set(&index_uid, updated);
                        proof {
                            Self::lemma_wf_except_indexes_pub(pre, *self);
                            assert(self.index_docs(index_uid@) == sat_add(
                                pre.index_docs(index_uid@),
                                sum_sat(documents_counts@),
                            ));
                        }
                    },
                    None => {},
                };
                proof {
                    if !pre.has_index(index_uid@) {
                        assert(self.index_docs(index_uid@) == 0);
                        assert(self.index_pk(index_uid@) is None);
                    }
                }
                let ghost models = models_of(tasks@);
                let mut out: Vec<Task> = Vec::new();
                let n: usize = tasks.len();
                for i in 0..n
                    invariant
                        n == tasks@.len(),
                        models == models_of(tasks@),
                        out@.len() == i,
                        forall|j: int|
                            0 <= j < i ==> (#[trigger] out@[j])@ == import_outcome(models[j]),
                {
                    let mut t = tasks[i].duplicate();
                    t.status = Status::Succeeded;
                    t.details = match &t.kind {
                        KindWithContent::DocumentAdditionOrUpdate { documents_count, .. } => Some(
                            Details::DocumentAdditionOrUpdate {
                                received_documents: *documents_count,
                                indexed_documents: Some(*documents_count),
                            },
                        ),
                        _ => t.kind.default_finished_details(),
                    };
                    out.push(t);
                    proof {
                        assert(out@[i as int]@ == import_outcome(models[i as int]));
                    }
                }
                proof {
                    assert(uids_of(out@) =~= uids_of(tasks@));
                    assert(uids_of(out@) == gop.ids_spec());
                    assert(models_of(out@) =~= op_outcomes(pre, gop));
                }
                out
            },
            IndexOperation::DocumentDeletion { index_uid, documents, tasks } => {
                let ghost models = models_of(tasks@);
                let mut out: Vec<Task> = Vec::new();
                let n: usize = tasks.len();
                for i in 0..n
                    invariant
                        n == tasks@.len(),
                        models == models_of(tasks@),
                        out@.len() == i,
                        forall|j: int|
                            0 <= j < i ==> (#[trigger] out@[j])@ == deletion_outcome(models[j]),
                {
                    let mut t = tasks[i].duplicate();
                    t.status = Status::Succeeded;
                    t.details = match &t.kind {
                        KindWithContent::DocumentDeletion { documents_ids, .. } => Some(
                            Details::DocumentDeletion {
                                received_document_ids: documents_ids.len(),
                                deleted_documents: Some(0),
                            },
                        ),
                        _ => t.kind.default_finished_details(),
                    };
                    out.push(t);
                    proof {
                        assert(out@[i as int]@ == deletion_outcome(models[i as int]));
                    }
                }
                proof {
                    assert(uids_of(out@) =~= uids_of(tasks@));
                    assert(uids_of(out@) == gop.ids_spec());
                    assert(models_of(out@) =~= op_outcomes(pre, gop));
                    assert forall|k: Seq<char>| #[trigger] self.has_index(k) == pre.has_index(
                        k,
                    ) by {}
                    assert forall|k: Seq<char>| #[trigger] self.index_docs(k) == pre.index_docs(
                        k,
                    ) && self.index_pk(k) == pre.index_pk(k) by {}
                }
                out
            },
            IndexOperation::Settings { index_uid, settings, tasks } => {
                let ghost models = models_of(tasks@);
                let mut out: Vec<Task> = Vec::new();
                let n: usize = tasks.len();
                for i in 0..n
                    invariant
                        n == tasks@.len(),
                        models == models_of(tasks@),
                        out@.len() == i,
                        forall|j: int|
                            0 <= j < i ==> (#[trigger] out@[j])@ == settings_outcome(models[j]),
                {
                    let mut t = tasks[i].duplicate();
                    t.status = Status::Succeeded;
                    t.details = t.kind.default_details();
                    out.push(t);
                    proof {
                        assert(out@[i as int]@ == settings_outcome(models[i as int]));
                    }
                }
                proof {
                    assert(uids_of(out@) =~= uids_of(tasks@));
                    assert(uids_of(out@) == gop.ids_spec());
                    assert(models_of(out@) =~= op_outcomes(pre, gop));
                    assert forall|k: Seq<char>| #[trigger] self.has_index(k) == pre.has_index(
                        k,
                    ) by {}
                    assert forall|k: Seq<char>| #[trigger] self.index_docs(k) == pre.index_docs(
                        k,
                    ) && self.index_pk(k) == pre.index_pk(k) by {}
                }
                out
            },
            IndexOperation::DocumentClearAndSetting {
                index_uid, cleared_tasks, settings_tasks, settings,
            } => {
                let ghost gu = index_uid@;
                let mut out = self.apply_index_operation(
                    IndexOperation::DocumentClear {
                        index_uid: index_uid.clone(),
                        tasks: cleared_tasks,
                    },
                );
                let ghost mid = *self;
                let ghost cleared_out = out@;
                let mut more = self.apply_index_operation(
                    IndexOperation::Settings { index_uid, settings, tasks: settings_tasks },
                );
                let ghost more_out = more@;
                out.append(&mut more);
                proof {
                    assert(uids_of(out@) =~= uids_of(cleared_out) + uids_of(more_out));
                    assert(uids_of(out@) == gop.ids_spec());
                    assert(models_of(out@) =~= models_of(cleared_out) + models_of(more_out));
                    assert(models_of(out@) =~= op_outcomes(pre, gop));
                    assert(mid.index_docs(gu) == 0 && mid.index_pk(gu) == pre.index_pk(gu));
                    assert(self.index_docs(gu) == mid.index_docs(gu) && self.index_pk(gu)
                        == mid.index_pk(gu));
                    assert forall|k: Seq<char>| k != gu implies #[trigger] self.index_docs(k)
                        == pre.index_docs(k) && self.index_pk(k) == pre.index_pk(k) by {
                        assert(mid.index_docs(k) == pre.index_docs(k) && mid.index_pk(k)
                            == pre.index_pk(k));
                    }
                }
                out
            },
            IndexOperation::SettingsAndDocumentImport {
                index_uid,
                primary_key,
                method,
                documents_counts,
                content_files,
                document_import_tasks,
                settings,
                settings_tasks,
            } => {
                let ghost gu = index_uid@;
                let settings_done = self.apply_index_operation(
                    IndexOperation::Settings {
                        index_uid: index_uid.clone(),
                        settings,
                        tasks: settings_tasks,
                    },
                );
                let ghost mid = *self;
                let ghost settings_out = settings_done@;
                let mut out = self.apply_index_operation(
                    IndexOperation::DocumentImport {
                        index_uid,
                        primary_key,
                        method,
                        documents_counts,
                        content_files,
                        tasks: document_import_tasks,
                    },
                );
                let ghost import_out = out@;
                let mut more = settings_done;
                out.append(&mut more);
                proof {
                    assert(uids_of(out@) =~= uids_of(import_out) + uids_of(settings_out));
                    assert(uids_of(out@) == gop.ids_spec());
                    assert(models_of(out@) =~= models_of(import_out) + models_of(settings_out));
                    assert(models_of(out@) =~= op_outcomes(pre, gop));
                    assert(mid.index_docs(gu) == pre.index_docs(gu) && mid.index_pk(gu)
                        == pre.index_pk(gu) && mid.has_index(gu) == pre.has_index(gu));
                    assert forall|k: Seq<char>| k != gu implies #[trigger] self.index_docs(k)
                        == pre.index_docs(k) && self.index_pk(k) == pre.index_pk(k) by {
                        assert(mid.index_docs(k) == pre.index_docs(k) && mid.index_pk(k)
                            == pre.index_pk(k));
                    }
                }
                out
            },
        }
    }

    /// Public entry to the invariant-transfer lemma for mapper-only changes.
    pub proof fn lemma_wf_except_indexes_pub(a: IndexScheduler, b: IndexScheduler)
        requires
            a.wf(),
            b.eq_except_indexes(a),
            b.wf_indexes(),
        ensures
            b.wf(),
    {
        Self::lemma_wf_except_indexes(a, b);
    }
}

/// The index uid an operation targets.
pub open spec fn op_index(op: IndexOperation) -> Seq<char> {
    match op {
        IndexOperation::DocumentImport { index_uid, .. } => index_uid@,
        IndexOperation::DocumentDeletion { index_uid, .. } => index_uid@,
        IndexOperation::DocumentClear { index_uid, .. } => index_uid@,
        IndexOperation::Settings { index_uid, .. } => index_uid@,
        IndexOperation::DocumentClearAndSetting { index_uid, .. } => index_uid@,
        IndexOperation::SettingsAndDocumentImport { index_uid, .. } => index_uid@,
    }
}

/// The document count of a freshly created index after the operation.
pub open spec fn op_docs_from_empty(op: IndexOperation) -> u64 {
    match op {
        IndexOperation::DocumentImport { documents_counts, .. } => sum_sat(documents_counts@),
        IndexOperation::SettingsAndDocumentImport { documents_counts, .. } => sum_sat(
            documents_counts@,
        ),
        _ => 0,
    }
}

/// The primary key of a freshly created index after the operation.
pub open spec fn op_pk_from_empty(op: IndexOperation) -> Option<Seq<char>> {
    match op {
        IndexOperation::DocumentImport { primary_key, .. } => primary_key.deep_view(),
        IndexOperation::SettingsAndDocumentImport { primary_key, .. } => primary_key.deep_view(),
        _ => None,
    }
}

/// The hydrated records an index operation carries, in batch order.
pub open spec fn op_tasks(op: IndexOperation) -> Seq<TaskModel> {
    match op {
        IndexOperation::DocumentImport { tasks, .. } => models_of(tasks@),
        IndexOperation::DocumentDeletion { tasks, .. } => models_of(tasks@),
        IndexOperation::DocumentClear { tasks, .. } => models_of(tasks@),
        IndexOperation::Settings { tasks, .. } => models_of(tasks@),
        IndexOperation::DocumentClearAndSetting { cleared_tasks, settings_tasks, .. } => models_of(
            cleared_tasks@,
        ) + models_of(settings_tasks@),
        IndexOperation::SettingsAndDocumentImport { document_import_tasks, settings_tasks, .. } =>
            models_of(document_import_tasks@) + models_of(settings_tasks@),
    }
}

/// The same records, all marked with one terminal status.
pub open spec fn all_with_status(ts: Seq<TaskModel>, status: Status) -> Seq<TaskModel> {
    Seq::new(ts.len(), |j: int| TaskModel { status, ..ts[j] })
}

/// A cancelation task's details once its canceled count is known.
pub open spec fn cancel_details_done(d: Option<crate::task::DetailsModel>, count: u64) -> Option<
    crate::task::DetailsModel,
> {
    match d {
        Some(
            crate::task::DetailsModel::TaskCancelation { matched_tasks, canceled_tasks, original_query },
        ) => Some(
            crate::task::DetailsModel::TaskCancelation {
                matched_tasks,
                canceled_tasks: Some(count),
                original_query,
            },
        ),
        other => other,
    }
}

/// A deletion task's details once its deleted count is known.
pub open spec fn delete_details_done(d: Option<crate::task::DetailsModel>, count: u64) -> Option<
    crate::task::DetailsModel,
> {
    match d {
        Some(
            crate::task::DetailsModel::TaskDeletion { matched_tasks, deleted_tasks, original_query },
        ) => Some(
            crate::task::DetailsModel::TaskDeletion {
                matched_tasks,
                deleted_tasks: Some(count),
                original_query,
            },
        ),
        other => other,
    }
}

impl IndexScheduler {
    /// Marks a batch of control tasks with one terminal status and fresh
    /// details, without touching the store.
    fn finish_tasks(tasks: &Vec<Task>, status: Status) -> (r: Vec<Task>)
        ensures
            r@.len() == tasks@.len(),
            forall|j: int| 0 <= j < r@.len() ==> (#[trigger] r@[j]@).status == status,
            forall|j: int| 0 <= j < r@.len() ==> (#[trigger] r@[j]).uid == tasks@[j].uid,
            models_of(r@) == all_with_status(models_of(tasks@), status),
    {
        let mut out: Vec<Task> = Vec::new();
        let n: usize = tasks.len();
        for i in 0..n
            invariant
                n == tasks@.len(),
                out@.len() == i,
                forall|j: int| 0 <= j < i ==> (#[trigger] out@[j]@).status == status,
                forall|j: int| 0 <= j < i ==> (#[trigger] out@[j]).uid == tasks@[j].uid,
                forall|j: int|
                    0 <= j < i ==> (#[trigger] out@[j])@ == (TaskModel {
                        status,
                        ..tasks@[j]@
                    }),
        {
            let mut t = tasks[i].duplicate();
            t.status = status;
            out.push(t);
        }
        proof {
            assert(models_of(out@) =~= all_with_status(models_of(tasks@), status));
        }
        out
    }

    /// Applies one batch: runs its operation against the queue and the index
    /// model and returns the batch's tasks with their outcome recorded,
    /// ready to be committed. Index-level failures (a missing or an already
    /// existing index) are recorded on the tasks, never raised. (spec §4.4)
    #[verifier::rlimit(100)]
    #[verifier::spinoff_prover]
    pub fn process_batch(&mut self, batch: Batch, now: i128) -> (r: Result<Vec<Task>, Error>)
        requires
            old(self).wf(),
        ensures
            final(self).wf(),
            r matches Ok(ts) ==> forall|j: int|
                0 <= j < ts@.len() ==> (#[trigger] ts@[j]@).status.is_terminal(),
            r matches Ok(ts) ==> uids_of(ts@) == batch.ids_spec(),
            r matches Err(e) ==> e is CorruptedTaskQueue,
            match batch {
                Batch::TaskCancelation(t) => match t@.kind {
                    KindModel::TaskCancelation { tasks: mset, .. } => ({
                        let cset = old(self).status_set(Status::Enqueued).intersect(
                            mset.remove(t.uid),
                        );
                        &&& r matches Ok(ts) && ts@.len() == 1 && ts@[0]@ == (TaskModel {
                            status: Status::Succeeded,
                            details: cancel_details_done(t@.details, cset.len() as u64),
                            ..t@
                        })
                        &&& final(self).n_tasks() == old(self).n_tasks()
                        &&& final(self).deleted == old(self).deleted
                        &&& forall|x: u32|
                            (x as int) < old(self).n_tasks() ==> (#[trigger] final(self).task(
                                x as int,
                            )) == (if cset.contains(x) {
                                canceled_model(old(self).task(x as int), t.uid, now)
                            } else {
                                old(self).task(x as int)
                            })
                    }),
                    _ => r matches Err(e) && e is CorruptedTaskQueue && *final(self) == *old(self),
                },
                Batch::TaskDeletion(t) => match t@.kind {
                    KindModel::TaskDeletion { tasks: mset, .. } => ({
                        let td = Set::new(
                            |x: u32|
                                old(self).live(x) && mset.contains(x) && !old(self).status_set(
                                    Status::Enqueued,
                                ).contains(x) && !old(self).status_set(
                                    Status::Processing,
                                ).contains(x),
                        );
                        &&& r matches Ok(ts) && ts@.len() == 1 && ts@[0]@ == (TaskModel {
                            status: Status::Succeeded,
                            details: delete_details_done(t@.details, td.len() as u64),
                            ..t@
                        })
                        &&& final(self).all_tasks == old(self).all_tasks
                        &&& forall|x: u32|
                            #[trigger] final(self).live(x) == (old(self).live(x) && !td.contains(
                                x,
                            ))
                    }),
                    _ => r matches Err(e) && e is CorruptedTaskQueue && *final(self) == *old(self),
                },
                Batch::Snapshot(tasks) => r matches Ok(ts) && models_of(ts@) == all_with_status(
                    models_of(tasks@),
                    Status::Succeeded,
                ) && *final(self) == *old(self),
                Batch::Dump(t) => r matches Ok(ts) && ts@.len() == 1 && ts@[0]@ == (TaskModel {
                    status: Status::Succeeded,
                    ..t@
                }) && *final(self) == *old(self),
                Batch::IndexOperation { op, must_create_index } => ({
                    let u = op_index(op);
                    if old(self).has_index(u) {
                        &&& r matches Ok(ts) && models_of(ts@) == op_outcomes(*old(self), op)
                        &&& forall|k: Seq<char>|
                            #[trigger] final(self).has_index(k) == old(self).has_index(k)
                        &&& final(self).index_docs(u) == op_docs_after(*old(self), op, u)
                        &&& final(self).index_pk(u) == op_pk_after(*old(self), op, u)
                        &&& forall|k: Seq<char>|
                            k != u ==> #[trigger] final(self).index_docs(k) == old(
                                self,
                            ).index_docs(k) && final(self).index_pk(k) == old(self).index_pk(k)
                    } else if must_create_index {
                        &&& r matches Ok(ts) && models_of(ts@) == op_outcomes(*old(self), op)
                        &&& forall|k: Seq<char>|
                            #[trigger] final(self).has_index(k) == (old(self).has_index(k) || k
                                == u)
                        &&& final(self).index_docs(u) == op_docs_from_empty(op)
                        &&& final(self).index_pk(u) == op_pk_from_empty(op)
                        &&& forall|k: Seq<char>|
                            k != u ==> #[trigger] final(self).index_docs(k) == old(
                                self,
                            ).index_docs(k) && final(self).index_pk(k) == old(self).index_pk(k)
                    } else {
                        &&& r matches Ok(ts) && models_of(ts@) == all_with_status(
                            op_tasks(op),
                            Status::Failed,
                        )
                        &&& *final(self) == *old(self)
                    }
                }),
                Batch::IndexCreation { index_uid, primary_key, task } => if old(self).has_index(
                    index_uid@,
                ) {
                    r matches Ok(ts) && ts@.len() == 1 && ts@[0]@ == (TaskModel {
                        status: Status::Failed,
                        error: Some(index_uid@),
                        ..task@
                    }) && *final(self) == *old(self)
                } else {
                    &&& r matches Ok(ts) && ts@.len() == 1 && ts@[0]@ == (TaskModel {
                        status: Status::Succeeded,
                        details: Some(
                            crate::task::DetailsModel::IndexInfo {
                                primary_key: primary_key.deep_view(),
                            },
                        ),
                        ..task@
                    })
                    &&& forall|k: Seq<char>|
                        #[trigger] final(self).has_index(k) == (old(self).has_index(k) || k
                            == index_uid@)
                    &&& final(self).index_pk(index_uid@) == primary_key.deep_view()
                    &&& final(self).index_docs(index_uid@) == 0
                    &&& forall|k: Seq<char>|
                        k != index_uid@ ==> #[trigger] final(self).index_docs(k) == old(
                            self,
                        ).index_docs(k) && final(self).index_pk(k) == old(self).index_pk(k)
                },
                Batch::IndexUpdate { index_uid, primary_key, task } => if old(self).has_index(
                    index_uid@,
                ) {
                    &&& r matches Ok(ts) && ts@.len() == 1 && ts@[0]@ == (TaskModel {
                        status: Status::Succeeded,
                        details: Some(
                            crate::task::DetailsModel::IndexInfo {
                                primary_key: primary_key.deep_view(),
                            },
                        ),
                        ..task@
                    })
                    &&& forall|k: Seq<char>|
                        #[trigger] final(self).has_index(k) == old(self).has_index(k)
                    &&& final(self).index_pk(index_uid@) == (if primary_key is Some {
                        primary_key.deep_view()
                    } else {
                        old(self).index_pk(index_uid@)
                    })
                    &&& final(self).index_docs(index_uid@) == old(self).index_docs(index_uid@)
                    &&& forall|k: Seq<char>|
                        k != index_uid@ ==> #[trigger] final(self).index_docs(k) == old(
                            self,
                        ).index_docs(k) && final(self).index_pk(k) == old(self).index_pk(k)
                } else {
                    r matches Ok(ts) && ts@.len() == 1 && ts@[0]@ == (TaskModel {
                        status: Status::Failed,
                        error: Some(index_uid@),
                        ..task@
                    }) && *final(self) == *old(self)
                },
                Batch::IndexDeletion { index_uid, tasks, index_has_been_created } => if old(
                    self,
                ).has_index(index_uid@) || index_has_been_created {
                    &&& r matches Ok(ts) && models_of(ts@) == Seq::new(
                        tasks@.len(),
                        |j: int| TaskModel {
                            status: Status::Succeeded,
                            details: if models_of(tasks@)[j].kind is IndexDeletion {
                                Some(
                                    crate::task::DetailsModel::ClearAll {
                                        deleted_documents: Some(old(self).index_docs(index_uid@)),
                                    },
                                )
                            } else {
                                models_of(tasks@)[j].kind.finished_details()
                            },
                            ..models_of(tasks@)[j]
                        },
                    )
                    &&& forall|k: Seq<char>|
                        #[trigger] final(self).has_index(k) == (old(self).has_index(k) && k
                            != index_uid@)
                    &&& forall|k: Seq<char>|
                        k != index_uid@ ==> #[trigger] final(self).index_docs(k) == old(
                            self,
                        ).index_docs(k) && final(self).index_pk(k) == old(self).index_pk(k)
                } else {
                    r matches Ok(ts) && models_of(ts@) == all_with_status(
                        models_of(tasks@),
                        Status::Failed,
                    ) && *final(self) == *old(self)
                },
                Batch::IndexSwap { task } => match task@.kind {
                    KindModel::IndexSwap { .. } => r matches Ok(ts) && ts@.len() == 1
                        && ts@[0].uid == task.uid && ts@[0]@.status.is_terminal(),
                    _ => r matches Err(e) && e is CorruptedTaskQueue && *final(self) == *old(
                        self,
                    ),
                },
            },
    {
        let ghost gbatch = batch;
        match batch {
            Batch::TaskCancelation(task) => {
                let ghost t0 = task;
                let mut task = task;
                let own = task.uid;
                let matched = match &task.kind {
                    KindWithContent::TaskCancelation { tasks, .. } => rb_clone(tasks),
                    _ => {
                        return Err(Error::CorruptedTaskQueue);
                    },
                };
                let mut matched = matched;
                crate::bitmaps::rb_remove(&mut matched, own);
                let (count, _files) = self.cancel_matched_tasks(own, &matched, now);
                task.status = Status::Succeeded;
                task.details = match task.details {
                    Some(Details::TaskCancelation { matched_tasks, canceled_tasks, original_query }) =>
                        Some(
                            Details::TaskCancelation {
                                matched_tasks,
                                canceled_tasks: Some(count),
                                original_query,
                            },
                        ),
                    other => other,
                };
                let mut out: Vec<Task> = Vec::new();
                out.push(task);
                proof {
                    assert(uids_of(out@) =~= gbatch.ids_spec());
                    assert(out@[0]@ == (TaskModel {
                        status: Status::Succeeded,
                        details: cancel_details_done(
                            t0@.details,
                            old(self).status_set(Status::Enqueued).intersect(
                                (match t0@.kind {
                                    KindModel::TaskCancelation { tasks: mset, .. } => mset,
                                    _ => Set::empty(),
                                }).remove(t0.uid),
                            ).len() as u64,
                        ),
                        ..t0@
                    }));
                }
                return Ok(out);
            },
            Batch::TaskDeletion(task) => {
                let ghost t0 = task;
                let mut task = task;
                let matched = match &task.kind {
                    KindWithContent::TaskDeletion { tasks, .. } => rb_clone(tasks),
                    _ => {
                        return Err(Error::CorruptedTaskQueue);
                    },
                };
                let ghost mel = elems(matched);
                let count = self.delete_matched_tasks(&matched);
                proof {
                    assert(Set::new(
                        |x: u32|
                            old(self).live(x) && mel.contains(x) && !old(self).status_set(
                                Status::Enqueued,
                            ).contains(x) && !old(self).status_set(Status::Processing).contains(
                                x,
                            ),
                    ) =~= Set::new(
                        |x: u32|
                            old(self).live(x) && (match t0@.kind {
                                KindModel::TaskDeletion { tasks: mset, .. } => mset,
                                _ => Set::empty(),
                            }).contains(x) && !old(self).status_set(Status::Enqueued).contains(x)
                                && !old(self).status_set(Status::Processing).contains(x),
                    ));
                }
                task.status = Status::Succeeded;
                task.details = match task.details {
                    Some(Details::TaskDeletion { matched_tasks, deleted_tasks, original_query }) =>
                        Some(
                            Details::TaskDeletion {
                                matched_tasks,
                                deleted_tasks: Some(count),
                                original_query,
                            },
                        ),
                    other => other,
                };
                let mut out: Vec<Task> = Vec::new();
                out.push(task);
                proof {
                    assert(uids_of(out@) =~= gbatch.ids_spec());
                    assert(out@[0]@ == (TaskModel {
                        status: Status::Succeeded,
                        details: delete_details_done(
                            t0@.details,
                            Set::new(
                                |x: u32|
                                    old(self).live(x) && (match t0@.kind {
                                        KindModel::TaskDeletion { tasks: mset, .. } => mset,
                                        _ => Set::empty(),
                                    }).contains(x) && !old(self).status_set(
                                        Status::Enqueued,
                                    ).contains(x) && !old(self).status_set(
                                        Status::Processing,
                                    ).contains(x),
                            ).len() as u64,
                        ),
                        ..t0@
                    }));
                }
                return Ok(out);
            },
            Batch::Snapshot(tasks) => {
                // writing the snapshot itself is outside the model
                let out = Self::finish_tasks(&tasks, Status::Succeeded);
                proof {
                    assert(uids_of(out@) =~= gbatch.ids_spec());
                }
                return Ok(out);
            },
            Batch::Dump(task) => {
                // writing the dump itself is outside the model
                let ghost t0 = task;
                let mut task = task;
                task.status = Status::Succeeded;
                let mut out: Vec<Task> = Vec::new();
                out.push(task);
                proof {
                    assert(uids_of(out@) =~= gbatch.ids_spec());
                    assert(out@[0]@ == (TaskModel { status: Status::Succeeded, ..t0@ }));
                }
                return Ok(out);
            },
            Batch::IndexOperation { op, must_create_index } => {
                let ghost gop = op;
                let uid_owned = op.index_uid().clone();
                proof {
                    assert(uid_owned@ == op_index(gop));
                }
                if must_create_index && !self.index_exists(&uid_owned) {
                    self.mapper_create(&uid_owned);
                    proof {
                        Self::lemma_wf_except_indexes_pub(*old(self), *self);
                    }
                    let ghost created = *self;
                    let out = self.apply_index_operation(op);
                    proof {
                        assert(uids_of(out@) == gop.ids_spec());
                        assert(models_of(out@) == op_outcomes(created, gop));
                        assert(op_outcomes(created, gop) =~= op_outcomes(*old(self), gop)) by {
                            assert(created.index_docs(op_index(gop)) == 0);
                            assert(old(self).index_docs(op_index(gop)) == 0);
                        }
                        assert(self.index_docs(op_index(gop)) == op_docs_from_empty(gop)) by {
                            assert(created.index_docs(op_index(gop)) == 0);
                            assert(created.index_pk(op_index(gop)) is None);
                        }
                        assert(self.index_pk(op_index(gop)) == op_pk_from_empty(gop));
                        assert forall|k: Seq<char>| #[trigger] self.has_index(k) == (old(
                            self,
                        ).has_index(k) || k == op_index(gop)) by {
                            assert(self.has_index(k) == created.has_index(k));
                        }
                        assert forall|k: Seq<char>| k != op_index(gop) implies
                            #[trigger] self.index_docs(k) == old(self).index_docs(k)
                                && self.index_pk(k) == old(self).index_pk(k) by {
                            assert(created.index_pk(k) == old(self).index_pk(k));
                            assert(created.index_docs(k) == old(self).index_docs(k));
                            assert(self.index_pk(k) == created.index_pk(k));
                            assert(self.index_docs(k) == created.index_docs(k));
                        }
                    }
                    return Ok(out);
                } else if !self.index_exists(&uid_owned) {
                    // no index and no permission to create one: the whole
                    // batch fails
                    let failed = match op {
                        IndexOperation::DocumentImport { tasks, .. } => {
                            let out = Self::finish_tasks(&tasks, Status::Failed);
                            proof {
                                assert(models_of(out@) =~= all_with_status(
                                    op_tasks(gop),
                                    Status::Failed,
                                ));
                            }
                            out
                        },
                        IndexOperation::DocumentDeletion { tasks, .. } => {
                            let out = Self::finish_tasks(&tasks, Status::Failed);
                            proof {
                                assert(models_of(out@) =~= all_with_status(
                                    op_tasks(gop),
                                    Status::Failed,
                                ));
                            }
                            out
                        },
                        IndexOperation::DocumentClear { tasks, .. } => {
                            let out = Self::finish_tasks(&tasks, Status::Failed);
                            proof {
                                assert(models_of(out@) =~= all_with_status(
                                    op_tasks(gop),
                                    Status::Failed,
                                ));
                            }
                            out
                        },
                        IndexOperation::Settings { tasks, .. } => {
                            let out = Self::finish_tasks(&tasks, Status::Failed);
                            proof {
                                assert(models_of(out@) =~= all_with_status(
                                    op_tasks(gop),
                                    Status::Failed,
                                ));
                            }
                            out
                        },
                        IndexOperation::DocumentClearAndSetting {
                            cleared_tasks, settings_tasks, ..
                        } => {
                            let mut a = Self::finish_tasks(&cleared_tasks, Status::Failed);
                            let ghost a0 = a@;
                            let mut b = Self::finish_tasks(&settings_tasks, Status::Failed);
                            let ghost b0 = b@;
                            a.append(&mut b);
                            proof {
                                assert(models_of(a@) =~= models_of(a0) + models_of(b0));
                                assert forall|j: int| 0 <= j < a@.len() implies models_of(
                                    a@,
                                )[j] == all_with_status(op_tasks(gop), Status::Failed)[j] by {
                                    if j < a0.len() {
                                        assert(models_of(a0)[j] == all_with_status(
                                            models_of(cleared_tasks@),
                                            Status::Failed,
                                        )[j]);
                                    } else {
                                        assert(models_of(b0)[j - a0.len()] == all_with_status(
                                            models_of(settings_tasks@),
                                            Status::Failed,
                                        )[j - a0.len()]);
                                    }
                                }
                                assert(models_of(a@) =~= all_with_status(
                                    op_tasks(gop),
                                    Status::Failed,
                                ));
                            }
                            a
                        },
                        IndexOperation::SettingsAndDocumentImport {
                            document_import_tasks, settings_tasks, ..
                        } => {
                            let mut a = Self::finish_tasks(&document_import_tasks, Status::Failed);
                            let ghost a0 = a@;
                            let mut b = Self::finish_tasks(&settings_tasks, Status::Failed);
                            let ghost b0 = b@;
                            a.append(&mut b);
                            proof {
                                assert(models_of(a@) =~= models_of(a0) + models_of(b0));
                                assert forall|j: int| 0 <= j < a@.len() implies models_of(
                                    a@,
                                )[j] == all_with_status(op_tasks(gop), Status::Failed)[j] by {
                                    if j < a0.len() {
                                        assert(models_of(a0)[j] == all_with_status(
                                            models_of(document_import_tasks@),
                                            Status::Failed,
                                        )[j]);
                                    } else {
                                        assert(models_of(b0)[j - a0.len()] == all_with_status(
                                            models_of(settings_tasks@),
                                            Status::Failed,
                                        )[j - a0.len()]);
                                    }
                                }
                                assert(models_of(a@) =~= all_with_status(
                                    op_tasks(gop),
                                    Status::Failed,
                                ));
                            }
                            a
                        },
                    };
                    proof {
                        assert(uids_of(failed@) =~= gop.ids_spec()) by {
                            assert forall|j: int| 0 <= j < failed@.len() implies uids_of(
                                failed@,
                            )[j] == gop.ids_spec()[j] by {
                                assert(models_of(failed@)[j] == all_with_status(
                                    op_tasks(gop),
                                    Status::Failed,
                                )[j]);
                            }
                        }
                    }
                    return Ok(failed);
                }
                let out = self.apply_index_operation(op);
                proof {
                    assert(uids_of(out@) == gop.ids_spec());
                    assert(old(self).has_index(op_index(gop)));
                    assert(models_of(out@) == op_outcomes(*old(self), gop));
                    assert(forall|k: Seq<char>|
                        #[trigger] self.has_index(k) == old(self).has_index(k));
                    assert(self.index_docs(op_index(gop)) == op_docs_after(
                        *old(self),
                        gop,
                        op_index(gop),
                    ));
                    assert(self.index_pk(op_index(gop)) == op_pk_after(
                        *old(self),
                        gop,
                        op_index(gop),
                    ));
                    assert(forall|k: Seq<char>|
                        k != op_index(gop) ==> #[trigger] self.index_docs(k) == old(
                            self,
                        ).index_docs(k) && self.index_pk(k) == old(self).index_pk(k));
                    assert forall|j: int| 0 <= j < out@.len() implies (#[trigger] out@[j]@)
                        .status.is_terminal() by {
                        assert(out@[j]@.status == Status::Succeeded);
                    }
                }
                return Ok(out);
            },
            Batch::IndexCreation { index_uid, primary_key, task } => {
                let ghost t0 = task;
                let ghost gu = index_uid@;
                let ghost gpk = primary_key.deep_view();
                let mut task = task;
                if self.index_exists(&index_uid) {
                    task.status = Status::Failed;
                    task.error = Some(index_uid);
                } else {
                    self.mapper_create(&index_uid);
                    proof {
                        Self::lemma_wf_except_indexes_pub(*old(self), *self);
                    }
                    match &primary_key {
                        Some(pk) => {
                            let data = IndexData {
                                primary_key: Some(pk.clone()),
                                number_of_documents: 0,
                            };
                            let ghost mid = *self;
                            self.mapper_set(&index_uid, data);
                            proof {
                                Self::lemma_wf_except_indexes_pub(mid, *self);
                            }
                        },
                        None => {},
                    }
                    task.status = Status::Succeeded;
                    task.details = Some(Details::IndexInfo { primary_key });
                }
                let mut out: Vec<Task> = Vec::new();
                out.push(task);
                proof {
                    assert(uids_of(out@) =~= gbatch.ids_spec());
                    if old(self).has_index(gu) {
                        assert(out@[0]@ == (TaskModel {
                            status: Status::Failed,
                            error: Some(gu),
                            ..t0@
                        }));
                    } else {
                        assert(out@[0]@ == (TaskModel {
                            status: Status::Succeeded,
                            details: Some(
                                crate::task::DetailsModel::IndexInfo { primary_key: gpk },
                            ),
                            ..t0@
                        }));
                    }
                }
                return Ok(out);
            },
            Batch::IndexUpdate { index_uid, primary_key, task } => {
                let ghost t0 = task;
                let ghost gu = index_uid@;
                let ghost gpk = primary_key.deep_view();
                let mut task = task;
                match self.mapper_get(&index_uid) {
                    Some(d) => {
                        match &primary_key {
                            Some(pk) => {
                                let data = IndexData {
                                    primary_key: Some(pk.clone()),
                                    number_of_documents: d.number_of_documents,
                                };
                                self.mapper_set(&index_uid, data);
                                proof {
                                    Self::lemma_wf_except_indexes_pub(*old(self), *self);
                                }
                            },
                            None => {},
                        }
                        task.status = Status::Succeeded;
                        task.details = Some(Details::IndexInfo { primary_key });
                    },
                    None => {
                        task.status = Status::Failed;
                        task.error = Some(index_uid);
                    },
                }
                let mut out: Vec<Task> = Vec::new();
                out.push(task);
                proof {
                    assert(uids_of(out@) =~= gbatch.ids_spec());
                    if old(self).has_index(gu) {
                        assert(out@[0]@ == (TaskModel {
                            status: Status::Succeeded,
                            details: Some(
                                crate::task::DetailsModel::IndexInfo { primary_key: gpk },
                            ),
                            ..t0@
                        }));
                    } else {
                        assert(out@[0]@ == (TaskModel {
                            status: Status::Failed,
                            error: Some(gu),
                            ..t0@
                        }));
                    }
                }
                return Ok(out);
            },
            Batch::IndexDeletion { index_uid, tasks, index_has_been_created } => {
                let ghost gu = index_uid@;
                let count = match self.mapper_get(&index_uid) {
                    Some(d) => d.number_of_documents,
                    None => 0,
                };
                proof {
                    assert(count == old(self).index_docs(gu));
                }
                let existed = self.index_exists(&index_uid);
                if existed {
                    self.mapper_delete(&index_uid);
                    proof {
                        Self::lemma_wf_except_indexes_pub(*old(self), *self);
                    }
                } else if !index_has_been_created {
                    // deleting a missing index that was never created fails
                    // the whole batch
                    let out = Self::finish_tasks(&tasks, Status::Failed);
                    proof {
                        assert(uids_of(out@) =~= gbatch.ids_spec());
                    }
                    return Ok(out);
                }
                let ghost models = models_of(tasks@);
                let mut out: Vec<Task> = Vec::new();
                let n: usize = tasks.len();
                for i in 0..n
                    invariant
                        n == tasks@.len(),
                        models == models_of(tasks@),
                        out@.len() == i,
                        forall|j: int|
                            0 <= j < i ==> (#[trigger] out@[j]@).status == Status::Succeeded,
                        forall|j: int| 0 <= j < i ==> (#[trigger] out@[j]).uid == tasks@[j].uid,
                        forall|j: int|
                            0 <= j < i ==> (#[trigger] out@[j])@ == (TaskModel {
                                status: Status::Succeeded,
                                details: if models[j].kind is IndexDeletion {
                                    Some(
                                        crate::task::DetailsModel::ClearAll {
                                            deleted_documents: Some(count),
                                        },
                                    )
                                } else {
                                    models[j].kind.finished_details()
                                },
                                ..models[j]
                            }),
                {
                    let mut t = tasks[i].duplicate();
                    t.status = Status::Succeeded;
                    t.details = match &t.kind {
                        KindWithContent::IndexDeletion { .. } => Some(
                            Details::ClearAll { deleted_documents: Some(count) },
                        ),
                        _ => t.kind.default_finished_details(),
                    };
                    out.push(t);
                }
                proof {
                    assert(uids_of(out@) =~= gbatch.ids_spec());
                    assert(models_of(out@) =~= Seq::new(
                        tasks@.len(),
                        |j: int| TaskModel {
                            status: Status::Succeeded,
                            details: if models_of(tasks@)[j].kind is IndexDeletion {
                                Some(
                                    crate::task::DetailsModel::ClearAll {
                                        deleted_documents: Some(old(self).index_docs(gu)),
                                    },
                                )
                            } else {
                                models_of(tasks@)[j].kind.finished_details()
                            },
                            ..models_of(tasks@)[j]
                        },
                    ));
                }
                return Ok(out);
            },
            Batch::IndexSwap { task } => {
                let ghost t0 = task;
                let mut task = task;
                let swaps = match &task.kind {
                    KindWithContent::IndexSwap { swaps } => crate::task::clone_string_pairs(swaps),
                    _ => {
                        return Err(Error::CorruptedTaskQueue);
                    },
                };
                let own = task.uid;
                let mut failed = false;
                let n: usize = swaps.len();
                for i in 0..n
                    invariant
                        self.wf(),
                        n == swaps@.len(),
                {
                    if !failed {
                        let l = &swaps[i].0;
                        let r = &swaps[i].1;
                        if *l == *r {
                            failed = true;
                        } else {
                            match self.apply_index_swap(own, l, r) {
                                Ok(()) => {},
                                Err(e) => {
                                    failed = true;
                                },
                            }
                        }
                    }
                }
                if failed {
                    task.status = Status::Failed;
                } else {
                    task.status = Status::Succeeded;
                }
                let mut out: Vec<Task> = Vec::new();
                out.push(task);
                proof {
                    assert(uids_of(out@) =~= gbatch.ids_spec());
                    assert(out@[0].uid == t0.uid);
                    assert(out@[0]@.status.is_terminal());
                }
                return Ok(out);
            },
        }
    }

    /// Sets the cooperative stop flag: the next wake of the scheduler loop
    /// does nothing.
    pub fn stop_processing(&mut self)
        ensures
            *final(self) == (IndexScheduler { must_stop_processing: true, ..*old(self) }),
    {
        self.must_stop_processing = true;
    }

    /// One wake of the scheduler loop: selects the next batch by the fixed
    /// priority, processes it, and commits every resulting task record with
    /// its start and finish time. Returns how many tasks were processed;
    /// zero when the queue is idle or the stop flag is set. (spec §4.3)
    pub fn tick(&mut self, now: i128) -> (r: Result<u64, Error>)
        requires
            old(self).wf(),
        ensures
            final(self).wf(),
            old(self).must_stop_processing ==> (*final(self) == *old(self) && (r matches Ok(c)
                && c == 0)),
            r matches Err(e) ==> e is CorruptedTaskQueue,
            (!old(self).must_stop_processing && old(self).status_set(Status::Enqueued) =~= Set::<
                u32,
            >::empty()) ==> (*final(self) == *old(self) && (r matches Ok(c) && c == 0)),
            (!old(self).must_stop_processing && old(self).status_set(Status::Enqueued) != Set::<
                u32,
            >::empty()) ==> ((r matches Ok(c) && c >= 1) || (r matches Err(e) && e
                is CorruptedTaskQueue)),
    {
        if self.must_stop_processing {
            return Ok(0);
        }
        let batch = match self.create_next_batch() {
            Ok(Some(b)) => b,
            Ok(None) => {
                proof {
                    // a batch is owed whenever anything is enqueued
                    if self.status_set(Status::Enqueued) != Set::<u32>::empty() {
                        assert(false);
                    }
                }
                return Ok(0);
            },
            Err(e) => {
                return Err(e);
            },
        };
        proof {
            // every selected batch holds at least one task
            let enq = self.status_set(Status::Enqueued);
            let cancel = self.kind_set(Kind::TaskCancelation).intersect(enq);
            let del = self.kind_set(Kind::TaskDeletion).intersect(enq);
            let snap = self.kind_set(Kind::Snapshot).intersect(enq);
            let dump = self.kind_set(Kind::DumpCreation).intersect(enq);
            if cancel != Set::<u32>::empty() || (cancel =~= Set::<u32>::empty() && del != Set::<
                u32,
            >::empty()) || (cancel =~= Set::<u32>::empty() && del =~= Set::<u32>::empty() && snap
                != Set::<u32>::empty()) || (cancel =~= Set::<u32>::empty() && del =~= Set::<
                u32,
            >::empty() && snap =~= Set::<u32>::empty() && dump != Set::<u32>::empty()) {
                assert(batch.ids_spec().len() >= 1);
            } else if enq != Set::<u32>::empty() {
                let m = choose|m: u32|
                    {
                        &&& enq.contains(m)
                        &&& (forall|x: u32| enq.contains(x) ==> x >= m)
                        &&& (#[trigger] self.task(m as int)).kind.index_uids().len() > 0
                        &&& exists|bk: BatchKindModel, c: bool|
                            autobatch_spec(
                                self.limited_run(self.task(m as int).kind.index_uids()[0]),
                                self.has_index(self.task(m as int).kind.index_uids()[0]),
                            ) == Some((bk, c)) && #[trigger] self.hydrates(
                                self.task(m as int).kind.index_uids()[0],
                                bk,
                                c,
                                batch,
                            )
                    };
                let uu = self.task(m as int).kind.index_uids()[0];
                let (bk, c) = choose|bk: BatchKindModel, c: bool|
                    autobatch_spec(self.limited_run(uu), self.has_index(uu)) == Some((bk, c))
                        && #[trigger] self.hydrates(uu, bk, c, batch);
                assert(self.live(m));
                assert(self.task(m as int).kind.index_uids().contains(uu));
                self.lemma_run_members(uu, self.n_tasks(), m);
                assert(self.limited_run(uu).len() > 0);
                crate::autobatcher::lemma_autobatch_ids(
                    self.limited_run(uu),
                    self.has_index(uu),
                );
                self.lemma_hydrates_len(uu, bk, c, batch);
                assert(batch.ids_spec().len() >= 1);
            }
        }
        let tasks = match self.process_batch(batch, now) {
            Ok(ts) => ts,
            Err(e) => {
                return Err(e);
            },
        };
        proof {
            assert(uids_of(tasks@).len() == tasks@.len());
        }
        let n: usize = tasks.len();
        for i in 0..n
            invariant
                self.wf(),
                n == tasks@.len(),
        {
            let mut t = tasks[i].duplicate();
            if t.started_at.is_none() {
                t.started_at = Some(now);
            }
            if t.finished_at.is_none() {
                t.finished_at = Some(now);
            }
            if self.can_commit(&t) {
                let _ = self.update_task(&t);
            }
        }
        Ok(n as u64)
    }
}

impl IndexScheduler {
    /// Whether the content file store currently holds the given file.
    pub fn content_file_exists(&self, f: u128) -> (r: bool)
        ensures
            r == self.files().contains(f),
    {
        let n: usize = self.file_store.len();
        for i in 0..n
            invariant
                n == self.file_store@.len(),
                forall|j: int| 0 <= j < i ==> self.file_store@[j] != f,
        {
            if self.file_store[i] == f {
                return true;
            }
        }
        proof {
            if self.files().contains(f) {
                let a = choose|a: int|
                    0 <= a < self.files().len() && (#[trigger] self.files()[a]) == f;
                assert(false);
            }
        }
        false
    }
}

} // verus!
