//! Batch creation: selecting which tasks run next (the scheduler's fixed
//! priority policy) and hydrating an autobatcher decision into a fully
//! resolved batch by reading the task records.

use vstd::prelude::*;
use crate::autobatcher::{autobatch, autobatch_spec, run_model, BatchKind, BatchKindModel};
use crate::bitmaps::{elems, rb_and, rb_is_empty, rb_max, rb_min, rb_to_vec};
use crate::error::Error;
use crate::queue::IndexScheduler;
use crate::task::{
    IndexDocumentsMethod, Kind, KindModel, KindWithContent, Settings, Status, Task, TaskModel,
};
use crate::TaskId;

verus! {

/// A combination of tasks that is processed as one unit.
pub enum Batch {
    TaskCancelation(Task),
    TaskDeletion(Task),
    Snapshot(Vec<Task>),
    Dump(Task),
    IndexOperation { op: IndexOperation, must_create_index: bool },
    IndexCreation { index_uid: String, primary_key: Option<String>, task: Task },
    IndexUpdate { index_uid: String, primary_key: Option<String>, task: Task },
    IndexDeletion { index_uid: String, tasks: Vec<Task>, index_has_been_created: bool },
    IndexSwap { task: Task },
}

/// A batch of data tasks operating on one index.
pub enum IndexOperation {
    DocumentImport {
        index_uid: String,
        primary_key: Option<String>,
        method: IndexDocumentsMethod,
        documents_counts: Vec<u64>,
        content_files: Vec<u128>,
        tasks: Vec<Task>,
    },
    DocumentDeletion { index_uid: String, documents: Vec<String>, tasks: Vec<Task> },
    DocumentClear { index_uid: String, tasks: Vec<Task> },
    Settings { index_uid: String, settings: Vec<(bool, Settings)>, tasks: Vec<Task> },
    DocumentClearAndSetting {
        index_uid: String,
        cleared_tasks: Vec<Task>,
        settings: Vec<(bool, Settings)>,
        settings_tasks: Vec<Task>,
    },
    SettingsAndDocumentImport {
        index_uid: String,
        primary_key: Option<String>,
        method: IndexDocumentsMethod,
        documents_counts: Vec<u64>,
        content_files: Vec<u128>,
        document_import_tasks: Vec<Task>,
        settings: Vec<(bool, Settings)>,
        settings_tasks: Vec<Task>,
    },
}

/// The uids of a sequence of task records.
pub open spec fn uids_of(tasks: Seq<Task>) -> Seq<TaskId> {
    tasks.map_values(|t: Task| t.uid)
}

impl IndexOperation {
    /// The uids of the tasks in this operation, in batch order.
    pub open spec fn ids_spec(self) -> Seq<TaskId> {
        match self {
            IndexOperation::DocumentImport { tasks, .. } => uids_of(tasks@),
            IndexOperation::DocumentDeletion { tasks, .. } => uids_of(tasks@),
            IndexOperation::DocumentClear { tasks, .. } => uids_of(tasks@),
            IndexOperation::Settings { tasks, .. } => uids_of(tasks@),
            IndexOperation::DocumentClearAndSetting { cleared_tasks, settings_tasks, .. } =>
                uids_of(cleared_tasks@) + uids_of(settings_tasks@),
            IndexOperation::SettingsAndDocumentImport {
                document_import_tasks, settings_tasks, ..
            } => uids_of(document_import_tasks@) + uids_of(settings_tasks@),
        }
    }

    /// The uid of the index this operation targets.
    pub fn index_uid(&self) -> (r: &String)
        ensures
            match self {
                IndexOperation::DocumentImport { index_uid, .. } => r == index_uid,
                IndexOperation::DocumentDeletion { index_uid, .. } => r == index_uid,
                IndexOperation::DocumentClear { index_uid, .. } => r == index_uid,
                IndexOperation::Settings { index_uid, .. } => r == index_uid,
                IndexOperation::DocumentClearAndSetting { index_uid, .. } => r == index_uid,
                IndexOperation::SettingsAndDocumentImport { index_uid, .. } => r == index_uid,
            },
    {
        match self {
            IndexOperation::DocumentImport { index_uid, .. } => index_uid,
            IndexOperation::DocumentDeletion { index_uid, .. } => index_uid,
            IndexOperation::DocumentClear { index_uid, .. } => index_uid,
            IndexOperation::Settings { index_uid, .. } => index_uid,
            IndexOperation::DocumentClearAndSetting { index_uid, .. } => index_uid,
            IndexOperation::SettingsAndDocumentImport { index_uid, .. } => index_uid,
        }
    }
}

impl Batch {
    /// The uids of the tasks in this batch, in batch order.
    pub open spec fn ids_spec(self) -> Seq<TaskId> {
        match self {
            Batch::TaskCancelation(task) => seq![task.uid],
            Batch::TaskDeletion(task) => seq![task.uid],
            Batch::Snapshot(tasks) => uids_of(tasks@),
            Batch::Dump(task) => seq![task.uid],
            Batch::IndexOperation { op, .. } => op.ids_spec(),
            Batch::IndexCreation { task, .. } => seq![task.uid],
            Batch::IndexUpdate { task, .. } => seq![task.uid],
            Batch::IndexDeletion { tasks, .. } => uids_of(tasks@),
            Batch::IndexSwap { task } => seq![task.uid],
        }
    }

    /// The task uids associated with this batch.
    pub fn ids(&self) -> (r: Vec<TaskId>)
        ensures
            r@ == self.ids_spec(),
    {
        match self {
            Batch::TaskCancelation(task)
            | Batch::TaskDeletion(task)
            | Batch::Dump(task)
            | Batch::IndexCreation { task, .. }
            | Batch::IndexUpdate { task, .. }
            | Batch::IndexSwap { task } => {
                let mut r: Vec<TaskId> = Vec::new();
                r.push(task.uid);
                proof {
                    assert(r@ =~= self.ids_spec());
                }
                r
            },
            Batch::Snapshot(tasks) | Batch::IndexDeletion { tasks, .. } => collect_uids(tasks),
            Batch::IndexOperation { op, .. } => match op {
                IndexOperation::DocumentImport { tasks, .. }
                | IndexOperation::DocumentDeletion { tasks, .. }
                | IndexOperation::Settings { tasks, .. }
                | IndexOperation::DocumentClear { tasks, .. } => collect_uids(tasks),
                IndexOperation::DocumentClearAndSetting {
                    cleared_tasks, settings_tasks, ..
                } => {
                    let mut r = collect_uids(cleared_tasks);
                    let mut s = collect_uids(settings_tasks);
                    r.append(&mut s);
                    r
                },
                IndexOperation::SettingsAndDocumentImport {
                    document_import_tasks, settings_tasks, ..
                } => {
                    let mut r = collect_uids(document_import_tasks);
                    let mut s = collect_uids(settings_tasks);
                    r.append(&mut s);
                    r
                },
            },
        }
    }
}

/// Collects the uids of a slice of task records.
fn collect_uids(tasks: &Vec<Task>) -> (r: Vec<TaskId>)
    ensures
        r@ == uids_of(tasks@),
{
    let mut r: Vec<TaskId> = Vec::new();
    for i in 0..tasks.len()
        invariant
            r@.len() == i,
            forall|j: int| 0 <= j < i ==> r@[j] == uids_of(tasks@)[j],
    {
        r.push(tasks[i].uid);
    }
    proof {
        assert(r@ =~= uids_of(tasks@));
    }
    r
}

// --- projections used by hydration and execution ---------------------------

/// The documents count of each document-addition task, in order; other kinds
/// contribute nothing.
pub open spec fn import_counts(tasks: Seq<TaskModel>) -> Seq<u64>
    decreases tasks.len(),
{
    if tasks.len() == 0 {
        Seq::empty()
    } else {
        match tasks[0].kind {
            KindModel::DocumentAdditionOrUpdate { documents_count, .. } => seq![documents_count]
                + import_counts(tasks.skip(1)),
            _ => import_counts(tasks.skip(1)),
        }
    }
}

/// The content file of each document-addition task, in order.
pub open spec fn import_files(tasks: Seq<TaskModel>) -> Seq<u128>
    decreases tasks.len(),
{
    if tasks.len() == 0 {
        Seq::empty()
    } else {
        match tasks[0].kind {
            KindModel::DocumentAdditionOrUpdate { content_file, .. } => seq![content_file]
                + import_files(tasks.skip(1)),
            _ => import_files(tasks.skip(1)),
        }
    }
}

/// The first declared primary key among the batch's tasks, if any: an
/// absorbed index creation or a primary-key-setting addition.
pub open spec fn batch_primary_key(tasks: Seq<TaskModel>) -> Option<Seq<char>>
    decreases tasks.len(),
{
    if tasks.len() == 0 {
        None
    } else {
        let head = match tasks[0].kind {
            KindModel::DocumentAdditionOrUpdate { primary_key, .. } => primary_key,
            KindModel::IndexCreation { primary_key, .. } => primary_key,
            _ => None,
        };
        match head {
            Some(pk) => Some(pk),
            None => batch_primary_key(tasks.skip(1)),
        }
    }
}

/// The concatenation of the document-id lists of the deletion tasks.
pub open spec fn deletion_documents(tasks: Seq<TaskModel>) -> Seq<Seq<char>>
    decreases tasks.len(),
{
    if tasks.len() == 0 {
        Seq::empty()
    } else {
        match tasks[0].kind {
            KindModel::DocumentDeletion { documents_ids, .. } => documents_ids + deletion_documents(
                tasks.skip(1),
            ),
            _ => deletion_documents(tasks.skip(1)),
        }
    }
}

/// The settings payloads of the settings tasks, in order, each with its
/// is-deletion flag.
pub open spec fn settings_of(tasks: Seq<TaskModel>) -> Seq<(bool, Seq<(Seq<char>, Seq<char>)>)>
    decreases tasks.len(),
{
    if tasks.len() == 0 {
        Seq::empty()
    } else {
        match tasks[0].kind {
            KindModel::SettingsUpdate { new_settings, is_deletion, .. } => seq![
                (is_deletion, new_settings),
            ] + settings_of(tasks.skip(1)),
            _ => settings_of(tasks.skip(1)),
        }
    }
}

/// The models of a sequence of task records.
pub open spec fn models_of(tasks: Seq<Task>) -> Seq<TaskModel> {
    tasks.map_values(|t: Task| t@)
}

// --- executable projections -------------------------------------------------

/// Extracts documents counts, content files and the first declared primary
/// key from a hydrated run of tasks.
fn scan_import_payload(tasks: &Vec<Task>) -> (r: (Vec<u64>, Vec<u128>, Option<String>))
    ensures
        r.0@ == import_counts(models_of(tasks@)),
        r.1@ == import_files(models_of(tasks@)),
        r.2.deep_view() == batch_primary_key(models_of(tasks@)),
{
    let mut counts: Vec<u64> = Vec::new();
    let mut files: Vec<u128> = Vec::new();
    let mut pk: Option<String> = None;
    let n: usize = tasks.len();
    for i in 0..n
        invariant
            n == tasks@.len(),
            counts@ == import_counts(models_of(tasks@).take(i as int)),
            files@ == import_files(models_of(tasks@).take(i as int)),
            pk.deep_view() == batch_primary_key(models_of(tasks@).take(i as int)),
    {
        proof {
            lemma_projections_snoc(models_of(tasks@), i as int);
        }
        match &tasks[i].kind {
            KindWithContent::DocumentAdditionOrUpdate {
                documents_count, content_file, primary_key, ..
            } => {
                counts.push(*documents_count);
                files.push(*content_file);
                if pk.is_none() {
                    pk = crate::task::clone_opt_string(primary_key);
                }
            },
            KindWithContent::IndexCreation { primary_key, .. } => {
                if pk.is_none() {
                    pk = crate::task::clone_opt_string(primary_key);
                }
            },
            _ => {},
        }
    }
    proof {
        assert(models_of(tasks@).take(n as int) =~= models_of(tasks@));
    }
    (counts, files, pk)
}

/// Concatenates the document-id lists of the deletion tasks.
fn scan_deletion_documents(tasks: &Vec<Task>) -> (r: Vec<String>)
    ensures
        r.deep_view() == deletion_documents(models_of(tasks@)),
{
    let mut out: Vec<String> = Vec::new();
    let n: usize = tasks.len();
    for i in 0..n
        invariant
            n == tasks@.len(),
            out.deep_view() == deletion_documents(models_of(tasks@).take(i as int)),
    {
        proof {
            lemma_projections_snoc(models_of(tasks@), i as int);
        }
        match &tasks[i].kind {
            KindWithContent::DocumentDeletion { documents_ids, .. } => {
                let mut copies = crate::task::clone_string_vec(documents_ids);
                out.append(&mut copies);
                proof {
                    assert(out.deep_view() =~~= deletion_documents(
                        models_of(tasks@).take(i + 1),
                    ));
                }
            },
            _ => {
                proof {
                    assert(out.deep_view() =~~= deletion_documents(
                        models_of(tasks@).take(i + 1),
                    ));
                }
            },
        }
    }
    proof {
        assert(models_of(tasks@).take(n as int) =~= models_of(tasks@));
    }
    out
}

/// The model of a settings list.
pub open spec fn settings_list_view(v: Seq<(bool, Settings)>) -> Seq<
    (bool, Seq<(Seq<char>, Seq<char>)>),
> {
    v.map_values(|p: (bool, Settings)| (p.0, p.1@))
}

/// Extracts the settings payloads of the settings tasks.
fn scan_settings(tasks: &Vec<Task>) -> (r: Vec<(bool, Settings)>)
    ensures
        settings_list_view(r@) == settings_of(models_of(tasks@)),
{
    let mut out: Vec<(bool, Settings)> = Vec::new();
    let n: usize = tasks.len();
    for i in 0..n
        invariant
            n == tasks@.len(),
            settings_list_view(out@) == settings_of(models_of(tasks@).take(i as int)),
    {
        proof {
            lemma_projections_snoc(models_of(tasks@), i as int);
        }
        match &tasks[i].kind {
            KindWithContent::SettingsUpdate { new_settings, is_deletion, .. } => {
                let entry = (*is_deletion, new_settings.duplicate());
                out.push(entry);
                proof {
                    assert(settings_list_view(out@) =~~= settings_of(
                        models_of(tasks@).take(i + 1),
                    ));
                }
            },
            _ => {
                proof {
                    assert(settings_list_view(out@) =~~= settings_of(
                        models_of(tasks@).take(i + 1),
                    ));
                }
            },
        }
    }
    proof {
        assert(models_of(tasks@).take(n as int) =~= models_of(tasks@));
    }
    out
}

/// Unfolds each projection over a prefix extended by one element.
proof fn lemma_projections_snoc(ts: Seq<TaskModel>, i: int)
    requires
        0 <= i < ts.len(),
    ensures
        import_counts(ts.take(i + 1)) == (match ts[i].kind {
            KindModel::DocumentAdditionOrUpdate { documents_count, .. } => import_counts(
                ts.take(i),
            ).push(documents_count),
            _ => import_counts(ts.take(i)),
        }),
        import_files(ts.take(i + 1)) == (match ts[i].kind {
            KindModel::DocumentAdditionOrUpdate { content_file, .. } => import_files(
                ts.take(i),
            ).push(content_file),
            _ => import_files(ts.take(i)),
        }),
        batch_primary_key(ts.take(i + 1)) == (match batch_primary_key(ts.take(i)) {
            Some(pk) => Some(pk),
            None => match ts[i].kind {
                KindModel::DocumentAdditionOrUpdate { primary_key, .. } => primary_key,
                KindModel::IndexCreation { primary_key, .. } => primary_key,
                _ => None,
            },
        }),
        deletion_documents(ts.take(i + 1)) == (match ts[i].kind {
            KindModel::DocumentDeletion { documents_ids, .. } => deletion_documents(ts.take(i))
                + documents_ids,
            _ => deletion_documents(ts.take(i)),
        }),
        settings_of(ts.take(i + 1)) == (match ts[i].kind {
            KindModel::SettingsUpdate { new_settings, is_deletion, .. } => settings_of(
                ts.take(i),
            ).push((is_deletion, new_settings)),
            _ => settings_of(ts.take(i)),
        }),
    decreases i,
{
    assert(ts.take(i) =~= ts.take(i + 1).take(i + 1 - 1));
    lemma_projections_snoc_general(ts.take(i + 1), ts.take(i));
}

/// The projections over `s` versus over `s` without its last element.
proof fn lemma_projections_snoc_general(s: Seq<TaskModel>, p: Seq<TaskModel>)
    requires
        s.len() > 0,
        p == s.take(s.len() - 1),
    ensures
        import_counts(s) == (match s[s.len() - 1].kind {
            KindModel::DocumentAdditionOrUpdate { documents_count, .. } => import_counts(p).push(
                documents_count,
            ),
            _ => import_counts(p),
        }),
        import_files(s) == (match s[s.len() - 1].kind {
            KindModel::DocumentAdditionOrUpdate { content_file, .. } => import_files(p).push(
                content_file,
            ),
            _ => import_files(p),
        }),
        batch_primary_key(s) == (match batch_primary_key(p) {
            Some(pk) => Some(pk),
            None => match s[s.len() - 1].kind {
                KindModel::DocumentAdditionOrUpdate { primary_key, .. } => primary_key,
                KindModel::IndexCreation { primary_key, .. } => primary_key,
                _ => None,
            },
        }),
        deletion_documents(s) == (match s[s.len() - 1].kind {
            KindModel::DocumentDeletion { documents_ids, .. } => deletion_documents(p)
                + documents_ids,
            _ => deletion_documents(p),
        }),
        settings_of(s) == (match s[s.len() - 1].kind {
            KindModel::SettingsUpdate { new_settings, is_deletion, .. } => settings_of(p).push(
                (is_deletion, new_settings),
            ),
            _ => settings_of(p),
        }),
    decreases s.len(),
{
    if s.len() == 1 {
        assert(p =~= Seq::<TaskModel>::empty());
        assert(s.skip(1) =~= Seq::<TaskModel>::empty());
        lemma_projections_empty_tail(s);
    } else {
        let s2 = s.skip(1);
        let p2 = p.skip(1);
        assert(p2 =~= s2.take(s2.len() - 1));
        assert(s2[s2.len() - 1] == s[s.len() - 1]);
        lemma_projections_snoc_general(s2, p2);
        assert(p[0] == s[0]);
        assert(import_counts(s) == (match s[0].kind {
            KindModel::DocumentAdditionOrUpdate { documents_count, .. } => seq![documents_count]
                + import_counts(s2),
            _ => import_counts(s2),
        }));
        lemma_projection_head_concat(s, p);
    }
}

/// Concatenation facts used by the snoc lemma's inductive case.
proof fn lemma_projection_head_concat(s: Seq<TaskModel>, p: Seq<TaskModel>)
    requires
        s.len() > 1,
        p == s.take(s.len() - 1),
        ({
            let s2 = s.skip(1);
            let p2 = p.skip(1);
            &&& import_counts(s2) == (match s[s.len() - 1].kind {
                KindModel::DocumentAdditionOrUpdate { documents_count, .. } => import_counts(
                    p2,
                ).push(documents_count),
                _ => import_counts(p2),
            })
            &&& import_files(s2) == (match s[s.len() - 1].kind {
                KindModel::DocumentAdditionOrUpdate { content_file, .. } => import_files(p2).push(
                    content_file,
                ),
                _ => import_files(p2),
            })
            &&& batch_primary_key(s2) == (match batch_primary_key(p2) {
                Some(pk) => Some(pk),
                None => match s[s.len() - 1].kind {
                    KindModel::DocumentAdditionOrUpdate { primary_key, .. } => primary_key,
                    KindModel::IndexCreation { primary_key, .. } => primary_key,
                    _ => None,
                },
            })
            &&& deletion_documents(s2) == (match s[s.len() - 1].kind {
                KindModel::DocumentDeletion { documents_ids, .. } => deletion_documents(p2)
                    + documents_ids,
                _ => deletion_documents(p2),
            })
            &&& settings_of(s2) == (match s[s.len() - 1].kind {
                KindModel::SettingsUpdate { new_settings, is_deletion, .. } => settings_of(
                    p2,
                ).push((is_deletion, new_settings)),
                _ => settings_of(p2),
            })
        }),
    ensures
        import_counts(s) == (match s[s.len() - 1].kind {
            KindModel::DocumentAdditionOrUpdate { documents_count, .. } => import_counts(p).push(
                documents_count,
            ),
            _ => import_counts(p),
        }),
        import_files(s) == (match s[s.len() - 1].kind {
            KindModel::DocumentAdditionOrUpdate { content_file, .. } => import_files(p).push(
                content_file,
            ),
            _ => import_files(p),
        }),
        batch_primary_key(s) == (match batch_primary_key(p) {
            Some(pk) => Some(pk),
            None => match s[s.len() - 1].kind {
                KindModel::DocumentAdditionOrUpdate { primary_key, .. } => primary_key,
                KindModel::IndexCreation { primary_key, .. } => primary_key,
                _ => None,
            },
        }),
        deletion_documents(s) == (match s[s.len() - 1].kind {
            KindModel::DocumentDeletion { documents_ids, .. } => deletion_documents(p)
                + documents_ids,
            _ => deletion_documents(p),
        }),
        settings_of(s) == (match s[s.len() - 1].kind {
            KindModel::SettingsUpdate { new_settings, is_deletion, .. } => settings_of(p).push(
                (is_deletion, new_settings),
            ),
            _ => settings_of(p),
        }),
{
    let s2 = s.skip(1);
    let p2 = p.skip(1);
    assert(p[0] == s[0]);
    assert(seq![s[0]] + s2 =~= s);
    assert(seq![p[0]] + p2 =~= p);
    match s[s.len() - 1].kind {
        KindModel::DocumentAdditionOrUpdate { documents_count, content_file, primary_key, .. } => {
            match s[0].kind {
                KindModel::DocumentAdditionOrUpdate {
                    documents_count: h, content_file: hf, ..
                } => {
                    assert(seq![h] + import_counts(p2).push(documents_count) =~= (seq![h]
                        + import_counts(p2)).push(documents_count));
                    assert(seq![hf] + import_files(p2).push(content_file) =~= (seq![hf]
                        + import_files(p2)).push(content_file));
                },
                _ => {},
            }
        },
        KindModel::DocumentDeletion { documents_ids, .. } => {
            match s[0].kind {
                KindModel::DocumentDeletion { documents_ids: h, .. } => {
                    assert(h + (deletion_documents(p2) + documents_ids) =~= (h
                        + deletion_documents(p2)) + documents_ids);
                },
                _ => {},
            }
        },
        KindModel::SettingsUpdate { new_settings, is_deletion, .. } => {
            match s[0].kind {
                KindModel::SettingsUpdate { new_settings: h, is_deletion: hd, .. } => {
                    assert(seq![(hd, h)] + settings_of(p2).push((is_deletion, new_settings)) =~= (
                    seq![(hd, h)] + settings_of(p2)).push((is_deletion, new_settings)));
                },
                _ => {},
            }
        },
        _ => {},
    }
}

/// The projections of the empty run.
proof fn lemma_projections_empty_tail(s: Seq<TaskModel>)
    requires
        s.len() == 1,
    ensures
        import_counts(s) == (match s[0].kind {
            KindModel::DocumentAdditionOrUpdate { documents_count, .. } => seq![documents_count],
            _ => Seq::<u64>::empty(),
        }),
        import_files(s) == (match s[0].kind {
            KindModel::DocumentAdditionOrUpdate { content_file, .. } => seq![content_file],
            _ => Seq::<u128>::empty(),
        }),
        deletion_documents(s) == (match s[0].kind {
            KindModel::DocumentDeletion { documents_ids, .. } => documents_ids,
            _ => Seq::<Seq<char>>::empty(),
        }),
        settings_of(s) == (match s[0].kind {
            KindModel::SettingsUpdate { new_settings, is_deletion, .. } => seq![
                (is_deletion, new_settings),
            ],
            _ => Seq::<(bool, Seq<(Seq<char>, Seq<char>)>)>::empty(),
        }),
{
    assert(s.skip(1) =~= Seq::<TaskModel>::empty());
    assert(import_counts(Seq::<TaskModel>::empty()) == Seq::<u64>::empty());
    assert(import_files(Seq::<TaskModel>::empty()) == Seq::<u128>::empty());
    assert(deletion_documents(Seq::<TaskModel>::empty()) == Seq::<Seq<char>>::empty());
    assert(settings_of(Seq::<TaskModel>::empty()) == Seq::<
        (bool, Seq<(Seq<char>, Seq<char>)>),
    >::empty());
    match s[0].kind {
        KindModel::DocumentAdditionOrUpdate { documents_count, content_file, .. } => {
            assert(seq![documents_count] + Seq::<u64>::empty() =~= seq![documents_count]);
            assert(seq![content_file] + Seq::<u128>::empty() =~= seq![content_file]);
        },
        KindModel::DocumentDeletion { documents_ids, .. } => {
            assert(documents_ids + Seq::<Seq<char>>::empty() =~= documents_ids);
        },
        KindModel::SettingsUpdate { new_settings, is_deletion, .. } => {
            assert(seq![(is_deletion, new_settings)] + Seq::<
                (bool, Seq<(Seq<char>, Seq<char>)>),
            >::empty() =~= seq![(is_deletion, new_settings)]);
        },
        _ => {},
    }
}

impl IndexScheduler {
    /// `tasks` are copies of the records with the given uids, in order.
    pub open spec fn tasks_match(self, ids: Seq<TaskId>, tasks: Seq<Task>) -> bool {
        &&& tasks.len() == ids.len()
        &&& forall|j: int| 0 <= j < ids.len() ==> (#[trigger] tasks[j])@ == self.task(ids[j] as int)
        &&& forall|j: int| 0 <= j < ids.len() ==> self.live(#[trigger] ids[j])
    }

    /// What it means for `batch` to be the hydration of the autobatcher
    /// decision `(bk, create)` over the index `u`.
    pub open spec fn hydrates(
        self,
        u: Seq<char>,
        bk: BatchKindModel,
        create: bool,
        batch: Batch,
    ) -> bool {
        match bk {
            BatchKindModel::DocumentClear { ids } => batch matches Batch::IndexOperation {
                op: IndexOperation::DocumentClear { index_uid, tasks },
                must_create_index,
            } && index_uid@ == u && must_create_index == create && self.tasks_match(ids, tasks@),
            BatchKindModel::DocumentImport { method, import_ids, .. } => batch matches Batch::IndexOperation {
                op: IndexOperation::DocumentImport {
                    index_uid,
                    primary_key,
                    method: m2,
                    documents_counts,
                    content_files,
                    tasks,
                },
                must_create_index,
            } && index_uid@ == u && must_create_index == create && m2 == method
                && self.tasks_match(import_ids, tasks@) && documents_counts@ == import_counts(
                models_of(tasks@),
            ) && content_files@ == import_files(models_of(tasks@))
                && primary_key.deep_view() == batch_primary_key(models_of(tasks@)),
            BatchKindModel::DocumentDeletion { deletion_ids } => batch matches Batch::IndexOperation {
                op: IndexOperation::DocumentDeletion { index_uid, documents, tasks },
                must_create_index,
            } && index_uid@ == u && must_create_index == create && self.tasks_match(
                deletion_ids,
                tasks@,
            ) && documents.deep_view() == deletion_documents(models_of(tasks@)),
            BatchKindModel::Settings { settings_ids, .. } => batch matches Batch::IndexOperation {
                op: IndexOperation::Settings { index_uid, settings, tasks },
                must_create_index,
            } && index_uid@ == u && must_create_index == create && self.tasks_match(
                settings_ids,
                tasks@,
            ) && settings_list_view(settings@) == settings_of(models_of(tasks@)),
            BatchKindModel::ClearAndSettings { other, settings_ids, .. } => batch matches Batch::IndexOperation {
                op: IndexOperation::DocumentClearAndSetting {
                    index_uid,
                    cleared_tasks,
                    settings,
                    settings_tasks,
                },
                must_create_index,
            } && index_uid@ == u && must_create_index == create && self.tasks_match(
                other,
                cleared_tasks@,
            ) && self.tasks_match(settings_ids, settings_tasks@) && settings_list_view(settings@)
                == settings_of(models_of(settings_tasks@)),
            BatchKindModel::SettingsAndDocumentImport { settings_ids, method, import_ids, .. } => batch matches Batch::IndexOperation {
                op: IndexOperation::SettingsAndDocumentImport {
                    index_uid,
                    primary_key,
                    method: m2,
                    documents_counts,
                    content_files,
                    document_import_tasks,
                    settings,
                    settings_tasks,
                },
                must_create_index,
            } && index_uid@ == u && must_create_index == create && m2 == method
                && self.tasks_match(import_ids, document_import_tasks@) && self.tasks_match(
                settings_ids,
                settings_tasks@,
            ) && documents_counts@ == import_counts(models_of(document_import_tasks@))
                && content_files@ == import_files(models_of(document_import_tasks@))
                && primary_key.deep_view() == batch_primary_key(models_of(document_import_tasks@))
                && settings_list_view(settings@) == settings_of(models_of(settings_tasks@)),
            BatchKindModel::IndexCreation { id } => batch matches Batch::IndexCreation {
                index_uid,
                primary_key,
                task,
            } && index_uid@ == u && task@ == self.task(id as int) && self.live(id)
                && primary_key.deep_view() == (match self.task(id as int).kind {
                KindModel::IndexCreation { primary_key: pk, .. } => pk,
                _ => None,
            }),
            BatchKindModel::IndexUpdate { id } => batch matches Batch::IndexUpdate {
                index_uid,
                primary_key,
                task,
            } && index_uid@ == u && task@ == self.task(id as int) && self.live(id)
                && primary_key.deep_view() == (match self.task(id as int).kind {
                KindModel::IndexUpdate { primary_key: pk, .. } => pk,
                _ => None,
            }),
            BatchKindModel::IndexDeletion { ids } => batch matches Batch::IndexDeletion {
                index_uid,
                tasks,
                index_has_been_created,
            } && index_uid@ == u && index_has_been_created == create && self.tasks_match(
                ids,
                tasks@,
            ),
            BatchKindModel::IndexSwap { id } => batch matches Batch::IndexSwap { task } && task@
                == self.task(id as int) && self.live(id),
        }
    }

    /// Hydrates an autobatcher decision into a fully resolved batch by
    /// reading the task records it names. Fails with `CorruptedTaskQueue`
    /// when a named task does not exist.
    pub fn create_next_batch_index(
        &self,
        index_uid: String,
        batch: BatchKind,
        must_create_index: bool,
    ) -> (r: Result<Batch, Error>)
        requires
            self.wf(),
        ensures
            r matches Ok(b) ==> self.hydrates(index_uid@, batch@, must_create_index, b),
            r matches Err(e) ==> e is CorruptedTaskQueue,
            (forall|j: int|
                0 <= j < batch@.ids().len() ==> self.live(#[trigger] batch@.ids()[j])) ==> r
                is Ok,
    {
        let ghost gb = batch@;
        match batch {
            BatchKind::DocumentClear { ids } => {
                let tasks = match self.get_existing_tasks(&ids) {
                    Ok(ts) => ts,
                    Err(e) => {
                        proof {
                            let j = choose|j: int|
                                0 <= j < ids@.len() && !self.live(#[trigger] ids@[j]);
                            assert(gb.ids()[j] == ids@[j]);
                        }
                        return Err(Error::CorruptedTaskQueue);
                    },
                };
                Ok(
                    Batch::IndexOperation {
                        op: IndexOperation::DocumentClear { index_uid, tasks },
                        must_create_index,
                    },
                )
            },
            BatchKind::DocumentImport { method, allow_index_creation, import_ids } => {
                let tasks = match self.get_existing_tasks(&import_ids) {
                    Ok(ts) => ts,
                    Err(e) => {
                        proof {
                            let j = choose|j: int|
                                0 <= j < import_ids@.len() && !self.live(#[trigger] import_ids@[j]);
                            assert(gb.ids()[j] == import_ids@[j]);
                        }
                        return Err(Error::CorruptedTaskQueue);
                    },
                };
                let (documents_counts, content_files, primary_key) = scan_import_payload(&tasks);
                Ok(
                    Batch::IndexOperation {
                        op: IndexOperation::DocumentImport {
                            index_uid,
                            primary_key,
                            method,
                            documents_counts,
                            content_files,
                            tasks,
                        },
                        must_create_index,
                    },
                )
            },
            BatchKind::DocumentDeletion { deletion_ids } => {
                let tasks = match self.get_existing_tasks(&deletion_ids) {
                    Ok(ts) => ts,
                    Err(e) => {
                        proof {
                            let j = choose|j: int|
                                0 <= j < deletion_ids@.len() && !self.live(#[trigger] deletion_ids@[j]);
                            assert(gb.ids()[j] == deletion_ids@[j]);
                        }
                        return Err(Error::CorruptedTaskQueue);
                    },
                };
                let documents = scan_deletion_documents(&tasks);
                Ok(
                    Batch::IndexOperation {
                        op: IndexOperation::DocumentDeletion { index_uid, documents, tasks },
                        must_create_index,
                    },
                )
            },
            BatchKind::Settings { allow_index_creation, settings_ids } => {
                let tasks = match self.get_existing_tasks(&settings_ids) {
                    Ok(ts) => ts,
                    Err(e) => {
                        proof {
                            let j = choose|j: int|
                                0 <= j < settings_ids@.len() && !self.live(#[trigger] settings_ids@[j]);
                            assert(gb.ids()[j] == settings_ids@[j]);
                        }
                        return Err(Error::CorruptedTaskQueue);
                    },
                };
                let settings = scan_settings(&tasks);
                Ok(
                    Batch::IndexOperation {
                        op: IndexOperation::Settings { index_uid, settings, tasks },
                        must_create_index,
                    },
                )
            },
            BatchKind::ClearAndSettings { other, allow_index_creation, settings_ids } => {
                let cleared_tasks = match self.get_existing_tasks(&other) {
                    Ok(ts) => ts,
                    Err(e) => {
                        proof {
                            let j = choose|j: int|
                                0 <= j < other@.len() && !self.live(#[trigger] other@[j]);
                            assert(gb.ids()[j] == other@[j]);
                        }
                        return Err(Error::CorruptedTaskQueue);
                    },
                };
                let settings_tasks = match self.get_existing_tasks(&settings_ids) {
                    Ok(ts) => ts,
                    Err(e) => {
                        proof {
                            let j = choose|j: int|
                                0 <= j < settings_ids@.len() && !self.live(
                                    #[trigger] settings_ids@[j],
                                );
                            assert(gb.ids()[other@.len() + j] == settings_ids@[j]);
                        }
                        return Err(Error::CorruptedTaskQueue);
                    },
                };
                let settings = scan_settings(&settings_tasks);
                Ok(
                    Batch::IndexOperation {
                        op: IndexOperation::DocumentClearAndSetting {
                            index_uid,
                            cleared_tasks,
                            settings,
                            settings_tasks,
                        },
                        must_create_index,
                    },
                )
            },
            BatchKind::SettingsAndDocumentImport {
                settings_ids, method, allow_index_creation, import_ids,
            } => {
                let settings_tasks = match self.get_existing_tasks(&settings_ids) {
                    Ok(ts) => ts,
                    Err(e) => {
                        proof {
                            let j = choose|j: int|
                                0 <= j < settings_ids@.len() && !self.live(
                                    #[trigger] settings_ids@[j],
                                );
                            assert(gb.ids()[j] == settings_ids@[j]);
                        }
                        return Err(Error::CorruptedTaskQueue);
                    },
                };
                let document_import_tasks = match self.get_existing_tasks(&import_ids) {
                    Ok(ts) => ts,
                    Err(e) => {
                        proof {
                            let j = choose|j: int|
                                0 <= j < import_ids@.len() && !self.live(
                                    #[trigger] import_ids@[j],
                                );
                            assert(gb.ids()[settings_ids@.len() + j] == import_ids@[j]);
                        }
                        return Err(Error::CorruptedTaskQueue);
                    },
                };
                let settings = scan_settings(&settings_tasks);
                let (documents_counts, content_files, primary_key) = scan_import_payload(
                    &document_import_tasks,
                );
                Ok(
                    Batch::IndexOperation {
                        op: IndexOperation::SettingsAndDocumentImport {
                            index_uid,
                            primary_key,
                            method,
                            documents_counts,
                            content_files,
                            document_import_tasks,
                            settings,
                            settings_tasks,
                        },
                        must_create_index,
                    },
                )
            },
            BatchKind::IndexCreation { id } => {
                let task = match self.get_task(id) {
                    Some(t) => t,
                    None => {
                        proof {
                            assert(gb.ids()[0] == id);
                        }
                        return Err(Error::CorruptedTaskQueue);
                    },
                };
                let primary_key = match &task.kind {
                    KindWithContent::IndexCreation { primary_key, .. } =>
                        crate::task::clone_opt_string(primary_key),
                    _ => None,
                };
                Ok(Batch::IndexCreation { index_uid, primary_key, task })
            },
            BatchKind::IndexUpdate { id } => {
                let task = match self.get_task(id) {
                    Some(t) => t,
                    None => {
                        proof {
                            assert(gb.ids()[0] == id);
                        }
                        return Err(Error::CorruptedTaskQueue);
                    },
                };
                let primary_key = match &task.kind {
                    KindWithContent::IndexUpdate { primary_key, .. } =>
                        crate::task::clone_opt_string(primary_key),
                    _ => None,
                };
                Ok(Batch::IndexUpdate { index_uid, primary_key, task })
            },
            BatchKind::IndexDeletion { ids } => {
                let tasks = match self.get_existing_tasks(&ids) {
                    Ok(ts) => ts,
                    Err(e) => {
                        proof {
                            let j = choose|j: int|
                                0 <= j < ids@.len() && !self.live(#[trigger] ids@[j]);
                            assert(gb.ids()[j] == ids@[j]);
                        }
                        return Err(Error::CorruptedTaskQueue);
                    },
                };
                Ok(
                    Batch::IndexDeletion {
                        index_uid,
                        tasks,
                        index_has_been_created: must_create_index,
                    },
                )
            },
            BatchKind::IndexSwap { id } => {
                let task = match self.get_task(id) {
                    Some(t) => t,
                    None => {
                        proof {
                            assert(gb.ids()[0] == id);
                        }
                        return Err(Error::CorruptedTaskQueue);
                    },
                };
                Ok(Batch::IndexSwap { task })
            },
        }
    }
}

impl IndexScheduler {
    /// The run of enqueued tasks mentioning index `u` among the first `m`
    /// uids, in ascending uid order, as `(uid, kind)` pairs.
    pub open spec fn run_of(self, u: Seq<char>, m: int) -> Seq<(TaskId, KindModel)>
        decreases m,
    {
        if m <= 0 {
            Seq::empty()
        } else {
            self.run_of(u, m - 1) + if self.live((m - 1) as u32) && self.task(m - 1).status
                is Enqueued && self.task(m - 1).kind.index_uids().contains(u) {
                seq![((m - 1) as TaskId, self.task(m - 1).kind)]
            } else {
                Seq::empty()
            }
        }
    }

    /// The run handed to the autobatcher: the whole run, or a single task
    /// when autobatching is disabled.
    pub open spec fn limited_run(self, u: Seq<char>) -> Seq<(TaskId, KindModel)> {
        if self.autobatching_enabled || self.run_of(u, self.n_tasks()).len() <= 1 {
            self.run_of(u, self.n_tasks())
        } else {
            self.run_of(u, self.n_tasks()).take(1)
        }
    }

    /// Whether an index with this name exists in the mapper.
    pub fn index_exists(&self, u: &String) -> (r: bool)
        ensures
            r == self.has_index(u@),
    {
        let n: usize = self.indexes.len();
        for i in 0..n
            invariant
                n == self.indexes@.len(),
                forall|j: int| 0 <= j < i ==> (#[trigger] self.indexes@[j].0)@ != u@,
        {
            if self.indexes[i].0 == *u {
                return true;
            }
        }
        false
    }

    /// Collects the run of enqueued tasks for index `u`, limited to one task
    /// when autobatching is disabled.
    fn collect_run(&self, u: &String) -> (r: Vec<(TaskId, KindWithContent)>)
        requires
            self.wf(),
        ensures
            run_model(r@) == self.limited_run(u@),
    {
        let mut run: Vec<(TaskId, KindWithContent)> = Vec::new();
        let n: usize = self.all_tasks.len();
        for i in 0..n
            invariant
                self.wf(),
                n == self.all_tasks@.len(),
                run_model(run@) == self.run_of(u@, i as int),
        {
            let uid: TaskId = i as TaskId;
            let is_run_member = if (i as usize) < self.all_tasks.len() && !crate::bitmaps::rb_contains(
                &self.deleted,
                uid,
            ) {
                let t = &self.all_tasks[i];
                let enq = match t.status {
                    Status::Enqueued => true,
                    _ => false,
                };
                enq && kind_mentions(&t.kind, u)
            } else {
                false
            };
            if is_run_member {
                let pair = (uid, self.all_tasks[i].kind.duplicate());
                run.push(pair);
                proof {
                    assert(run_model(run@) =~= self.run_of(u@, i + 1));
                }
            } else {
                proof {
                    assert(run_model(run@) =~= self.run_of(u@, i + 1));
                }
            }
        }
        if !self.autobatching_enabled && run.len() > 1 {
            run.truncate(1);
            proof {
                assert(run_model(run@) =~= self.run_of(u@, n as int).take(1));
            }
        }
        run
    }

    /// Selects the next batch to process, by the fixed priority: the newest
    /// enqueued task cancelation, else the oldest enqueued task deletion,
    /// else all enqueued snapshots, else the oldest enqueued dump, else the
    /// autobatched run of the oldest enqueued task's index. (spec §4.3)
    #[verifier::rlimit(100)]
    #[verifier::spinoff_prover]
    pub fn create_next_batch(&self) -> (r: Result<Option<Batch>, Error>)
        requires
            self.wf(),
        ensures
            ({
                let enq = self.status_set(Status::Enqueued);
                let cancel = self.kind_set(Kind::TaskCancelation).intersect(enq);
                let del = self.kind_set(Kind::TaskDeletion).intersect(enq);
                let snap = self.kind_set(Kind::Snapshot).intersect(enq);
                let dump = self.kind_set(Kind::DumpCreation).intersect(enq);
                &&& (cancel != Set::<u32>::empty() ==> (r matches Ok(Some(b))
                    && b matches Batch::TaskCancelation(t) && cancel.contains(t.uid) && (forall|
                    x: u32,
                |
                    cancel.contains(x) ==> x <= t.uid) && t@ == self.task(t.uid as int)))
                &&& (cancel =~= Set::<u32>::empty() && del != Set::<u32>::empty() ==> (r matches Ok(
                    Some(b),
                ) && b matches Batch::TaskDeletion(t) && del.contains(t.uid) && (forall|x: u32|
                    del.contains(x) ==> x >= t.uid) && t@ == self.task(t.uid as int)))
                &&& (cancel =~= Set::<u32>::empty() && del =~= Set::<u32>::empty() && snap != Set::<
                    u32,
                >::empty() ==> (r matches Ok(Some(b)) && b matches Batch::Snapshot(ts) && (forall|
                    j: int,
                |
                    0 <= j < ts@.len() ==> snap.contains((#[trigger] ts@[j]).uid) && ts@[j]@
                        == self.task(ts@[j].uid as int)) && ts@.len() == snap.len()))
                &&& (cancel =~= Set::<u32>::empty() && del =~= Set::<u32>::empty() && snap =~= Set::<
                    u32,
                >::empty() && dump != Set::<u32>::empty() ==> (r matches Ok(Some(b))
                    && b matches Batch::Dump(t) && dump.contains(t.uid) && (forall|x: u32|
                    dump.contains(x) ==> x >= t.uid) && t@ == self.task(t.uid as int)))
                &&& (cancel =~= Set::<u32>::empty() && del =~= Set::<u32>::empty() && snap =~= Set::<
                    u32,
                >::empty() && dump =~= Set::<u32>::empty() && enq != Set::<u32>::empty() ==> (
                r matches Ok(Some(b)) && exists|m: u32|
                    {
                        &&& enq.contains(m)
                        &&& (forall|x: u32| enq.contains(x) ==> x >= m)
                        &&& (#[trigger] self.task(m as int)).kind.index_uids().len() > 0
                        &&& exists|bk: BatchKindModel, c: bool|
                            autobatch_spec(
                                self.limited_run(self.task(m as int).kind.index_uids()[0]),
                                self.has_index(self.task(m as int).kind.index_uids()[0]),
                            ) == Some((bk, c)) && #[trigger] self.hydrates(
                                self.task(m as int).kind.index_uids()[0],
                                bk,
                                c,
                                b,
                            )
                    }))
                &&& (enq =~= Set::<u32>::empty() ==> r matches Ok(None))
                &&& (r matches Err(e) ==> e is CorruptedTaskQueue)
            }),
    {
        let enqueued = self.get_status(Status::Enqueued);
        let cancel_bm = self.get_kind(Kind::TaskCancelation);
        let to_cancel = rb_and(&cancel_bm, &enqueued);
        match rb_max(&to_cancel) {
            Some(tid) => {
                proof {
                    assert(self.status_set(Status::Enqueued).contains(tid));
                    assert(self.live(tid));
                }
                match self.get_task(tid) {
                    Some(t) => {
                        return Ok(Some(Batch::TaskCancelation(t)));
                    },
                    None => {
                        return Err(Error::CorruptedTaskQueue);
                    },
                }
            },
            None => {},
        }
        let del_bm = self.get_kind(Kind::TaskDeletion);
        let to_delete = rb_and(&del_bm, &enqueued);
        match rb_min(&to_delete) {
            Some(tid) => {
                proof {
                    assert(self.status_set(Status::Enqueued).contains(tid));
                    assert(self.live(tid));
                }
                match self.get_task(tid) {
                    Some(t) => {
                        return Ok(Some(Batch::TaskDeletion(t)));
                    },
                    None => {
                        return Err(Error::CorruptedTaskQueue);
                    },
                }
            },
            None => {},
        }
        let snap_bm = self.get_kind(Kind::Snapshot);
        let to_snapshot = rb_and(&snap_bm, &enqueued);
        if !rb_is_empty(&to_snapshot) {
            let ids = rb_to_vec(&to_snapshot);
            proof {
                assert forall|j: int| 0 <= j < ids@.len() implies self.live(
                    #[trigger] ids@[j],
                ) by {
                    assert(elems(to_snapshot).contains(ids@[j]));
                    assert(self.status_set(Status::Enqueued).contains(ids@[j]));
                }
            }
            match self.get_existing_tasks(&ids) {
                Ok(ts) => {
                    proof {
                        assert forall|j: int| 0 <= j < ts@.len() implies elems(
                            to_snapshot,
                        ).contains((#[trigger] ts@[j]).uid) by {
                            assert(ts@[j]@ == self.task(ids@[j] as int));
                            assert(self.task(ids@[j] as int).uid == ids@[j]);
                        }
                    }
                    return Ok(Some(Batch::Snapshot(ts)));
                },
                Err(e) => {
                    return Err(Error::CorruptedTaskQueue);
                },
            }
        }
        let dump_bm = self.get_kind(Kind::DumpCreation);
        let to_dump = rb_and(&dump_bm, &enqueued);
        match rb_min(&to_dump) {
            Some(tid) => {
                proof {
                    assert(self.status_set(Status::Enqueued).contains(tid));
                    assert(self.live(tid));
                }
                match self.get_task(tid) {
                    Some(t) => {
                        return Ok(Some(Batch::Dump(t)));
                    },
                    None => {
                        return Err(Error::CorruptedTaskQueue);
                    },
                }
            },
            None => {},
        }
        match rb_min(&enqueued) {
            Some(tid) => {
                proof {
                    assert(self.live(tid));
                }
                let task = match self.get_task(tid) {
                    Some(t) => t,
                    None => {
                        return Err(Error::CorruptedTaskQueue);
                    },
                };
                let uids = task.kind.indexes();
                if uids.len() == 0 {
                    // unreachable: a live non-control task always targets an
                    // index, and the control kinds were all handled above
                    proof {
                        assert(self.task(tid as int).kind.index_uids().len() == 0) by {
                            assert(uids.deep_view().len() == uids@.len());
                        }
                        assert(crate::queue::control_tag(self.task(tid as int).kind.tag()));
                        let tg = self.task(tid as int).kind.tag();
                        assert(elems(self.kinds@[tg.rank_spec()]).contains(tid));
                        if tg is TaskCancelation {
                            assert(elems(to_cancel).contains(tid));
                        } else if tg is TaskDeletion {
                            assert(elems(to_delete).contains(tid));
                        } else if tg is DumpCreation {
                            assert(elems(to_dump).contains(tid));
                        } else {
                            assert(elems(to_snapshot).contains(tid));
                        }
                        assert(false);
                    }
                    return Ok(None);
                }
                let index_name = uids[0].clone();
                let index_already_exists = self.index_exists(&index_name);
                let run = self.collect_run(&index_name);
                proof {
                    // the oldest enqueued task itself belongs to the run, so
                    // the run cannot be empty
                    assert(self.task(tid as int).kind.index_uids().contains(index_name@)) by {
                        assert(self.task(tid as int).kind.index_uids()[0] == index_name@);
                    }
                    self.lemma_run_members(index_name@, self.n_tasks(), tid);
                    assert(crate::autobatcher::run_ids(
                        self.run_of(index_name@, self.n_tasks()),
                    ).contains(tid));
                    assert(self.limited_run(index_name@).len() > 0);
                    assert(run@.len() > 0);
                }
                match autobatch(&run, index_already_exists) {
                    Some((bk, create)) => {
                        let ghost bkm = bk@;
                        let ghost uu = index_name@;
                        let b = match self.create_next_batch_index(
                            index_name,
                            bk,
                            create,
                        ) {
                            Ok(b) => b,
                            Err(e) => {
                                // unreachable: every uid the autobatcher
                                // names comes from the run, whose tasks exist
                                proof {
                                    crate::autobatcher::lemma_autobatch_ids(
                                        self.limited_run(uu),
                                        self.has_index(uu),
                                    );
                                    assert forall|j: int|
                                        0 <= j < bkm.ids().len() implies self.live(
                                        #[trigger] bkm.ids()[j],
                                    ) by {
                                        assert(bkm.ids().contains(bkm.ids()[j]));
                                        assert(crate::autobatcher::run_ids(
                                            self.limited_run(uu),
                                        ).contains(bkm.ids()[j]));
                                        self.lemma_limited_run_members(uu, bkm.ids()[j]);
                                    }
                                    assert(false);
                                }
                                return Err(Error::CorruptedTaskQueue);
                            },
                        };
                        proof {
                            assert(self.task(tid as int).kind.index_uids()[0] == uu);
                            assert(autobatch_spec(
                                self.limited_run(self.task(tid as int).kind.index_uids()[0]),
                                self.has_index(self.task(tid as int).kind.index_uids()[0]),
                            ) == Some((bkm, create)));
                            assert(self.hydrates(
                                self.task(tid as int).kind.index_uids()[0],
                                bkm,
                                create,
                                b,
                            ));
                        }
                        return Ok(Some(b));
                    },
                    None => {
                        // unreachable: the run was shown non-empty
                        proof {
                            assert(false);
                        }
                        return Ok(None);
                    },
                }
            },
            None => {
                return Ok(None);
            },
        }
    }
}

/// Whether the kind mentions the given index uid.
pub fn kind_mentions(kind: &KindWithContent, u: &String) -> (r: bool)
    ensures
        r == kind@.index_uids().contains(u@),
{
    let uids = kind.indexes();
    let n: usize = uids.len();
    for i in 0..n
        invariant
            n == uids@.len(),
            uids.deep_view() == kind@.index_uids(),
            forall|j: int| 0 <= j < i ==> kind@.index_uids()[j] != u@,
    {
        if uids[i] == *u {
            proof {
                assert(kind@.index_uids()[i as int] == u@);
            }
            return true;
        }
    }
    proof {
        if kind@.index_uids().contains(u@) {
            let j = choose|j: int|
                0 <= j < kind@.index_uids().len() && (#[trigger] kind@.index_uids()[j]) == u@;
            assert(false);
        }
    }
    false
}

impl IndexScheduler {
    /// Membership in the run of an index: exactly the live enqueued tasks
    /// below the limit that mention it.
    pub proof fn lemma_run_members(self, u: Seq<char>, lim: int, x: TaskId)
        requires
            0 <= lim <= self.n_tasks(),
            self.n_tasks() <= 0x1_0000_0000,
        ensures
            crate::autobatcher::run_ids(self.run_of(u, lim)).contains(x) <==> ((x as int) < lim
                && self.live(x) && self.task(x as int).status is Enqueued && self.task(
                x as int,
            ).kind.index_uids().contains(u)),
        decreases lim,
    {
        let rids = crate::autobatcher::run_ids(self.run_of(u, lim));
        if lim <= 0 {
            if rids.contains(x) {
                let j = choose|j: int| 0 <= j < rids.len() && (#[trigger] rids[j]) == x;
            }
        } else {
            self.lemma_run_members(u, lim - 1, x);
            let prev = self.run_of(u, lim - 1);
            let prids = crate::autobatcher::run_ids(prev);
            let tail = if self.live((lim - 1) as u32) && self.task(lim - 1).status is Enqueued
                && self.task(lim - 1).kind.index_uids().contains(u) {
                seq![(((lim - 1) as TaskId), self.task(lim - 1).kind)]
            } else {
                Seq::<(TaskId, KindModel)>::empty()
            };
            assert(self.run_of(u, lim) == prev + tail);
            assert(rids =~= prids + crate::autobatcher::run_ids(tail));
            if rids.contains(x) {
                let j = choose|j: int| 0 <= j < rids.len() && (#[trigger] rids[j]) == x;
                if j < prids.len() {
                    assert(prids[j] == x);
                } else {
                    assert(tail.len() == 1 && x == (lim - 1) as TaskId);
                    assert(((lim - 1) as TaskId) as int == lim - 1);
                }
            }
            if (x as int) < lim && self.live(x) && self.task(x as int).status is Enqueued
                && self.task(x as int).kind.index_uids().contains(u) {
                if (x as int) < lim - 1 {
                    assert(prids.contains(x));
                    let j = choose|j: int| 0 <= j < prids.len() && (#[trigger] prids[j]) == x;
                    assert(rids[j] == x);
                } else {
                    assert((x as int) == lim - 1);
                    assert(tail.len() == 1);
                    assert(rids[prids.len() as int] == x);
                }
            }
        }
    }

    /// Every uid of the limited run is a live enqueued task mentioning the
    /// index.
    pub proof fn lemma_limited_run_members(self, u: Seq<char>, x: TaskId)
        requires
            self.wf(),
        ensures
            crate::autobatcher::run_ids(self.limited_run(u)).contains(x) ==> (self.live(x)
                && self.task(x as int).status is Enqueued),
    {
        let full = self.run_of(u, self.n_tasks());
        if self.autobatching_enabled || full.len() <= 1 {
            if crate::autobatcher::run_ids(self.limited_run(u)).contains(x) {
                self.lemma_run_members(u, self.n_tasks(), x);
            }
        } else {
            let lids = crate::autobatcher::run_ids(full.take(1));
            if lids.contains(x) {
                let j = choose|j: int| 0 <= j < lids.len() && (#[trigger] lids[j]) == x;
                assert(full.take(1)[0] == full[0]);
                assert(crate::autobatcher::run_ids(full)[0] == x);
                assert(crate::autobatcher::run_ids(full).contains(x));
                self.lemma_run_members(u, self.n_tasks(), x);
            }
        }
    }
}

impl IndexScheduler {
    /// A hydrated batch carries exactly as many tasks as the decision named.
    pub proof fn lemma_hydrates_len(
        self,
        u: Seq<char>,
        bk: BatchKindModel,
        create: bool,
        b: Batch,
    )
        requires
            self.hydrates(u, bk, create, b),
        ensures
            b.ids_spec().len() == bk.ids().len(),
    {
        match bk {
            BatchKindModel::DocumentClear { ids } => {},
            BatchKindModel::DocumentImport { import_ids, .. } => {},
            BatchKindModel::DocumentDeletion { deletion_ids } => {},
            BatchKindModel::Settings { settings_ids, .. } => {},
            BatchKindModel::ClearAndSettings { other, settings_ids, .. } => {},
            BatchKindModel::SettingsAndDocumentImport { settings_ids, import_ids, .. } => {},
            BatchKindModel::IndexDeletion { ids } => {},
            BatchKindModel::IndexCreation { id } => {},
            BatchKindModel::IndexUpdate { id } => {},
            BatchKindModel::IndexSwap { id } => {},
        }
    }
}

} // verus!
