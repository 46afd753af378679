//! The task data model: statuses, kinds with their payloads, human-visible
//! details, and the task record itself, together with the spec-level models
//! that contracts are stated over.
//!
//! Timestamps are UTC nanoseconds held as `i128`; content files are named by
//! their 128-bit identifier held as `u128`. Sets of task ids are
//! `roaring::RoaringBitmap` values, abstracted by [`crate::bitmaps::elems`].

use vstd::prelude::*;
use roaring::RoaringBitmap;
use crate::bitmaps::{elems, rb_clone, rb_len};

verus! {

pub use crate::TaskId;

/// How many distinct statuses exist.
pub const STATUS_COUNT: usize = 5;

/// How many distinct kinds exist.
pub const KIND_COUNT: usize = 12;

/// The lifecycle state of a task.
#[derive(Clone, Copy, Debug, PartialEq, Eq, Structural)]
pub enum Status {
    Enqueued,
    Processing,
    Succeeded,
    Failed,
    Canceled,
}

impl Status {
    /// Terminal statuses are never left again (except by task deletion).
    pub open spec fn is_terminal(self) -> bool {
        self is Succeeded || self is Failed || self is Canceled
    }

    pub fn terminal(self) -> (r: bool)
        ensures
            r == self.is_terminal(),
    {
        match self {
            Status::Succeeded | Status::Failed | Status::Canceled => true,
            Status::Enqueued | Status::Processing => false,
        }
    }

    /// A fixed numbering of the statuses, used to index per-status bitmaps.
    pub open spec fn rank_spec(self) -> int {
        match self {
            Status::Enqueued => 0,
            Status::Processing => 1,
            Status::Succeeded => 2,
            Status::Failed => 3,
            Status::Canceled => 4,
        }
    }

    pub fn rank(self) -> (r: usize)
        ensures
            r == self.rank_spec(),
            r < STATUS_COUNT,
    {
        match self {
            Status::Enqueued => 0,
            Status::Processing => 1,
            Status::Succeeded => 2,
            Status::Failed => 3,
            Status::Canceled => 4,
        }
    }
}

/// The tag of a task's kind, without its payload.
#[derive(Clone, Copy, Debug, PartialEq, Eq, Structural)]
pub enum Kind {
    DocumentAdditionOrUpdate,
    DocumentDeletion,
    DocumentClear,
    SettingsUpdate,
    IndexCreation,
    IndexUpdate,
    IndexDeletion,
    IndexSwap,
    TaskCancelation,
    TaskDeletion,
    DumpCreation,
    Snapshot,
}

impl Kind {
    /// A fixed numbering of the kinds, used to index per-kind bitmaps.
    pub open spec fn rank_spec(self) -> int {
        match self {
            Kind::DocumentAdditionOrUpdate => 0,
            Kind::DocumentDeletion => 1,
            Kind::DocumentClear => 2,
            Kind::SettingsUpdate => 3,
            Kind::IndexCreation => 4,
            Kind::IndexUpdate => 5,
            Kind::IndexDeletion => 6,
            Kind::IndexSwap => 7,
            Kind::TaskCancelation => 8,
            Kind::TaskDeletion => 9,
            Kind::DumpCreation => 10,
            Kind::Snapshot => 11,
        }
    }

    pub fn rank(self) -> (r: usize)
        ensures
            r == self.rank_spec(),
            r < KIND_COUNT,
    {
        match self {
            Kind::DocumentAdditionOrUpdate => 0,
            Kind::DocumentDeletion => 1,
            Kind::DocumentClear => 2,
            Kind::SettingsUpdate => 3,
            Kind::IndexCreation => 4,
            Kind::IndexUpdate => 5,
            Kind::IndexDeletion => 6,
            Kind::IndexSwap => 7,
            Kind::TaskCancelation => 8,
            Kind::TaskDeletion => 9,
            Kind::DumpCreation => 10,
            Kind::Snapshot => 11,
        }
    }
}

/// How a document import treats an already-present document id.
#[derive(Clone, Copy, Debug, PartialEq, Eq, Structural)]
pub enum IndexDocumentsMethod {
    ReplaceDocuments,
    UpdateDocuments,
}

/// An index-settings payload. The scheduler treats it as opaque data: a list
/// of setting names with their new values.
#[derive(Clone, Debug)]
pub struct Settings {
    pub entries: Vec<(String, String)>,
}

impl View for Settings {
    type V = Seq<(Seq<char>, Seq<char>)>;

    open spec fn view(&self) -> Seq<(Seq<char>, Seq<char>)> {
        self.entries.deep_view()
    }
}

impl Settings {
    pub fn duplicate(&self) -> (r: Settings)
        ensures
            r@ == self@,
    {
        let mut entries: Vec<(String, String)> = Vec::new();
        for i in 0..self.entries.len()
            invariant
                entries@.len() == i,
                forall|j: int| 0 <= j < i ==> entries@[j] == self.entries@[j],
        {
            let pair = (self.entries[i].0.clone(), self.entries[i].1.clone());
            entries.push(pair);
        }
        proof {
            assert(entries.deep_view() =~~= self.entries.deep_view());
        }
        Settings { entries }
    }
}

/// A task's kind together with its full payload.
pub enum KindWithContent {
    DocumentAdditionOrUpdate {
        index_uid: String,
        primary_key: Option<String>,
        method: IndexDocumentsMethod,
        content_file: u128,
        documents_count: u64,
        allow_index_creation: bool,
    },
    DocumentDeletion { index_uid: String, documents_ids: Vec<String> },
    DocumentClear { index_uid: String },
    SettingsUpdate {
        index_uid: String,
        new_settings: Settings,
        is_deletion: bool,
        allow_index_creation: bool,
    },
    IndexCreation { index_uid: String, primary_key: Option<String> },
    IndexUpdate { index_uid: String, primary_key: Option<String> },
    IndexDeletion { index_uid: String },
    IndexSwap { swaps: Vec<(String, String)> },
    TaskCancelation { query: String, tasks: RoaringBitmap },
    TaskDeletion { query: String, tasks: RoaringBitmap },
    DumpCreation { instance_uid: Option<u128>, dump_uid: String, keys: Vec<String> },
    Snapshot,
}

/// The mathematical model of a [`KindWithContent`]: strings become character
/// sequences and task-id bitmaps become sets.
pub ghost enum KindModel {
    DocumentAdditionOrUpdate {
        index_uid: Seq<char>,
        primary_key: Option<Seq<char>>,
        method: IndexDocumentsMethod,
        content_file: u128,
        documents_count: u64,
        allow_index_creation: bool,
    },
    DocumentDeletion { index_uid: Seq<char>, documents_ids: Seq<Seq<char>> },
    DocumentClear { index_uid: Seq<char> },
    SettingsUpdate {
        index_uid: Seq<char>,
        new_settings: Seq<(Seq<char>, Seq<char>)>,
        is_deletion: bool,
        allow_index_creation: bool,
    },
    IndexCreation { index_uid: Seq<char>, primary_key: Option<Seq<char>> },
    IndexUpdate { index_uid: Seq<char>, primary_key: Option<Seq<char>> },
    IndexDeletion { index_uid: Seq<char> },
    IndexSwap { swaps: Seq<(Seq<char>, Seq<char>)> },
    TaskCancelation { query: Seq<char>, tasks: Set<u32> },
    TaskDeletion { query: Seq<char>, tasks: Set<u32> },
    DumpCreation { instance_uid: Option<u128>, dump_uid: Seq<char>, keys: Seq<Seq<char>> },
    Snapshot,
}

impl View for KindWithContent {
    type V = KindModel;

    open spec fn view(&self) -> KindModel {
        match self {
            KindWithContent::DocumentAdditionOrUpdate {
                index_uid, primary_key, method, content_file, documents_count, allow_index_creation,
            } => KindModel::DocumentAdditionOrUpdate {
                index_uid: index_uid@,
                primary_key: primary_key.deep_view(),
                method: *method,
                content_file: *content_file,
                documents_count: *documents_count,
                allow_index_creation: *allow_index_creation,
            },
            KindWithContent::DocumentDeletion { index_uid, documents_ids } =>
                KindModel::DocumentDeletion {
                    index_uid: index_uid@,
                    documents_ids: documents_ids.deep_view(),
                },
            KindWithContent::DocumentClear { index_uid } => KindModel::DocumentClear {
                index_uid: index_uid@,
            },
            KindWithContent::SettingsUpdate {
                index_uid, new_settings, is_deletion, allow_index_creation,
            } => KindModel::SettingsUpdate {
                index_uid: index_uid@,
                new_settings: new_settings@,
                is_deletion: *is_deletion,
                allow_index_creation: *allow_index_creation,
            },
            KindWithContent::IndexCreation { index_uid, primary_key } => KindModel::IndexCreation {
                index_uid: index_uid@,
                primary_key: primary_key.deep_view(),
            },
            KindWithContent::IndexUpdate { index_uid, primary_key } => KindModel::IndexUpdate {
                index_uid: index_uid@,
                primary_key: primary_key.deep_view(),
            },
            KindWithContent::IndexDeletion { index_uid } => KindModel::IndexDeletion {
                index_uid: index_uid@,
            },
            KindWithContent::IndexSwap { swaps } => KindModel::IndexSwap {
                swaps: swaps.deep_view(),
            },
            KindWithContent::TaskCancelation { query, tasks } => KindModel::TaskCancelation {
                query: query@,
                tasks: elems(*tasks),
            },
            KindWithContent::TaskDeletion { query, tasks } => KindModel::TaskDeletion {
                query: query@,
                tasks: elems(*tasks),
            },
            KindWithContent::DumpCreation { instance_uid, dump_uid, keys } =>
                KindModel::DumpCreation {
                    instance_uid: *instance_uid,
                    dump_uid: dump_uid@,
                    keys: keys.deep_view(),
                },
            KindWithContent::Snapshot => KindModel::Snapshot,
        }
    }
}

impl KindModel {
    /// The tag of this kind.
    pub open spec fn tag(self) -> Kind {
        match self {
            KindModel::DocumentAdditionOrUpdate { .. } => Kind::DocumentAdditionOrUpdate,
            KindModel::DocumentDeletion { .. } => Kind::DocumentDeletion,
            KindModel::DocumentClear { .. } => Kind::DocumentClear,
            KindModel::SettingsUpdate { .. } => Kind::SettingsUpdate,
            KindModel::IndexCreation { .. } => Kind::IndexCreation,
            KindModel::IndexUpdate { .. } => Kind::IndexUpdate,
            KindModel::IndexDeletion { .. } => Kind::IndexDeletion,
            KindModel::IndexSwap { .. } => Kind::IndexSwap,
            KindModel::TaskCancelation { .. } => Kind::TaskCancelation,
            KindModel::TaskDeletion { .. } => Kind::TaskDeletion,
            KindModel::DumpCreation { .. } => Kind::DumpCreation,
            KindModel::Snapshot => Kind::Snapshot,
        }
    }

    /// Every index uid this kind refers to, in payload order.
    pub open spec fn index_uids(self) -> Seq<Seq<char>> {
        match self {
            KindModel::DocumentAdditionOrUpdate { index_uid, .. } => seq![index_uid],
            KindModel::DocumentDeletion { index_uid, .. } => seq![index_uid],
            KindModel::DocumentClear { index_uid } => seq![index_uid],
            KindModel::SettingsUpdate { index_uid, .. } => seq![index_uid],
            KindModel::IndexCreation { index_uid, .. } => seq![index_uid],
            KindModel::IndexUpdate { index_uid, .. } => seq![index_uid],
            KindModel::IndexDeletion { index_uid } => seq![index_uid],
            KindModel::IndexSwap { swaps } => swaps.map_values(|p: (Seq<char>, Seq<char>)| p.0)
                + swaps.map_values(|p: (Seq<char>, Seq<char>)| p.1),
            KindModel::TaskCancelation { .. } => seq![],
            KindModel::TaskDeletion { .. } => seq![],
            KindModel::DumpCreation { .. } => seq![],
            KindModel::Snapshot => seq![],
        }
    }

    /// The content file attached to this kind, if any.
    pub open spec fn content_file_id(self) -> Option<u128> {
        match self {
            KindModel::DocumentAdditionOrUpdate { content_file, .. } => Some(content_file),
            _ => None,
        }
    }
}

impl KindWithContent {
    pub fn as_kind(&self) -> (k: Kind)
        ensures
            k == self@.tag(),
    {
        match self {
            KindWithContent::DocumentAdditionOrUpdate { .. } => Kind::DocumentAdditionOrUpdate,
            KindWithContent::DocumentDeletion { .. } => Kind::DocumentDeletion,
            KindWithContent::DocumentClear { .. } => Kind::DocumentClear,
            KindWithContent::SettingsUpdate { .. } => Kind::SettingsUpdate,
            KindWithContent::IndexCreation { .. } => Kind::IndexCreation,
            KindWithContent::IndexUpdate { .. } => Kind::IndexUpdate,
            KindWithContent::IndexDeletion { .. } => Kind::IndexDeletion,
            KindWithContent::IndexSwap { .. } => Kind::IndexSwap,
            KindWithContent::TaskCancelation { .. } => Kind::TaskCancelation,
            KindWithContent::TaskDeletion { .. } => Kind::TaskDeletion,
            KindWithContent::DumpCreation { .. } => Kind::DumpCreation,
            KindWithContent::Snapshot => Kind::Snapshot,
        }
    }

    /// The content file attached to this kind, if any.
    pub fn content_uuid(&self) -> (r: Option<u128>)
        ensures
            r == self@.content_file_id(),
    {
        match self {
            KindWithContent::DocumentAdditionOrUpdate { content_file, .. } => Some(*content_file),
            _ => None,
        }
    }

    /// Every index uid this kind refers to, in payload order.
    pub fn indexes(&self) -> (r: Vec<String>)
        ensures
            r.deep_view() == self@.index_uids(),
    {
        match self {
            KindWithContent::DocumentAdditionOrUpdate { index_uid, .. }
            | KindWithContent::DocumentDeletion { index_uid, .. }
            | KindWithContent::DocumentClear { index_uid }
            | KindWithContent::SettingsUpdate { index_uid, .. }
            | KindWithContent::IndexCreation { index_uid, .. }
            | KindWithContent::IndexUpdate { index_uid, .. }
            | KindWithContent::IndexDeletion { index_uid } => {
                let mut r: Vec<String> = Vec::new();
                r.push(index_uid.clone());
                proof {
                    assert(r.deep_view() =~= self@.index_uids());
                }
                r
            },
            KindWithContent::IndexSwap { swaps } => {
                let n: usize = swaps.len();
                let mut r: Vec<String> = Vec::new();
                for i in 0..n
                    invariant
                        n == swaps@.len(),
                        r@.len() == i,
                        forall|j: int| 0 <= j < i ==> r@[j] == swaps@[j].0,
                {
                    r.push(swaps[i].0.clone());
                }
                for i in 0..n
                    invariant
                        n == swaps@.len(),
                        r@.len() == n + i,
                        forall|j: int| 0 <= j < n ==> r@[j] == swaps@[j].0,
                        forall|j: int| 0 <= j < i ==> r@[n + j] == swaps@[j].1,
                {
                    r.push(swaps[i].1.clone());
                }
                proof {
                    assert(r.deep_view() =~~= self@.index_uids());
                }
                r
            },
            KindWithContent::TaskCancelation { .. }
            | KindWithContent::TaskDeletion { .. }
            | KindWithContent::DumpCreation { .. }
            | KindWithContent::Snapshot => Vec::new(),
        }
    }

    /// An exact copy of this kind.
    pub fn duplicate(&self) -> (r: KindWithContent)
        ensures
            r@ == self@,
    {
        match self {
            KindWithContent::DocumentAdditionOrUpdate {
                index_uid, primary_key, method, content_file, documents_count, allow_index_creation,
            } => KindWithContent::DocumentAdditionOrUpdate {
                index_uid: index_uid.clone(),
                primary_key: clone_opt_string(primary_key),
                method: *method,
                content_file: *content_file,
                documents_count: *documents_count,
                allow_index_creation: *allow_index_creation,
            },
            KindWithContent::DocumentDeletion { index_uid, documents_ids } =>
                KindWithContent::DocumentDeletion {
                    index_uid: index_uid.clone(),
                    documents_ids: clone_string_vec(documents_ids),
                },
            KindWithContent::DocumentClear { index_uid } => KindWithContent::DocumentClear {
                index_uid: index_uid.clone(),
            },
            KindWithContent::SettingsUpdate {
                index_uid, new_settings, is_deletion, allow_index_creation,
            } => KindWithContent::SettingsUpdate {
                index_uid: index_uid.clone(),
                new_settings: new_settings.duplicate(),
                is_deletion: *is_deletion,
                allow_index_creation: *allow_index_creation,
            },
            KindWithContent::IndexCreation { index_uid, primary_key } =>
                KindWithContent::IndexCreation {
                    index_uid: index_uid.clone(),
                    primary_key: clone_opt_string(primary_key),
                },
            KindWithContent::IndexUpdate { index_uid, primary_key } =>
                KindWithContent::IndexUpdate {
                    index_uid: index_uid.clone(),
                    primary_key: clone_opt_string(primary_key),
                },
            KindWithContent::IndexDeletion { index_uid } => KindWithContent::IndexDeletion {
                index_uid: index_uid.clone(),
            },
            KindWithContent::IndexSwap { swaps } => KindWithContent::IndexSwap {
                swaps: clone_string_pairs(swaps),
            },
            KindWithContent::TaskCancelation { query, tasks } => KindWithContent::TaskCancelation {
                query: query.clone(),
                tasks: rb_clone(tasks),
            },
            KindWithContent::TaskDeletion { query, tasks } => KindWithContent::TaskDeletion {
                query: query.clone(),
                tasks: rb_clone(tasks),
            },
            KindWithContent::DumpCreation { instance_uid, dump_uid, keys } =>
                KindWithContent::DumpCreation {
                    instance_uid: *instance_uid,
                    dump_uid: dump_uid.clone(),
                    keys: clone_string_vec(keys),
                },
            KindWithContent::Snapshot => KindWithContent::Snapshot,
        }
    }
}

/// Human-visible counters mirroring a task's kind: seeded with received-side
/// values at registration and completed with result-side values by the
/// executor.
pub enum Details {
    DocumentAdditionOrUpdate { received_documents: u64, indexed_documents: Option<u64> },
    SettingsUpdate { settings: Settings },
    IndexInfo { primary_key: Option<String> },
    DocumentDeletion { received_document_ids: usize, deleted_documents: Option<u64> },
    ClearAll { deleted_documents: Option<u64> },
    TaskCancelation { matched_tasks: u64, canceled_tasks: Option<u64>, original_query: String },
    TaskDeletion { matched_tasks: u64, deleted_tasks: Option<u64>, original_query: String },
    Dump { dump_uid: String },
    IndexSwap { swaps: Vec<(String, String)> },
}

/// The mathematical model of [`Details`].
pub ghost enum DetailsModel {
    DocumentAdditionOrUpdate { received_documents: u64, indexed_documents: Option<u64> },
    SettingsUpdate { settings: Seq<(Seq<char>, Seq<char>)> },
    IndexInfo { primary_key: Option<Seq<char>> },
    DocumentDeletion { received_document_ids: usize, deleted_documents: Option<u64> },
    ClearAll { deleted_documents: Option<u64> },
    TaskCancelation { matched_tasks: u64, canceled_tasks: Option<u64>, original_query: Seq<char> },
    TaskDeletion { matched_tasks: u64, deleted_tasks: Option<u64>, original_query: Seq<char> },
    Dump { dump_uid: Seq<char> },
    IndexSwap { swaps: Seq<(Seq<char>, Seq<char>)> },
}

impl View for Details {
    type V = DetailsModel;

    open spec fn view(&self) -> DetailsModel {
        match self {
            Details::DocumentAdditionOrUpdate { received_documents, indexed_documents } =>
                DetailsModel::DocumentAdditionOrUpdate {
                    received_documents: *received_documents,
                    indexed_documents: *indexed_documents,
                },
            Details::SettingsUpdate { settings } => DetailsModel::SettingsUpdate {
                settings: settings@,
            },
            Details::IndexInfo { primary_key } => DetailsModel::IndexInfo {
                primary_key: primary_key.deep_view(),
            },
            Details::DocumentDeletion { received_document_ids, deleted_documents } =>
                DetailsModel::DocumentDeletion {
                    received_document_ids: *received_document_ids,
                    deleted_documents: *deleted_documents,
                },
            Details::ClearAll { deleted_documents } => DetailsModel::ClearAll {
                deleted_documents: *deleted_documents,
            },
            Details::TaskCancelation { matched_tasks, canceled_tasks, original_query } =>
                DetailsModel::TaskCancelation {
                    matched_tasks: *matched_tasks,
                    canceled_tasks: *canceled_tasks,
                    original_query: original_query@,
                },
            Details::TaskDeletion { matched_tasks, deleted_tasks, original_query } =>
                DetailsModel::TaskDeletion {
                    matched_tasks: *matched_tasks,
                    deleted_tasks: *deleted_tasks,
                    original_query: original_query@,
                },
            Details::Dump { dump_uid } => DetailsModel::Dump { dump_uid: dump_uid@ },
            Details::IndexSwap { swaps } => DetailsModel::IndexSwap { swaps: swaps.deep_view() },
        }
    }
}

impl Details {
    /// An exact copy of these details.
    pub fn duplicate(&self) -> (r: Details)
        ensures
            r@ == self@,
    {
        match self {
            Details::DocumentAdditionOrUpdate { received_documents, indexed_documents } =>
                Details::DocumentAdditionOrUpdate {
                    received_documents: *received_documents,
                    indexed_documents: *indexed_documents,
                },
            Details::SettingsUpdate { settings } => Details::SettingsUpdate {
                settings: settings.duplicate(),
            },
            Details::IndexInfo { primary_key } => Details::IndexInfo {
                primary_key: clone_opt_string(primary_key),
            },
            Details::DocumentDeletion { received_document_ids, deleted_documents } =>
                Details::DocumentDeletion {
                    received_document_ids: *received_document_ids,
                    deleted_documents: *deleted_documents,
                },
            Details::ClearAll { deleted_documents } => Details::ClearAll {
                deleted_documents: *deleted_documents,
            },
            Details::TaskCancelation { matched_tasks, canceled_tasks, original_query } =>
                Details::TaskCancelation {
                    matched_tasks: *matched_tasks,
                    canceled_tasks: *canceled_tasks,
                    original_query: original_query.clone(),
                },
            Details::TaskDeletion { matched_tasks, deleted_tasks, original_query } =>
                Details::TaskDeletion {
                    matched_tasks: *matched_tasks,
                    deleted_tasks: *deleted_tasks,
                    original_query: original_query.clone(),
                },
            Details::Dump { dump_uid } => Details::Dump { dump_uid: dump_uid.clone() },
            Details::IndexSwap { swaps } => Details::IndexSwap {
                swaps: clone_string_pairs(swaps),
            },
        }
    }
}

/// A durably recorded request for one unit of work.
pub struct Task {
    pub uid: TaskId,
    pub enqueued_at: i128,
    pub started_at: Option<i128>,
    pub finished_at: Option<i128>,
    pub error: Option<String>,
    pub canceled_by: Option<TaskId>,
    pub details: Option<Details>,
    pub status: Status,
    pub kind: KindWithContent,
}

/// The mathematical model of a [`Task`].
pub ghost struct TaskModel {
    pub uid: TaskId,
    pub enqueued_at: i128,
    pub started_at: Option<i128>,
    pub finished_at: Option<i128>,
    pub error: Option<Seq<char>>,
    pub canceled_by: Option<TaskId>,
    pub details: Option<DetailsModel>,
    pub status: Status,
    pub kind: KindModel,
}

impl View for Task {
    type V = TaskModel;

    open spec fn view(&self) -> TaskModel {
        TaskModel {
            uid: self.uid,
            enqueued_at: self.enqueued_at,
            started_at: self.started_at,
            finished_at: self.finished_at,
            error: self.error.deep_view(),
            canceled_by: self.canceled_by,
            details: match self.details {
                Some(d) => Some(d@),
                None => None,
            },
            status: self.status,
            kind: self.kind@,
        }
    }
}

impl Task {
    /// An exact copy of the record.
    pub fn duplicate(&self) -> (r: Task)
        ensures
            r@ == self@,
    {
        Task {
            uid: self.uid,
            enqueued_at: self.enqueued_at,
            started_at: self.started_at,
            finished_at: self.finished_at,
            error: clone_opt_string(&self.error),
            canceled_by: self.canceled_by,
            details: match &self.details {
                Some(d) => Some(d.duplicate()),
                None => None,
            },
            status: self.status,
            kind: self.kind.duplicate(),
        }
    }

    /// The first index uid the record's kind mentions, if any.
    pub fn index_uid(&self) -> (r: Option<String>)
        ensures
            self@.kind.index_uids().len() == 0 ==> r is None,
            self@.kind.index_uids().len() > 0 ==> (r matches Some(u) && u@ == self@.kind.index_uids()[0]),
    {
        let uids = self.kind.indexes();
        if uids.len() == 0 {
            None
        } else {
            Some(uids[0].clone())
        }
    }
}

/// Copies an optional string; the copy denotes the same value.
pub fn clone_opt_string(o: &Option<String>) -> (r: Option<String>)
    ensures
        r == *o,
{
    match o {
        Some(s) => Some(s.clone()),
        None => None,
    }
}

/// Copies a vector of strings; the views agree.
pub fn clone_string_vec(v: &Vec<String>) -> (r: Vec<String>)
    ensures
        r.deep_view() == v.deep_view(),
        r@.len() == v@.len(),
{
    let mut r: Vec<String> = Vec::new();
    for i in 0..v.len()
        invariant
            i <= v.len(),
            r.deep_view() == v.deep_view().take(i as int),
            r@.len() == i,
    {
        r.push(v[i].clone());
        proof {
            assert(r.deep_view() =~~= v.deep_view().take(i + 1));
        }
    }
    proof {
        assert(v.deep_view().take(v@.len() as int) =~= v.deep_view());
    }
    r
}

/// Copies a vector of string pairs; the views agree.
pub fn clone_string_pairs(v: &Vec<(String, String)>) -> (r: Vec<(String, String)>)
    ensures
        r.deep_view() == v.deep_view(),
        r@.len() == v@.len(),
{
    let mut r: Vec<(String, String)> = Vec::new();
    for i in 0..v.len()
        invariant
            i <= v.len(),
            r.deep_view() == v.deep_view().take(i as int),
            r@.len() == i,
    {
        let pair = (v[i].0.clone(), v[i].1.clone());
        r.push(pair);
        proof {
            assert(r.deep_view() =~~= v.deep_view().take(i + 1));
        }
    }
    proof {
        assert(v.deep_view().take(v@.len() as int) =~= v.deep_view());
    }
    r
}

/// Replaces `u` by its counterpart under the swap `(lhs, rhs)`.
pub open spec fn swap_uid(u: Seq<char>, lhs: Seq<char>, rhs: Seq<char>) -> Seq<char> {
    if u == lhs {
        rhs
    } else if u == rhs {
        lhs
    } else {
        u
    }
}

/// Applies [`swap_uid`] to both components of a swap pair.
pub open spec fn swapped_pair(p: (Seq<char>, Seq<char>), lhs: Seq<char>, rhs: Seq<char>) -> (
    Seq<char>,
    Seq<char>,
) {
    (swap_uid(p.0, lhs, rhs), swap_uid(p.1, lhs, rhs))
}

impl KindModel {
    /// This kind with every index uid replaced by its counterpart under the
    /// swap `(lhs, rhs)`.
    pub open spec fn with_swapped_uids(self, lhs: Seq<char>, rhs: Seq<char>) -> KindModel {
        match self {
            KindModel::DocumentAdditionOrUpdate {
                index_uid, primary_key, method, content_file, documents_count, allow_index_creation,
            } => KindModel::DocumentAdditionOrUpdate {
                index_uid: swap_uid(index_uid, lhs, rhs),
                primary_key, method, content_file, documents_count, allow_index_creation,
            },
            KindModel::DocumentDeletion { index_uid, documents_ids } =>
                KindModel::DocumentDeletion {
                    index_uid: swap_uid(index_uid, lhs, rhs),
                    documents_ids,
                },
            KindModel::DocumentClear { index_uid } => KindModel::DocumentClear {
                index_uid: swap_uid(index_uid, lhs, rhs),
            },
            KindModel::SettingsUpdate { index_uid, new_settings, is_deletion, allow_index_creation } =>
                KindModel::SettingsUpdate {
                    index_uid: swap_uid(index_uid, lhs, rhs),
                    new_settings, is_deletion, allow_index_creation,
                },
            KindModel::IndexCreation { index_uid, primary_key } => KindModel::IndexCreation {
                index_uid: swap_uid(index_uid, lhs, rhs),
                primary_key,
            },
            KindModel::IndexUpdate { index_uid, primary_key } => KindModel::IndexUpdate {
                index_uid: swap_uid(index_uid, lhs, rhs),
                primary_key,
            },
            KindModel::IndexDeletion { index_uid } => KindModel::IndexDeletion {
                index_uid: swap_uid(index_uid, lhs, rhs),
            },
            KindModel::IndexSwap { swaps } => KindModel::IndexSwap {
                swaps: swaps.map_values(
                    |p: (Seq<char>, Seq<char>)| swapped_pair(p, lhs, rhs),
                ),
            },
            KindModel::TaskCancelation { .. } => self,
            KindModel::TaskDeletion { .. } => self,
            KindModel::DumpCreation { .. } => self,
            KindModel::Snapshot => self,
        }
    }

    /// Whether this kind's payload passes static validation at registration.
    pub open spec fn is_valid(self) -> bool {
        match self {
            KindModel::DocumentAdditionOrUpdate { index_uid, .. } => valid_index_uid(index_uid),
            KindModel::DocumentDeletion { index_uid, documents_ids } => valid_index_uid(index_uid)
                && documents_ids.len() > 0,
            KindModel::DocumentClear { index_uid } => valid_index_uid(index_uid),
            KindModel::SettingsUpdate { index_uid, .. } => valid_index_uid(index_uid),
            KindModel::IndexCreation { index_uid, .. } => valid_index_uid(index_uid),
            KindModel::IndexUpdate { index_uid, .. } => valid_index_uid(index_uid),
            KindModel::IndexDeletion { index_uid } => valid_index_uid(index_uid),
            KindModel::IndexSwap { swaps } => swaps.len() > 0 && valid_swaps(swaps),
            KindModel::TaskCancelation { .. } => true,
            KindModel::TaskDeletion { .. } => true,
            KindModel::DumpCreation { .. } => true,
            KindModel::Snapshot => true,
        }
    }

    /// The details seeded at registration: received-side counters filled in,
    /// result-side counters empty.
    pub open spec fn initial_details(self) -> Option<DetailsModel> {
        match self {
            KindModel::DocumentAdditionOrUpdate { documents_count, .. } => Some(
                DetailsModel::DocumentAdditionOrUpdate {
                    received_documents: documents_count,
                    indexed_documents: None,
                },
            ),
            KindModel::DocumentDeletion { documents_ids, .. } => Some(
                DetailsModel::DocumentDeletion {
                    received_document_ids: documents_ids.len() as usize,
                    deleted_documents: None,
                },
            ),
            KindModel::DocumentClear { .. } => Some(
                DetailsModel::ClearAll { deleted_documents: None },
            ),
            KindModel::SettingsUpdate { new_settings, .. } => Some(
                DetailsModel::SettingsUpdate { settings: new_settings },
            ),
            KindModel::IndexCreation { primary_key, .. } => Some(
                DetailsModel::IndexInfo { primary_key },
            ),
            KindModel::IndexUpdate { primary_key, .. } => Some(
                DetailsModel::IndexInfo { primary_key },
            ),
            KindModel::IndexDeletion { .. } => Some(
                DetailsModel::ClearAll { deleted_documents: None },
            ),
            KindModel::IndexSwap { swaps } => Some(DetailsModel::IndexSwap { swaps }),
            KindModel::TaskCancelation { query, tasks } => Some(
                DetailsModel::TaskCancelation {
                    matched_tasks: tasks.len() as u64,
                    canceled_tasks: None,
                    original_query: query,
                },
            ),
            KindModel::TaskDeletion { query, tasks } => Some(
                DetailsModel::TaskDeletion {
                    matched_tasks: tasks.len() as u64,
                    deleted_tasks: None,
                    original_query: query,
                },
            ),
            KindModel::DumpCreation { dump_uid, .. } => Some(
                DetailsModel::Dump { dump_uid },
            ),
            KindModel::Snapshot => None,
        }
    }

    /// Like [`Self::initial_details`], but with the result-side counters set
    /// to zero; used for tasks whose effect was absorbed by another task of
    /// the same batch.
    pub open spec fn finished_details(self) -> Option<DetailsModel> {
        match self {
            KindModel::DocumentAdditionOrUpdate { documents_count, .. } => Some(
                DetailsModel::DocumentAdditionOrUpdate {
                    received_documents: documents_count,
                    indexed_documents: Some(0),
                },
            ),
            KindModel::DocumentDeletion { documents_ids, .. } => Some(
                DetailsModel::DocumentDeletion {
                    received_document_ids: documents_ids.len() as usize,
                    deleted_documents: Some(0),
                },
            ),
            KindModel::DocumentClear { .. } => Some(
                DetailsModel::ClearAll { deleted_documents: Some(0) },
            ),
            KindModel::SettingsUpdate { new_settings, .. } => Some(
                DetailsModel::SettingsUpdate { settings: new_settings },
            ),
            KindModel::IndexCreation { primary_key, .. } => Some(
                DetailsModel::IndexInfo { primary_key },
            ),
            KindModel::IndexUpdate { primary_key, .. } => Some(
                DetailsModel::IndexInfo { primary_key },
            ),
            KindModel::IndexDeletion { .. } => Some(
                DetailsModel::ClearAll { deleted_documents: Some(0) },
            ),
            KindModel::IndexSwap { swaps } => Some(DetailsModel::IndexSwap { swaps }),
            KindModel::TaskCancelation { query, tasks } => Some(
                DetailsModel::TaskCancelation {
                    matched_tasks: tasks.len() as u64,
                    canceled_tasks: Some(0),
                    original_query: query,
                },
            ),
            KindModel::TaskDeletion { query, tasks } => Some(
                DetailsModel::TaskDeletion {
                    matched_tasks: tasks.len() as u64,
                    deleted_tasks: Some(0),
                    original_query: query,
                },
            ),
            KindModel::DumpCreation { dump_uid, .. } => Some(
                DetailsModel::Dump { dump_uid },
            ),
            KindModel::Snapshot => None,
        }
    }
}

impl DetailsModel {
    /// These details with every index uid of a swap list replaced by its
    /// counterpart under the swap `(lhs, rhs)`.
    pub open spec fn with_swapped_uids(self, lhs: Seq<char>, rhs: Seq<char>) -> DetailsModel {
        match self {
            DetailsModel::IndexSwap { swaps } => DetailsModel::IndexSwap {
                swaps: swaps.map_values(
                    |p: (Seq<char>, Seq<char>)| swapped_pair(p, lhs, rhs),
                ),
            },
            _ => self,
        }
    }
}

/// The model of an optional details value.
pub open spec fn details_opt_view(o: Option<Details>) -> Option<DetailsModel> {
    match o {
        Some(d) => Some(d@),
        None => None,
    }
}

/// A well-formed entry of a swap list: two distinct, well-formed index uids.
pub open spec fn valid_swap_entry(p: (Seq<char>, Seq<char>)) -> bool {
    valid_index_uid(p.0) && valid_index_uid(p.1) && p.0 != p.1
}

/// A well-formed swap list: every entry well formed, no entry repeated.
pub open spec fn valid_swaps(swaps: Seq<(Seq<char>, Seq<char>)>) -> bool {
    (forall|i: int| 0 <= i < swaps.len() ==> valid_swap_entry(#[trigger] swaps[i])) && (forall|
        i: int,
        j: int,
    |
        0 <= i < j < swaps.len() ==> swaps[i] != swaps[j])
}

/// A character allowed in an index uid: ASCII alphanumeric, `-` or `_`.
pub open spec fn valid_index_uid_char(c: char) -> bool {
    (97 <= c as u32 && c as u32 <= 122)  // 'a' ..= 'z'
    || (65 <= c as u32 && c as u32 <= 90)  // 'A' ..= 'Z'
    || (48 <= c as u32 && c as u32 <= 57)  // '0' ..= '9'
    || c as u32 == 45  // '-'
    || c as u32 == 95  // '_'
}

/// A well-formed index uid: 1 to 400 characters, all from the allowed set.
pub open spec fn valid_index_uid(u: Seq<char>) -> bool {
    1 <= u.len() <= 400 && forall|i: int| 0 <= i < u.len() ==> valid_index_uid_char(#[trigger] u[i])
}

/// Checks the index-uid format rule.
pub fn index_uid_is_valid(s: &String) -> (r: bool)
    ensures
        r == valid_index_uid(s@),
{
    let st: &str = s.as_str();
    let n: usize = st.unicode_len();
    if n < 1 || n > 400 {
        return false;
    }
    for i in 0..n
        invariant
            st@ == s@,
            n == st@.len(),
            1 <= n <= 400,
            forall|j: int| 0 <= j < i ==> valid_index_uid_char(#[trigger] st@[j]),
    {
        let c = st.get_char(i);
        let cv: u32 = c as u32;
        let ok = (97 <= cv && cv <= 122) || (65 <= cv && cv <= 90) || (48 <= cv && cv <= 57)
            || cv == 45 || cv == 95;
        if !ok {
            return false;
        }
    }
    true
}

/// Checks the swap-list rules: well-formed uids, no self-swap, no duplicate
/// pair.
pub fn swap_list_is_valid(swaps: &Vec<(String, String)>) -> (r: bool)
    ensures
        r == valid_swaps(swaps.deep_view()),
{
    let ghost m: Seq<(Seq<char>, Seq<char>)> = swaps.deep_view();
    let n: usize = swaps.len();
    proof {
        assert(forall|k: int| 0 <= k < n ==> #[trigger] m[k] == (swaps@[k].0@, swaps@[k].1@));
    }
    for i in 0..n
        invariant
            n == swaps@.len(),
            m == swaps.deep_view(),
            forall|k: int| 0 <= k < n ==> #[trigger] m[k] == (swaps@[k].0@, swaps@[k].1@),
            forall|k: int| 0 <= k < i ==> valid_swap_entry(#[trigger] m[k]),
            forall|k: int, l: int| 0 <= k < l < i ==> m[k] != m[l],
    {
        if !index_uid_is_valid(&swaps[i].0) || !index_uid_is_valid(&swaps[i].1) {
            proof {
                assert(!valid_swap_entry(m[i as int]));
            }
            return false;
        }
        if swaps[i].0 == swaps[i].1 {
            proof {
                assert(!valid_swap_entry(m[i as int]));
            }
            return false;
        }
        for k in 0..i
            invariant
                n == swaps@.len(),
                i < n,
                m == swaps.deep_view(),
                forall|l: int| 0 <= l < n ==> #[trigger] m[l] == (swaps@[l].0@, swaps@[l].1@),
                forall|l: int| 0 <= l < k ==> m[l] != m[i as int],
        {
            if swaps[k].0 == swaps[i].0 && swaps[k].1 == swaps[i].1 {
                proof {
                    assert(m[k as int] == m[i as int]);
                }
                return false;
            }
        }
    }
    true
}

impl KindWithContent {
    /// Checks the static validation rules of spec registration: index-uid
    /// format, non-empty document-id lists, and well-formed swap lists.
    pub fn validate(&self) -> (r: bool)
        ensures
            r == self@.is_valid(),
    {
        match self {
            KindWithContent::DocumentAdditionOrUpdate { index_uid, .. }
            | KindWithContent::DocumentClear { index_uid }
            | KindWithContent::SettingsUpdate { index_uid, .. }
            | KindWithContent::IndexCreation { index_uid, .. }
            | KindWithContent::IndexUpdate { index_uid, .. }
            | KindWithContent::IndexDeletion { index_uid } => index_uid_is_valid(index_uid),
            KindWithContent::DocumentDeletion { index_uid, documents_ids } =>
                index_uid_is_valid(index_uid) && documents_ids.len() > 0,
            KindWithContent::IndexSwap { swaps } => swaps.len() > 0 && swap_list_is_valid(
                swaps,
            ),
            KindWithContent::TaskCancelation { .. }
            | KindWithContent::TaskDeletion { .. }
            | KindWithContent::DumpCreation { .. }
            | KindWithContent::Snapshot => true,
        }
    }

    /// The details seeded at registration.
    pub fn default_details(&self) -> (r: Option<Details>)
        ensures
            details_opt_view(r) == self@.initial_details(),
    {
        match self {
            KindWithContent::DocumentAdditionOrUpdate { documents_count, .. } => Some(
                Details::DocumentAdditionOrUpdate {
                    received_documents: *documents_count,
                    indexed_documents: None,
                },
            ),
            KindWithContent::DocumentDeletion { documents_ids, .. } => Some(
                Details::DocumentDeletion {
                    received_document_ids: documents_ids.len(),
                    deleted_documents: None,
                },
            ),
            KindWithContent::DocumentClear { .. } => Some(
                Details::ClearAll { deleted_documents: None },
            ),
            KindWithContent::SettingsUpdate { new_settings, .. } => Some(
                Details::SettingsUpdate { settings: new_settings.duplicate() },
            ),
            KindWithContent::IndexCreation { primary_key, .. } => Some(
                Details::IndexInfo { primary_key: clone_opt_string(primary_key) },
            ),
            KindWithContent::IndexUpdate { primary_key, .. } => Some(
                Details::IndexInfo { primary_key: clone_opt_string(primary_key) },
            ),
            KindWithContent::IndexDeletion { .. } => Some(
                Details::ClearAll { deleted_documents: None },
            ),
            KindWithContent::IndexSwap { swaps } => Some(
                Details::IndexSwap { swaps: clone_string_pairs(swaps) },
            ),
            KindWithContent::TaskCancelation { query, tasks } => Some(
                Details::TaskCancelation {
                    matched_tasks: rb_len(tasks),
                    canceled_tasks: None,
                    original_query: query.clone(),
                },
            ),
            KindWithContent::TaskDeletion { query, tasks } => Some(
                Details::TaskDeletion {
                    matched_tasks: rb_len(tasks),
                    deleted_tasks: None,
                    original_query: query.clone(),
                },
            ),
            KindWithContent::DumpCreation { dump_uid, .. } => Some(
                Details::Dump { dump_uid: dump_uid.clone() },
            ),
            KindWithContent::Snapshot => None,
        }
    }

    /// The details of a task whose work was absorbed by another task of the
    /// same batch: result-side counters set to zero.
    pub fn default_finished_details(&self) -> (r: Option<Details>)
        ensures
            details_opt_view(r) == self@.finished_details(),
    {
        match self {
            KindWithContent::DocumentAdditionOrUpdate { documents_count, .. } => Some(
                Details::DocumentAdditionOrUpdate {
                    received_documents: *documents_count,
                    indexed_documents: Some(0),
                },
            ),
            KindWithContent::DocumentDeletion { documents_ids, .. } => Some(
                Details::DocumentDeletion {
                    received_document_ids: documents_ids.len(),
                    deleted_documents: Some(0),
                },
            ),
            KindWithContent::DocumentClear { .. } => Some(
                Details::ClearAll { deleted_documents: Some(0) },
            ),
            KindWithContent::SettingsUpdate { new_settings, .. } => Some(
                Details::SettingsUpdate { settings: new_settings.duplicate() },
            ),
            KindWithContent::IndexCreation { primary_key, .. } => Some(
                Details::IndexInfo { primary_key: clone_opt_string(primary_key) },
            ),
            KindWithContent::IndexUpdate { primary_key, .. } => Some(
                Details::IndexInfo { primary_key: clone_opt_string(primary_key) },
            ),
            KindWithContent::IndexDeletion { .. } => Some(
                Details::ClearAll { deleted_documents: Some(0) },
            ),
            KindWithContent::IndexSwap { swaps } => Some(
                Details::IndexSwap { swaps: clone_string_pairs(swaps) },
            ),
            KindWithContent::TaskCancelation { query, tasks } => Some(
                Details::TaskCancelation {
                    matched_tasks: rb_len(tasks),
                    canceled_tasks: Some(0),
                    original_query: query.clone(),
                },
            ),
            KindWithContent::TaskDeletion { query, tasks } => Some(
                Details::TaskDeletion {
                    matched_tasks: rb_len(tasks),
                    deleted_tasks: Some(0),
                    original_query: query.clone(),
                },
            ),
            KindWithContent::DumpCreation { dump_uid, .. } => Some(
                Details::Dump { dump_uid: dump_uid.clone() },
            ),
            KindWithContent::Snapshot => None,
        }
    }
}

/// Replaces `u` in place by its counterpart under the swap `(lhs, rhs)`.
fn swap_string(u: &mut String, lhs: &String, rhs: &String)
    ensures
        final(u)@ == swap_uid(old(u)@, lhs@, rhs@),
{
    if *u == *lhs {
        *u = rhs.clone();
    } else if *u == *rhs {
        *u = lhs.clone();
    }
}

/// Replaces every uid of a swap list by its counterpart under `(lhs, rhs)`.
fn swap_pairs_vec(v: &mut Vec<(String, String)>, lhs: &String, rhs: &String)
    ensures
        final(v).deep_view() == old(v).deep_view().map_values(
            |p: (Seq<char>, Seq<char>)| swapped_pair(p, lhs@, rhs@),
        ),
{
    let n: usize = v.len();
    let mut out: Vec<(String, String)> = Vec::new();
    for i in 0..n
        invariant
            v@ == old(v)@,
            n == v@.len(),
            out@.len() == i,
            forall|j: int| 0 <= j < i ==> (#[trigger] out@[j]).0@ == swap_uid(
                v@[j].0@,
                lhs@,
                rhs@,
            ) && out@[j].1@ == swap_uid(v@[j].1@, lhs@, rhs@),
    {
        let mut a = v[i].0.clone();
        let mut b = v[i].1.clone();
        swap_string(&mut a, lhs, rhs);
        swap_string(&mut b, lhs, rhs);
        out.push((a, b));
    }
    proof {
        assert(out.deep_view() =~~= v.deep_view().map_values(
            |p: (Seq<char>, Seq<char>)| swapped_pair(p, lhs@, rhs@),
        ));
    }
    *v = out;
}

/// Rewrites every mention of either side of the swap `(lhs, rhs)` in the
/// task's kind and details to the opposite side, as the executor does for
/// tasks affected by an index swap.
pub fn swap_index_uid_in_task(task: &mut Task, lhs: &String, rhs: &String)
    ensures
        final(task)@ == (TaskModel {
            kind: old(task)@.kind.with_swapped_uids(lhs@, rhs@),
            details: match old(task)@.details {
                Some(d) => Some(d.with_swapped_uids(lhs@, rhs@)),
                None => None,
            },
            ..old(task)@
        }),
{
    match &mut task.kind {
        KindWithContent::DocumentAdditionOrUpdate { index_uid, .. } => {
            swap_string(index_uid, lhs, rhs);
        },
        KindWithContent::DocumentDeletion { index_uid, .. } => {
            swap_string(index_uid, lhs, rhs);
        },
        KindWithContent::DocumentClear { index_uid } => {
            swap_string(index_uid, lhs, rhs);
        },
        KindWithContent::SettingsUpdate { index_uid, .. } => {
            swap_string(index_uid, lhs, rhs);
        },
        KindWithContent::IndexCreation { index_uid, .. } => {
            swap_string(index_uid, lhs, rhs);
        },
        KindWithContent::IndexUpdate { index_uid, .. } => {
            swap_string(index_uid, lhs, rhs);
        },
        KindWithContent::IndexDeletion { index_uid } => {
            swap_string(index_uid, lhs, rhs);
        },
        KindWithContent::IndexSwap { swaps } => {
            swap_pairs_vec(swaps, lhs, rhs);
        },
        KindWithContent::TaskCancelation { .. } => {},
        KindWithContent::TaskDeletion { .. } => {},
        KindWithContent::DumpCreation { .. } => {},
        KindWithContent::Snapshot => {},
    }
    match &mut task.details {
        Some(Details::IndexSwap { swaps }) => {
            swap_pairs_vec(swaps, lhs, rhs);
        },
        _ => {},
    }
}


} // verus!

