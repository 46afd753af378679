//! Consumer-facing views: the task view handed to API callers, the flattened
//! details view, per-index statistics, and the request payloads of the index
//! routes.

use vstd::prelude::*;
use crate::bitmaps::{elems, rb_and, rb_is_empty};
use crate::error::Error;
use crate::queue::IndexScheduler;
use crate::task::{
    details_opt_view, Details, DetailsModel, Kind, Settings, Status, Task, clone_opt_string,
    clone_string_pairs,
};
use crate::TaskId;

verus! {

/// The payload of an index-creation request.
pub struct IndexCreateRequest {
    pub uid: String,
    pub primary_key: Option<String>,
}

/// The payload of an index-update request.
pub struct UpdateIndexRequest {
    pub uid: Option<String>,
    pub primary_key: Option<String>,
}

/// Statistics of one index, as served by the stats route.
pub struct IndexStats {
    pub number_of_documents: u64,
    pub is_indexing: bool,
    pub field_distribution: Vec<(String, u64)>,
}


/// All fields absent except the document counters.
pub open spec fn unset_but_documents(r: DetailsView) -> bool {
    &&& r.primary_key is None
    &&& r.provided_ids is None
    &&& r.deleted_documents is None
    &&& r.matched_tasks is None
    &&& r.canceled_tasks is None
    &&& r.deleted_tasks is None
    &&& r.original_filter is None
    &&& r.dump_uid is None
    &&& r.settings is None
    &&& r.swaps is None
}

/// All fields absent except the settings payload.
pub open spec fn unset_but_settings(r: DetailsView) -> bool {
    &&& r.received_documents is None
    &&& r.indexed_documents is None
    &&& r.primary_key is None
    &&& r.provided_ids is None
    &&& r.deleted_documents is None
    &&& r.matched_tasks is None
    &&& r.canceled_tasks is None
    &&& r.deleted_tasks is None
    &&& r.original_filter is None
    &&& r.dump_uid is None
    &&& r.swaps is None
}

/// All fields absent except the primary key.
pub open spec fn unset_but_primary_key(r: DetailsView) -> bool {
    &&& r.received_documents is None
    &&& r.indexed_documents is None
    &&& r.provided_ids is None
    &&& r.deleted_documents is None
    &&& r.matched_tasks is None
    &&& r.canceled_tasks is None
    &&& r.deleted_tasks is None
    &&& r.original_filter is None
    &&& r.dump_uid is None
    &&& r.settings is None
    &&& r.swaps is None
}

/// All fields absent except the deletion counters.
pub open spec fn unset_but_deletion(r: DetailsView) -> bool {
    &&& r.received_documents is None
    &&& r.indexed_documents is None
    &&& r.primary_key is None
    &&& r.matched_tasks is None
    &&& r.canceled_tasks is None
    &&& r.deleted_tasks is None
    &&& r.original_filter is None
    &&& r.dump_uid is None
    &&& r.settings is None
    &&& r.swaps is None
}

/// All fields absent except the task-batch counters and the query echo.
pub open spec fn unset_but_task_batch(r: DetailsView) -> bool {
    &&& r.received_documents is None
    &&& r.indexed_documents is None
    &&& r.primary_key is None
    &&& r.provided_ids is None
    &&& r.deleted_documents is None
    &&& r.dump_uid is None
    &&& r.settings is None
    &&& r.swaps is None
}

/// All fields absent except the dump identifier.
pub open spec fn unset_but_dump(r: DetailsView) -> bool {
    &&& r.received_documents is None
    &&& r.indexed_documents is None
    &&& r.primary_key is None
    &&& r.provided_ids is None
    &&& r.deleted_documents is None
    &&& r.matched_tasks is None
    &&& r.canceled_tasks is None
    &&& r.deleted_tasks is None
    &&& r.original_filter is None
    &&& r.settings is None
    &&& r.swaps is None
}

/// All fields absent except the swap list.
pub open spec fn unset_but_swaps(r: DetailsView) -> bool {
    &&& r.received_documents is None
    &&& r.indexed_documents is None
    &&& r.primary_key is None
    &&& r.provided_ids is None
    &&& r.deleted_documents is None
    &&& r.matched_tasks is None
    &&& r.canceled_tasks is None
    &&& r.deleted_tasks is None
    &&& r.original_filter is None
    &&& r.dump_uid is None
    &&& r.settings is None
}

/// Flattened, human-visible counters of one task.
pub struct DetailsView {
    pub received_documents: Option<u64>,
    pub indexed_documents: Option<Option<u64>>,
    pub primary_key: Option<Option<String>>,
    pub provided_ids: Option<usize>,
    pub deleted_documents: Option<Option<u64>>,
    pub matched_tasks: Option<u64>,
    pub canceled_tasks: Option<Option<u64>>,
    pub deleted_tasks: Option<Option<u64>>,
    pub original_filter: Option<String>,
    pub dump_uid: Option<String>,
    pub settings: Option<Settings>,
    pub swaps: Option<Vec<(String, String)>>,
}

impl Default for DetailsView {
    /// The view with every counter absent.
    fn default() -> (r: DetailsView)
        ensures
            r.received_documents is None,
            r.indexed_documents is None,
            r.primary_key is None,
            r.provided_ids is None,
            r.deleted_documents is None,
            r.matched_tasks is None,
            r.canceled_tasks is None,
            r.deleted_tasks is None,
            r.original_filter is None,
            r.dump_uid is None,
            r.settings is None,
            r.swaps is None,
    {
        DetailsView {
            received_documents: None,
            indexed_documents: None,
            primary_key: None,
            provided_ids: None,
            deleted_documents: None,
            matched_tasks: None,
            canceled_tasks: None,
            deleted_tasks: None,
            original_filter: None,
            dump_uid: None,
            settings: None,
            swaps: None,
        }
    }
}

impl DetailsView {
    /// Flattens task details into the view: exactly the fields of the
    /// matching variant are set, all others stay absent.
    pub fn from_details(details: &Details) -> (r: DetailsView)
        ensures
            match details@ {
                DetailsModel::DocumentAdditionOrUpdate { received_documents, indexed_documents } => {
                    &&& r.received_documents == Some(received_documents)
                    &&& r.indexed_documents == Some(indexed_documents)
                    &&& unset_but_documents(r)
                },
                DetailsModel::SettingsUpdate { settings } => {
                    &&& r.settings matches Some(s) && s@ == settings
                    &&& unset_but_settings(r)
                },
                DetailsModel::IndexInfo { primary_key } => {
                    &&& r.primary_key matches Some(pk) && pk.deep_view() == primary_key
                    &&& unset_but_primary_key(r)
                },
                DetailsModel::DocumentDeletion { received_document_ids, deleted_documents } => {
                    &&& r.provided_ids == Some(received_document_ids)
                    &&& r.deleted_documents == Some(deleted_documents)
                    &&& unset_but_deletion(r)
                },
                DetailsModel::ClearAll { deleted_documents } => {
                    &&& r.deleted_documents == Some(deleted_documents)
                    &&& r.provided_ids is None
                    &&& unset_but_deletion(r)
                },
                DetailsModel::TaskCancelation { matched_tasks, canceled_tasks, original_query } => {
                    &&& r.matched_tasks == Some(matched_tasks)
                    &&& r.canceled_tasks == Some(canceled_tasks)
                    &&& r.deleted_tasks is None
                    &&& r.original_filter matches Some(q) && q@ == original_query
                    &&& unset_but_task_batch(r)
                },
                DetailsModel::TaskDeletion { matched_tasks, deleted_tasks, original_query } => {
                    &&& r.matched_tasks == Some(matched_tasks)
                    &&& r.deleted_tasks == Some(deleted_tasks)
                    &&& r.canceled_tasks is None
                    &&& r.original_filter matches Some(q) && q@ == original_query
                    &&& unset_but_task_batch(r)
                },
                DetailsModel::Dump { dump_uid } => {
                    &&& r.dump_uid matches Some(d) && d@ == dump_uid
                    &&& unset_but_dump(r)
                },
                DetailsModel::IndexSwap { swaps } => {
                    &&& r.swaps matches Some(sw) && sw.deep_view() == swaps
                    &&& unset_but_swaps(r)
                },
            },
    {
        match details {
            Details::DocumentAdditionOrUpdate { received_documents, indexed_documents } =>
                DetailsView {
                    received_documents: Some(*received_documents),
                    indexed_documents: Some(*indexed_documents),
                    ..Default::default()
                },
            Details::SettingsUpdate { settings } => DetailsView {
                settings: Some(settings.duplicate()),
                ..Default::default()
            },
            Details::IndexInfo { primary_key } => DetailsView {
                primary_key: Some(clone_opt_string(primary_key)),
                ..Default::default()
            },
            Details::DocumentDeletion { received_document_ids, deleted_documents } => DetailsView {
                provided_ids: Some(*received_document_ids),
                deleted_documents: Some(*deleted_documents),
                ..Default::default()
            },
            Details::ClearAll { deleted_documents } => DetailsView {
                deleted_documents: Some(*deleted_documents),
                ..Default::default()
            },
            Details::TaskCancelation { matched_tasks, canceled_tasks, original_query } =>
                DetailsView {
                    matched_tasks: Some(*matched_tasks),
                    canceled_tasks: Some(*canceled_tasks),
                    original_filter: Some(original_query.clone()),
                    ..Default::default()
                },
            Details::TaskDeletion { matched_tasks, deleted_tasks, original_query } => DetailsView {
                matched_tasks: Some(*matched_tasks),
                deleted_tasks: Some(*deleted_tasks),
                original_filter: Some(original_query.clone()),
                ..Default::default()
            },
            Details::Dump { dump_uid } => DetailsView {
                dump_uid: Some(dump_uid.clone()),
                ..Default::default()
            },
            Details::IndexSwap { swaps } => DetailsView {
                swaps: Some(clone_string_pairs(swaps)),
                ..Default::default()
            },
        }
    }
}

/// The task view handed to API callers.
pub struct TaskView {
    pub uid: TaskId,
    pub index_uid: Option<String>,
    pub status: Status,
    pub kind: Kind,
    pub canceled_by: Option<TaskId>,
    pub details: Option<DetailsView>,
    pub error: Option<String>,
    pub duration: Option<i128>,
    pub enqueued_at: i128,
    pub started_at: Option<i128>,
    pub finished_at: Option<i128>,
}

impl TaskView {
    /// Projects a task record into its view: the kind collapses to its tag,
    /// the details flatten, and the duration is the time between start and
    /// finish when both are known.
    pub fn from_task(task: &Task) -> (r: TaskView)
        ensures
            r.uid == task@.uid,
            task@.kind.index_uids().len() == 0 ==> r.index_uid is None,
            task@.kind.index_uids().len() > 0 ==> (r.index_uid matches Some(u) && u@
                == task@.kind.index_uids()[0]),
            r.status == task@.status,
            r.kind == task@.kind.tag(),
            r.canceled_by == task@.canceled_by,
            r.details is Some <==> task@.details is Some,
            r.error.deep_view() == task@.error,
            r.enqueued_at == task@.enqueued_at,
            r.started_at == task@.started_at,
            r.finished_at == task@.finished_at,
            match (task@.started_at, task@.finished_at) {
                (Some(s), Some(f)) => r.duration == (if i128::MIN <= f - s <= i128::MAX {
                    Some((f - s) as i128)
                } else {
                    None
                }),
                _ => r.duration is None,
            },
    {
        let duration = match (task.started_at, task.finished_at) {
            (Some(s), Some(f)) => f.checked_sub(s),
            _ => None,
        };
        TaskView {
            uid: task.uid,
            index_uid: task.index_uid(),
            status: task.status,
            kind: task.kind.as_kind(),
            canceled_by: task.canceled_by,
            details: match &task.details {
                Some(d) => Some(DetailsView::from_details(d)),
                None => None,
            },
            error: clone_opt_string(&task.error),
            duration,
            enqueued_at: task.enqueued_at,
            started_at: task.started_at,
            finished_at: task.finished_at,
        }
    }
}

impl IndexScheduler {
    /// The statistics of one index: its document count and whether some task
    /// of the index is currently processing. Fails when the index does not
    /// exist. The field distribution is not modelled and stays empty.
    pub fn index_stats(&self, index_uid: &String) -> (r: Result<IndexStats, Error>)
        requires
            self.wf(),
        ensures
            !self.has_index(index_uid@) ==> (r matches Err(e) && e is IndexNotFound),
            self.has_index(index_uid@) ==> (r matches Ok(st) && st.number_of_documents
                == self.index_docs(index_uid@) && st.is_indexing == (self.status_set(
                Status::Processing,
            ).intersect(self.index_set(index_uid@)) != Set::<u32>::empty())),
    {
        let data = match self.mapper_get(index_uid) {
            Some(d) => d,
            None => {
                return Err(Error::IndexNotFound(index_uid.clone()));
            },
        };
        let processing = self.get_status(Status::Processing);
        let of_index = self.index_tasks(index_uid);
        let both = rb_and(&processing, &of_index);
        let is_indexing = !rb_is_empty(&both);
        proof {
            if elems(both) =~= Set::<u32>::empty() {
                assert(self.status_set(Status::Processing).intersect(self.index_set(index_uid@))
                    =~= Set::<u32>::empty());
            }
        }
        Ok(
            IndexStats {
                number_of_documents: data.number_of_documents,
                is_indexing,
                field_distribution: Vec::new(),
            },
        )
    }
}

} // verus!
