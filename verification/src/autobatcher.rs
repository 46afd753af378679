//! The autobatcher: given the run of enqueued tasks that target one index,
//! decides the longest prefix that can be executed as a single batch, and the
//! shape of that batch.
//!
//! The decision procedure is written twice: once as the executable
//! [`autobatch`], and once as the specification [`autobatch_spec`] that the
//! executable is proved to follow. The rules are applied greedily from the
//! head of the run and stop at the first task that cannot join the batch.

use vstd::prelude::*;
use crate::task::{IndexDocumentsMethod, KindModel, KindWithContent, clone_opt_string};
use crate::TaskId;

verus! {

/// The shape of a batch over one index, holding the uids of the merged tasks.
pub enum BatchKind {
    DocumentClear { ids: Vec<TaskId> },
    DocumentImport {
        method: IndexDocumentsMethod,
        allow_index_creation: bool,
        import_ids: Vec<TaskId>,
    },
    DocumentDeletion { deletion_ids: Vec<TaskId> },
    ClearAndSettings { other: Vec<TaskId>, allow_index_creation: bool, settings_ids: Vec<TaskId> },
    SettingsAndDocumentImport {
        settings_ids: Vec<TaskId>,
        method: IndexDocumentsMethod,
        allow_index_creation: bool,
        import_ids: Vec<TaskId>,
    },
    Settings { allow_index_creation: bool, settings_ids: Vec<TaskId> },
    IndexDeletion { ids: Vec<TaskId> },
    IndexCreation { id: TaskId },
    IndexUpdate { id: TaskId },
    IndexSwap { id: TaskId },
}

/// The mathematical model of a [`BatchKind`].
pub ghost enum BatchKindModel {
    DocumentClear { ids: Seq<TaskId> },
    DocumentImport {
        method: IndexDocumentsMethod,
        allow_index_creation: bool,
        import_ids: Seq<TaskId>,
    },
    DocumentDeletion { deletion_ids: Seq<TaskId> },
    ClearAndSettings { other: Seq<TaskId>, allow_index_creation: bool, settings_ids: Seq<TaskId> },
    SettingsAndDocumentImport {
        settings_ids: Seq<TaskId>,
        method: IndexDocumentsMethod,
        allow_index_creation: bool,
        import_ids: Seq<TaskId>,
    },
    Settings { allow_index_creation: bool, settings_ids: Seq<TaskId> },
    IndexDeletion { ids: Seq<TaskId> },
    IndexCreation { id: TaskId },
    IndexUpdate { id: TaskId },
    IndexSwap { id: TaskId },
}

impl View for BatchKind {
    type V = BatchKindModel;

    open spec fn view(&self) -> BatchKindModel {
        match self {
            BatchKind::DocumentClear { ids } => BatchKindModel::DocumentClear { ids: ids@ },
            BatchKind::DocumentImport { method, allow_index_creation, import_ids } =>
                BatchKindModel::DocumentImport {
                    method: *method,
                    allow_index_creation: *allow_index_creation,
                    import_ids: import_ids@,
                },
            BatchKind::DocumentDeletion { deletion_ids } => BatchKindModel::DocumentDeletion {
                deletion_ids: deletion_ids@,
            },
            BatchKind::ClearAndSettings { other, allow_index_creation, settings_ids } =>
                BatchKindModel::ClearAndSettings {
                    other: other@,
                    allow_index_creation: *allow_index_creation,
                    settings_ids: settings_ids@,
                },
            BatchKind::SettingsAndDocumentImport {
                settings_ids, method, allow_index_creation, import_ids,
            } => BatchKindModel::SettingsAndDocumentImport {
                settings_ids: settings_ids@,
                method: *method,
                allow_index_creation: *allow_index_creation,
                import_ids: import_ids@,
            },
            BatchKind::Settings { allow_index_creation, settings_ids } => BatchKindModel::Settings {
                allow_index_creation: *allow_index_creation,
                settings_ids: settings_ids@,
            },
            BatchKind::IndexDeletion { ids } => BatchKindModel::IndexDeletion { ids: ids@ },
            BatchKind::IndexCreation { id } => BatchKindModel::IndexCreation { id: *id },
            BatchKind::IndexUpdate { id } => BatchKindModel::IndexUpdate { id: *id },
            BatchKind::IndexSwap { id } => BatchKindModel::IndexSwap { id: *id },
        }
    }
}

impl BatchKindModel {
    /// The uids of the tasks merged into this batch.
    pub open spec fn ids(self) -> Seq<TaskId> {
        match self {
            BatchKindModel::DocumentClear { ids } => ids,
            BatchKindModel::DocumentImport { import_ids, .. } => import_ids,
            BatchKindModel::DocumentDeletion { deletion_ids } => deletion_ids,
            BatchKindModel::ClearAndSettings { other, settings_ids, .. } => other + settings_ids,
            BatchKindModel::SettingsAndDocumentImport { settings_ids, import_ids, .. } =>
                settings_ids + import_ids,
            BatchKindModel::Settings { settings_ids, .. } => settings_ids,
            BatchKindModel::IndexDeletion { ids } => ids,
            BatchKindModel::IndexCreation { id } => seq![id],
            BatchKindModel::IndexUpdate { id } => seq![id],
            BatchKindModel::IndexSwap { id } => seq![id],
        }
    }
}

/// The accumulator of the greedy scan: the batch built so far, in a shape
/// that can still grow.
pub ghost enum AccModel {
    Clear { ids: Seq<TaskId> },
    Import {
        method: IndexDocumentsMethod,
        allow_index_creation: bool,
        primary_key: Option<Seq<char>>,
        ids: Seq<TaskId>,
    },
    Deletion { ids: Seq<TaskId> },
    Settings { allow_index_creation: bool, ids: Seq<TaskId> },
    ClearSettings { other: Seq<TaskId>, allow_index_creation: bool, settings_ids: Seq<TaskId> },
    SettingsImport {
        settings_ids: Seq<TaskId>,
        method: IndexDocumentsMethod,
        allow_index_creation: bool,
        primary_key: Option<Seq<char>>,
        import_ids: Seq<TaskId>,
    },
    /// A pending index creation that may be absorbed by following data tasks.
    Creation { id: TaskId, primary_key: Option<Seq<char>> },
}

/// The outcome of feeding one more task to the accumulator.
pub ghost enum StepModel {
    /// The task joined the batch; scanning continues.
    Go(AccModel),
    /// The task cannot join: the batch closes without it.
    Stop(BatchKindModel),
    /// The task joined the batch, and the batch closes with it.
    Take(BatchKindModel),
}

/// The batch an accumulator denotes when the run ends.
pub open spec fn ab_close(acc: AccModel) -> BatchKindModel {
    match acc {
        AccModel::Clear { ids } => BatchKindModel::DocumentClear { ids },
        AccModel::Import { method, allow_index_creation, primary_key, ids } =>
            BatchKindModel::DocumentImport { method, allow_index_creation, import_ids: ids },
        AccModel::Deletion { ids } => BatchKindModel::DocumentDeletion { deletion_ids: ids },
        AccModel::Settings { allow_index_creation, ids } => BatchKindModel::Settings {
            allow_index_creation,
            settings_ids: ids,
        },
        AccModel::ClearSettings { other, allow_index_creation, settings_ids } =>
            BatchKindModel::ClearAndSettings { other, allow_index_creation, settings_ids },
        AccModel::SettingsImport {
            settings_ids, method, allow_index_creation, primary_key, import_ids,
        } => BatchKindModel::SettingsAndDocumentImport {
            settings_ids,
            method,
            allow_index_creation,
            import_ids,
        },
        AccModel::Creation { id, primary_key } => BatchKindModel::IndexCreation { id },
    }
}

/// The uids the accumulator has gathered so far.
pub open spec fn acc_ids(acc: AccModel) -> Seq<TaskId> {
    ab_close(acc).ids()
}

/// Whether two declared primary keys can live in one import batch: they must
/// be identical unless one of them is unspecified.
pub open spec fn pk_compatible(acc: Option<Seq<char>>, task: Option<Seq<char>>) -> bool {
    match acc {
        Some(a) => match task {
            Some(t) => a == t,
            None => true,
        },
        None => true,
    }
}

/// The declared key that the merged batch carries on.
pub open spec fn pk_merge(acc: Option<Seq<char>>, task: Option<Seq<char>>) -> Option<Seq<char>> {
    match acc {
        Some(a) => Some(a),
        None => task,
    }
}

/// Whether two `allow_index_creation` flags can be merged: any two when the
/// index already exists, else only equal ones (a failing and a succeeding
/// task must not share a batch).
pub open spec fn aic_compatible(a: bool, b: bool, index_exists: bool) -> bool {
    index_exists || a == b
}

/// The first task opens the accumulator. Returns the step and the batch's
/// `must_create_index` flag.
pub open spec fn ab_first(id: TaskId, k: KindModel, index_exists: bool) -> (StepModel, bool) {
    match k {
        KindModel::DocumentClear { .. } => (StepModel::Go(AccModel::Clear { ids: seq![id] }), false),
        KindModel::DocumentAdditionOrUpdate { primary_key, method, allow_index_creation, .. } => (
            StepModel::Go(
                AccModel::Import {
                    method,
                    allow_index_creation,
                    primary_key,
                    ids: seq![id],
                },
            ),
            allow_index_creation && !index_exists,
        ),
        KindModel::DocumentDeletion { .. } => (
            StepModel::Go(AccModel::Deletion { ids: seq![id] }),
            false,
        ),
        KindModel::SettingsUpdate { allow_index_creation, .. } => (
            StepModel::Go(AccModel::Settings { allow_index_creation, ids: seq![id] }),
            allow_index_creation && !index_exists,
        ),
        KindModel::IndexCreation { primary_key, .. } => if index_exists {
            (StepModel::Take(BatchKindModel::IndexCreation { id }), true)
        } else {
            (StepModel::Go(AccModel::Creation { id, primary_key }), true)
        },
        KindModel::IndexUpdate { .. } => (StepModel::Take(BatchKindModel::IndexUpdate { id }), false),
        KindModel::IndexDeletion { .. } => (
            StepModel::Take(BatchKindModel::IndexDeletion { ids: seq![id] }),
            false,
        ),
        KindModel::IndexSwap { .. } => (StepModel::Take(BatchKindModel::IndexSwap { id }), false),
        _ => (StepModel::Take(BatchKindModel::IndexSwap { id }), false),
    }
}

/// Feeds the next task of the run to the accumulator.
pub open spec fn ab_step(acc: AccModel, id: TaskId, k: KindModel, index_exists: bool) -> StepModel {
    match k {
        // Index lifecycle tasks other than deletion never join a data batch.
        KindModel::IndexCreation { .. } => StepModel::Stop(ab_close(acc)),
        KindModel::IndexUpdate { .. } => StepModel::Stop(ab_close(acc)),
        KindModel::IndexSwap { .. } => StepModel::Stop(ab_close(acc)),
        // Deleting the index annihilates every effect gathered so far: the
        // whole accumulator collapses into one index-deletion batch.
        KindModel::IndexDeletion { .. } => StepModel::Take(
            BatchKindModel::IndexDeletion { ids: acc_ids(acc).push(id) },
        ),
        KindModel::DocumentClear { .. } => match acc {
            AccModel::Clear { ids } => StepModel::Go(AccModel::Clear { ids: ids.push(id) }),
            // A clear wipes the documents a pending import would have added.
            AccModel::Import { method, allow_index_creation, primary_key, ids } => StepModel::Go(
                AccModel::Clear { ids: ids.push(id) },
            ),
            AccModel::Deletion { ids } => StepModel::Go(AccModel::Clear { ids: ids.push(id) }),
            AccModel::Settings { allow_index_creation, ids } => StepModel::Go(
                AccModel::ClearSettings {
                    other: seq![id],
                    allow_index_creation,
                    settings_ids: ids,
                },
            ),
            AccModel::ClearSettings { other, allow_index_creation, settings_ids } => StepModel::Go(
                AccModel::ClearSettings {
                    other: other.push(id),
                    allow_index_creation,
                    settings_ids,
                },
            ),
            AccModel::SettingsImport {
                settings_ids, method, allow_index_creation, primary_key, import_ids,
            } => StepModel::Go(
                AccModel::ClearSettings {
                    other: import_ids.push(id),
                    allow_index_creation,
                    settings_ids,
                },
            ),
            AccModel::Creation { id: cid, primary_key } => StepModel::Go(
                AccModel::Clear { ids: seq![cid, id] },
            ),
        },
        KindModel::DocumentAdditionOrUpdate {
            primary_key: tpk, method: tm, allow_index_creation: taic, ..
        } => match acc {
            AccModel::Import { method, allow_index_creation, primary_key, ids } => if method == tm
                && aic_compatible(allow_index_creation, taic, index_exists) && pk_compatible(
                primary_key,
                tpk,
            ) {
                StepModel::Go(
                    AccModel::Import {
                        method,
                        allow_index_creation,
                        primary_key: pk_merge(primary_key, tpk),
                        ids: ids.push(id),
                    },
                )
            } else {
                StepModel::Stop(ab_close(acc))
            },
            AccModel::Settings { allow_index_creation, ids } => if aic_compatible(
                allow_index_creation,
                taic,
                index_exists,
            ) {
                StepModel::Go(
                    AccModel::SettingsImport {
                        settings_ids: ids,
                        method: tm,
                        allow_index_creation,
                        primary_key: tpk,
                        import_ids: seq![id],
                    },
                )
            } else {
                StepModel::Stop(ab_close(acc))
            },
            AccModel::SettingsImport {
                settings_ids, method, allow_index_creation, primary_key, import_ids,
            } => if method == tm && aic_compatible(allow_index_creation, taic, index_exists)
                && pk_compatible(primary_key, tpk) {
                StepModel::Go(
                    AccModel::SettingsImport {
                        settings_ids,
                        method,
                        allow_index_creation,
                        primary_key: pk_merge(primary_key, tpk),
                        import_ids: import_ids.push(id),
                    },
                )
            } else {
                StepModel::Stop(ab_close(acc))
            },
            AccModel::Creation { id: cid, primary_key } => StepModel::Go(
                AccModel::Import {
                    method: tm,
                    allow_index_creation: taic,
                    primary_key: pk_merge(primary_key, tpk),
                    ids: seq![cid, id],
                },
            ),
            _ => StepModel::Stop(ab_close(acc)),
        },
        KindModel::DocumentDeletion { .. } => match acc {
            AccModel::Deletion { ids } => StepModel::Go(AccModel::Deletion { ids: ids.push(id) }),
            // Deleting documents from a cleared index is a no-op, so the
            // deletion is absorbed by the clear.
            AccModel::Clear { ids } => StepModel::Go(AccModel::Clear { ids: ids.push(id) }),
            AccModel::ClearSettings { other, allow_index_creation, settings_ids } => StepModel::Go(
                AccModel::ClearSettings {
                    other: other.push(id),
                    allow_index_creation,
                    settings_ids,
                },
            ),
            AccModel::Creation { id: cid, primary_key } => StepModel::Go(
                AccModel::Deletion { ids: seq![cid, id] },
            ),
            _ => StepModel::Stop(ab_close(acc)),
        },
        KindModel::SettingsUpdate { allow_index_creation: taic, .. } => match acc {
            AccModel::Settings { allow_index_creation, ids } => if aic_compatible(
                allow_index_creation,
                taic,
                index_exists,
            ) {
                StepModel::Go(AccModel::Settings { allow_index_creation, ids: ids.push(id) })
            } else {
                StepModel::Stop(ab_close(acc))
            },
            AccModel::Import { method, allow_index_creation, primary_key, ids } => if aic_compatible(
                allow_index_creation,
                taic,
                index_exists,
            ) {
                StepModel::Go(
                    AccModel::SettingsImport {
                        settings_ids: seq![id],
                        method,
                        allow_index_creation,
                        primary_key,
                        import_ids: ids,
                    },
                )
            } else {
                StepModel::Stop(ab_close(acc))
            },
            AccModel::ClearSettings { other, allow_index_creation, settings_ids } => if aic_compatible(
                allow_index_creation,
                taic,
                index_exists,
            ) {
                StepModel::Go(
                    AccModel::ClearSettings {
                        other,
                        allow_index_creation,
                        settings_ids: settings_ids.push(id),
                    },
                )
            } else {
                StepModel::Stop(ab_close(acc))
            },
            AccModel::Creation { id: cid, primary_key } => StepModel::Go(
                AccModel::Settings { allow_index_creation: true, ids: seq![cid, id] },
            ),
            _ => StepModel::Stop(ab_close(acc)),
        },
        _ => StepModel::Stop(ab_close(acc)),
    }
}

/// Folds [`ab_step`] over the rest of the run.
pub open spec fn ab_fold(
    acc: AccModel,
    tasks: Seq<(TaskId, KindModel)>,
    index_exists: bool,
) -> BatchKindModel
    decreases tasks.len(),
{
    if tasks.len() == 0 {
        ab_close(acc)
    } else {
        match ab_step(acc, tasks[0].0, tasks[0].1, index_exists) {
            StepModel::Go(acc2) => ab_fold(acc2, tasks.skip(1), index_exists),
            StepModel::Stop(bk) => bk,
            StepModel::Take(bk) => bk,
        }
    }
}

/// What the autobatcher decides for a run of enqueued tasks over one index:
/// `None` when the run is empty, otherwise the batch shape for the longest
/// batchable prefix together with the `must_create_index` flag.
pub open spec fn autobatch_spec(tasks: Seq<(TaskId, KindModel)>, index_exists: bool) -> Option<
    (BatchKindModel, bool),
> {
    if tasks.len() == 0 {
        None
    } else {
        let (step, create) = ab_first(tasks[0].0, tasks[0].1, index_exists);
        match step {
            StepModel::Go(acc) => Some((ab_fold(acc, tasks.skip(1), index_exists), create)),
            StepModel::Stop(bk) => Some((bk, create)),
            StepModel::Take(bk) => Some((bk, create)),
        }
    }
}

/// The model of a run of `(uid, kind)` pairs.
pub open spec fn run_model(tasks: Seq<(TaskId, KindWithContent)>) -> Seq<(TaskId, KindModel)> {
    tasks.map_values(|p: (TaskId, KindWithContent)| (p.0, p.1@))
}

/// The executable accumulator mirroring [`AccModel`].
pub enum Acc {
    Clear { ids: Vec<TaskId> },
    Import {
        method: IndexDocumentsMethod,
        allow_index_creation: bool,
        primary_key: Option<String>,
        ids: Vec<TaskId>,
    },
    Deletion { ids: Vec<TaskId> },
    Settings { allow_index_creation: bool, ids: Vec<TaskId> },
    ClearSettings { other: Vec<TaskId>, allow_index_creation: bool, settings_ids: Vec<TaskId> },
    SettingsImport {
        settings_ids: Vec<TaskId>,
        method: IndexDocumentsMethod,
        allow_index_creation: bool,
        primary_key: Option<String>,
        import_ids: Vec<TaskId>,
    },
    Creation { id: TaskId, primary_key: Option<String> },
}

impl View for Acc {
    type V = AccModel;

    open spec fn view(&self) -> AccModel {
        match self {
            Acc::Clear { ids } => AccModel::Clear { ids: ids@ },
            Acc::Import { method, allow_index_creation, primary_key, ids } => AccModel::Import {
                method: *method,
                allow_index_creation: *allow_index_creation,
                primary_key: primary_key.deep_view(),
                ids: ids@,
            },
            Acc::Deletion { ids } => AccModel::Deletion { ids: ids@ },
            Acc::Settings { allow_index_creation, ids } => AccModel::Settings {
                allow_index_creation: *allow_index_creation,
                ids: ids@,
            },
            Acc::ClearSettings { other, allow_index_creation, settings_ids } =>
                AccModel::ClearSettings {
                    other: other@,
                    allow_index_creation: *allow_index_creation,
                    settings_ids: settings_ids@,
                },
            Acc::SettingsImport {
                settings_ids, method, allow_index_creation, primary_key, import_ids,
            } => AccModel::SettingsImport {
                settings_ids: settings_ids@,
                method: *method,
                allow_index_creation: *allow_index_creation,
                primary_key: primary_key.deep_view(),
                import_ids: import_ids@,
            },
            Acc::Creation { id, primary_key } => AccModel::Creation {
                id: *id,
                primary_key: primary_key.deep_view(),
            },
        }
    }
}

/// The executable mirror of [`StepModel`].
pub enum StepR {
    Go(Acc),
    Stop(BatchKind),
    Take(BatchKind),
}

impl View for StepR {
    type V = StepModel;

    open spec fn view(&self) -> StepModel {
        match self {
            StepR::Go(a) => StepModel::Go(a@),
            StepR::Stop(b) => StepModel::Stop(b@),
            StepR::Take(b) => StepModel::Take(b@),
        }
    }
}

/// Closes the accumulator into its batch shape.
fn close(acc: Acc) -> (r: BatchKind)
    ensures
        r@ == ab_close(acc@),
{
    match acc {
        Acc::Clear { ids } => BatchKind::DocumentClear { ids },
        Acc::Import { method, allow_index_creation, primary_key, ids } => BatchKind::DocumentImport {
            method,
            allow_index_creation,
            import_ids: ids,
        },
        Acc::Deletion { ids } => BatchKind::DocumentDeletion { deletion_ids: ids },
        Acc::Settings { allow_index_creation, ids } => BatchKind::Settings {
            allow_index_creation,
            settings_ids: ids,
        },
        Acc::ClearSettings { other, allow_index_creation, settings_ids } =>
            BatchKind::ClearAndSettings { other, allow_index_creation, settings_ids },
        Acc::SettingsImport {
            settings_ids, method, allow_index_creation, primary_key, import_ids,
        } => BatchKind::SettingsAndDocumentImport {
            settings_ids,
            method,
            allow_index_creation,
            import_ids,
        },
        Acc::Creation { id, primary_key } => BatchKind::IndexCreation { id },
    }
}

/// The uids gathered so far, in batch order.
fn take_ids(acc: Acc) -> (r: Vec<TaskId>)
    ensures
        r@ == acc_ids(acc@),
{
    match acc {
        Acc::Clear { ids } => ids,
        Acc::Import { ids, .. } => ids,
        Acc::Deletion { ids } => ids,
        Acc::Settings { ids, .. } => ids,
        Acc::ClearSettings { mut other, mut settings_ids, .. } => {
            other.append(&mut settings_ids);
            other
        },
        Acc::SettingsImport { mut settings_ids, mut import_ids, .. } => {
            settings_ids.append(&mut import_ids);
            settings_ids
        },
        Acc::Creation { id, .. } => {
            let mut ids: Vec<TaskId> = Vec::new();
            ids.push(id);
            proof {
                assert(ids@ =~= seq![id]);
            }
            ids
        },
    }
}

/// Whether two declared primary keys can share an import batch.
fn pk_ok(acc: &Option<String>, task: &Option<String>) -> (r: bool)
    ensures
        r == pk_compatible(acc.deep_view(), task.deep_view()),
{
    match acc {
        Some(a) => match task {
            Some(t) => *a == *t,
            None => true,
        },
        None => true,
    }
}

/// The declared key the merged batch carries on.
fn pk_join(acc: Option<String>, task: &Option<String>) -> (r: Option<String>)
    ensures
        r.deep_view() == pk_merge(acc.deep_view(), task.deep_view()),
{
    match acc {
        Some(a) => Some(a),
        None => clone_opt_string(task),
    }
}

/// Opens the accumulator on the first task of the run.
fn first_step(id: TaskId, kind: &KindWithContent, index_exists: bool) -> (r: (StepR, bool))
    ensures
        (r.0@, r.1) == ab_first(id, kind@, index_exists),
{
    match kind {
        KindWithContent::DocumentClear { .. } => {
            let mut ids: Vec<TaskId> = Vec::new();
            ids.push(id);
            proof {
                assert(ids@ =~= seq![id]);
            }
            (StepR::Go(Acc::Clear { ids }), false)
        },
        KindWithContent::DocumentAdditionOrUpdate {
            primary_key, method, allow_index_creation, ..
        } => {
            let mut ids: Vec<TaskId> = Vec::new();
            ids.push(id);
            proof {
                assert(ids@ =~= seq![id]);
            }
            (
                StepR::Go(
                    Acc::Import {
                        method: *method,
                        allow_index_creation: *allow_index_creation,
                        primary_key: clone_opt_string(primary_key),
                        ids,
                    },
                ),
                *allow_index_creation && !index_exists,
            )
        },
        KindWithContent::DocumentDeletion { .. } => {
            let mut ids: Vec<TaskId> = Vec::new();
            ids.push(id);
            proof {
                assert(ids@ =~= seq![id]);
            }
            (StepR::Go(Acc::Deletion { ids }), false)
        },
        KindWithContent::SettingsUpdate { allow_index_creation, .. } => {
            let mut ids: Vec<TaskId> = Vec::new();
            ids.push(id);
            proof {
                assert(ids@ =~= seq![id]);
            }
            (
                StepR::Go(Acc::Settings { allow_index_creation: *allow_index_creation, ids }),
                *allow_index_creation && !index_exists,
            )
        },
        KindWithContent::IndexCreation { primary_key, .. } => {
            if index_exists {
                (StepR::Take(BatchKind::IndexCreation { id }), true)
            } else {
                (
                    StepR::Go(
                        Acc::Creation { id, primary_key: clone_opt_string(primary_key) },
                    ),
                    true,
                )
            }
        },
        KindWithContent::IndexUpdate { .. } => (StepR::Take(BatchKind::IndexUpdate { id }), false),
        KindWithContent::IndexDeletion { .. } => {
            let mut ids: Vec<TaskId> = Vec::new();
            ids.push(id);
            proof {
                assert(ids@ =~= seq![id]);
            }
            (StepR::Take(BatchKind::IndexDeletion { ids }), false)
        },
        KindWithContent::IndexSwap { .. } => (StepR::Take(BatchKind::IndexSwap { id }), false),
        KindWithContent::TaskCancelation { .. }
        | KindWithContent::TaskDeletion { .. }
        | KindWithContent::DumpCreation { .. }
        | KindWithContent::Snapshot => (StepR::Take(BatchKind::IndexSwap { id }), false),
    }
}

/// Feeds the next task of the run to the accumulator.
#[verifier::rlimit(30)]
fn step(acc: Acc, id: TaskId, kind: &KindWithContent, index_exists: bool) -> (r: StepR)
    ensures
        r@ == ab_step(acc@, id, kind@, index_exists),
{
    match kind {
        KindWithContent::IndexCreation { .. }
        | KindWithContent::IndexUpdate { .. }
        | KindWithContent::IndexSwap { .. }
        | KindWithContent::TaskCancelation { .. }
        | KindWithContent::TaskDeletion { .. }
        | KindWithContent::DumpCreation { .. }
        | KindWithContent::Snapshot => StepR::Stop(close(acc)),
        KindWithContent::IndexDeletion { .. } => {
            let mut ids = take_ids(acc);
            ids.push(id);
            StepR::Take(BatchKind::IndexDeletion { ids })
        },
        KindWithContent::DocumentClear { .. } => match acc {
            Acc::Clear { mut ids } => {
                ids.push(id);
                StepR::Go(Acc::Clear { ids })
            },
            Acc::Import { mut ids, .. } => {
                ids.push(id);
                StepR::Go(Acc::Clear { ids })
            },
            Acc::Deletion { mut ids } => {
                ids.push(id);
                StepR::Go(Acc::Clear { ids })
            },
            Acc::Settings { allow_index_creation, ids } => {
                let mut other: Vec<TaskId> = Vec::new();
                other.push(id);
                proof {
                    assert(other@ =~= seq![id]);
                }
                StepR::Go(Acc::ClearSettings { other, allow_index_creation, settings_ids: ids })
            },
            Acc::ClearSettings { mut other, allow_index_creation, settings_ids } => {
                other.push(id);
                StepR::Go(Acc::ClearSettings { other, allow_index_creation, settings_ids })
            },
            Acc::SettingsImport { settings_ids, allow_index_creation, mut import_ids, .. } => {
                import_ids.push(id);
                StepR::Go(
                    Acc::ClearSettings { other: import_ids, allow_index_creation, settings_ids },
                )
            },
            Acc::Creation { id: cid, .. } => {
                let mut ids: Vec<TaskId> = Vec::new();
                ids.push(cid);
                ids.push(id);
                proof {
                    assert(ids@ =~= seq![cid, id]);
                }
                StepR::Go(Acc::Clear { ids })
            },
        },
        KindWithContent::DocumentAdditionOrUpdate {
            primary_key: tpk, method: tm, allow_index_creation: taic, ..
        } => match acc {
            Acc::Import { method, allow_index_creation, primary_key, mut ids } => {
                if method == *tm && (index_exists || allow_index_creation == *taic) && pk_ok(
                    &primary_key,
                    tpk,
                ) {
                    ids.push(id);
                    StepR::Go(
                        Acc::Import {
                            method,
                            allow_index_creation,
                            primary_key: pk_join(primary_key, tpk),
                            ids,
                        },
                    )
                } else {
                    StepR::Stop(
                        close(Acc::Import { method, allow_index_creation, primary_key, ids }),
                    )
                }
            },
            Acc::Settings { allow_index_creation, ids } => {
                if index_exists || allow_index_creation == *taic {
                    let mut import_ids: Vec<TaskId> = Vec::new();
                    import_ids.push(id);
                    proof {
                        assert(import_ids@ =~= seq![id]);
                    }
                    StepR::Go(
                        Acc::SettingsImport {
                            settings_ids: ids,
                            method: *tm,
                            allow_index_creation,
                            primary_key: clone_opt_string(tpk),
                            import_ids,
                        },
                    )
                } else {
                    StepR::Stop(close(Acc::Settings { allow_index_creation, ids }))
                }
            },
            Acc::SettingsImport {
                settings_ids, method, allow_index_creation, primary_key, mut import_ids,
            } => {
                if method == *tm && (index_exists || allow_index_creation == *taic) && pk_ok(
                    &primary_key,
                    tpk,
                ) {
                    import_ids.push(id);
                    StepR::Go(
                        Acc::SettingsImport {
                            settings_ids,
                            method,
                            allow_index_creation,
                            primary_key: pk_join(primary_key, tpk),
                            import_ids,
                        },
                    )
                } else {
                    StepR::Stop(
                        close(
                            Acc::SettingsImport {
                                settings_ids,
                                method,
                                allow_index_creation,
                                primary_key,
                                import_ids,
                            },
                        ),
                    )
                }
            },
            Acc::Creation { id: cid, primary_key } => {
                let mut ids: Vec<TaskId> = Vec::new();
                ids.push(cid);
                ids.push(id);
                proof {
                    assert(ids@ =~= seq![cid, id]);
                }
                StepR::Go(
                    Acc::Import {
                        method: *tm,
                        allow_index_creation: *taic,
                        primary_key: pk_join(primary_key, tpk),
                        ids,
                    },
                )
            },
            other_acc => StepR::Stop(close(other_acc)),
        },
        KindWithContent::DocumentDeletion { .. } => match acc {
            Acc::Deletion { mut ids } => {
                ids.push(id);
                StepR::Go(Acc::Deletion { ids })
            },
            Acc::Clear { mut ids } => {
                ids.push(id);
                StepR::Go(Acc::Clear { ids })
            },
            Acc::ClearSettings { mut other, allow_index_creation, settings_ids } => {
                other.push(id);
                StepR::Go(Acc::ClearSettings { other, allow_index_creation, settings_ids })
            },
            Acc::Creation { id: cid, .. } => {
                let mut ids: Vec<TaskId> = Vec::new();
                ids.push(cid);
                ids.push(id);
                proof {
                    assert(ids@ =~= seq![cid, id]);
                }
                StepR::Go(Acc::Deletion { ids })
            },
            other_acc => StepR::Stop(close(other_acc)),
        },
        KindWithContent::SettingsUpdate { allow_index_creation: taic, .. } => match acc {
            Acc::Settings { allow_index_creation, mut ids } => {
                if index_exists || allow_index_creation == *taic {
                    ids.push(id);
                    StepR::Go(Acc::Settings { allow_index_creation, ids })
                } else {
                    StepR::Stop(close(Acc::Settings { allow_index_creation, ids }))
                }
            },
            Acc::Import { method, allow_index_creation, primary_key, ids } => {
                if index_exists || allow_index_creation == *taic {
                    let mut settings_ids: Vec<TaskId> = Vec::new();
                    settings_ids.push(id);
                    proof {
                        assert(settings_ids@ =~= seq![id]);
                    }
                    StepR::Go(
                        Acc::SettingsImport {
                            settings_ids,
                            method,
                            allow_index_creation,
                            primary_key,
                            import_ids: ids,
                        },
                    )
                } else {
                    StepR::Stop(
                        close(Acc::Import { method, allow_index_creation, primary_key, ids }),
                    )
                }
            },
            Acc::ClearSettings { other, allow_index_creation, mut settings_ids } => {
                if index_exists || allow_index_creation == *taic {
                    settings_ids.push(id);
                    StepR::Go(Acc::ClearSettings { other, allow_index_creation, settings_ids })
                } else {
                    StepR::Stop(
                        close(Acc::ClearSettings { other, allow_index_creation, settings_ids }),
                    )
                }
            },
            Acc::Creation { id: cid, .. } => {
                let mut ids: Vec<TaskId> = Vec::new();
                ids.push(cid);
                ids.push(id);
                proof {
                    assert(ids@ =~= seq![cid, id]);
                }
                StepR::Go(Acc::Settings { allow_index_creation: true, ids })
            },
            other_acc => StepR::Stop(close(other_acc)),
        },
    }
}

/// Decides the longest batchable prefix of the given run of enqueued tasks
/// over one index, together with the batch's `must_create_index` flag.
/// Follows [`autobatch_spec`] exactly. (spec §4.2)
pub fn autobatch(tasks: &Vec<(TaskId, KindWithContent)>, index_already_exists: bool) -> (r: Option<
    (BatchKind, bool),
>)
    ensures
        r is None <==> tasks@.len() == 0,
        r matches Some(p) ==> autobatch_spec(run_model(tasks@), index_already_exists) == Some(
            (p.0@, p.1),
        ),
{
    let n: usize = tasks.len();
    if n == 0 {
        return None;
    }
    let ghost model = run_model(tasks@);
    proof {
        assert(model[0] == (tasks@[0].0, tasks@[0].1@));
    }
    let (s0, create) = first_step(tasks[0].0, &tasks[0].1, index_already_exists);
    let mut acc = match s0 {
        StepR::Go(a) => a,
        StepR::Stop(bk) => {
            return Some((bk, create));
        },
        StepR::Take(bk) => {
            return Some((bk, create));
        },
    };
    for i in 1..n
        invariant
            n == tasks@.len(),
            1 <= i <= n,
            model == run_model(tasks@),
            autobatch_spec(model, index_already_exists) == Some(
                (ab_fold(acc@, model.skip(i as int), index_already_exists), create),
            ),
    {
        proof {
            assert(model.skip(i as int).len() == n - i);
            assert(model.skip(i as int)[0] == model[i as int]);
            assert(model[i as int] == (tasks@[i as int].0, tasks@[i as int].1@));
            assert(model.skip(i as int).skip(1) =~= model.skip(i + 1));
        }
        let next = step(acc, tasks[i].0, &tasks[i].1, index_already_exists);
        match next {
            StepR::Go(a) => {
                acc = a;
            },
            StepR::Stop(bk) => {
                return Some((bk, create));
            },
            StepR::Take(bk) => {
                return Some((bk, create));
            },
        }
    }
    proof {
        assert(model.skip(n as int) =~= Seq::<(TaskId, KindModel)>::empty());
    }
    Some((close(acc), create))
}

/// The uids of a run, in order.
pub open spec fn run_ids(tasks: Seq<(TaskId, KindModel)>) -> Seq<TaskId> {
    tasks.map_values(|p: (TaskId, KindModel)| p.0)
}

/// One scan step never empties the batch and only ever adds the fed uid.
proof fn lemma_step_ids(acc: AccModel, id: TaskId, k: KindModel, index_exists: bool)
    requires
        acc_ids(acc).len() >= 1,
    ensures
        match ab_step(acc, id, k, index_exists) {
            StepModel::Go(a2) => acc_ids(a2).len() >= 1 && (forall|y: TaskId|
                #[trigger] acc_ids(a2).contains(y) ==> acc_ids(acc).contains(y) || y == id),
            StepModel::Stop(bk) => bk.ids() == acc_ids(acc),
            StepModel::Take(bk) => bk.ids().len() >= 1 && (forall|y: TaskId|
                #[trigger] bk.ids().contains(y) ==> acc_ids(acc).contains(y) || y == id),
        },
{
    broadcast use vstd::seq_lib::lemma_seq_contains_after_push;
    broadcast use vstd::seq_lib::lemma_seq_concat_contains_all_elements;
    match ab_step(acc, id, k, index_exists) {
        StepModel::Go(a2) => {
            assert forall|y: TaskId| #[trigger] acc_ids(a2).contains(y) implies acc_ids(
                acc,
            ).contains(y) || y == id by {
                if acc_ids(a2).contains(y) {
                    let j = choose|j: int|
                        0 <= j < acc_ids(a2).len() && (#[trigger] acc_ids(a2)[j]) == y;
                }
            }
        },
        StepModel::Stop(bk) => {},
        StepModel::Take(bk) => {
            assert forall|y: TaskId| #[trigger] bk.ids().contains(y) implies acc_ids(
                acc,
            ).contains(y) || y == id by {
                if bk.ids().contains(y) {
                    let j = choose|j: int|
                        0 <= j < bk.ids().len() && (#[trigger] bk.ids()[j]) == y;
                }
            }
        },
    }
}

/// The fold keeps at least one task and draws every uid from the
/// accumulator or the run.
proof fn lemma_fold_ids(acc: AccModel, tasks: Seq<(TaskId, KindModel)>, index_exists: bool)
    requires
        acc_ids(acc).len() >= 1,
    ensures
        ab_fold(acc, tasks, index_exists).ids().len() >= 1,
        forall|y: TaskId|
            #[trigger] ab_fold(acc, tasks, index_exists).ids().contains(y) ==> acc_ids(
                acc,
            ).contains(y) || run_ids(tasks).contains(y),
    decreases tasks.len(),
{
    if tasks.len() == 0 {
    } else {
        lemma_step_ids(acc, tasks[0].0, tasks[0].1, index_exists);
        match ab_step(acc, tasks[0].0, tasks[0].1, index_exists) {
            StepModel::Go(a2) => {
                lemma_fold_ids(a2, tasks.skip(1), index_exists);
                assert forall|y: TaskId| #[trigger] ab_fold(
                    acc,
                    tasks,
                    index_exists,
                ).ids().contains(y) implies acc_ids(acc).contains(y) || run_ids(tasks).contains(
                    y,
                ) by {
                    if acc_ids(a2).contains(y) {
                        if !acc_ids(acc).contains(y) {
                            assert(y == tasks[0].0);
                            assert(run_ids(tasks)[0] == y);
                        }
                    } else if run_ids(tasks.skip(1)).contains(y) {
                        let j = choose|j: int|
                            0 <= j < run_ids(tasks.skip(1)).len() && (#[trigger] run_ids(
                                tasks.skip(1),
                            )[j]) == y;
                        assert(run_ids(tasks)[j + 1] == y);
                    }
                }
            },
            StepModel::Stop(bk) => {},
            StepModel::Take(bk) => {
                assert forall|y: TaskId| #[trigger] ab_fold(
                    acc,
                    tasks,
                    index_exists,
                ).ids().contains(y) implies acc_ids(acc).contains(y) || run_ids(tasks).contains(
                    y,
                ) by {
                    if !acc_ids(acc).contains(y) {
                        assert(y == tasks[0].0);
                        assert(run_ids(tasks)[0] == y);
                    }
                }
            },
        }
    }
}

/// What the autobatcher decides is never empty and names only uids of the
/// run it was given.
pub proof fn lemma_autobatch_ids(tasks: Seq<(TaskId, KindModel)>, index_exists: bool)
    requires
        tasks.len() > 0,
    ensures
        autobatch_spec(tasks, index_exists) matches Some((bk, c)) ==> bk.ids().len() >= 1 && (
        forall|y: TaskId|
            #[trigger] bk.ids().contains(y) ==> run_ids(tasks).contains(y)),
{
    broadcast use vstd::seq_lib::lemma_seq_contains_after_push;
    let (step, create) = ab_first(tasks[0].0, tasks[0].1, index_exists);
    match step {
        StepModel::Go(acc) => {
            assert(acc_ids(acc).len() >= 1);
            lemma_fold_ids(acc, tasks.skip(1), index_exists);
            match autobatch_spec(tasks, index_exists) {
                Some((bk, c)) => {
                    assert forall|y: TaskId| #[trigger] bk.ids().contains(y) implies run_ids(
                        tasks,
                    ).contains(y) by {
                        if acc_ids(acc).contains(y) {
                            let j = choose|j: int|
                                0 <= j < acc_ids(acc).len() && (#[trigger] acc_ids(acc)[j]) == y;
                            assert(y == tasks[0].0);
                            assert(run_ids(tasks)[0] == y);
                        } else {
                            let j = choose|j: int|
                                0 <= j < run_ids(tasks.skip(1)).len() && (#[trigger] run_ids(
                                    tasks.skip(1),
                                )[j]) == y;
                            assert(run_ids(tasks)[j + 1] == y);
                        }
                    }
                },
                None => {},
            }
        },
        StepModel::Stop(bk) => {
            assert forall|y: TaskId| #[trigger] bk.ids().contains(y) implies run_ids(
                tasks,
            ).contains(y) by {
                let j = choose|j: int|
                    0 <= j < bk.ids().len() && (#[trigger] bk.ids()[j]) == y;
                assert(y == tasks[0].0);
                assert(run_ids(tasks)[0] == y);
            }
        },
        StepModel::Take(bk) => {
            assert forall|y: TaskId| #[trigger] bk.ids().contains(y) implies run_ids(
                tasks,
            ).contains(y) by {
                let j = choose|j: int|
                    0 <= j < bk.ids().len() && (#[trigger] bk.ids()[j]) == y;
                assert(y == tasks[0].0);
                assert(run_ids(tasks)[0] == y);
            }
        },
    }
}

} // verus!
