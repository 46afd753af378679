//! End-to-end scenarios: registration, batch selection and execution.

use index_scheduler::queue::IndexScheduler;
use index_scheduler::task::{IndexDocumentsMethod, KindWithContent, Status};

fn addition(index: &str, file: u128, count: u64, method: IndexDocumentsMethod) -> KindWithContent {
    KindWithContent::DocumentAdditionOrUpdate {
        index_uid: index.to_string(),
        primary_key: None,
        method,
        content_file: file,
        documents_count: count,
        allow_index_creation: true,
    }
}

fn addition_with_pk(
    index: &str,
    pk: Option<&str>,
    file: u128,
    count: u64,
    method: IndexDocumentsMethod,
) -> KindWithContent {
    KindWithContent::DocumentAdditionOrUpdate {
        index_uid: index.to_string(),
        primary_key: pk.map(|s| s.to_string()),
        method,
        content_file: file,
        documents_count: count,
        allow_index_creation: true,
    }
}

#[test]
fn three_additions_merge_into_one_batch() {
    let mut s = IndexScheduler::new(true);
    for (file, now) in [(1u128, 10i128), (2, 20), (3, 30)] {
        s.register(addition("books", file, 10, IndexDocumentsMethod::UpdateDocuments), now)
            .unwrap();
    }
    let processed = s.tick(100).unwrap();
    assert_eq!(processed, 3);
    let mut indexed_total = 0;
    for uid in 0..3 {
        let t = s.get_task(uid).unwrap();
        assert!(matches!(t.status, Status::Succeeded));
        match t.details {
            Some(index_scheduler::task::Details::DocumentAdditionOrUpdate {
                indexed_documents: Some(n),
                ..
            }) => indexed_total += n,
            other => panic!("unexpected details: {:?}", other.is_some()),
        }
        assert_eq!(t.started_at, Some(100));
        assert_eq!(t.finished_at, Some(100));
    }
    assert_eq!(indexed_total, 30);
    // the content files were given up when the tasks finished
    assert!(!s.content_file_exists(1));
    assert!(!s.content_file_exists(2));
    assert!(!s.content_file_exists(3));
    // the index exists and holds the documents
    let stats = s.index_stats(&"books".to_string()).unwrap();
    assert_eq!(stats.number_of_documents, 30);
    assert!(!stats.is_indexing);
}

#[test]
fn index_creation_is_absorbed_by_the_following_import() {
    let mut s = IndexScheduler::new(true);
    s.register(
        KindWithContent::IndexCreation {
            index_uid: "movies".to_string(),
            primary_key: Some("id".to_string()),
        },
        10,
    )
    .unwrap();
    s.register(addition("movies", 1, 5, IndexDocumentsMethod::ReplaceDocuments), 20).unwrap();
    // one batch covers both tasks
    let processed = s.tick(100).unwrap();
    assert_eq!(processed, 2);
    assert!(matches!(s.get_task(0).unwrap().status, Status::Succeeded));
    assert!(matches!(s.get_task(1).unwrap().status, Status::Succeeded));
    let data = s.mapper_get(&"movies".to_string()).expect("the index was created");
    assert_eq!(data.primary_key, Some("id".to_string()));
    assert_eq!(data.number_of_documents, 5);
}

#[test]
fn index_deletion_absorbs_earlier_tasks() {
    let mut s = IndexScheduler::new(true);
    for file in 1u128..=5 {
        s.register(
            addition("a", file, 2, IndexDocumentsMethod::UpdateDocuments),
            file as i128,
        )
        .unwrap();
    }
    s.register(KindWithContent::IndexDeletion { index_uid: "a".to_string() }, 6).unwrap();
    s.register(addition("a", 6, 2, IndexDocumentsMethod::UpdateDocuments), 7).unwrap();
    s.register(addition("a", 7, 2, IndexDocumentsMethod::UpdateDocuments), 8).unwrap();

    // first batch: the deletion absorbs tasks 0..=5
    let processed = s.tick(100).unwrap();
    assert_eq!(processed, 6);
    for uid in 0..6 {
        assert!(matches!(s.get_task(uid).unwrap().status, Status::Succeeded));
    }
    assert!(s.mapper_get(&"a".to_string()).is_none());
    // second batch: tasks 6..=7, recreating the index
    let processed = s.tick(200).unwrap();
    assert_eq!(processed, 2);
    assert!(matches!(s.get_task(6).unwrap().status, Status::Succeeded));
    assert!(matches!(s.get_task(7).unwrap().status, Status::Succeeded));
    let data = s.mapper_get(&"a".to_string()).unwrap();
    assert_eq!(data.number_of_documents, 4);
}

#[test]
fn cancelation_runs_before_older_work() {
    let mut s = IndexScheduler::new(true);
    s.register(addition("a", 9, 3, IndexDocumentsMethod::UpdateDocuments), 10).unwrap();
    let mut matched = roaring::RoaringBitmap::new();
    matched.insert(0);
    s.register(
        KindWithContent::TaskCancelation { query: "uids=0".to_string(), tasks: matched },
        20,
    )
    .unwrap();

    // the newest enqueued cancelation is selected first
    let processed = s.tick(100).unwrap();
    assert_eq!(processed, 1);
    let t0 = s.get_task(0).unwrap();
    assert!(matches!(t0.status, Status::Canceled));
    assert_eq!(t0.canceled_by, Some(1));
    let t1 = s.get_task(1).unwrap();
    assert!(matches!(t1.status, Status::Succeeded));
    match t1.details {
        Some(index_scheduler::task::Details::TaskCancelation {
            canceled_tasks: Some(n), ..
        }) => assert_eq!(n, 1),
        _ => panic!("the cancelation details carry the canceled count"),
    }
    assert!(!s.content_file_exists(9));
}

#[test]
fn swap_rewrites_earlier_tasks() {
    let mut s = IndexScheduler::new(true);
    for file in 1u128..=3 {
        s.register(
            addition("a", file, 1, IndexDocumentsMethod::UpdateDocuments),
            file as i128,
        )
        .unwrap();
    }
    s.register(
        KindWithContent::IndexCreation { index_uid: "b".to_string(), primary_key: None },
        4,
    )
    .unwrap();
    s.register(
        KindWithContent::IndexSwap { swaps: vec![("a".to_string(), "b".to_string())] },
        5,
    )
    .unwrap();
    let processed = s.tick(10).unwrap(); // import into "a"
    assert_eq!(processed, 3);
    let processed = s.tick(20).unwrap(); // create "b"
    assert_eq!(processed, 1);
    let processed = s.tick(30).unwrap(); // the swap
    assert_eq!(processed, 1);
    assert!(matches!(s.get_task(4).unwrap().status, Status::Succeeded));

    // the earlier tasks now mention "b"
    for uid in 0..3 {
        let t = s.get_task(uid).unwrap();
        match t.kind {
            KindWithContent::DocumentAdditionOrUpdate { index_uid, .. } => {
                assert_eq!(index_uid, "b".to_string());
            }
            _ => panic!("the task keeps its kind"),
        }
    }
    let b_tasks = s.index_tasks(&"b".to_string());
    assert!(b_tasks.contains(0) && b_tasks.contains(1) && b_tasks.contains(2));
    let a_tasks = s.index_tasks(&"a".to_string());
    assert!(!a_tasks.contains(0) && !a_tasks.contains(1) && !a_tasks.contains(2));
    // the mapper entries traded places: "b" now holds the documents
    assert_eq!(s.mapper_get(&"b".to_string()).unwrap().number_of_documents, 3);
    assert_eq!(s.mapper_get(&"a".to_string()).unwrap().number_of_documents, 0);
}

#[test]
fn disabled_autobatching_gives_single_task_batches() {
    let mut s = IndexScheduler::new(false);
    for file in 1u128..=3 {
        s.register(
            addition("a", file, 1, IndexDocumentsMethod::UpdateDocuments),
            file as i128,
        )
        .unwrap();
    }
    assert_eq!(s.tick(10).unwrap(), 1);
    assert_eq!(s.tick(20).unwrap(), 1);
    assert_eq!(s.tick(30).unwrap(), 1);
    assert_eq!(s.tick(40).unwrap(), 0);
    for uid in 0..3 {
        assert!(matches!(s.get_task(uid).unwrap().status, Status::Succeeded));
    }
}

#[test]
fn mixed_methods_split_batches() {
    let mut s = IndexScheduler::new(true);
    s.register(addition("a", 1, 1, IndexDocumentsMethod::UpdateDocuments), 1).unwrap();
    s.register(addition("a", 2, 1, IndexDocumentsMethod::ReplaceDocuments), 2).unwrap();
    // a change of method stops the run
    assert_eq!(s.tick(10).unwrap(), 1);
    assert_eq!(s.tick(20).unwrap(), 1);
}

#[test]
fn stop_flag_idles_the_loop() {
    let mut s = IndexScheduler::new(true);
    s.register(addition("a", 1, 1, IndexDocumentsMethod::UpdateDocuments), 1).unwrap();
    s.stop_processing();
    assert_eq!(s.tick(10).unwrap(), 0);
    assert!(matches!(s.get_task(0).unwrap().status, Status::Enqueued));
}
