//! Tests of registration, the secondary indexes, cancelation and deletion.

use index_scheduler::error::Error;
use index_scheduler::queue::IndexScheduler;
use index_scheduler::task::{IndexDocumentsMethod, Kind, KindWithContent, Status};
use index_scheduler::views::TaskView;
use roaring::RoaringBitmap;

fn addition(index: &str, file: u128, count: u64) -> KindWithContent {
    KindWithContent::DocumentAdditionOrUpdate {
        index_uid: index.to_string(),
        primary_key: None,
        method: IndexDocumentsMethod::UpdateDocuments,
        content_file: file,
        documents_count: count,
        allow_index_creation: true,
    }
}

#[test]
fn register_assigns_dense_uids() {
    let mut scheduler = IndexScheduler::new(true);
    let t0 = scheduler.register(addition("books", 1, 10), 100).unwrap();
    let t1 = scheduler.register(addition("books", 2, 10), 200).unwrap();
    let t2 = scheduler.register(addition("other", 3, 10), 300).unwrap();
    assert_eq!(t0.uid, 0);
    assert_eq!(t1.uid, 1);
    assert_eq!(t2.uid, 2);
    assert_eq!(scheduler.next_task_id(), 3);
    assert_eq!(scheduler.last_task_id(), Some(3));

    let stored = scheduler.get_task(1).unwrap();
    assert_eq!(stored.uid, 1);
    assert_eq!(stored.enqueued_at, 200);
    assert!(matches!(stored.status, Status::Enqueued));
    assert!(scheduler.get_task(3).is_none());

    let enqueued = scheduler.get_status(Status::Enqueued);
    assert_eq!(enqueued.len(), 3);
    let additions = scheduler.get_kind(Kind::DocumentAdditionOrUpdate);
    assert_eq!(additions.len(), 3);
    let books = scheduler.index_tasks(&"books".to_string());
    assert!(books.contains(0) && books.contains(1) && !books.contains(2));
    let all = scheduler.all_task_ids();
    assert_eq!(all.len(), 3);
}

#[test]
fn register_rejects_bad_payloads() {
    let mut scheduler = IndexScheduler::new(true);
    // malformed index uid
    let r = scheduler.register(
        KindWithContent::IndexCreation { index_uid: "bad name!".to_string(), primary_key: None },
        1,
    );
    assert!(matches!(r, Err(Error::InvalidRequest)));
    // empty document-id list
    let r = scheduler.register(
        KindWithContent::DocumentDeletion {
            index_uid: "books".to_string(),
            documents_ids: Vec::new(),
        },
        1,
    );
    assert!(matches!(r, Err(Error::InvalidRequest)));
    // self swap
    let r = scheduler.register(
        KindWithContent::IndexSwap { swaps: vec![("a".to_string(), "a".to_string())] },
        1,
    );
    assert!(matches!(r, Err(Error::InvalidRequest)));
    // duplicate swap pair
    let r = scheduler.register(
        KindWithContent::IndexSwap {
            swaps: vec![
                ("a".to_string(), "b".to_string()),
                ("a".to_string(), "b".to_string()),
            ],
        },
        1,
    );
    assert!(matches!(r, Err(Error::InvalidRequest)));
    // a content file may not be claimed twice
    scheduler.register(addition("books", 7, 10), 1).unwrap();
    let r = scheduler.register(addition("books", 7, 10), 2);
    assert!(matches!(r, Err(Error::InvalidRequest)));
    assert_eq!(scheduler.next_task_id(), 1);
}

#[test]
fn cancelation_only_touches_enqueued_tasks() {
    let mut scheduler = IndexScheduler::new(true);
    scheduler.register(addition("a", 1, 10), 10).unwrap();
    scheduler.register(addition("a", 2, 10), 20).unwrap();
    // finish task 0 by hand, as the executor would
    let mut done = scheduler.get_task(0).unwrap();
    done.status = Status::Succeeded;
    done.started_at = Some(30);
    done.finished_at = Some(40);
    scheduler.update_task(&done).unwrap();

    let mut matched = RoaringBitmap::new();
    matched.insert(0);
    matched.insert(1);
    let (count, files) = scheduler.cancel_matched_tasks(9, &matched, 50);
    // only the still-enqueued task 1 is canceled
    assert_eq!(count, 1);
    assert_eq!(files, vec![2]);
    let t0 = scheduler.get_task(0).unwrap();
    assert!(matches!(t0.status, Status::Succeeded));
    assert_eq!(t0.canceled_by, None);
    let t1 = scheduler.get_task(1).unwrap();
    assert!(matches!(t1.status, Status::Canceled));
    assert_eq!(t1.canceled_by, Some(9));
    assert_eq!(t1.finished_at, Some(50));
}

#[test]
fn deletion_only_removes_terminal_tasks() {
    let mut scheduler = IndexScheduler::new(true);
    scheduler.register(addition("a", 1, 10), 10).unwrap();
    scheduler.register(addition("a", 2, 10), 20).unwrap();
    scheduler.register(addition("a", 3, 10), 30).unwrap();
    // cancel tasks 0 and 1 so they become terminal
    let mut matched = RoaringBitmap::new();
    matched.insert(0);
    matched.insert(1);
    scheduler.cancel_matched_tasks(99, &matched, 40);

    // now try to delete all three: the enqueued task 2 must survive
    let mut all = RoaringBitmap::new();
    all.insert(0);
    all.insert(1);
    all.insert(2);
    let deleted = scheduler.delete_matched_tasks(&all);
    assert_eq!(deleted, 2);
    assert!(scheduler.get_task(0).is_none());
    assert!(scheduler.get_task(1).is_none());
    assert!(scheduler.get_task(2).is_some());
    assert_eq!(scheduler.all_task_ids().len(), 1);
    // retired uids are not handed out again
    assert_eq!(scheduler.next_task_id(), 3);
}

#[test]
fn task_view_projects_the_record() {
    let mut scheduler = IndexScheduler::new(true);
    scheduler.register(addition("books", 5, 12), 100).unwrap();
    let mut t = scheduler.get_task(0).unwrap();
    t.status = Status::Succeeded;
    t.started_at = Some(150);
    t.finished_at = Some(175);
    scheduler.update_task(&t).unwrap();

    let view = TaskView::from_task(&scheduler.get_task(0).unwrap());
    assert_eq!(view.uid, 0);
    assert_eq!(view.index_uid, Some("books".to_string()));
    assert!(matches!(view.kind, Kind::DocumentAdditionOrUpdate));
    assert_eq!(view.enqueued_at, 100);
    assert_eq!(view.duration, Some(25));
    let details = view.details.expect("registration seeds the details");
    assert_eq!(details.received_documents, Some(12));
    assert_eq!(details.indexed_documents, Some(None));
}

#[test]
fn content_files_follow_task_lifecycle() {
    let mut scheduler = IndexScheduler::new(true);
    scheduler.register(addition("a", 11, 1), 10).unwrap();
    // the file exists while the task is enqueued; canceling removes it
    let mut matched = RoaringBitmap::new();
    matched.insert(0);
    let (count, files) = scheduler.cancel_matched_tasks(9, &matched, 20);
    assert_eq!(count, 1);
    assert_eq!(files, vec![11]);
    // a file id stays claimed by its record even after the file is gone
    let r = scheduler.register(addition("a", 11, 1), 30);
    assert!(matches!(r, Err(Error::InvalidRequest)));
    // a fresh id is accepted
    scheduler.register(addition("a", 12, 1), 30).unwrap();
}
