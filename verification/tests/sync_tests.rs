use minecli::app::IssueSortOrder;
use minecli::db::Database;
use minecli::redmine::{IdName, Issue, Project};
use minecli::sync::{pages_done, project_activity_from_issues, IssueSyncState, PageOutcome, PAGE_SIZE};

fn issue(id: u64, project_id: u64, updated_on: u64) -> Issue {
    Issue {
        id,
        project: IdName { id: project_id, name: "P".to_string() },
        tracker: IdName { id: 1, name: "Bug".to_string() },
        status: IdName { id: 1, name: "New".to_string() },
        priority: IdName { id: 2, name: "Normal".to_string() },
        author: IdName { id: 1, name: "A".to_string() },
        assigned_to: None,
        subject: format!("issue {}", id),
        description: None,
        created_on: 1,
        updated_on,
        due_date: None,
        done_ratio: None,
        journals: vec![],
    }
}

fn project(id: u64) -> Project {
    Project {
        id,
        name: format!("p{}", id),
        identifier: format!("p{}", id),
        description: None,
        status: Some(1),
        parent: None,
        created_on: Some(1),
        updated_on: Some(2),
        last_issue_activity: None,
        last_issues_sync: None,
    }
}

#[test]
fn test_short_page_completes_and_flushes() {
    let mut db = Database::new();
    db.insert_projects_at(&vec![project(1)], 50).unwrap();

    let mut sync = IssueSyncState::new();
    sync.begin();
    assert!(sync.in_progress);
    assert_eq!(sync.next_offset(), 0);

    // A short page (fewer than the page size) completes the cycle and
    // merges the buffer in one batch.
    let page = vec![issue(1, 1, 10), issue(2, 1, 30)];
    let outcome = sync.on_page_success(&mut db, page, Some(2), 99).unwrap();
    assert_eq!(outcome, PageOutcome::Completed);
    assert!(!sync.in_progress);
    assert_eq!(sync.loaded_count, 2);
    assert_eq!(sync.buffer.len(), 0);

    let rows = db
        .get_issues(Some(1), IssueSortOrder::UpdatedDesc, None, None)
        .unwrap();
    assert_eq!(rows.len(), 2);
    let projects = db.get_projects(None).unwrap();
    assert_eq!(projects[0].last_issue_activity, Some(30));
    assert_eq!(projects[0].last_issues_sync, Some(99));
}

#[test]
fn test_full_page_continues_without_flushing() {
    let mut db = Database::new();
    db.insert_projects_at(&vec![project(1)], 50).unwrap();

    let mut sync = IssueSyncState::new();
    sync.begin();

    // A full page with a larger reported total keeps the cycle open and
    // writes nothing yet.
    let mut page: Vec<Issue> = Vec::new();
    for k in 0..PAGE_SIZE {
        page.push(issue(k as u64 + 1, 1, 10));
    }
    let outcome = sync.on_page_success(&mut db, page, Some(150), 99).unwrap();
    assert_eq!(outcome, PageOutcome::Continue);
    assert!(sync.in_progress);
    assert_eq!(sync.next_offset(), PAGE_SIZE);
    assert_eq!(sync.total_count, 150);

    let rows = db
        .get_issues(Some(1), IssueSortOrder::UpdatedDesc, None, None)
        .unwrap();
    assert!(rows.is_empty());

    // The second, short page completes and flushes everything at once.
    let page2 = vec![issue(900, 1, 77)];
    let outcome = sync.on_page_success(&mut db, page2, Some(150), 99).unwrap();
    assert_eq!(outcome, PageOutcome::Completed);
    let rows = db
        .get_issues(Some(1), IssueSortOrder::UpdatedDesc, None, None)
        .unwrap();
    assert_eq!(rows.len(), PAGE_SIZE + 1);
}

#[test]
fn test_page_error_discards_buffer() {
    let mut db = Database::new();
    let mut sync = IssueSyncState::new();
    sync.begin();
    let outcome = sync
        .on_page_success(&mut db, vec![issue(1, 1, 10); PAGE_SIZE], Some(500), 5)
        .unwrap();
    assert_eq!(outcome, PageOutcome::Continue);

    // A failed fetch aborts the cycle: nothing is flushed, the buffer
    // is discarded, and the controller returns to idle.
    sync.on_page_error();
    assert!(!sync.in_progress);
    assert!(sync.buffer.is_empty());
    let rows = db
        .get_issues(None, IssueSortOrder::UpdatedDesc, None, None)
        .unwrap();
    assert!(rows.is_empty());

    // A later begin starts from an empty buffer.
    sync.begin();
    assert_eq!(sync.next_offset(), 0);
}

#[test]
fn test_begin_is_idempotent_while_running() {
    let mut db = Database::new();
    let mut sync = IssueSyncState::new();
    sync.begin();
    let _ = sync
        .on_page_success(&mut db, vec![issue(1, 1, 10); PAGE_SIZE], Some(500), 5)
        .unwrap();
    let before = sync.buffer.len();
    sync.begin();
    assert_eq!(sync.buffer.len(), before);
    assert!(sync.in_progress);
}

#[test]
fn test_pages_done_predicate() {
    // Done when the accumulated rows reach the reported total ...
    assert!(pages_done(100, 200, Some(200), 100));
    // ... or when the page came back short ...
    assert!(pages_done(40, 40, None, 100));
    // ... but not while full pages keep coming under the total.
    assert!(!pages_done(100, 100, Some(250), 100));
}

#[test]
fn test_project_activity_from_issues() {
    let issues = vec![issue(1, 7, 50), issue(2, 7, 90), issue(3, 8, 20)];
    let pairs = project_activity_from_issues(&issues);
    assert_eq!(pairs.len(), 2);
    assert!(pairs.contains(&(7, 90)));
    assert!(pairs.contains(&(8, 20)));
}
