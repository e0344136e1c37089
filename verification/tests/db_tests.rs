use minecli::app::IssueSortOrder;
use minecli::db::Database;
use minecli::redmine::{IdName, Issue, Journal, JournalDetail, Project, User};

fn create_test_db() -> Database {
    Database::new()
}

fn create_test_project(id: u64, name: &str) -> Project {
    Project {
        id,
        name: name.to_string(),
        identifier: format!("proj-{}", id),
        description: Some("Test project".to_string()),
        status: Some(1),
        parent: None,
        created_on: Some(1_000),
        updated_on: Some(2_000),
        last_issue_activity: None,
        last_issues_sync: None,
    }
}

fn create_test_issue(id: u64, project_id: u64, subject: &str) -> Issue {
    Issue {
        id,
        project: IdName {
            id: project_id,
            name: "Test Project".to_string(),
        },
        tracker: IdName {
            id: 1,
            name: "Bug".to_string(),
        },
        status: IdName {
            id: 1,
            name: "New".to_string(),
        },
        priority: IdName {
            id: 2,
            name: "Normal".to_string(),
        },
        author: IdName {
            id: 1,
            name: "Test User".to_string(),
        },
        assigned_to: None,
        subject: subject.to_string(),
        description: Some("Test description".to_string()),
        created_on: 5_000,
        updated_on: 6_000,
        due_date: None,
        done_ratio: Some(0),
        journals: vec![],
    }
}

fn journal(id: u64, note: &str, created_on: u64, details: Vec<JournalDetail>) -> Journal {
    Journal {
        id,
        user: IdName {
            id: 1,
            name: "Test User".to_string(),
        },
        notes: Some(note.to_string()),
        created_on,
        private_notes: false,
        details,
    }
}

#[test]
fn test_insert_and_get_projects() {
    let mut db = create_test_db();

    let projects = vec![
        create_test_project(1, "Project Alpha"),
        create_test_project(2, "Project Beta"),
        create_test_project(3, "Project Gamma"),
    ];

    db.insert_projects(&projects).unwrap();

    let retrieved = db.get_projects(None).unwrap();
    assert_eq!(retrieved.len(), 3);

    // All projects are present; the order depends on the recency sort.
    let names: Vec<_> = retrieved.iter().map(|p| p.name.as_str()).collect();
    assert!(names.contains(&"Project Alpha"));
    assert!(names.contains(&"Project Beta"));
    assert!(names.contains(&"Project Gamma"));
}

#[test]
fn test_filter_projects() {
    let mut db = create_test_db();

    let projects = vec![
        create_test_project(1, "Alpha Project"),
        create_test_project(2, "Beta Project"),
        create_test_project(3, "Gamma Project"),
    ];

    db.insert_projects(&projects).unwrap();

    // Filter by name
    let filtered = db.get_projects(Some("Alpha")).unwrap();
    assert_eq!(filtered.len(), 1);
    assert_eq!(filtered[0].name, "Alpha Project");

    // Filter with partial, differently-cased match
    let filtered = db.get_projects(Some("project")).unwrap();
    assert_eq!(filtered.len(), 3);
}

#[test]
fn test_insert_and_get_issues() {
    let mut db = create_test_db();

    let project = create_test_project(1, "Test Project");
    db.insert_projects(&vec![project]).unwrap();

    let issues = vec![
        create_test_issue(1, 1, "First Issue"),
        create_test_issue(2, 1, "Second Issue"),
    ];

    db.insert_issues(&issues).unwrap();

    let retrieved = db
        .get_issues(Some(1), IssueSortOrder::UpdatedDesc, None, None)
        .unwrap();
    assert_eq!(retrieved.len(), 2);
}

#[test]
fn test_clear_project_issues() {
    let mut db = create_test_db();

    let project = create_test_project(1, "Test Project");
    db.insert_projects(&vec![project]).unwrap();

    let issues = vec![
        create_test_issue(1, 1, "Issue 1"),
        create_test_issue(2, 1, "Issue 2"),
    ];
    db.insert_issues(&issues).unwrap();

    let retrieved = db
        .get_issues(Some(1), IssueSortOrder::UpdatedDesc, None, None)
        .unwrap();
    assert_eq!(retrieved.len(), 2);

    db.clear_project_issues(1).unwrap();

    let retrieved = db
        .get_issues(Some(1), IssueSortOrder::UpdatedDesc, None, None)
        .unwrap();
    assert_eq!(retrieved.len(), 0);
}

#[test]
fn test_issue_with_journals() {
    let mut db = create_test_db();

    let project = create_test_project(1, "Test Project");
    db.insert_projects(&vec![project]).unwrap();

    let mut issue = create_test_issue(1, 1, "Issue with Notes");
    issue.journals = vec![journal(
        1,
        "This is a comment",
        7_000,
        vec![JournalDetail {
            property: "attr".to_string(),
            name: "status_id".to_string(),
            old_value: Some("1".to_string()),
            new_value: Some("2".to_string()),
        }],
    )];

    db.insert_issue_with_journals(&issue).unwrap();

    let retrieved = db.get_issue_with_journals(1).unwrap();
    assert!(retrieved.is_some());
    let retrieved = retrieved.unwrap();
    assert_eq!(retrieved.journals.len(), 1);
    assert_eq!(retrieved.journals[0].notes.as_ref().unwrap(), "This is a comment");
    assert_eq!(retrieved.journals[0].details.len(), 1);
}

#[test]
fn test_issue_filtering() {
    let mut db = create_test_db();

    let project = create_test_project(1, "Test Project");
    db.insert_projects(&vec![project]).unwrap();

    let mut issue1 = create_test_issue(1, 1, "Bug in login");
    issue1.assigned_to = Some(IdName {
        id: 5,
        name: "User A".to_string(),
    });

    let mut issue2 = create_test_issue(2, 1, "Feature request");
    issue2.assigned_to = Some(IdName {
        id: 6,
        name: "User B".to_string(),
    });

    let issue3 = create_test_issue(3, 1, "Another bug");

    db.insert_issues(&vec![issue1, issue2, issue3]).unwrap();

    // Filter by subject
    let filtered = db
        .get_issues(Some(1), IssueSortOrder::UpdatedDesc, Some("bug"), None)
        .unwrap();
    assert_eq!(filtered.len(), 2);

    // Filter by assignee
    let filtered = db
        .get_issues(Some(1), IssueSortOrder::UpdatedDesc, None, Some(5))
        .unwrap();
    assert_eq!(filtered.len(), 1);
    assert_eq!(filtered[0].subject, "Bug in login");
}

#[test]
fn test_sync_timestamps() {
    let mut db = create_test_db();

    // Initially no sync
    let last_sync = db.get_last_projects_sync().unwrap();
    assert!(last_sync.is_none());

    // Inserting projects stamps the sync time
    let projects = vec![create_test_project(1, "Test Project")];
    db.insert_projects(&projects).unwrap();

    let last_sync = db.get_last_projects_sync().unwrap();
    assert!(last_sync.is_some());
}

#[test]
fn test_query_scenario() {
    // Two projects; the filter "alpha" matches only the first,
    // case-insensitively.
    let mut db = create_test_db();
    db.insert_projects(&vec![
        create_test_project(1, "Alpha"),
        create_test_project(2, "Beta"),
    ])
    .unwrap();

    let filtered = db.get_projects(Some("alpha")).unwrap();
    assert_eq!(filtered.len(), 1);
    assert_eq!(filtered[0].id, 1);

    // Two issues for project 1; its activity becomes the later update.
    let mut i10 = create_test_issue(10, 1, "third day");
    i10.updated_on = 3;
    let mut i11 = create_test_issue(11, 1, "fifth day");
    i11.updated_on = 5;
    db.insert_issues(&vec![i10, i11]).unwrap();

    let all = db.get_projects(None).unwrap();
    let p1 = all.iter().find(|p| p.id == 1).unwrap();
    assert_eq!(p1.last_issue_activity, Some(5));

    // Clearing the project leaves its issue list empty.
    db.clear_project_issues(1).unwrap();
    let remaining = db
        .get_issues(Some(1), IssueSortOrder::UpdatedDesc, None, None)
        .unwrap();
    assert!(remaining.is_empty());
}

#[test]
fn test_upsert_projects_idempotent() {
    // Upserting the same set twice returns the same rows with the same
    // field values.
    let mut db = create_test_db();
    let batch = vec![
        create_test_project(1, "One"),
        create_test_project(2, "Two"),
    ];
    db.insert_issues(&vec![create_test_issue(7, 1, "seed")]).unwrap();
    db.insert_projects(&batch).unwrap();
    let first: Vec<_> = db
        .get_projects(None)
        .unwrap()
        .into_iter()
        .map(|p| (p.id, p.name, p.identifier, p.last_issue_activity, p.last_issues_sync))
        .collect();
    db.insert_projects(&batch).unwrap();
    let second: Vec<_> = db
        .get_projects(None)
        .unwrap()
        .into_iter()
        .map(|p| (p.id, p.name, p.identifier, p.last_issue_activity, p.last_issues_sync))
        .collect();
    assert_eq!(first, second);
}

#[test]
fn test_activity_preserved_on_metadata_refresh() {
    // A cached project with activity from its issues keeps it across a
    // fresh metadata upsert that carries no activity fields.
    let mut db = create_test_db();
    db.insert_projects(&vec![create_test_project(1, "One")]).unwrap();
    let mut i = create_test_issue(3, 1, "active");
    i.updated_on = 4_242;
    db.insert_issues(&vec![i]).unwrap();

    let fresh = create_test_project(1, "One renamed");
    assert!(fresh.last_issue_activity.is_none());
    db.insert_projects(&vec![fresh]).unwrap();

    let rows = db.get_projects(None).unwrap();
    assert_eq!(rows[0].name, "One renamed");
    assert_eq!(rows[0].last_issue_activity, Some(4_242));
}

#[test]
fn test_activity_recomputed_from_full_set() {
    // The recompute runs over all cached issues, not only the batch.
    let mut db = create_test_db();
    db.insert_projects(&vec![create_test_project(1, "One")]).unwrap();
    let mut a = create_test_issue(1, 1, "old");
    a.updated_on = 9_000;
    db.insert_issues(&vec![a]).unwrap();
    let mut b = create_test_issue(2, 1, "new but older update");
    b.updated_on = 8_000;
    db.insert_issues(&vec![b]).unwrap();

    let rows = db.get_projects(None).unwrap();
    assert_eq!(rows[0].last_issue_activity, Some(9_000));
}

#[test]
fn test_cascade_delete_keeps_other_projects() {
    // Clearing one project leaves other projects' issues and journals.
    let mut db = create_test_db();
    db.insert_projects(&vec![
        create_test_project(1, "One"),
        create_test_project(2, "Two"),
    ])
    .unwrap();
    let mut kept = create_test_issue(20, 2, "kept");
    kept.journals = vec![journal(5, "kept note", 100, vec![])];
    db.insert_issue_with_journals(&kept).unwrap();
    let mut gone = create_test_issue(10, 1, "gone");
    gone.journals = vec![journal(6, "gone note", 200, vec![])];
    db.insert_issue_with_journals(&gone).unwrap();

    db.clear_project_issues(1).unwrap();

    assert!(db.get_issue_with_journals(10).unwrap().is_none());
    let kept_back = db.get_issue_with_journals(20).unwrap().unwrap();
    assert_eq!(kept_back.journals.len(), 1);
    assert_eq!(kept_back.journals[0].notes.as_ref().unwrap(), "kept note");
}

#[test]
fn test_journals_replaced_wholesale() {
    // Refreshing the same issue with a different journal set leaves
    // only the second set.
    let mut db = create_test_db();
    db.insert_projects(&vec![create_test_project(1, "One")]).unwrap();

    let mut issue = create_test_issue(1, 1, "Issue");
    issue.journals = vec![journal(1, "first", 10, vec![]), journal(2, "second", 20, vec![])];
    db.insert_issue_with_journals(&issue).unwrap();

    let mut issue2 = create_test_issue(1, 1, "Issue");
    issue2.journals = vec![journal(3, "third", 30, vec![])];
    db.insert_issue_with_journals(&issue2).unwrap();

    let back = db.get_issue_with_journals(1).unwrap().unwrap();
    assert_eq!(back.journals.len(), 1);
    assert_eq!(back.journals[0].id, 3);
    assert_eq!(back.journals[0].notes.as_ref().unwrap(), "third");
}

#[test]
fn test_issue_journal_round_trip() {
    // An issue stored with journals in creation order is fetched back
    // whole, in the same order, each journal with its detail list.
    let mut db = create_test_db();
    db.insert_projects(&vec![create_test_project(1, "One")]).unwrap();

    let detail = |n: &str| JournalDetail {
        property: "attr".to_string(),
        name: n.to_string(),
        old_value: None,
        new_value: Some("x".to_string()),
    };
    let mut issue = create_test_issue(1, 1, "Issue");
    issue.journals = vec![
        journal(1, "first", 10, vec![detail("status_id"), detail("priority_id")]),
        journal(2, "second", 20, vec![detail("subject"), detail("done_ratio")]),
    ];
    db.insert_issue_with_journals(&issue).unwrap();

    let back = db.get_issue_with_journals(1).unwrap().unwrap();
    assert_eq!(back.id, 1);
    assert_eq!(back.subject, "Issue");
    assert_eq!(back.journals.len(), 2);
    assert_eq!(back.journals[0].id, 1);
    assert_eq!(back.journals[1].id, 2);
    assert_eq!(back.journals[0].details.len(), 2);
    assert_eq!(back.journals[1].details.len(), 2);
    assert_eq!(back.journals[1].details[0].name, "subject");
}

#[test]
fn test_journals_sorted_by_creation() {
    // Journals come back in creation-time ascending order even if
    // stored out of order.
    let mut db = create_test_db();
    db.insert_projects(&vec![create_test_project(1, "One")]).unwrap();
    let mut issue = create_test_issue(1, 1, "Issue");
    issue.journals = vec![journal(1, "late", 300, vec![]), journal(2, "early", 100, vec![])];
    db.insert_issue_with_journals(&issue).unwrap();

    let back = db.get_issue_with_journals(1).unwrap().unwrap();
    assert_eq!(back.journals[0].notes.as_ref().unwrap(), "early");
    assert_eq!(back.journals[1].notes.as_ref().unwrap(), "late");
}

#[test]
fn test_priority_sort_orders() {
    // Ascending is non-decreasing by priority id; descending is its
    // exact reverse.
    let mut db = create_test_db();
    db.insert_projects(&vec![create_test_project(1, "One")]).unwrap();
    let mut a = create_test_issue(1, 1, "a");
    a.priority = IdName { id: 3, name: "High".to_string() };
    let mut b = create_test_issue(2, 1, "b");
    b.priority = IdName { id: 1, name: "Low".to_string() };
    let mut c = create_test_issue(3, 1, "c");
    c.priority = IdName { id: 2, name: "Normal".to_string() };
    db.insert_issues(&vec![a, b, c]).unwrap();

    let asc = db
        .get_issues(Some(1), IssueSortOrder::PriorityAsc, None, None)
        .unwrap();
    let prios: Vec<u64> = asc.iter().map(|i| i.priority.id).collect();
    assert_eq!(prios, vec![1, 2, 3]);

    let desc = db
        .get_issues(Some(1), IssueSortOrder::PriorityDesc, None, None)
        .unwrap();
    let asc_ids: Vec<u64> = asc.iter().map(|i| i.id).collect();
    let mut desc_ids: Vec<u64> = desc.iter().map(|i| i.id).collect();
    desc_ids.reverse();
    assert_eq!(asc_ids, desc_ids);
}

#[test]
fn test_issue_id_text_filter() {
    // The text filter also matches the issue id's decimal rendering;
    // a word like "bug" can never match a numeric id.
    let mut db = create_test_db();
    db.insert_projects(&vec![create_test_project(1, "One")]).unwrap();
    db.insert_issues(&vec![
        create_test_issue(104, 1, "nothing here"),
        create_test_issue(205, 1, "also nothing"),
    ])
    .unwrap();

    let by_id = db
        .get_issues(Some(1), IssueSortOrder::UpdatedDesc, Some("04"), None)
        .unwrap();
    assert_eq!(by_id.len(), 1);
    assert_eq!(by_id[0].id, 104);
}

#[test]
fn test_users_roundtrip_and_order() {
    let mut db = create_test_db();
    let user = |id: u64, first: &str, last: &str| User {
        id,
        login: format!("u{}", id),
        firstname: first.to_string(),
        lastname: last.to_string(),
        mail: None,
    };
    db.insert_users(&vec![
        user(1, "Zoe", "Miller"),
        user(2, "Ann", "Brown"),
        user(3, "Bob", "Brown"),
    ])
    .unwrap();

    let users = db.get_users().unwrap();
    assert_eq!(users.len(), 3);
    assert_eq!(users[0].id, 2);
    assert_eq!(users[1].id, 3);
    assert_eq!(users[2].id, 1);

    // Replace-by-id keeps one row per user.
    db.insert_users(&vec![user(2, "Anna", "Brown")]).unwrap();
    let users = db.get_users().unwrap();
    assert_eq!(users.len(), 3);
    assert_eq!(users[0].firstname, "Anna");
}

#[test]
fn test_project_name_and_touch_activity() {
    let mut db = create_test_db();
    db.insert_projects(&vec![create_test_project(9, "Niner")]).unwrap();

    assert_eq!(db.get_project_name(9).unwrap().unwrap(), "Niner");
    assert!(db.get_project_name(10).unwrap().is_none());

    db.update_project_last_activity(9, 777).unwrap();
    let rows = db.get_projects(None).unwrap();
    assert_eq!(rows[0].last_issue_activity, Some(777));

    assert!(db.get_last_issues_sync().unwrap().is_none());
}

#[test]
fn test_project_recency_order() {
    // Most recently active project first, with fallback through
    // updated_on and created_on.
    let mut db = create_test_db();
    let mut p1 = create_test_project(1, "Quiet");
    p1.updated_on = Some(50);
    let mut p2 = create_test_project(2, "Busy");
    p2.updated_on = Some(10);
    db.insert_projects(&vec![p1, p2]).unwrap();

    // No issues yet: ordering falls back to updated_on.
    let rows = db.get_projects(None).unwrap();
    assert_eq!(rows[0].id, 1);

    // Issue activity on project 2 lifts it to the top.
    let mut i = create_test_issue(1, 2, "work");
    i.updated_on = 100;
    db.insert_issues(&vec![i]).unwrap();
    let rows = db.get_projects(None).unwrap();
    assert_eq!(rows[0].id, 2);
}
