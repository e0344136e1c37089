use minecli::app::IssueSortOrder;
use minecli::db::Database;
use minecli::filters::{status_priority_exec, DisplayItem, ViewState};
use minecli::redmine::{IdName, Issue, Project};

fn issue(id: u64, status: &str, subject: &str) -> Issue {
    Issue {
        id,
        project: IdName { id: 1, name: String::new() },
        tracker: IdName { id: 1, name: "Bug".to_string() },
        status: IdName { id: 1, name: status.to_string() },
        priority: IdName { id: 2, name: "Normal".to_string() },
        author: IdName { id: 1, name: "A".to_string() },
        assigned_to: None,
        subject: subject.to_string(),
        description: None,
        created_on: 1,
        updated_on: id,
        due_date: None,
        done_ratio: None,
        journals: vec![],
    }
}

fn project(id: u64, name: &str) -> Project {
    Project {
        id,
        name: name.to_string(),
        identifier: name.to_lowercase(),
        description: None,
        status: Some(1),
        parent: None,
        created_on: Some(1),
        updated_on: Some(2),
        last_issue_activity: None,
        last_issues_sync: None,
    }
}

fn grouped_view(issues: Vec<Issue>) -> ViewState {
    let mut vs = ViewState::new();
    vs.filtered_issues = issues;
    vs.group_issues_by_status = true;
    vs
}

#[test]
fn test_status_priority_table() {
    assert_eq!(status_priority_exec("In Progress"), 1);
    assert_eq!(status_priority_exec("Feedback"), 2);
    assert_eq!(status_priority_exec("New"), 3);
    assert_eq!(status_priority_exec("Resolved"), 4);
    assert_eq!(status_priority_exec("Closed"), 5);
    assert_eq!(status_priority_exec("Whatever"), 99);
}

#[test]
fn test_grouped_display_order_and_count() {
    // Headers follow the priority table, not appearance order.
    let vs = grouped_view(vec![
        issue(1, "New", "a"),
        issue(2, "In Progress", "b"),
        issue(3, "New", "c"),
    ]);

    // Two headers plus three rows.
    assert_eq!(vs.get_visible_items_count(), 5);

    let display = vs.build_display();
    match &display[0] {
        DisplayItem::Header(n) => assert_eq!(n, "In Progress"),
        DisplayItem::Row(_) => panic!("expected a header first"),
    }
    match &display[2] {
        DisplayItem::Header(n) => assert_eq!(n, "New"),
        DisplayItem::Row(_) => panic!("expected the second header"),
    }
}

#[test]
fn test_collapsed_group_hides_rows() {
    let mut vs = grouped_view(vec![
        issue(1, "New", "a"),
        issue(2, "New", "b"),
        issue(3, "Closed", "c"),
    ]);
    vs.status_groups_collapsed = vec!["New".to_string()];

    // The collapsed group contributes only its header.
    assert_eq!(vs.get_visible_items_count(), 3);
}

#[test]
fn test_cursor_helpers_agree() {
    let mut vs = grouped_view(vec![
        issue(1, "New", "a"),
        issue(2, "In Progress", "b"),
        issue(3, "New", "c"),
    ]);
    // Display: [In Progress, b, New, a, c]
    vs.issues_list_state = 0;
    assert_eq!(vs.get_status_at_cursor().unwrap(), "In Progress");
    assert!(vs.get_issue_at_cursor().is_none());

    vs.issues_list_state = 1;
    assert!(vs.get_status_at_cursor().is_none());
    assert_eq!(vs.get_issue_at_cursor().unwrap().id, 2);
    assert_eq!(vs.get_current_status_group().unwrap(), "In Progress");

    vs.issues_list_state = 4;
    assert_eq!(vs.get_issue_at_cursor().unwrap().id, 3);
    assert_eq!(vs.get_current_status_group().unwrap(), "New");

    assert_eq!(vs.get_status_group_header_position("New"), Some(2));
    assert_eq!(vs.get_status_group_header_position("Missing"), None);
}

#[test]
fn test_flat_cursor_when_not_grouped() {
    let mut vs = ViewState::new();
    vs.filtered_issues = vec![issue(1, "New", "a"), issue(2, "New", "b")];
    vs.issues_list_state = 1;
    assert_eq!(vs.get_visible_items_count(), 2);
    assert_eq!(vs.get_issue_at_cursor().unwrap().id, 2);
    assert!(vs.get_status_at_cursor().is_none());
}

#[test]
fn test_apply_filters_reads_cache() {
    let mut db = Database::new();
    db.insert_projects_at(&vec![project(1, "Alpha"), project(2, "Beta")], 10)
        .unwrap();
    let mut a = issue(1, "New", "fix the bug");
    a.project = IdName { id: 1, name: String::new() };
    let mut b = issue(2, "New", "write docs");
    b.project = IdName { id: 1, name: String::new() };
    db.insert_issues_at(&vec![a, b], 20).unwrap();

    let mut vs = ViewState::new();
    vs.selected_project_id = Some(1);
    vs.project_filter = "alp".to_string();
    vs.issue_filter = "bug".to_string();
    vs.projects_list_state = 5;
    vs.issues_list_state = 5;
    vs.apply_filters(&db);

    assert_eq!(vs.total_projects, 2);
    assert_eq!(vs.filtered_projects.len(), 1);
    assert_eq!(vs.filtered_projects[0].name, "Alpha");
    assert_eq!(vs.total_issues, 2);
    assert_eq!(vs.filtered_issues.len(), 1);
    assert_eq!(vs.filtered_issues[0].subject, "fix the bug");
    // Cursors are clamped against the new lengths.
    assert_eq!(vs.projects_list_state, 0);
    assert_eq!(vs.issues_list_state, 0);
    assert!(vs.last_projects_sync.is_some());
}

#[test]
fn test_apply_filters_status_regrouping() {
    // When sorting by status, the facade regroups by the priority
    // table on top of the cache's by-name sort.
    let mut db = Database::new();
    db.insert_projects_at(&vec![project(1, "Alpha")], 10).unwrap();
    db.insert_issues_at(
        &vec![
            issue(1, "Closed", "a"),
            issue(2, "In Progress", "b"),
            issue(3, "Feedback", "c"),
        ],
        20,
    )
    .unwrap();

    let mut vs = ViewState::new();
    vs.selected_project_id = Some(1);
    vs.issue_sort_order = IssueSortOrder::StatusAsc;
    vs.apply_filters(&db);
    let names: Vec<String> = vs.filtered_issues.iter().map(|i| i.status.name.clone()).collect();
    assert_eq!(names, vec!["In Progress", "Feedback", "Closed"]);

    vs.issue_sort_order = IssueSortOrder::StatusDesc;
    vs.apply_filters(&db);
    let names: Vec<String> = vs.filtered_issues.iter().map(|i| i.status.name.clone()).collect();
    assert_eq!(names, vec!["Closed", "Feedback", "In Progress"]);
}

#[test]
fn test_sync_indicators() {
    let vs = {
        let mut vs = ViewState::new();
        let mut p = project(1, "Alpha");
        p.last_issues_sync = Some(100);
        p.last_issue_activity = Some(150);
        vs.filtered_projects = vec![p];
        vs
    };

    let mut fresh = issue(1, "New", "a");
    fresh.project = IdName { id: 1, name: String::new() };
    fresh.updated_on = 150;
    assert!(vs.is_issue_updated_since_last_sync(&fresh));

    let mut stale = issue(2, "New", "b");
    stale.project = IdName { id: 1, name: String::new() };
    stale.updated_on = 90;
    assert!(!vs.is_issue_updated_since_last_sync(&stale));

    assert!(vs.has_project_updated_issues(&vs.filtered_projects[0]));
    let mut quiet = project(2, "Beta");
    quiet.last_issues_sync = Some(100);
    quiet.last_issue_activity = Some(100);
    assert!(!vs.has_project_updated_issues(&quiet));
}
