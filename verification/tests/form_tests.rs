use minecli::form_field::{FieldOption, FieldValue, FormField};
use minecli::issue_form::{
    handle_dropdown_enter, navigate_dropdown, rebuild_create_issue_form_preserving_values,
    IssueForm,
};
use minecli::redmine::{IssueCategory, IssueStatus, Priority, Tracker, User};

#[test]
fn test_form_validation_required_fields() {
    let mut form = IssueForm::new();

    // A required field with no default
    let mut field = FormField::new_text("subject", "Subject", true);
    field.default_value = None;
    form.add_field(field);

    // Fails while the required field is empty
    assert!(form.validate().is_err());

    form.set_value("subject".to_string(), FieldValue::Text("Test".to_string()));

    assert!(form.validate().is_ok());
}

#[test]
fn test_form_validation_optional_fields() {
    let mut form = IssueForm::new();

    form.add_field(FormField::new_text("description", "Description", false));

    // Passes even when empty
    assert!(form.validate().is_ok());

    form.set_value(
        "description".to_string(),
        FieldValue::Text("Test desc".to_string()),
    );
    assert!(form.validate().is_ok());
}

#[test]
fn test_form_navigation() {
    let mut form = IssueForm::new();
    form.add_field(FormField::new_text("field1", "Field 1", false));
    form.add_field(FormField::new_text("field2", "Field 2", false));
    form.add_field(FormField::new_text("field3", "Field 3", false));

    assert_eq!(form.current_field_idx, 0);

    form.next_field();
    assert_eq!(form.current_field_idx, 1);

    form.next_field();
    assert_eq!(form.current_field_idx, 2);

    form.next_field(); // Wraps to 0
    assert_eq!(form.current_field_idx, 0);

    form.prev_field(); // Wraps to last
    assert_eq!(form.current_field_idx, 2);
}

#[test]
fn test_searchable_dropdown_filtering() {
    let mut form = IssueForm::new();
    let options = vec![
        FieldOption {
            id: 1,
            name: "Alice".to_string(),
        },
        FieldOption {
            id: 2,
            name: "Bob".to_string(),
        },
        FieldOption {
            id: 3,
            name: "Charlie".to_string(),
        },
        FieldOption {
            id: 4,
            name: "Alice Johnson".to_string(),
        },
    ];

    form.add_field(FormField::new_searchable_dropdown("user", "User", options, false));

    // Empty search returns all
    let filtered = form.get_filtered_options("user");
    assert_eq!(filtered.len(), 4);

    // Partial match
    form.set_search_text("user".to_string(), "ali".to_string());
    let filtered = form.get_filtered_options("user");
    assert_eq!(filtered.len(), 2); // Alice and Alice Johnson

    // Exact match
    form.set_search_text("user".to_string(), "alice".to_string());
    let filtered = form.get_filtered_options("user");
    assert_eq!(filtered.len(), 1); // Only "Alice" matches exactly
    assert_eq!(filtered[0].name, "Alice");
}

#[test]
fn test_form_value_storage() {
    let mut form = IssueForm::new();
    let mut field = FormField::new_text("key1", "Key 1", false);
    field.default_value = None; // Explicitly no default
    form.add_field(field);

    // No value initially (no default set)
    let initial_value = form.get_value("key1");
    assert!(
        initial_value.is_none()
            || matches!(initial_value, Some(FieldValue::Text(s)) if s.is_empty())
    );

    form.set_value("key1".to_string(), FieldValue::Text("value1".to_string()));
    assert!(form.get_value("key1").is_some());
    assert_eq!(form.get_value("key1").unwrap().as_text().unwrap(), "value1");
}

fn sample_options() -> Vec<FieldOption> {
    vec![
        FieldOption { id: 1, name: "Alpha".to_string() },
        FieldOption { id: 2, name: "Beta".to_string() },
        FieldOption { id: 3, name: "Gamma".to_string() },
    ]
}

#[test]
fn test_navigate_dropdown_cycles() {
    let mut form = IssueForm::new();
    form.add_field(FormField::new_searchable_dropdown(
        "assignee",
        "Assignee",
        sample_options(),
        false,
    ));

    // No selection: stepping down from the top selects the second entry.
    navigate_dropdown(&mut form, "assignee", 1);
    assert_eq!(form.get_value("assignee").unwrap().as_option_id(), Some(2));

    navigate_dropdown(&mut form, "assignee", 1);
    assert_eq!(form.get_value("assignee").unwrap().as_option_id(), Some(3));

    // Wraps around.
    navigate_dropdown(&mut form, "assignee", 1);
    assert_eq!(form.get_value("assignee").unwrap().as_option_id(), Some(1));

    // Stepping up from the top wraps to the bottom.
    navigate_dropdown(&mut form, "assignee", -1);
    assert_eq!(form.get_value("assignee").unwrap().as_option_id(), Some(3));
}

#[test]
fn test_dropdown_enter_selects_single_match() {
    let mut form = IssueForm::new();
    form.add_field(FormField::new_searchable_dropdown(
        "assignee",
        "Assignee",
        sample_options(),
        false,
    ));
    form.set_search_mode("assignee".to_string(), true);
    form.set_search_text("assignee".to_string(), "bet".to_string());

    let mut msg: Option<String> = None;
    handle_dropdown_enter(&mut form, "assignee", &mut msg);

    assert_eq!(form.get_value("assignee").unwrap().as_option_id(), Some(2));
    assert!(!form.is_search_mode("assignee"));
    assert_eq!(msg.unwrap(), "Selected: Beta");
}

#[test]
fn test_dropdown_enter_reports_match_count() {
    let mut form = IssueForm::new();
    form.add_field(FormField::new_searchable_dropdown(
        "assignee",
        "Assignee",
        sample_options(),
        false,
    ));
    form.set_search_text("assignee".to_string(), "a".to_string());

    let mut msg: Option<String> = None;
    handle_dropdown_enter(&mut form, "assignee", &mut msg);

    // "a" matches Alpha, Beta and Gamma; nothing selected yet.
    assert_eq!(
        msg.unwrap(),
        "3 matches - ↑↓ or Tab to navigate, Enter to select"
    );
}

#[test]
fn test_new_issue_form_defaults() {
    let trackers = vec![
        Tracker { id: 1, name: "Bug".to_string() },
        Tracker { id: 2, name: "Task".to_string() },
    ];
    let statuses = vec![
        IssueStatus { id: 7, name: "In Progress".to_string() },
        IssueStatus { id: 8, name: "New".to_string() },
    ];
    let priorities = vec![Priority { id: 4, name: "Normal".to_string() }];
    let users = vec![
        User {
            id: 12,
            login: "zz".to_string(),
            firstname: "Zoe".to_string(),
            lastname: "Zed".to_string(),
            mail: None,
        },
        User {
            id: 11,
            login: "aa".to_string(),
            firstname: "Al".to_string(),
            lastname: "Ahn".to_string(),
            mail: None,
        },
    ];
    let categories: Vec<IssueCategory> = Vec::new();

    let form = IssueForm::new_issue_form(&trackers, &statuses, &priorities, &users, &categories);

    // Defaults pick the options named task/new/normal, case-insensitively.
    assert_eq!(form.get_value("tracker_id").unwrap().as_option_id(), Some(2));
    assert_eq!(form.get_value("status_id").unwrap().as_option_id(), Some(8));
    assert_eq!(form.get_value("priority_id").unwrap().as_option_id(), Some(4));

    // No category field without categories.
    assert!(form.fields.iter().all(|f| f.key != "category_id"));

    // The assignee dropdown: unassigned first, then users by name.
    let afield = form.fields.iter().find(|f| f.key == "assigned_to_id").unwrap();
    assert_eq!(afield.options[0].name, "(Unassigned)");
    assert_eq!(afield.options[1].name, "Al Ahn");
    assert_eq!(afield.options[2].name, "Zoe Zed");
}

#[test]
fn test_update_form_seeds_current_values() {
    let statuses = vec![IssueStatus { id: 3, name: "Resolved".to_string() }];
    let users: Vec<User> = Vec::new();
    let categories: Vec<IssueCategory> = Vec::new();

    let form = IssueForm::update_issue_form(&statuses, &users, &categories, 3, Some(5), Some(40), None);
    assert_eq!(form.get_value("status_id").unwrap().as_option_id(), Some(3));
    assert_eq!(form.get_value("assigned_to_id").unwrap().as_option_id(), Some(5));
    assert_eq!(form.get_value("done_ratio").unwrap().as_number(), Some(40));
    assert!(!form.get_value("private_notes").unwrap().as_bool());
}

#[test]
fn test_bulk_edit_form_defaults() {
    let statuses = vec![IssueStatus { id: 1, name: "New".to_string() }];
    let priorities = vec![Priority { id: 2, name: "Normal".to_string() }];
    let users: Vec<User> = Vec::new();

    let form = IssueForm::bulk_edit_form(&statuses, &priorities, &users);
    assert_eq!(form.fields.len(), 3);
    assert_eq!(form.get_value("status_id").unwrap().as_option_id(), Some(1));
    assert_eq!(form.get_value("priority_id").unwrap().as_option_id(), Some(2));
    // Bulk edit defaults the assignee to the unassigned entry.
    assert_eq!(form.get_value("assigned_to_id").unwrap().as_option_id(), Some(0));
}

#[test]
fn test_update_scroll_window() {
    let mut form = IssueForm::new();
    for k in 0..6 {
        form.add_field(FormField::new_text(&format!("f{}", k), "F", false));
    }
    form.current_field_idx = 5;
    form.update_scroll(3);
    assert_eq!(form.scroll_offset, 3);

    form.current_field_idx = 1;
    form.update_scroll(3);
    assert_eq!(form.scroll_offset, 1);
}

#[test]
fn test_rebuild_form_preserves_entries() {
    let trackers = vec![
        Tracker { id: 1, name: "Bug".to_string() },
        Tracker { id: 2, name: "Task".to_string() },
    ];
    let statuses = vec![IssueStatus { id: 8, name: "New".to_string() }];
    let priorities = vec![Priority { id: 4, name: "Normal".to_string() }];
    let users: Vec<User> = Vec::new();
    let categories: Vec<IssueCategory> = Vec::new();

    let mut form = IssueForm::new_issue_form(&trackers, &statuses, &priorities, &users, &categories);
    form.set_value("subject".to_string(), FieldValue::Text("typed so far".to_string()));
    form.set_value("tracker_id".to_string(), FieldValue::OptionId(Some(1)));
    form.set_search_text("assigned_to_id".to_string(), "al".to_string());
    form.set_search_mode("assigned_to_id".to_string(), true);

    // The tracker changed; one custom field appears in the new layout.
    let customs = vec![minecli::redmine::IssueCustomField {
        id: 31,
        name: "Severity".to_string(),
        value: String::new(),
    }];
    let rebuilt = rebuild_create_issue_form_preserving_values(
        &form, &trackers, &statuses, &priorities, &users, &categories, &customs,
    );

    // Entered values and search state survive; the new field starts empty.
    assert_eq!(rebuilt.get_value("subject").unwrap().as_text().unwrap(), "typed so far");
    assert_eq!(rebuilt.get_value("tracker_id").unwrap().as_option_id(), Some(1));
    assert_eq!(rebuilt.get_search_text("assigned_to_id"), "al");
    assert!(rebuilt.is_search_mode("assigned_to_id"));
    assert!(rebuilt.fields.iter().any(|f| f.key == "custom_field_31"));
    assert_eq!(rebuilt.get_value("custom_field_31").unwrap().as_text().unwrap(), "");
}
