use minecli::app::IssueSortOrder;
use minecli::events::EventHandler;
use minecli::text::{str_contains_ci, str_eq, u64_to_string};
use minecli::widgets::spinner_frame;

#[test]
fn test_sort_order_cycle() {
    assert_eq!(IssueSortOrder::UpdatedDesc.next(), IssueSortOrder::StatusAsc);
    assert_eq!(IssueSortOrder::StatusAsc.next(), IssueSortOrder::StatusDesc);
    assert_eq!(IssueSortOrder::StatusDesc.next(), IssueSortOrder::PriorityAsc);
    assert_eq!(IssueSortOrder::PriorityAsc.next(), IssueSortOrder::PriorityDesc);
    assert_eq!(IssueSortOrder::PriorityDesc.next(), IssueSortOrder::UpdatedDesc);
}

#[test]
fn test_sort_order_labels() {
    assert_eq!(IssueSortOrder::UpdatedDesc.as_str(), "Recent");
    assert_eq!(IssueSortOrder::PriorityAsc.as_str(), "Priority ↑");
}

#[test]
fn test_contains_ci() {
    assert!(str_contains_ci("Bug in login", "bug"));
    assert!(str_contains_ci("Another BUG", "bug"));
    assert!(!str_contains_ci("Feature request", "bug"));
    // An empty needle matches everything.
    assert!(str_contains_ci("anything", ""));
}

#[test]
fn test_decimal_rendering() {
    assert_eq!(u64_to_string(0), "0");
    assert_eq!(u64_to_string(7), "7");
    assert_eq!(u64_to_string(104), "104");
    assert_eq!(u64_to_string(98765), "98765");
}

#[test]
fn test_str_eq() {
    assert!(str_eq("abc", "abc"));
    assert!(!str_eq("abc", "abd"));
    assert!(!str_eq("abc", "ab"));
}

#[test]
fn test_spinner_frames_cycle() {
    // One frame per 100 ms, cycling through eight frames.
    assert_eq!(spinner_frame(0), "⣾");
    assert_eq!(spinner_frame(99), "⣾");
    assert_eq!(spinner_frame(100), "⣽");
    assert_eq!(spinner_frame(700), "⣷");
    assert_eq!(spinner_frame(800), "⣾");
}

#[test]
fn test_event_handler_constructs() {
    let _handler = EventHandler::new();
}
