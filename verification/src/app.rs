//! Interface-level state enums: which screen is shown, which pane has
//! focus, which input mode is active, and the order issues are listed in.

use vstd::prelude::*;

verus! {

/// Which top-level screen the interface is showing.
#[derive(Debug, Clone, Copy, PartialEq, Eq, Structural)]
pub enum Screen {
    /// Two-pane view with projects and issues.
    Main,
    /// Settings screen.
    Config,
}

/// Which of the two main panes has keyboard focus.
#[derive(Debug, Clone, Copy, PartialEq, Eq, Structural)]
pub enum Pane {
    Projects,
    Issues,
}

/// What kind of input the interface is currently collecting.
#[derive(Debug, Clone, Copy, PartialEq, Eq, Structural)]
pub enum InputMode {
    Normal,
    Editing,
    EditingUrl,
    EditingApiKey,
    Searching,
    CreatingIssue,
    ReplyingToIssue,
    BulkEditing,
    AddingAttachment,
    ManagingAttachments,
}

/// The order in which the issue list is presented.
#[derive(Debug, Clone, Copy, PartialEq, Eq, Structural)]
pub enum IssueSortOrder {
    /// Most recently updated first (the default).
    UpdatedDesc,
    /// Status name ascending.
    StatusAsc,
    /// Status name descending.
    StatusDesc,
    /// Priority id low to high.
    PriorityAsc,
    /// Priority id high to low.
    PriorityDesc,
}

impl IssueSortOrder {
    /// The sort order reached by cycling once from `self`.
    pub open spec fn spec_next(self) -> IssueSortOrder {
        match self {
            IssueSortOrder::UpdatedDesc => IssueSortOrder::StatusAsc,
            IssueSortOrder::StatusAsc => IssueSortOrder::StatusDesc,
            IssueSortOrder::StatusDesc => IssueSortOrder::PriorityAsc,
            IssueSortOrder::PriorityAsc => IssueSortOrder::PriorityDesc,
            IssueSortOrder::PriorityDesc => IssueSortOrder::UpdatedDesc,
        }
    }

    /// Cycle to the next sort order.
    pub fn next(&self) -> (r: IssueSortOrder)
        ensures
            r == self.spec_next(),
    {
        match self {
            IssueSortOrder::UpdatedDesc => IssueSortOrder::StatusAsc,
            IssueSortOrder::StatusAsc => IssueSortOrder::StatusDesc,
            IssueSortOrder::StatusDesc => IssueSortOrder::PriorityAsc,
            IssueSortOrder::PriorityAsc => IssueSortOrder::PriorityDesc,
            IssueSortOrder::PriorityDesc => IssueSortOrder::UpdatedDesc,
        }
    }

    /// Short label for the status bar.
    pub fn as_str(&self) -> (r: &'static str)
        ensures
            *self is UpdatedDesc ==> r@ == "Recent"@,
            *self is StatusAsc ==> r@ == "Status ↑"@,
            *self is StatusDesc ==> r@ == "Status ↓"@,
            *self is PriorityAsc ==> r@ == "Priority ↑"@,
            *self is PriorityDesc ==> r@ == "Priority ↓"@,
    {
        match self {
            IssueSortOrder::UpdatedDesc => "Recent",
            IssueSortOrder::StatusAsc => "Status ↑",
            IssueSortOrder::StatusDesc => "Status ↓",
            IssueSortOrder::PriorityAsc => "Priority ↑",
            IssueSortOrder::PriorityDesc => "Priority ↓",
        }
    }
}

} // verus!
