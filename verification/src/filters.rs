//! The filter/query facade: the one translation point between the
//! interface's filter/sort state and the cache queries, plus the
//! grouped-by-status view model the keyboard navigation walks.
//!
//! The grouped view lists each status group as a header followed by its
//! issues, header order following a fixed priority table (in-progress
//! before feedback before new before resolved before closed, everything
//! else last), not the flat by-name sort the cache also offers. All
//! cursor helpers walk one shared display list, so they always agree on
//! positions.

use vstd::prelude::*;

use crate::app::IssueSortOrder;
use crate::db::{
    issues_view, opt_text_view, projects_view, spec_get_issues, spec_get_projects, Database,
};
use crate::redmine::{copy_issue, Issue, IssueView, Project, ProjectView};
use crate::sorting::{
    insert_sorted_by, lemma_insert_sorted_by_at, lemma_sort_by_asc_push, sort_by_asc,
};
use crate::text::{chars_contain_ci, contains_ci, str_chars};

verus! {

/// Presentation rank of a status name: the fixed priority table the
/// grouped view orders headers by. Matching is a case-insensitive
/// substring test against the canonical keywords.
pub open spec fn status_priority(name: Seq<char>) -> u32 {
    if contains_ci(name, "progress"@) {
        1
    } else if contains_ci(name, "feedback"@) {
        2
    } else if contains_ci(name, "new"@) {
        3
    } else if contains_ci(name, "resolved"@) {
        4
    } else if contains_ci(name, "closed"@) {
        5
    } else {
        99
    }
}

/// [`status_priority`], executable.
pub fn status_priority_exec(name: &str) -> (r: u32)
    ensures
        r == status_priority(name@),
{
    let nc = str_chars(name);
    if chars_contain_ci(&nc, &str_chars("progress")) {
        1
    } else if chars_contain_ci(&nc, &str_chars("feedback")) {
        2
    } else if chars_contain_ci(&nc, &str_chars("new")) {
        3
    } else if chars_contain_ci(&nc, &str_chars("resolved")) {
        4
    } else if chars_contain_ci(&nc, &str_chars("closed")) {
        5
    } else {
        99
    }
}

/// View of a string list.
pub open spec fn strings_view(s: Seq<String>) -> Seq<Seq<char>> {
    s.map_values(|x: String| x@)
}

/// Ordering status names by their presentation rank.
pub open spec fn status_prio_leq_fn() -> spec_fn(Seq<char>, Seq<char>) -> bool {
    |a: Seq<char>, b: Seq<char>| status_priority(a) <= status_priority(b)
}

/// Ordering issues by their status' presentation rank, ascending.
pub open spec fn issue_prio_asc_fn() -> spec_fn(IssueView, IssueView) -> bool {
    |a: IssueView, b: IssueView| status_priority(a.status.name) <= status_priority(b.status.name)
}

/// Ordering issues by their status' presentation rank, descending.
pub open spec fn issue_prio_desc_fn() -> spec_fn(IssueView, IssueView) -> bool {
    |a: IssueView, b: IssueView| status_priority(a.status.name) >= status_priority(b.status.name)
}

/// The distinct status names among the listed issues, in order of
/// first appearance.
pub open spec fn distinct_statuses(issues: Seq<IssueView>) -> Seq<Seq<char>>
    decreases issues.len(),
{
    if issues.len() == 0 {
        Seq::empty()
    } else {
        let rest = distinct_statuses(issues.drop_last());
        if rest.contains(issues.last().status.name) {
            rest
        } else {
            rest.push(issues.last().status.name)
        }
    }
}

/// Select-predicate for one status group.
pub open spec fn status_is_fn(name: Seq<char>) -> spec_fn(IssueView) -> bool {
    |i: IssueView| i.status.name == name
}

/// The issues of one status group, in list order.
pub open spec fn status_group(issues: Seq<IssueView>, name: Seq<char>) -> Seq<IssueView> {
    issues.filter(status_is_fn(name))
}

/// One entry of the grouped display: a group header or an issue row.
#[derive(Debug, Clone)]
pub enum DisplayItem {
    Header(String),
    Row(Issue),
}

/// Mathematical value of a [`DisplayItem`].
#[verifier::ext_equal]
pub enum DisplayItemView {
    Header(Seq<char>),
    Row(IssueView),
}

impl View for DisplayItem {
    type V = DisplayItemView;

    open spec fn view(&self) -> DisplayItemView {
        match self {
            DisplayItem::Header(s) => DisplayItemView::Header(s@),
            DisplayItem::Row(i) => DisplayItemView::Row(i@),
        }
    }
}

/// View of a display list.
pub open spec fn display_view(s: Seq<DisplayItem>) -> Seq<DisplayItemView> {
    s.map_values(|d: DisplayItem| d@)
}

/// An issue as a display row.
pub open spec fn row_fn() -> spec_fn(IssueView) -> DisplayItemView {
    |i: IssueView| DisplayItemView::Row(i)
}

/// One status' segment of the display: its header, then its issues
/// unless the group is collapsed.
pub open spec fn display_segment(
    issues: Seq<IssueView>,
    collapsed: Seq<Seq<char>>,
    name: Seq<char>,
) -> Seq<DisplayItemView> {
    seq![DisplayItemView::Header(name)] + (if collapsed.contains(name) {
        Seq::<DisplayItemView>::empty()
    } else {
        status_group(issues, name).map_values(row_fn())
    })
}

/// The whole grouped display: one segment per status, in header order.
pub open spec fn display_of(
    issues: Seq<IssueView>,
    order: Seq<Seq<char>>,
    collapsed: Seq<Seq<char>>,
) -> Seq<DisplayItemView>
    decreases order.len(),
{
    if order.len() == 0 {
        Seq::empty()
    } else {
        display_segment(issues, collapsed, order[0]) + display_of(
            issues,
            order.drop_first(),
            collapsed,
        )
    }
}

/// Building one more segment extends the display at its end.
proof fn lemma_display_of_push(
    issues: Seq<IssueView>,
    order: Seq<Seq<char>>,
    collapsed: Seq<Seq<char>>,
    x: Seq<char>,
)
    ensures
        display_of(issues, order.push(x), collapsed) == display_of(issues, order, collapsed)
            + display_segment(issues, collapsed, x),
    decreases order.len(),
{
    if order.len() == 0 {
        assert(order.push(x)[0] == x);
        assert(order.push(x).drop_first() =~= order);
        assert(display_of(issues, order, collapsed) + display_segment(issues, collapsed, x)
            =~= display_segment(issues, collapsed, x));
        assert(display_of(issues, order, collapsed) == Seq::<DisplayItemView>::empty());
    } else {
        assert(order.push(x)[0] == order[0]);
        assert(order.push(x).drop_first() =~= order.drop_first().push(x));
        lemma_display_of_push(issues, order.drop_first(), collapsed, x);
        assert(display_segment(issues, collapsed, order[0]) + (display_of(
            issues,
            order.drop_first(),
            collapsed,
        ) + display_segment(issues, collapsed, x)) =~= (display_segment(
            issues,
            collapsed,
            order[0],
        ) + display_of(issues, order.drop_first(), collapsed)) + display_segment(
            issues,
            collapsed,
            x,
        ));
    }
}

/// The status that owns the display position: the nearest header at or
/// before it, or nothing when the position is out of range.
pub open spec fn owning_header(display: Seq<DisplayItemView>, cursor: int) -> Option<Seq<char>>
    decreases cursor + 1,
{
    if cursor < 0 || cursor >= display.len() {
        None
    } else {
        match display[cursor] {
            DisplayItemView::Header(n) => Some(n),
            DisplayItemView::Row(_) => owning_header(display, cursor - 1),
        }
    }
}

/// The display index of one status' header, if the status is shown.
pub open spec fn header_index(display: Seq<DisplayItemView>, target: Seq<char>) -> Option<int>
    decreases display.len(),
{
    if display.len() == 0 {
        None
    } else if display[0] == DisplayItemView::Header(target) {
        Some(0)
    } else {
        match header_index(display.drop_first(), target) {
            Some(i) => Some(i + 1),
            None => None,
        }
    }
}

/// The interface-facing result of the cache queries, together with the
/// filter and cursor state that produced it.
pub struct ViewState {
    /// Projects matching the current text filter, in recency order.
    pub filtered_projects: Vec<Project>,
    /// How many projects the cache holds in all.
    pub total_projects: usize,
    /// Issues matching the current filters, in the current sort order.
    pub filtered_issues: Vec<Issue>,
    /// How many issues the current project holds in all.
    pub total_issues: usize,
    pub projects_list_state: usize,
    pub issues_list_state: usize,
    /// The project whose issues are listed, if one is selected.
    pub selected_project_id: Option<u64>,
    pub project_filter: String,
    pub issue_filter: String,
    pub issue_sort_order: IssueSortOrder,
    /// Show only issues assigned to the current user.
    pub my_issues_filter: bool,
    pub current_user_id: Option<u64>,
    pub group_issues_by_status: bool,
    /// Names of the status groups folded shut.
    pub status_groups_collapsed: Vec<String>,
    pub last_projects_sync: Option<u64>,
}

/// An optional filter: absent when the text is empty.
pub open spec fn opt_filter_of(s: Seq<char>) -> Option<Seq<char>> {
    if s.len() == 0 {
        None
    } else {
        Some(s)
    }
}

/// The presentation resort the facade applies on top of the cache
/// query: when sorting by status, issues are regrouped by the status
/// priority table rather than by name.
pub open spec fn spec_presentation_sort(
    rows: Seq<IssueView>,
    order: IssueSortOrder,
) -> Seq<IssueView> {
    match order {
        IssueSortOrder::StatusAsc => sort_by_asc(rows, issue_prio_asc_fn()),
        IssueSortOrder::StatusDesc => sort_by_asc(rows, issue_prio_desc_fn()),
        _ => rows,
    }
}

/// A cursor clamped against a new list length.
pub open spec fn clamped(cursor: int, len: int) -> int {
    if cursor < len {
        cursor
    } else if len == 0 {
        0
    } else {
        len - 1
    }
}

impl ViewState {
    /// The grouped display this state presents.
    pub open spec fn display(&self) -> Seq<DisplayItemView> {
        display_of(
            issues_view(self.filtered_issues@),
            sort_by_asc(
                distinct_statuses(issues_view(self.filtered_issues@)),
                status_prio_leq_fn(),
            ),
            strings_view(self.status_groups_collapsed@),
        )
    }

    /// A fresh, empty view: nothing filtered, nothing selected.
    pub fn new() -> (r: ViewState)
        ensures
            r.filtered_projects@.len() == 0,
            r.filtered_issues@.len() == 0,
            r.total_projects == 0,
            r.total_issues == 0,
            r.projects_list_state == 0,
            r.issues_list_state == 0,
            r.selected_project_id is None,
            r.project_filter@.len() == 0,
            r.issue_filter@.len() == 0,
            r.issue_sort_order == IssueSortOrder::UpdatedDesc,
            r.my_issues_filter == false,
            r.current_user_id is None,
            r.group_issues_by_status == false,
            r.status_groups_collapsed@.len() == 0,
            r.last_projects_sync is None,
    {
        ViewState {
            filtered_projects: Vec::new(),
            total_projects: 0,
            filtered_issues: Vec::new(),
            total_issues: 0,
            projects_list_state: 0,
            issues_list_state: 0,
            selected_project_id: None,
            project_filter: String::new(),
            issue_filter: String::new(),
            issue_sort_order: IssueSortOrder::UpdatedDesc,
            my_issues_filter: false,
            current_user_id: None,
            group_issues_by_status: false,
            status_groups_collapsed: Vec::new(),
            last_projects_sync: None,
        }
    }

    /// Build the grouped display list this state presents.
    #[verifier::loop_isolation(false)]
    pub fn build_display(&self) -> (out: Vec<DisplayItem>)
        ensures
            display_view(out@) == self.display(),
    {
        let ghost iv = issues_view(self.filtered_issues@);
        let ghost collapsed = strings_view(self.status_groups_collapsed@);
        let order: Vec<String> = self.grouped_status_order();
        let ghost ov = strings_view(order@);
        let mut out: Vec<DisplayItem> = Vec::new();
        let mut g: usize = 0;
        proof {
            assert(ov.take(0) =~= Seq::<Seq<char>>::empty());
        }
        while g < order.len()
            invariant
                g <= ov.len(),
                ov.len() == order@.len(),
                display_view(out@) == display_of(iv, ov.take(g as int), collapsed),
            decreases ov.len() - g,
        {
            proof {
                assert(order@[g as int]@ == ov[g as int]);
            }
            let ghost before_seg = display_view(out@);
            let name: &String = &order[g];
            out.push(DisplayItem::Header(name.clone()));
            proof {
                assert(display_view(out@) =~= before_seg + seq![
                    DisplayItemView::Header(ov[g as int]),
                ]);
            }
            if !contains_string(&self.status_groups_collapsed, name) {
                let ghost base = display_view(out@);
                let ghost pred = status_is_fn(ov[g as int]);
                let mut i: usize = 0;
                proof {
                    assert(iv.take(0).filter(pred) =~= Seq::<IssueView>::empty());
                    reveal(Seq::filter);
                }
                while i < self.filtered_issues.len()
                    invariant
                        i <= iv.len(),
                        iv.len() == self.filtered_issues@.len(),
                        display_view(out@) == base + iv.take(i as int).filter(pred).map_values(
                            row_fn(),
                        ),
                    decreases iv.len() - i,
                {
                    proof {
                        crate::db::lemma_filter_take_step(iv, pred, i as int);
                        assert(self.filtered_issues@[i as int]@ == iv[i as int]);
                    }
                    if strings_equal(&self.filtered_issues[i].status.name, name) {
                        let ghost before = display_view(out@);
                        let ghost out_before = out@;
                        let ghost f0 = iv.take(i as int).filter(pred);
                        out.push(DisplayItem::Row(copy_issue(&self.filtered_issues[i])));
                        proof {
                            let target = base + iv.take(i + 1).filter(pred).map_values(
                                row_fn(),
                            );
                            assert(iv.take(i + 1).filter(pred) == f0.push(iv[i as int]));
                            assert(before.len() == base.len() + f0.len());
                            assert(display_view(out@).len() == base.len() + f0.len() + 1);
                            assert(target.len() == base.len() + f0.len() + 1);
                            assert forall|t: int|
                                0 <= t < base.len() + f0.len() + 1 implies #[trigger] display_view(
                                out@,
                            )[t] == target[t] by {
                                if t < before.len() {
                                    assert(out@[t] == out_before[t]);
                                    assert(display_view(out@)[t] == before[t]);
                                    if t < base.len() {
                                        assert(before[t] == base[t]);
                                        assert(target[t] == base[t]);
                                    } else {
                                        assert(before[t] == f0.map_values(row_fn())[t
                                            - base.len()]);
                                        assert(target[t] == f0.push(iv[i as int]).map_values(
                                            row_fn(),
                                        )[t - base.len()]);
                                        assert(f0.push(iv[i as int])[t - base.len()] == f0[t
                                            - base.len()]);
                                    }
                                } else {
                                    assert(display_view(out@)[t] == DisplayItemView::Row(
                                        iv[i as int],
                                    ));
                                    assert(target[t] == f0.push(iv[i as int]).map_values(
                                        row_fn(),
                                    )[t - base.len()]);
                                    assert(f0.push(iv[i as int])[t - base.len()]
                                        == iv[i as int]);
                                }
                            }
                            assert(display_view(out@) =~= target);
                        }
                    }
                    i = i + 1;
                }
                proof {
                    assert(iv.take(iv.len() as int) =~= iv);
                    assert(display_view(out@) =~= before_seg + display_segment(
                        iv,
                        collapsed,
                        ov[g as int],
                    ));
                }
            } else {
                proof {
                    assert(display_view(out@) =~= before_seg + display_segment(
                        iv,
                        collapsed,
                        ov[g as int],
                    ));
                }
            }
            proof {
                lemma_display_of_push(iv, ov.take(g as int), collapsed, ov[g as int]);
                assert(ov.take(g + 1) =~= ov.take(g as int).push(ov[g as int]));
            }
            g = g + 1;
        }
        proof {
            assert(ov.take(ov.len() as int) =~= ov);
        }
        out
    }

    /// The distinct statuses of the listed issues, ordered by the
    /// priority table.
    #[verifier::loop_isolation(false)]
    fn grouped_status_order(&self) -> (order: Vec<String>)
        ensures
            strings_view(order@) == sort_by_asc(
                distinct_statuses(issues_view(self.filtered_issues@)),
                status_prio_leq_fn(),
            ),
    {
        let ghost iv = issues_view(self.filtered_issues@);
        let mut names: Vec<String> = Vec::new();
        let mut i: usize = 0;
        proof {
            assert(iv.take(0) =~= Seq::<IssueView>::empty());
        }
        while i < self.filtered_issues.len()
            invariant
                i <= iv.len(),
                iv.len() == self.filtered_issues@.len(),
                strings_view(names@) == distinct_statuses(iv.take(i as int)),
            decreases iv.len() - i,
        {
            proof {
                assert(iv.take(i + 1).drop_last() =~= iv.take(i as int));
                assert(iv.take(i + 1).last() == iv[i as int]);
                assert(self.filtered_issues@[i as int]@ == iv[i as int]);
            }
            let ghost before = strings_view(names@);
            if !contains_string(&names, &self.filtered_issues[i].status.name) {
                names.push(self.filtered_issues[i].status.name.clone());
                proof {
                    assert(strings_view(names@) =~= before.push(iv[i as int].status.name));
                }
            }
            i = i + 1;
        }
        proof {
            assert(iv.take(iv.len() as int) =~= iv);
        }
        let ghost ds = distinct_statuses(iv);
        let mut order: Vec<String> = Vec::new();
        let mut j: usize = 0;
        proof {
            assert(ds.take(0) =~= Seq::<Seq<char>>::empty());
        }
        while j < names.len()
            invariant
                j <= ds.len(),
                ds.len() == names@.len(),
                ds == strings_view(names@),
                strings_view(order@) == sort_by_asc(ds.take(j as int), status_prio_leq_fn()),
            decreases ds.len() - j,
        {
            proof {
                assert(names@[j as int]@ == ds[j as int]);
            }
            insert_status_sorted(&mut order, names[j].clone());
            proof {
                lemma_sort_by_asc_push(ds.take(j as int), ds[j as int], status_prio_leq_fn());
                assert(ds.take(j + 1) =~= ds.take(j as int).push(ds[j as int]));
            }
            j = j + 1;
        }
        proof {
            assert(ds.take(ds.len() as int) =~= ds);
        }
        order
    }

    /// How many entries the issue pane shows: the grouped display's
    /// length when grouping, else the flat list's.
    pub fn get_visible_items_count(&self) -> (r: usize)
        ensures
            r == (if self.group_issues_by_status {
                self.display().len()
            } else {
                self.filtered_issues@.len()
            }),
    {
        if !self.group_issues_by_status {
            return self.filtered_issues.len();
        }
        let display = self.build_display();
        display.len()
    }

    /// The status name under the cursor, when the cursor sits on a
    /// group header in grouped mode.
    pub fn get_status_at_cursor(&self) -> (r: Option<String>)
        ensures
            match r {
                Some(n) => self.group_issues_by_status && self.issues_list_state
                    < self.display().len() && self.display()[self.issues_list_state as int]
                    == DisplayItemView::Header(n@),
                None => !self.group_issues_by_status || self.issues_list_state
                    >= self.display().len() || !(self.display()[self.issues_list_state as int]
                    is Header),
            },
    {
        if !self.group_issues_by_status {
            return None;
        }
        let display = self.build_display();
        if self.issues_list_state >= display.len() {
            return None;
        }
        proof {
            assert(display@[self.issues_list_state as int]@
                == self.display()[self.issues_list_state as int]);
        }
        match &display[self.issues_list_state] {
            DisplayItem::Header(n) => Some(n.clone()),
            DisplayItem::Row(_) => None,
        }
    }

    /// The issue under the cursor: the flat list's entry, or in grouped
    /// mode the display row there, if any.
    pub fn get_issue_at_cursor(&self) -> (r: Option<Issue>)
        ensures
            match r {
                Some(x) => if self.group_issues_by_status {
                    self.issues_list_state < self.display().len() && self.display()[
                        self.issues_list_state as int] == DisplayItemView::Row(x@)
                } else {
                    self.issues_list_state < self.filtered_issues@.len() && x@ == issues_view(
                        self.filtered_issues@,
                    )[self.issues_list_state as int]
                },
                None => if self.group_issues_by_status {
                    self.issues_list_state >= self.display().len() || !(self.display()[
                        self.issues_list_state as int] is Row)
                } else {
                    self.issues_list_state >= self.filtered_issues@.len()
                },
            },
    {
        if !self.group_issues_by_status {
            if self.issues_list_state < self.filtered_issues.len() {
                proof {
                    assert(self.filtered_issues@[self.issues_list_state as int]@ == issues_view(
                        self.filtered_issues@,
                    )[self.issues_list_state as int]);
                }
                return Some(copy_issue(&self.filtered_issues[self.issues_list_state]));
            }
            return None;
        }
        let display = self.build_display();
        if self.issues_list_state >= display.len() {
            return None;
        }
        proof {
            assert(display@[self.issues_list_state as int]@
                == self.display()[self.issues_list_state as int]);
        }
        match &display[self.issues_list_state] {
            DisplayItem::Row(x) => Some(copy_issue(x)),
            DisplayItem::Header(_) => None,
        }
    }

    /// The status group the cursor currently sits in: the nearest
    /// header at or before it, in grouped mode.
    #[verifier::loop_isolation(false)]
    pub fn get_current_status_group(&self) -> (r: Option<String>)
        ensures
            match r {
                Some(n) => self.group_issues_by_status && owning_header(
                    self.display(),
                    self.issues_list_state as int,
                ) == Some(n@),
                None => !self.group_issues_by_status || owning_header(
                    self.display(),
                    self.issues_list_state as int,
                ) is None,
            },
    {
        if !self.group_issues_by_status {
            return None;
        }
        let display = self.build_display();
        if self.issues_list_state >= display.len() {
            return None;
        }
        let mut i: usize = self.issues_list_state;
        loop
            invariant
                i <= self.issues_list_state,
                self.issues_list_state < display@.len(),
                display_view(display@) == self.display(),
                owning_header(self.display(), self.issues_list_state as int) == owning_header(
                    self.display(),
                    i as int,
                ),
            decreases i,
        {
            proof {
                assert(display@[i as int]@ == self.display()[i as int]);
            }
            match &display[i] {
                DisplayItem::Header(n) => {
                    return Some(n.clone());
                },
                DisplayItem::Row(_) => {
                    if i == 0 {
                        return None;
                    }
                    i = i - 1;
                },
            }
        }
    }

    /// The display position of one status group's header, in grouped
    /// mode.
    #[verifier::loop_isolation(false)]
    pub fn get_status_group_header_position(&self, target_status: &str) -> (r: Option<usize>)
        ensures
            match r {
                Some(p) => self.group_issues_by_status && header_index(
                    self.display(),
                    target_status@,
                ) == Some(p as int),
                None => !self.group_issues_by_status || header_index(
                    self.display(),
                    target_status@,
                ) is None,
            },
    {
        if !self.group_issues_by_status {
            return None;
        }
        let display = self.build_display();
        let ghost dv = self.display();
        let mut i: usize = 0;
        proof {
            assert(dv.skip(0) =~= dv);
        }
        while i < display.len()
            invariant
                i <= dv.len(),
                dv.len() == display@.len(),
                display_view(display@) == dv,
                header_index(dv, target_status@) == match header_index(
                    dv.skip(i as int),
                    target_status@,
                ) {
                    Some(p) => Some(p + i),
                    None => None,
                },
            decreases dv.len() - i,
        {
            proof {
                assert(display@[i as int]@ == dv[i as int]);
                assert(dv.skip(i as int)[0] == dv[i as int]);
                assert(dv.skip(i as int).drop_first() =~= dv.skip(i + 1));
            }
            let is_target: bool = match &display[i] {
                DisplayItem::Header(n) => strings_equal_str(n, target_status),
                DisplayItem::Row(_) => false,
            };
            if is_target {
                proof {
                    assert(dv[i as int] == DisplayItemView::Header(target_status@));
                    assert(header_index(dv.skip(i as int), target_status@) == Some(0int));
                }
                return Some(i);
            }
            proof {
                assert(dv.skip(i as int)[0] != DisplayItemView::Header(target_status@));
            }
            i = i + 1;
        }
        proof {
            assert(dv.skip(dv.len() as int).len() == 0);
        }
        None
    }

    /// Whether this issue changed after its project's last issue sync,
    /// going by the listed projects.
    #[verifier::loop_isolation(false)]
    pub fn is_issue_updated_since_last_sync(&self, issue: &Issue) -> (r: bool)
        ensures
            r == (match first_project_with(projects_view(self.filtered_projects@), issue@.project.id) {
                Some(p) => match p.last_issues_sync {
                    Some(ls) => issue@.updated_on > ls,
                    None => false,
                },
                None => false,
            }),
    {
        let ghost pv = projects_view(self.filtered_projects@);
        let mut i: usize = 0;
        proof {
            assert(pv.skip(0) =~= pv);
        }
        while i < self.filtered_projects.len()
            invariant
                i <= pv.len(),
                pv.len() == self.filtered_projects@.len(),
                first_project_with(pv, issue@.project.id) == first_project_with(
                    pv.skip(i as int),
                    issue@.project.id,
                ),
            decreases pv.len() - i,
        {
            proof {
                assert(self.filtered_projects@[i as int]@ == pv[i as int]);
                assert(pv.skip(i as int)[0] == pv[i as int]);
                assert(pv.skip(i as int).drop_first() =~= pv.skip(i + 1));
            }
            if self.filtered_projects[i].id == issue.project.id {
                match self.filtered_projects[i].last_issues_sync {
                    Some(ls) => {
                        return issue.updated_on > ls;
                    },
                    None => {
                        return false;
                    },
                }
            }
            i = i + 1;
        }
        proof {
            assert(pv.skip(pv.len() as int).len() == 0);
        }
        false
    }

    /// Whether this project saw issue activity after its last issue
    /// sync: its "what's new" indicator.
    pub fn has_project_updated_issues(&self, project: &Project) -> (r: bool)
        ensures
            r == (match project@.last_issues_sync {
                Some(ls) => match project@.last_issue_activity {
                    Some(act) => act > ls,
                    None => false,
                },
                None => false,
            }),
    {
        match project.last_issues_sync {
            Some(ls) => match project.last_issue_activity {
                Some(act) => act > ls,
                None => false,
            },
            None => false,
        }
    }

    /// Re-read everything the interface shows from the cache: sync
    /// stamps, the filtered project list, the filtered and sorted issue
    /// list, the unfiltered totals, and both cursors clamped against
    /// the new lengths. This is the only path by which the visible
    /// lists change.
    #[verifier::loop_isolation(false)]
    pub fn apply_filters(&mut self, db: &Database)
        requires
            db.wf(),
        ensures
            final(self).last_projects_sync == db@.projects_last_synced,
            final(self).total_projects == spec_get_projects(db@, None).len(),
            projects_view(final(self).filtered_projects@) == spec_get_projects(
                db@,
                opt_filter_of(old(self).project_filter@),
            ),
            final(self).total_issues == spec_get_issues(
                db@,
                old(self).selected_project_id,
                old(self).issue_sort_order,
                None,
                None,
            ).len(),
            issues_view(final(self).filtered_issues@) == spec_presentation_sort(
                spec_get_issues(
                    db@,
                    old(self).selected_project_id,
                    old(self).issue_sort_order,
                    opt_filter_of(old(self).issue_filter@),
                    if old(self).my_issues_filter {
                        old(self).current_user_id
                    } else {
                        None
                    },
                ),
                old(self).issue_sort_order,
            ),
            final(self).projects_list_state == clamped(
                old(self).projects_list_state as int,
                projects_view(final(self).filtered_projects@).len() as int,
            ),
            final(self).issues_list_state == clamped(
                old(self).issues_list_state as int,
                issues_view(final(self).filtered_issues@).len() as int,
            ),
            final(self).selected_project_id == old(self).selected_project_id,
            final(self).project_filter == old(self).project_filter,
            final(self).issue_filter == old(self).issue_filter,
            final(self).issue_sort_order == old(self).issue_sort_order,
            final(self).my_issues_filter == old(self).my_issues_filter,
            final(self).current_user_id == old(self).current_user_id,
            final(self).group_issues_by_status == old(self).group_issues_by_status,
            final(self).status_groups_collapsed == old(self).status_groups_collapsed,
    {
        match db.get_last_projects_sync() {
            Ok(t) => {
                self.last_projects_sync = t;
            },
            Err(_) => {
                self.last_projects_sync = None;
            },
        }
        match db.get_projects(None) {
            Ok(all) => {
                self.total_projects = all.len();
            },
            Err(_) => {
                self.total_projects = 0;
            },
        }
        let pfilter: Option<&str> = if self.project_filter.as_str().unicode_len() == 0 {
            None
        } else {
            Some(self.project_filter.as_str())
        };
        proof {
            assert(opt_text_view(pfilter) == opt_filter_of(self.project_filter@));
        }
        match db.get_projects(pfilter) {
            Ok(list) => {
                self.filtered_projects = list;
            },
            Err(_) => {
                self.filtered_projects = Vec::new();
            },
        }
        if self.projects_list_state >= self.filtered_projects.len() {
            self.projects_list_state = if self.filtered_projects.len() == 0 {
                0
            } else {
                self.filtered_projects.len() - 1
            };
        }
        let assignee: Option<u64> = if self.my_issues_filter {
            self.current_user_id
        } else {
            None
        };
        match db.get_issues(self.selected_project_id, self.issue_sort_order, None, None) {
            Ok(all) => {
                self.total_issues = all.len();
            },
            Err(_) => {
                self.total_issues = 0;
            },
        }
        let ifilter: Option<&str> = if self.issue_filter.as_str().unicode_len() == 0 {
            None
        } else {
            Some(self.issue_filter.as_str())
        };
        proof {
            assert(opt_text_view(ifilter) == opt_filter_of(self.issue_filter@));
        }
        match db.get_issues(self.selected_project_id, self.issue_sort_order, ifilter, assignee) {
            Ok(list) => {
                self.filtered_issues = list;
            },
            Err(_) => {
                self.filtered_issues = Vec::new();
            },
        }
        match self.issue_sort_order {
            IssueSortOrder::StatusAsc => {
                let sorted = presentation_sort_exec(&self.filtered_issues, true);
                self.filtered_issues = sorted;
            },
            IssueSortOrder::StatusDesc => {
                let sorted = presentation_sort_exec(&self.filtered_issues, false);
                self.filtered_issues = sorted;
            },
            _ => {},
        }
        if self.issues_list_state >= self.filtered_issues.len() {
            self.issues_list_state = if self.filtered_issues.len() == 0 {
                0
            } else {
                self.filtered_issues.len() - 1
            };
        }
    }
}

/// The first listed project carrying this id.
pub open spec fn first_project_with(s: Seq<ProjectView>, id: u64) -> Option<ProjectView>
    decreases s.len(),
{
    if s.len() == 0 {
        None
    } else if s[0].id == id {
        Some(s[0])
    } else {
        first_project_with(s.drop_first(), id)
    }
}

/// String equality by value.
fn strings_equal(a: &String, b: &String) -> (r: bool)
    ensures
        r == (a@ == b@),
{
    let ac = str_chars(a.as_str());
    let bc = str_chars(b.as_str());
    chars_equal(&ac, &bc)
}

/// String/slice equality by value.
fn strings_equal_str(a: &String, b: &str) -> (r: bool)
    ensures
        r == (a@ == b@),
{
    let ac = str_chars(a.as_str());
    let bc = str_chars(b);
    chars_equal(&ac, &bc)
}

/// Character-vector equality by value.
#[verifier::loop_isolation(false)]
fn chars_equal(a: &Vec<char>, b: &Vec<char>) -> (r: bool)
    ensures
        r == (a@ == b@),
{
    if a.len() != b.len() {
        return false;
    }
    let mut i: usize = 0;
    while i < a.len()
        invariant
            a@.len() == b@.len(),
            i <= a@.len(),
            forall|k: int| 0 <= k < i ==> a@[k] == b@[k],
        decreases a@.len() - i,
    {
        if a[i] != b[i] {
            return false;
        }
        i = i + 1;
    }
    proof {
        assert(a@ =~= b@);
    }
    true
}

/// Whether a string list holds this name.
#[verifier::loop_isolation(false)]
fn contains_string(v: &Vec<String>, x: &String) -> (r: bool)
    ensures
        r == strings_view(v@).contains(x@),
{
    let ghost sv = strings_view(v@);
    let mut i: usize = 0;
    while i < v.len()
        invariant
            i <= sv.len(),
            sv.len() == v@.len(),
            forall|k: int| 0 <= k < i ==> sv[k] != x@,
        decreases sv.len() - i,
    {
        proof {
            assert(v@[i as int]@ == sv[i as int]);
        }
        if strings_equal(&v[i], x) {
            proof {
                assert(sv[i as int] == x@);
            }
            return true;
        }
        i = i + 1;
    }
    proof {
        if sv.contains(x@) {
            let k = choose|k: int| 0 <= k < sv.len() && sv[k] == x@;
            assert(sv[k] != x@);
        }
    }
    false
}

/// Insert one status name into a priority-ordered list, after its
/// equals.
#[verifier::loop_isolation(false)]
fn insert_status_sorted(out: &mut Vec<String>, x: String)
    ensures
        strings_view(final(out)@) == insert_sorted_by(
            strings_view(old(out)@),
            x@,
            status_prio_leq_fn(),
        ),
{
    let ghost s = strings_view(out@);
    let px: u32 = status_priority_exec(x.as_str());
    let mut idx: usize = 0;
    while idx < out.len()
        invariant
            idx <= s.len(),
            forall|j: int| 0 <= j < idx ==> status_prio_leq_fn()(s[j], x@),
        decreases s.len() - idx,
    {
        proof {
            assert(s[idx as int] == out@[idx as int]@);
        }
        if status_priority_exec(out[idx].as_str()) > px {
            break;
        }
        idx = idx + 1;
    }
    proof {
        assert(idx < s.len() ==> !status_prio_leq_fn()(s[idx as int], x@));
        lemma_insert_sorted_by_at(s, x@, status_prio_leq_fn(), idx as int);
    }
    out.insert(idx, x);
    proof {
        assert(strings_view(out@) =~= s.take(idx as int) + seq![x@] + s.skip(idx as int));
    }
}

/// Compare two issues by status priority, ascending or descending.
fn issue_prio_leq_exec(asc: bool, a: &Issue, b: &Issue) -> (r: bool)
    ensures
        asc ==> r == issue_prio_asc_fn()(a@, b@),
        !asc ==> r == issue_prio_desc_fn()(a@, b@),
{
    let pa: u32 = status_priority_exec(a.status.name.as_str());
    let pb: u32 = status_priority_exec(b.status.name.as_str());
    if asc {
        pa <= pb
    } else {
        pa >= pb
    }
}

/// Insert one issue into a priority-ordered list, after its equals.
#[verifier::loop_isolation(false)]
fn insert_issue_prio_sorted(out: &mut Vec<Issue>, x: Issue, asc: bool)
    ensures
        issues_view(final(out)@) == insert_sorted_by(
            issues_view(old(out)@),
            x@,
            if asc {
                issue_prio_asc_fn()
            } else {
                issue_prio_desc_fn()
            },
        ),
{
    let ghost leq = if asc {
        issue_prio_asc_fn()
    } else {
        issue_prio_desc_fn()
    };
    let ghost s = issues_view(out@);
    let mut idx: usize = 0;
    while idx < out.len()
        invariant
            idx <= s.len(),
            forall|j: int| 0 <= j < idx ==> leq(s[j], x@),
        decreases s.len() - idx,
    {
        proof {
            assert(s[idx as int] == out@[idx as int]@);
        }
        if !issue_prio_leq_exec(asc, &out[idx], &x) {
            break;
        }
        idx = idx + 1;
    }
    proof {
        assert(idx < s.len() ==> !leq(s[idx as int], x@));
        lemma_insert_sorted_by_at(s, x@, leq, idx as int);
    }
    out.insert(idx, x);
    proof {
        assert(issues_view(out@) =~= s.take(idx as int) + seq![x@] + s.skip(idx as int));
    }
}

/// Stable sort of issues by status priority.
#[verifier::loop_isolation(false)]
fn presentation_sort_exec(input: &Vec<Issue>, asc: bool) -> (out: Vec<Issue>)
    ensures
        issues_view(out@) == sort_by_asc(
            issues_view(input@),
            if asc {
                issue_prio_asc_fn()
            } else {
                issue_prio_desc_fn()
            },
        ),
{
    let ghost leq = if asc {
        issue_prio_asc_fn()
    } else {
        issue_prio_desc_fn()
    };
    let ghost iv = issues_view(input@);
    let mut out: Vec<Issue> = Vec::new();
    let mut j: usize = 0;
    proof {
        assert(iv.take(0) =~= Seq::<IssueView>::empty());
    }
    while j < input.len()
        invariant
            j <= iv.len(),
            iv.len() == input@.len(),
            issues_view(out@) == sort_by_asc(iv.take(j as int), leq),
        decreases iv.len() - j,
    {
        proof {
            assert(input@[j as int]@ == iv[j as int]);
        }
        insert_issue_prio_sorted(&mut out, copy_issue(&input[j]), asc);
        proof {
            lemma_sort_by_asc_push(iv.take(j as int), iv[j as int], leq);
            assert(iv.take(j + 1) =~= iv.take(j as int).push(iv[j as int]));
        }
        j = j + 1;
    }
    proof {
        assert(iv.take(iv.len() as int) =~= iv);
    }
    out
}

} // verus!
