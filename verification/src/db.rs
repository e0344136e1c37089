//! The cache store: a durable, queryable mirror of remote entities.
//!
//! Four tables — projects, issues, journals, users — plus two global sync
//! stamps. Rows are unique by id; an upsert replaces the matching row in
//! place or appends a new one. The abstract state is [`DbView`], and
//! every operation's contract pins the new state as a function of the
//! old one. The store itself lives in memory; mirroring it to disk is
//! the caller's concern and cannot change what these contracts say.

use vstd::prelude::*;

use crate::app::IssueSortOrder;
use crate::error::CacheError;
use crate::sorting::{
    insert_sorted_by, lemma_insert_sorted_by_at, lemma_sort_by_asc_push, sort_by_asc,
};
use crate::text::{chars_contain_ci, chars_lex_leq, contains_ci, dec_chars, lex_leq, str_chars, u64_dec_chars};
use crate::redmine::{
    copy_id_name, copy_issue, copy_journal, copy_opt_id_name, copy_opt_string, copy_project,
    copy_user, IdName, IdNameView, Issue, IssueView, Journal, JournalView, Project, ProjectView, User,
    UserView,
};

verus! {

/// A journal table row: the journal entry plus the issue it belongs to.
#[derive(Debug, Clone)]
pub struct JournalRow {
    pub issue_id: u64,
    pub journal: Journal,
}

/// Mathematical value of a [`JournalRow`].
#[verifier::ext_equal]
pub struct JournalRowView {
    pub issue_id: u64,
    pub journal: JournalView,
}

impl View for JournalRow {
    type V = JournalRowView;

    open spec fn view(&self) -> JournalRowView {
        JournalRowView { issue_id: self.issue_id, journal: self.journal@ }
    }
}

/// A user table row: the user plus when the row was last written.
#[derive(Debug, Clone)]
pub struct UserRow {
    pub user: User,
    pub cached_at: u64,
}

/// Mathematical value of a [`UserRow`].
#[verifier::ext_equal]
pub struct UserRowView {
    pub user: UserView,
    pub cached_at: u64,
}

impl View for UserRow {
    type V = UserRowView;

    open spec fn view(&self) -> UserRowView {
        UserRowView { user: self.user@, cached_at: self.cached_at }
    }
}

/// Abstract state of the whole store.
#[verifier::ext_equal]
pub struct DbView {
    pub projects: Seq<ProjectView>,
    pub issues: Seq<IssueView>,
    pub journals: Seq<JournalRowView>,
    pub users: Seq<UserRowView>,
    pub projects_last_synced: Option<u64>,
    pub issues_last_synced: Option<u64>,
}

/// View of a project sequence.
pub open spec fn projects_view(s: Seq<Project>) -> Seq<ProjectView> {
    s.map_values(|p: Project| p@)
}

/// View of an issue sequence.
pub open spec fn issues_view(s: Seq<Issue>) -> Seq<IssueView> {
    s.map_values(|i: Issue| i@)
}

/// View of a journal row sequence.
pub open spec fn journals_view(s: Seq<JournalRow>) -> Seq<JournalRowView> {
    s.map_values(|j: JournalRow| j@)
}

/// View of a user row sequence.
pub open spec fn users_view(s: Seq<UserRow>) -> Seq<UserRowView> {
    s.map_values(|u: UserRow| u@)
}

/// Project ids are pairwise distinct.
pub open spec fn unique_project_ids(s: Seq<ProjectView>) -> bool {
    forall|i: int, j: int| 0 <= i < j < s.len() ==> s[i].id != s[j].id
}

/// Issue ids are pairwise distinct.
pub open spec fn unique_issue_ids(s: Seq<IssueView>) -> bool {
    forall|i: int, j: int| 0 <= i < j < s.len() ==> s[i].id != s[j].id
}

/// Journal ids are pairwise distinct.
pub open spec fn unique_journal_ids(s: Seq<JournalRowView>) -> bool {
    forall|i: int, j: int| 0 <= i < j < s.len() ==> s[i].journal.id != s[j].journal.id
}

/// User ids are pairwise distinct.
pub open spec fn unique_user_ids(s: Seq<UserRowView>) -> bool {
    forall|i: int, j: int| 0 <= i < j < s.len() ==> s[i].user.id != s[j].user.id
}

impl DbView {
    /// Well-formedness: every table is keyed by a distinct id.
    pub open spec fn wf(self) -> bool {
        &&& unique_project_ids(self.projects)
        &&& unique_issue_ids(self.issues)
        &&& unique_journal_ids(self.journals)
        &&& unique_user_ids(self.users)
    }

    /// The empty store.
    pub open spec fn empty() -> DbView {
        DbView {
            projects: Seq::empty(),
            issues: Seq::empty(),
            journals: Seq::empty(),
            users: Seq::empty(),
            projects_last_synced: None,
            issues_last_synced: None,
        }
    }
}

// Lookup and upsert, per table.

/// Some project row carries this id.
pub open spec fn proj_has_id(s: Seq<ProjectView>, id: u64) -> bool {
    exists|i: int| 0 <= i < s.len() && s[i].id == id
}

/// Index of the project row carrying this id (unique when ids are).
pub open spec fn proj_index_of(s: Seq<ProjectView>, id: u64) -> int {
    choose|i: int| 0 <= i < s.len() && s[i].id == id
}

/// The project row carrying this id, if any.
pub open spec fn proj_lookup(s: Seq<ProjectView>, id: u64) -> Option<ProjectView> {
    if proj_has_id(s, id) {
        Some(s[proj_index_of(s, id)])
    } else {
        None
    }
}

/// Insert-or-replace a project row by id.
pub open spec fn upsert_project_row(s: Seq<ProjectView>, p: ProjectView) -> Seq<ProjectView> {
    if proj_has_id(s, p.id) {
        s.update(proj_index_of(s, p.id), p)
    } else {
        s.push(p)
    }
}

/// Some issue row carries this id.
pub open spec fn issue_has_id(s: Seq<IssueView>, id: u64) -> bool {
    exists|i: int| 0 <= i < s.len() && s[i].id == id
}

/// Index of the issue row carrying this id (unique when ids are).
pub open spec fn issue_index_of(s: Seq<IssueView>, id: u64) -> int {
    choose|i: int| 0 <= i < s.len() && s[i].id == id
}

/// The issue row carrying this id, if any.
pub open spec fn issue_lookup(s: Seq<IssueView>, id: u64) -> Option<IssueView> {
    if issue_has_id(s, id) {
        Some(s[issue_index_of(s, id)])
    } else {
        None
    }
}

/// Insert-or-replace an issue row by id.
pub open spec fn upsert_issue_row(s: Seq<IssueView>, p: IssueView) -> Seq<IssueView> {
    if issue_has_id(s, p.id) {
        s.update(issue_index_of(s, p.id), p)
    } else {
        s.push(p)
    }
}

/// Some user row carries this id.
pub open spec fn user_has_id(s: Seq<UserRowView>, id: u64) -> bool {
    exists|i: int| 0 <= i < s.len() && s[i].user.id == id
}

/// Index of the user row carrying this id (unique when ids are).
pub open spec fn user_index_of(s: Seq<UserRowView>, id: u64) -> int {
    choose|i: int| 0 <= i < s.len() && s[i].user.id == id
}

/// Insert-or-replace a user row by id.
pub open spec fn upsert_user_row(s: Seq<UserRowView>, u: UserRowView) -> Seq<UserRowView> {
    if user_has_id(s, u.user.id) {
        s.update(user_index_of(s, u.user.id), u)
    } else {
        s.push(u)
    }
}

/// `p` with its two store-maintained fields replaced.
pub open spec fn project_with_activity(
    p: ProjectView,
    activity: Option<u64>,
    sync: Option<u64>,
) -> ProjectView {
    ProjectView {
        id: p.id,
        name: p.name,
        identifier: p.identifier,
        description: p.description,
        status: p.status,
        parent: p.parent,
        created_on: p.created_on,
        updated_on: p.updated_on,
        last_issue_activity: activity,
        last_issues_sync: sync,
    }
}

/// An incoming project merged against the row it replaces: the incoming
/// fields win, but `last_issue_activity` / `last_issues_sync` are
/// preserved from the existing row rather than overwritten with the
/// incoming batch's (necessarily absent) values.
pub open spec fn merge_project(prev: Option<ProjectView>, p: ProjectView) -> ProjectView {
    match prev {
        Some(q) => project_with_activity(p, q.last_issue_activity, q.last_issues_sync),
        None => project_with_activity(p, None, None),
    }
}

/// A whole batch of projects merged and upserted, first to last.
pub open spec fn upsert_projects_seq(
    s: Seq<ProjectView>,
    ps: Seq<ProjectView>,
) -> Seq<ProjectView>
    decreases ps.len(),
{
    if ps.len() == 0 {
        s
    } else {
        upsert_projects_seq(
            upsert_project_row(s, merge_project(proj_lookup(s, ps[0].id), ps[0])),
            ps.drop_first(),
        )
    }
}

/// The maximum `updated_on` among the issues of one project, or `None`
/// if it has no cached issues.
pub open spec fn max_activity(issues: Seq<IssueView>, pid: u64) -> Option<u64>
    decreases issues.len(),
{
    if issues.len() == 0 {
        None
    } else {
        let rest = max_activity(issues.drop_last(), pid);
        if issues.last().project.id == pid {
            match rest {
                None => Some(issues.last().updated_on),
                Some(m) => if issues.last().updated_on > m {
                    Some(issues.last().updated_on)
                } else {
                    Some(m)
                },
            }
        } else {
            rest
        }
    }
}

/// Every project's `last_issue_activity` recomputed from the issue table.
pub open spec fn recompute_activity(
    projects: Seq<ProjectView>,
    issues: Seq<IssueView>,
) -> Seq<ProjectView> {
    projects.map_values(
        |p: ProjectView| project_with_activity(p, max_activity(issues, p.id), p.last_issues_sync),
    )
}

/// `last_issue_activity` of one project set directly.
pub open spec fn set_project_activity(
    s: Seq<ProjectView>,
    pid: u64,
    t: u64,
) -> Seq<ProjectView> {
    s.map_values(
        |p: ProjectView| if p.id == pid {
            project_with_activity(p, Some(t), p.last_issues_sync)
        } else {
            p
        },
    )
}

/// State after a project batch upsert: each row merged in, every
/// project's activity recomputed from the issue table, and the global
/// projects stamp set to `now`.
pub open spec fn spec_insert_projects(m: DbView, ps: Seq<ProjectView>, now: u64) -> DbView {
    DbView {
        projects: recompute_activity(upsert_projects_seq(m.projects, ps), m.issues),
        projects_last_synced: Some(now),
        ..m
    }
}

// Lemmas about the upsert fold.

/// With unique ids, the row found at `i` is the row the lookup names.
pub proof fn lemma_proj_index_is(s: Seq<ProjectView>, i: int, id: u64)
    requires
        unique_project_ids(s),
        0 <= i < s.len(),
        s[i].id == id,
    ensures
        proj_has_id(s, id),
        proj_index_of(s, id) == i,
{
    assert(proj_has_id(s, id));
    let j = proj_index_of(s, id);
    assert(0 <= j < s.len() && s[j].id == id);
    if j < i {
        assert(s[j].id != s[i].id);
    } else if i < j {
        assert(s[i].id != s[j].id);
    }
}

/// One row's upsert keeps ids unique.
pub proof fn lemma_upsert_project_row_unique(s: Seq<ProjectView>, p: ProjectView)
    requires
        unique_project_ids(s),
    ensures
        unique_project_ids(upsert_project_row(s, p)),
{
    if proj_has_id(s, p.id) {
        let idx = proj_index_of(s, p.id);
        assert(0 <= idx < s.len() && s[idx].id == p.id);
        let t = s.update(idx, p);
        assert forall|i: int, j: int| 0 <= i < j < t.len() implies t[i].id != t[j].id by {
            assert(s[i].id != s[j].id);
        }
    }
}

/// Processing one more batch row is one more merged upsert.
proof fn lemma_upsert_projects_seq_push(s: Seq<ProjectView>, ps: Seq<ProjectView>, p: ProjectView)
    ensures
        upsert_projects_seq(s, ps.push(p)) == upsert_project_row(
            upsert_projects_seq(s, ps),
            merge_project(proj_lookup(upsert_projects_seq(s, ps), p.id), p),
        ),
    decreases ps.len(),
{
    if ps.len() == 0 {
        let s1 = upsert_project_row(s, merge_project(proj_lookup(s, p.id), p));
        assert(ps.push(p)[0] == p);
        assert(ps.push(p).drop_first() =~= ps);
        assert(upsert_projects_seq(s, ps.push(p)) == upsert_projects_seq(s1, ps));
        assert(upsert_projects_seq(s1, ps) == s1);
        assert(upsert_projects_seq(s, ps) == s);
    } else {
        assert(ps.push(p)[0] == ps[0]);
        assert(ps.push(p).drop_first() =~= ps.drop_first().push(p));
        let s1 = upsert_project_row(s, merge_project(proj_lookup(s, ps[0].id), ps[0]));
        lemma_upsert_projects_seq_push(s1, ps.drop_first(), p);
        assert(upsert_projects_seq(s, ps.push(p)) == upsert_projects_seq(
            s1,
            ps.drop_first().push(p),
        ));
        assert(upsert_projects_seq(s, ps) == upsert_projects_seq(s1, ps.drop_first()));
    }
}

/// A whole batch's upsert keeps ids unique.
pub proof fn lemma_upsert_projects_seq_unique(s: Seq<ProjectView>, ps: Seq<ProjectView>)
    requires
        unique_project_ids(s),
    ensures
        unique_project_ids(upsert_projects_seq(s, ps)),
    decreases ps.len(),
{
    if ps.len() > 0 {
        let s1 = upsert_project_row(s, merge_project(proj_lookup(s, ps[0].id), ps[0]));
        lemma_upsert_project_row_unique(s, merge_project(proj_lookup(s, ps[0].id), ps[0]));
        lemma_upsert_projects_seq_unique(s1, ps.drop_first());
    }
}

/// The recompute keeps ids (and so their uniqueness).
pub proof fn lemma_recompute_activity_unique(projects: Seq<ProjectView>, issues: Seq<IssueView>)
    requires
        unique_project_ids(projects),
    ensures
        unique_project_ids(recompute_activity(projects, issues)),
{
    let t = recompute_activity(projects, issues);
    assert forall|i: int, j: int| 0 <= i < j < t.len() implies t[i].id != t[j].id by {
        assert(t[i].id == projects[i].id);
        assert(t[j].id == projects[j].id);
    }
}

/// View of an optional text filter.
pub open spec fn opt_text_view(f: Option<&str>) -> Option<Seq<char>> {
    match f {
        Some(s) => Some(s@),
        None => None,
    }
}

/// View of an optional, already-converted character filter.
pub open spec fn opt_chars_view(f: Option<Vec<char>>) -> Option<Seq<char>> {
    match f {
        Some(v) => Some(v@),
        None => None,
    }
}

/// The recency key projects are listed by: the staleness-tier fallback
/// `last_issue_activity`, then `updated_on`, then `created_on`, then the
/// epoch.
pub open spec fn project_sort_key(p: ProjectView) -> u64 {
    match p.last_issue_activity {
        Some(t) => t,
        None => match p.updated_on {
            Some(t) => t,
            None => match p.created_on {
                Some(t) => t,
                None => 0,
            },
        },
    }
}

/// `a` is listed at or before `b`: most recently active first.
pub open spec fn project_before(a: ProjectView, b: ProjectView) -> bool {
    project_sort_key(a) >= project_sort_key(b)
}

/// [`project_before`] as a comparator value.
pub open spec fn project_before_fn() -> spec_fn(ProjectView, ProjectView) -> bool {
    |a: ProjectView, b: ProjectView| project_before(a, b)
}

/// A project matches the text filter when its name, identifier or
/// description holds the filter text, case-insensitively. An absent or
/// empty filter matches everything.
pub open spec fn project_matches_filter(p: ProjectView, f: Option<Seq<char>>) -> bool {
    match f {
        None => true,
        Some(n) => n.len() == 0 || contains_ci(p.name, n) || contains_ci(p.identifier, n) || (
        match p.description {
            Some(d) => contains_ci(d, n),
            None => false,
        }),
    }
}

/// [`project_matches_filter`] as a predicate value.
pub open spec fn project_filter_fn(f: Option<Seq<char>>) -> spec_fn(ProjectView) -> bool {
    |p: ProjectView| project_matches_filter(p, f)
}

/// What `get_projects` returns: the matching rows, most recently active
/// first; rows with equal keys keep their table order.
pub open spec fn spec_get_projects(m: DbView, f: Option<Seq<char>>) -> Seq<ProjectView> {
    sort_by_asc(m.projects.filter(project_filter_fn(f)), project_before_fn())
}

/// An issue as the issue table stores it: the journal history and the
/// project's display name are not stored there.
pub open spec fn normalize_issue(p: IssueView) -> IssueView {
    IssueView {
        project: IdNameView { id: p.project.id, name: Seq::empty() },
        journals: Seq::empty(),
        ..p
    }
}

/// A whole batch of issues upserted, first to last, each normalized.
pub open spec fn upsert_issues_seq(s: Seq<IssueView>, ps: Seq<IssueView>) -> Seq<IssueView>
    decreases ps.len(),
{
    if ps.len() == 0 {
        s
    } else {
        upsert_issues_seq(upsert_issue_row(s, normalize_issue(ps[0])), ps.drop_first())
    }
}

/// The project ids a batch of issues touches.
pub open spec fn batch_project_ids(ps: Seq<IssueView>) -> Set<u64> {
    Set::new(|pid: u64| exists|i: int| 0 <= i < ps.len() && ps[i].project.id == pid)
}

/// Touched projects get `last_issue_activity` recomputed from the full
/// issue table (kept, not cleared, when they have no issues) and
/// `last_issues_sync` stamped; the rest are untouched.
pub open spec fn stamp_touched_projects(
    projects: Seq<ProjectView>,
    issues: Seq<IssueView>,
    touched: Set<u64>,
    now: u64,
) -> Seq<ProjectView> {
    projects.map_values(
        |p: ProjectView| if touched.contains(p.id) {
            project_with_activity(
                p,
                match max_activity(issues, p.id) {
                    Some(t) => Some(t),
                    None => p.last_issue_activity,
                },
                Some(now),
            )
        } else {
            p
        },
    )
}

/// One project stamped as [`stamp_touched_projects`] stamps it.
pub open spec fn stamp_one_project(
    s: Seq<ProjectView>,
    issues: Seq<IssueView>,
    pid: u64,
    now: u64,
) -> Seq<ProjectView> {
    s.map_values(
        |p: ProjectView| if p.id == pid {
            project_with_activity(
                p,
                match max_activity(issues, p.id) {
                    Some(t) => Some(t),
                    None => p.last_issue_activity,
                },
                Some(now),
            )
        } else {
            p
        },
    )
}

/// State after an issue batch upsert: rows merged in normalized, then
/// for each touched project the activity recompute and sync stamp.
pub open spec fn spec_insert_issues(m: DbView, ps: Seq<IssueView>, now: u64) -> DbView {
    let issues2 = upsert_issues_seq(m.issues, ps);
    DbView {
        issues: issues2,
        projects: stamp_touched_projects(m.projects, issues2, batch_project_ids(ps), now),
        ..m
    }
}

/// Some cached issue carries this id and belongs to this project.
pub open spec fn issue_of_project(issues: Seq<IssueView>, issue_id: u64, project_id: u64) -> bool {
    exists|k: int|
        0 <= k < issues.len() && issues[k].id == issue_id && issues[k].project.id == project_id
}

/// An issue matches when it is in the asked-for project, carries the
/// asked-for assignee, and its subject, description or decimal id holds
/// the filter text, case-insensitively. Absent filters match everything.
pub open spec fn issue_matches_filter(
    p: IssueView,
    pid: Option<u64>,
    f: Option<Seq<char>>,
    assignee: Option<u64>,
) -> bool {
    (match pid {
        Some(x) => p.project.id == x,
        None => true,
    }) && (match assignee {
        Some(a) => match p.assigned_to {
            Some(an) => an.id == a,
            None => false,
        },
        None => true,
    }) && (match f {
        None => true,
        Some(n) => n.len() == 0 || contains_ci(p.subject, n) || (match p.description {
            Some(d) => contains_ci(d, n),
            None => false,
        }) || contains_ci(dec_chars(p.id), n),
    })
}

/// [`issue_matches_filter`] as a predicate value.
pub open spec fn issue_filter_fn(
    pid: Option<u64>,
    f: Option<Seq<char>>,
    assignee: Option<u64>,
) -> spec_fn(IssueView) -> bool {
    |p: IssueView| issue_matches_filter(p, pid, f, assignee)
}

/// Ordering by update time.
pub open spec fn issue_updated_leq_fn() -> spec_fn(IssueView, IssueView) -> bool {
    |a: IssueView, b: IssueView| a.updated_on <= b.updated_on
}

/// Ordering by the denormalized status name, by code point.
pub open spec fn issue_status_leq_fn() -> spec_fn(IssueView, IssueView) -> bool {
    |a: IssueView, b: IssueView| lex_leq(a.status.name, b.status.name)
}

/// Ordering by priority id.
pub open spec fn issue_priority_leq_fn() -> spec_fn(IssueView, IssueView) -> bool {
    |a: IssueView, b: IssueView| a.priority.id <= b.priority.id
}

/// What `get_issues` returns: the matching rows under the asked-for
/// order. Each descending order is the exact reverse of its ascending
/// counterpart; rows with equal keys keep their table order in the
/// ascending orders.
pub open spec fn spec_get_issues(
    m: DbView,
    pid: Option<u64>,
    order: IssueSortOrder,
    f: Option<Seq<char>>,
    assignee: Option<u64>,
) -> Seq<IssueView> {
    let rows = m.issues.filter(issue_filter_fn(pid, f, assignee));
    match order {
        IssueSortOrder::UpdatedDesc => sort_by_asc(rows, issue_updated_leq_fn()).reverse(),
        IssueSortOrder::StatusAsc => sort_by_asc(rows, issue_status_leq_fn()),
        IssueSortOrder::StatusDesc => sort_by_asc(rows, issue_status_leq_fn()).reverse(),
        IssueSortOrder::PriorityAsc => sort_by_asc(rows, issue_priority_leq_fn()),
        IssueSortOrder::PriorityDesc => sort_by_asc(rows, issue_priority_leq_fn()).reverse(),
    }
}

/// With unique ids, the issue row found at `i` is the row the lookup names.
proof fn lemma_issue_index_is(s: Seq<IssueView>, i: int, id: u64)
    requires
        unique_issue_ids(s),
        0 <= i < s.len(),
        s[i].id == id,
    ensures
        issue_has_id(s, id),
        issue_index_of(s, id) == i,
{
    assert(issue_has_id(s, id));
    let j = issue_index_of(s, id);
    assert(0 <= j < s.len() && s[j].id == id);
    if j < i {
        assert(s[j].id != s[i].id);
    } else if i < j {
        assert(s[i].id != s[j].id);
    }
}

/// One issue row's upsert keeps ids unique.
proof fn lemma_upsert_issue_row_unique(s: Seq<IssueView>, p: IssueView)
    requires
        unique_issue_ids(s),
    ensures
        unique_issue_ids(upsert_issue_row(s, p)),
{
    if issue_has_id(s, p.id) {
        let idx = issue_index_of(s, p.id);
        assert(0 <= idx < s.len() && s[idx].id == p.id);
        let t = s.update(idx, p);
        assert forall|i: int, j: int| 0 <= i < j < t.len() implies t[i].id != t[j].id by {
            assert(s[i].id != s[j].id);
        }
    }
}

/// Processing one more batch issue is one more normalized upsert.
proof fn lemma_upsert_issues_seq_push(s: Seq<IssueView>, ps: Seq<IssueView>, p: IssueView)
    ensures
        upsert_issues_seq(s, ps.push(p)) == upsert_issue_row(
            upsert_issues_seq(s, ps),
            normalize_issue(p),
        ),
    decreases ps.len(),
{
    if ps.len() == 0 {
        let s1 = upsert_issue_row(s, normalize_issue(p));
        assert(ps.push(p)[0] == p);
        assert(ps.push(p).drop_first() =~= ps);
        assert(upsert_issues_seq(s, ps.push(p)) == upsert_issues_seq(s1, ps));
        assert(upsert_issues_seq(s1, ps) == s1);
        assert(upsert_issues_seq(s, ps) == s);
    } else {
        assert(ps.push(p)[0] == ps[0]);
        assert(ps.push(p).drop_first() =~= ps.drop_first().push(p));
        let s1 = upsert_issue_row(s, normalize_issue(ps[0]));
        lemma_upsert_issues_seq_push(s1, ps.drop_first(), p);
        assert(upsert_issues_seq(s, ps.push(p)) == upsert_issues_seq(
            s1,
            ps.drop_first().push(p),
        ));
        assert(upsert_issues_seq(s, ps) == upsert_issues_seq(s1, ps.drop_first()));
    }
}

/// A whole batch's issue upsert keeps ids unique.
proof fn lemma_upsert_issues_seq_unique(s: Seq<IssueView>, ps: Seq<IssueView>)
    requires
        unique_issue_ids(s),
    ensures
        unique_issue_ids(upsert_issues_seq(s, ps)),
    decreases ps.len(),
{
    if ps.len() > 0 {
        lemma_upsert_issue_row_unique(s, normalize_issue(ps[0]));
        lemma_upsert_issues_seq_unique(
            upsert_issue_row(s, normalize_issue(ps[0])),
            ps.drop_first(),
        );
    }
}

/// Stamping one more project id extends the stamped set by it.
proof fn lemma_stamp_extend(
    projects: Seq<ProjectView>,
    issues: Seq<IssueView>,
    touched: Set<u64>,
    now: u64,
    x: u64,
)
    requires
        !touched.contains(x),
    ensures
        stamp_touched_projects(projects, issues, touched.insert(x), now) == stamp_one_project(
            stamp_touched_projects(projects, issues, touched, now),
            issues,
            x,
            now,
        ),
{
    let lhs = stamp_touched_projects(projects, issues, touched.insert(x), now);
    let mid = stamp_touched_projects(projects, issues, touched, now);
    let rhs = stamp_one_project(mid, issues, x, now);
    assert forall|k: int| 0 <= k < projects.len() implies lhs[k] == rhs[k] by {
        assert(mid[k].id == projects[k].id);
        assert(mid[k].last_issue_activity == (if touched.contains(projects[k].id) {
            match max_activity(issues, projects[k].id) {
                Some(t) => Some(t),
                None => projects[k].last_issue_activity,
            }
        } else {
            projects[k].last_issue_activity
        }));
    }
    assert(lhs =~= rhs);
}

/// Membership in a pushed sequence.
proof fn lemma_contains_push<A>(s: Seq<A>, x: A, y: A)
    ensures
        s.push(x).contains(y) == (s.contains(y) || y == x),
{
    if s.contains(y) {
        let i = choose|i: int| 0 <= i < s.len() && s[i] == y;
        assert(s.push(x)[i] == y);
    }
    if y == x {
        assert(s.push(x)[s.len() as int] == y);
    }
    if s.push(x).contains(y) {
        let i = choose|i: int| 0 <= i < s.push(x).len() && s.push(x)[i] == y;
        if i < s.len() {
            assert(s[i] == y);
        }
    }
}

/// Filtering one more row appends it exactly when it matches.
pub proof fn lemma_filter_take_step<A>(s: Seq<A>, pred: spec_fn(A) -> bool, i: int)
    requires
        0 <= i < s.len(),
    ensures
        s.take(i + 1).filter(pred) == if pred(s[i]) {
            s.take(i).filter(pred).push(s[i])
        } else {
            s.take(i).filter(pred)
        },
{
    reveal(Seq::filter);
    assert(s.take(i + 1).drop_last() =~= s.take(i));
    assert(s.take(i + 1).last() == s[i]);
}

/// The cache store. Constructed empty; filled by the sync controller
/// through the batch upserts below.
pub struct Database {
    projects: Vec<Project>,
    issues: Vec<Issue>,
    journals: Vec<JournalRow>,
    users: Vec<UserRow>,
    projects_last_synced: Option<u64>,
    issues_last_synced: Option<u64>,
}

impl View for Database {
    type V = DbView;

    closed spec fn view(&self) -> DbView {
        DbView {
            projects: projects_view(self.projects@),
            issues: issues_view(self.issues@),
            journals: journals_view(self.journals@),
            users: users_view(self.users@),
            projects_last_synced: self.projects_last_synced,
            issues_last_synced: self.issues_last_synced,
        }
    }
}

/// Find a project's store-maintained fields by id.
#[verifier::loop_isolation(false)]
fn proj_find_preserved(table: &Vec<Project>, id: u64) -> (r: Option<(Option<u64>, Option<u64>)>)
    requires
        unique_project_ids(projects_view(table@)),
    ensures
        match proj_lookup(projects_view(table@), id) {
            Some(q) => r == Some((q.last_issue_activity, q.last_issues_sync)),
            None => r is None,
        },
{
    let ghost s = projects_view(table@);
    let mut i: usize = 0;
    while i < table.len()
        invariant
            s == projects_view(table@),
            i <= table@.len(),
            s.len() == table@.len(),
            forall|k: int| 0 <= k < i ==> s[k].id != id,
        decreases table@.len() - i,
    {
        if table[i].id == id {
            proof {
                lemma_proj_index_is(s, i as int, id);
            }
            return Some((table[i].last_issue_activity, table[i].last_issues_sync));
        }
        i = i + 1;
    }
    proof {
        assert(!proj_has_id(s, id));
    }
    None
}

/// Insert-or-replace one project row, in place.
#[verifier::loop_isolation(false)]
fn upsert_project_exec(table: &mut Vec<Project>, p: Project)
    requires
        unique_project_ids(projects_view(old(table)@)),
    ensures
        projects_view(final(table)@) == upsert_project_row(projects_view(old(table)@), p@),
        unique_project_ids(projects_view(final(table)@)),
{
    let ghost s = projects_view(table@);
    proof {
        lemma_upsert_project_row_unique(s, p@);
    }
    let mut i: usize = 0;
    while i < table.len()
        invariant
            s == projects_view(table@),
            i <= table@.len(),
            s.len() == table@.len(),
            forall|k: int| 0 <= k < i ==> s[k].id != p@.id,
        decreases table@.len() - i,
    {
        if table[i].id == p.id {
            proof {
                lemma_proj_index_is(s, i as int, p@.id);
            }
            let _old_row = table.remove(i);
            table.insert(i, p);
            proof {
                assert(projects_view(table@) =~= s.update(i as int, p@));
            }
            return;
        }
        i = i + 1;
    }
    proof {
        assert(!proj_has_id(s, p@.id));
    }
    table.push(p);
    proof {
        assert(projects_view(table@) =~= s.push(p@));
    }
}

/// The maximum `updated_on` among one project's cached issues.
#[verifier::loop_isolation(false)]
pub(crate) fn compute_max_activity(issues: &Vec<Issue>, pid: u64) -> (r: Option<u64>)
    ensures
        r == max_activity(issues_view(issues@), pid),
{
    let ghost iv = issues_view(issues@);
    let mut acc: Option<u64> = None;
    let mut i: usize = 0;
    proof {
        assert(iv.take(0) =~= Seq::<IssueView>::empty());
    }
    while i < issues.len()
        invariant
            iv == issues_view(issues@),
            i <= issues@.len(),
            iv.len() == issues@.len(),
            acc == max_activity(iv.take(i as int), pid),
        decreases issues@.len() - i,
    {
        proof {
            assert(iv.take(i + 1).drop_last() =~= iv.take(i as int));
            assert(iv.take(i + 1).last() == iv[i as int]);
            assert(iv[i as int] == issues@[i as int]@);
        }
        if issues[i].project.id == pid {
            acc = match acc {
                None => Some(issues[i].updated_on),
                Some(m) => if issues[i].updated_on > m {
                    Some(issues[i].updated_on)
                } else {
                    Some(m)
                },
            };
        }
        i = i + 1;
    }
    proof {
        assert(iv.take(issues@.len() as int) =~= iv);
    }
    acc
}

/// Recompute `last_issue_activity` for every project from the issue table.
#[verifier::loop_isolation(false)]
fn recompute_all_activity(projects: &mut Vec<Project>, issues: &Vec<Issue>)
    ensures
        projects_view(final(projects)@) == recompute_activity(
            projects_view(old(projects)@),
            issues_view(issues@),
        ),
{
    let ghost s0 = projects_view(old(projects)@);
    let ghost iv = issues_view(issues@);
    let n: usize = projects.len();
    let mut i: usize = 0;
    while i < n
        invariant
            iv == issues_view(issues@),
            n == projects@.len(),
            s0.len() == n,
            i <= n,
            forall|k: int| i <= k < n ==> projects@[k] == old(projects)@[k],
            forall|k: int| 0 <= k < i ==> #[trigger] projects@[k]@ == project_with_activity(
                s0[k],
                max_activity(iv, s0[k].id),
                s0[k].last_issues_sync,
            ),
        decreases n - i,
    {
        let mut row = projects.remove(i);
        proof {
            assert(old(projects)@[i as int]@ == s0[i as int]);
        }
        row.last_issue_activity = compute_max_activity(issues, row.id);
        projects.insert(i, row);
        i = i + 1;
    }
    proof {
        assert(projects_view(projects@) =~= recompute_activity(s0, iv));
    }
}

/// The project recency key, executable.
fn project_key_exec(p: &Project) -> (r: u64)
    ensures
        r == project_sort_key(p@),
{
    match p.last_issue_activity {
        Some(t) => t,
        None => match p.updated_on {
            Some(t) => t,
            None => match p.created_on {
                Some(t) => t,
                None => 0,
            },
        },
    }
}

/// Whether `p` matches the text filter, executable.
fn project_matches_exec(p: &Project, fc: &Option<Vec<char>>) -> (r: bool)
    ensures
        r == project_matches_filter(p@, opt_chars_view(*fc)),
{
    match fc {
        None => true,
        Some(n) => {
            if n.len() == 0 {
                return true;
            }
            let name_c = str_chars(p.name.as_str());
            if chars_contain_ci(&name_c, n) {
                return true;
            }
            let ident_c = str_chars(p.identifier.as_str());
            if chars_contain_ci(&ident_c, n) {
                return true;
            }
            match &p.description {
                Some(d) => {
                    let d_c = str_chars(d.as_str());
                    chars_contain_ci(&d_c, n)
                },
                None => false,
            }
        },
    }
}

/// Insert one project into a recency-sorted list, after its equals.
#[verifier::loop_isolation(false)]
fn insert_project_sorted(out: &mut Vec<Project>, x: Project)
    ensures
        projects_view(final(out)@) == insert_sorted_by(
            projects_view(old(out)@),
            x@,
            project_before_fn(),
        ),
{
    let ghost s = projects_view(out@);
    let key_x: u64 = project_key_exec(&x);
    let mut idx: usize = 0;
    while idx < out.len()
        invariant
            idx <= s.len(),
            forall|k: int| 0 <= k < idx ==> project_before_fn()(s[k], x@),
        decreases s.len() - idx,
    {
        if project_key_exec(&out[idx]) < key_x {
            break;
        }
        proof {
            assert(s[idx as int] == out@[idx as int]@);
        }
        idx = idx + 1;
    }
    proof {
        assert(idx < s.len() ==> !project_before_fn()(s[idx as int], x@));
        lemma_insert_sorted_by_at(s, x@, project_before_fn(), idx as int);
    }
    out.insert(idx, x);
    proof {
        assert(projects_view(out@) =~= s.take(idx as int) + seq![x@] + s.skip(idx as int));
    }
}

/// With unique ids, the user row found at `i` is the row the lookup names.
proof fn lemma_user_index_is(s: Seq<UserRowView>, i: int, id: u64)
    requires
        unique_user_ids(s),
        0 <= i < s.len(),
        s[i].user.id == id,
    ensures
        user_has_id(s, id),
        user_index_of(s, id) == i,
{
    assert(user_has_id(s, id));
    let j = user_index_of(s, id);
    assert(0 <= j < s.len() && s[j].user.id == id);
    if j < i {
        assert(s[j].user.id != s[i].user.id);
    } else if i < j {
        assert(s[i].user.id != s[j].user.id);
    }
}

/// One user row's upsert keeps ids unique.
proof fn lemma_upsert_user_row_unique(s: Seq<UserRowView>, u: UserRowView)
    requires
        unique_user_ids(s),
    ensures
        unique_user_ids(upsert_user_row(s, u)),
{
    if user_has_id(s, u.user.id) {
        let idx = user_index_of(s, u.user.id);
        assert(0 <= idx < s.len() && s[idx].user.id == u.user.id);
        let t = s.update(idx, u);
        assert forall|i: int, j: int|
            0 <= i < j < t.len() implies t[i].user.id != t[j].user.id by {
            assert(s[i].user.id != s[j].user.id);
        }
    }
}

/// Processing one more batch user is one more stamped upsert.
proof fn lemma_upsert_users_seq_push(
    s: Seq<UserRowView>,
    us: Seq<UserView>,
    u: UserView,
    now: u64,
)
    ensures
        upsert_users_seq(s, us.push(u), now) == upsert_user_row(
            upsert_users_seq(s, us, now),
            UserRowView { user: u, cached_at: now },
        ),
    decreases us.len(),
{
    if us.len() == 0 {
        let s1 = upsert_user_row(s, UserRowView { user: u, cached_at: now });
        assert(us.push(u)[0] == u);
        assert(us.push(u).drop_first() =~= us);
        assert(upsert_users_seq(s, us.push(u), now) == upsert_users_seq(s1, us, now));
        assert(upsert_users_seq(s1, us, now) == s1);
        assert(upsert_users_seq(s, us, now) == s);
    } else {
        assert(us.push(u)[0] == us[0]);
        assert(us.push(u).drop_first() =~= us.drop_first().push(u));
        let s1 = upsert_user_row(s, UserRowView { user: us[0], cached_at: now });
        lemma_upsert_users_seq_push(s1, us.drop_first(), u, now);
        assert(upsert_users_seq(s, us.push(u), now) == upsert_users_seq(
            s1,
            us.drop_first().push(u),
            now,
        ));
        assert(upsert_users_seq(s, us, now) == upsert_users_seq(s1, us.drop_first(), now));
    }
}

/// A whole batch's user upsert keeps ids unique.
proof fn lemma_upsert_users_seq_unique(s: Seq<UserRowView>, us: Seq<UserView>, now: u64)
    requires
        unique_user_ids(s),
    ensures
        unique_user_ids(upsert_users_seq(s, us, now)),
    decreases us.len(),
{
    if us.len() > 0 {
        lemma_upsert_user_row_unique(s, UserRowView { user: us[0], cached_at: now });
        lemma_upsert_users_seq_unique(
            upsert_user_row(s, UserRowView { user: us[0], cached_at: now }),
            us.drop_first(),
            now,
        );
    }
}

/// Insert-or-replace one user row, in place.
#[verifier::loop_isolation(false)]
fn upsert_user_exec(table: &mut Vec<UserRow>, u: UserRow)
    requires
        unique_user_ids(users_view(old(table)@)),
    ensures
        users_view(final(table)@) == upsert_user_row(users_view(old(table)@), u@),
        unique_user_ids(users_view(final(table)@)),
{
    let ghost s = users_view(table@);
    proof {
        lemma_upsert_user_row_unique(s, u@);
    }
    let mut i: usize = 0;
    while i < table.len()
        invariant
            s == users_view(table@),
            i <= table@.len(),
            s.len() == table@.len(),
            forall|k: int| 0 <= k < i ==> s[k].user.id != u@.user.id,
        decreases table@.len() - i,
    {
        proof {
            assert(s[i as int] == table@[i as int]@);
        }
        if table[i].user.id == u.user.id {
            proof {
                lemma_user_index_is(s, i as int, u@.user.id);
            }
            let _old_row = table.remove(i);
            table.insert(i, u);
            proof {
                assert(users_view(table@) =~= s.update(i as int, u@));
            }
            return;
        }
        i = i + 1;
    }
    proof {
        assert(!user_has_id(s, u@.user.id));
    }
    table.push(u);
    proof {
        assert(users_view(table@) =~= s.push(u@));
    }
}

/// Compare two users by last name, then first name, executable.
fn user_leq_exec(a: &User, b: &User) -> (r: bool)
    ensures
        r == user_order_fn()(a@, b@),
{
    if a.lastname == b.lastname {
        let ac = str_chars(a.firstname.as_str());
        let bc = str_chars(b.firstname.as_str());
        chars_lex_leq(&ac, &bc)
    } else {
        let ac = str_chars(a.lastname.as_str());
        let bc = str_chars(b.lastname.as_str());
        chars_lex_leq(&ac, &bc)
    }
}

/// Insert one user into an ordered list, after their equals.
#[verifier::loop_isolation(false)]
fn insert_user_sorted(out: &mut Vec<User>, x: User)
    ensures
        users_list_view(final(out)@) == insert_sorted_by(
            users_list_view(old(out)@),
            x@,
            user_order_fn(),
        ),
{
    let ghost s = users_list_view(out@);
    let mut idx: usize = 0;
    while idx < out.len()
        invariant
            idx <= s.len(),
            forall|j: int| 0 <= j < idx ==> user_order_fn()(s[j], x@),
        decreases s.len() - idx,
    {
        proof {
            assert(s[idx as int] == out@[idx as int]@);
        }
        if !user_leq_exec(&out[idx], &x) {
            break;
        }
        idx = idx + 1;
    }
    proof {
        lemma_insert_sorted_by_at(s, x@, user_order_fn(), idx as int);
    }
    out.insert(idx, x);
    proof {
        assert(users_list_view(out@) =~= s.take(idx as int) + seq![x@] + s.skip(idx as int));
    }
}

/// Compare two journals by creation time, executable.
fn journal_leq_exec(a: &Journal, b: &Journal) -> (r: bool)
    ensures
        r == journal_created_leq_fn()(a@, b@),
{
    a.created_on <= b.created_on
}

/// Insert one journal into a creation-ordered list, after its equals.
#[verifier::loop_isolation(false)]
fn insert_journal_sorted(out: &mut Vec<Journal>, x: Journal)
    ensures
        js_view(final(out)@) == insert_sorted_by(
            js_view(old(out)@),
            x@,
            journal_created_leq_fn(),
        ),
{
    let ghost s = js_view(out@);
    let mut idx: usize = 0;
    while idx < out.len()
        invariant
            idx <= s.len(),
            forall|j: int| 0 <= j < idx ==> journal_created_leq_fn()(s[j], x@),
        decreases s.len() - idx,
    {
        proof {
            assert(s[idx as int] == out@[idx as int]@);
        }
        if !journal_leq_exec(&out[idx], &x) {
            break;
        }
        idx = idx + 1;
    }
    proof {
        lemma_insert_sorted_by_at(s, x@, journal_created_leq_fn(), idx as int);
    }
    out.insert(idx, x);
    proof {
        assert(js_view(out@) =~= s.take(idx as int) + seq![x@] + s.skip(idx as int));
    }
}

/// Copy of an issue as the issue table stores it: journals and the
/// project display name dropped.
fn copy_issue_normalized(p: &Issue) -> (r: Issue)
    ensures
        r@ == normalize_issue(p@),
{
    Issue {
        id: p.id,
        project: IdName { id: p.project.id, name: String::new() },
        tracker: copy_id_name(&p.tracker),
        status: copy_id_name(&p.status),
        priority: copy_id_name(&p.priority),
        author: copy_id_name(&p.author),
        assigned_to: copy_opt_id_name(&p.assigned_to),
        subject: p.subject.clone(),
        description: copy_opt_string(&p.description),
        created_on: p.created_on,
        updated_on: p.updated_on,
        due_date: copy_opt_string(&p.due_date),
        done_ratio: p.done_ratio,
        journals: Vec::new(),
    }
}

/// Insert-or-replace one issue row, in place.
#[verifier::loop_isolation(false)]
fn upsert_issue_exec(table: &mut Vec<Issue>, p: Issue)
    requires
        unique_issue_ids(issues_view(old(table)@)),
    ensures
        issues_view(final(table)@) == upsert_issue_row(issues_view(old(table)@), p@),
        unique_issue_ids(issues_view(final(table)@)),
{
    let ghost s = issues_view(table@);
    proof {
        lemma_upsert_issue_row_unique(s, p@);
    }
    let mut i: usize = 0;
    while i < table.len()
        invariant
            s == issues_view(table@),
            i <= table@.len(),
            s.len() == table@.len(),
            forall|k: int| 0 <= k < i ==> s[k].id != p@.id,
        decreases table@.len() - i,
    {
        if table[i].id == p.id {
            proof {
                assert(s[i as int] == table@[i as int]@);
                lemma_issue_index_is(s, i as int, p@.id);
            }
            let _old_row = table.remove(i);
            table.insert(i, p);
            proof {
                assert(issues_view(table@) =~= s.update(i as int, p@));
            }
            return;
        }
        proof {
            assert(s[i as int] == table@[i as int]@);
        }
        i = i + 1;
    }
    proof {
        assert(!issue_has_id(s, p@.id));
    }
    table.push(p);
    proof {
        assert(issues_view(table@) =~= s.push(p@));
    }
}

/// Linear membership test.
#[verifier::loop_isolation(false)]
fn vec_contains_u64(v: &Vec<u64>, x: u64) -> (r: bool)
    ensures
        r == v@.contains(x),
{
    let mut i: usize = 0;
    while i < v.len()
        invariant
            i <= v@.len(),
            forall|k: int| 0 <= k < i ==> v@[k] != x,
        decreases v@.len() - i,
    {
        if v[i] == x {
            return true;
        }
        i = i + 1;
    }
    false
}

/// The distinct project ids of a batch, in first-seen order.
#[verifier::loop_isolation(false)]
pub(crate) fn collect_project_ids(issues: &Vec<Issue>) -> (pids: Vec<u64>)
    ensures
        forall|x: u64| pids@.contains(x) == batch_project_ids(issues_view(issues@)).contains(x),
        forall|i: int, j: int| 0 <= i < j < pids@.len() ==> pids@[i] != pids@[j],
{
    let ghost iv = issues_view(issues@);
    let mut pids: Vec<u64> = Vec::new();
    let mut i: usize = 0;
    while i < issues.len()
        invariant
            i <= iv.len(),
            iv.len() == issues@.len(),
            forall|a: int, b: int| 0 <= a < b < pids@.len() ==> pids@[a] != pids@[b],
            forall|x: u64| pids@.contains(x) == exists|k: int|
                0 <= k < i && #[trigger] iv[k].project.id == x,
        decreases iv.len() - i,
    {
        let pid: u64 = issues[i].project.id;
        proof {
            assert(iv[i as int] == issues@[i as int]@);
            assert(iv[i as int].project.id == pid);
        }
        let ghost old_pids = pids@;
        if !vec_contains_u64(&pids, pid) {
            pids.push(pid);
        }
        proof {
            if old_pids.contains(pid) {
                assert(pids@ == old_pids);
            } else {
                lemma_contains_push(old_pids, pid, pid);
            }
            assert forall|x: u64| pids@.contains(x) == exists|k: int|
                0 <= k < i + 1 && #[trigger] iv[k].project.id == x by {
                if old_pids.contains(pid) {
                } else {
                    lemma_contains_push(old_pids, pid, x);
                }
                if pids@.contains(x) {
                    if x == pid {
                        assert(iv[i as int].project.id == x);
                    }
                }
                if exists|k: int| 0 <= k < i + 1 && #[trigger] iv[k].project.id == x {
                    let k = choose|k: int| 0 <= k < i + 1 && #[trigger] iv[k].project.id == x;
                    if k < i {
                        assert(old_pids.contains(x));
                    } else {
                        assert(x == pid);
                    }
                }
            }
        }
        i = i + 1;
    }
    proof {
        assert forall|x: u64| pids@.contains(x) == batch_project_ids(iv).contains(x) by {
            assert(batch_project_ids(iv).contains(x) == exists|k: int|
                0 <= k < iv.len() && #[trigger] iv[k].project.id == x);
        }
    }
    pids
}

/// Stamp one project id: recompute its activity from the issue table
/// and set its sync time.
#[verifier::loop_isolation(false)]
fn stamp_one_exec(projects: &mut Vec<Project>, issues: &Vec<Issue>, pid: u64, now: u64)
    ensures
        projects_view(final(projects)@) == stamp_one_project(
            projects_view(old(projects)@),
            issues_view(issues@),
            pid,
            now,
        ),
{
    let ghost s0 = projects_view(old(projects)@);
    let ghost iv = issues_view(issues@);
    let act: Option<u64> = compute_max_activity(issues, pid);
    let n: usize = projects.len();
    let mut i: usize = 0;
    while i < n
        invariant
            n == projects@.len(),
            s0.len() == n,
            i <= n,
            forall|k: int| i <= k < n ==> projects@[k] == old(projects)@[k],
            forall|k: int| 0 <= k < i ==> #[trigger] projects@[k]@ == (if s0[k].id == pid {
                project_with_activity(
                    s0[k],
                    match max_activity(iv, s0[k].id) {
                        Some(t) => Some(t),
                        None => s0[k].last_issue_activity,
                    },
                    Some(now),
                )
            } else {
                s0[k]
            }),
        decreases n - i,
    {
        proof {
            assert(old(projects)@[i as int]@ == s0[i as int]);
        }
        if projects[i].id == pid {
            let mut row = projects.remove(i);
            match act {
                Some(t) => {
                    row.last_issue_activity = Some(t);
                },
                None => {},
            }
            row.last_issues_sync = Some(now);
            projects.insert(i, row);
        }
        i = i + 1;
    }
    proof {
        assert(projects_view(projects@) =~= stamp_one_project(s0, iv, pid, now));
    }
}

/// A journal as the journal table stores it: the private-notes flag is
/// not stored and reads back as false.
pub open spec fn normalize_journal(j: JournalView) -> JournalView {
    JournalView { private_notes: false, ..j }
}

/// The journal table rows one issue's history becomes.
pub open spec fn journal_rows_of(issue_id: u64, js: Seq<JournalView>) -> Seq<JournalRowView> {
    js.map_values(|j: JournalView| JournalRowView { issue_id, journal: normalize_journal(j) })
}

/// The incoming issue's journals are admissible: their ids are distinct
/// and held by no other issue's cached journal. Journal ids are globally
/// unique in the tracker's data model, so remote data satisfies this.
pub open spec fn journals_admissible(journals: Seq<JournalRowView>, p: IssueView) -> bool {
    (forall|a: int, b: int|
        0 <= a < b < p.journals.len() ==> p.journals[a].id != p.journals[b].id) && (forall|
        k: int,
        a: int,
    |
        0 <= k < journals.len() && 0 <= a < p.journals.len() && journals[k].issue_id != p.id
            ==> journals[k].journal.id != p.journals[a].id)
}

/// Keep-predicate for journals of other issues.
pub open spec fn journal_not_of_issue_fn(id: u64) -> spec_fn(JournalRowView) -> bool {
    |jr: JournalRowView| jr.issue_id != id
}

/// Select-predicate for one issue's journal rows.
pub open spec fn journal_of_issue_fn(id: u64) -> spec_fn(JournalRowView) -> bool {
    |jr: JournalRowView| jr.issue_id == id
}

/// A journal row's journal entry.
pub open spec fn journal_row_journal_fn() -> spec_fn(JournalRowView) -> JournalView {
    |jr: JournalRowView| jr.journal
}

/// Keep-predicate for issues of other projects.
pub open spec fn clear_keep_issue_fn(pid: u64) -> spec_fn(IssueView) -> bool {
    |i: IssueView| i.project.id != pid
}

/// Keep-predicate for journals whose issue is not one of the cleared
/// project's issues.
pub open spec fn clear_keep_journal_fn(issues: Seq<IssueView>, pid: u64) -> spec_fn(
    JournalRowView,
) -> bool {
    |jr: JournalRowView| !issue_of_project(issues, jr.issue_id, pid)
}

/// A journal list as the store hands it back: each entry normalized.
pub open spec fn normalized_journals(js: Seq<JournalView>) -> Seq<JournalView> {
    js.map_values(|j: JournalView| normalize_journal(j))
}

/// State after clearing one project's issues: its issues gone, and the
/// journal rows of exactly those issues gone with them.
pub open spec fn spec_clear_project_issues(m: DbView, pid: u64) -> DbView {
    DbView {
        issues: m.issues.filter(clear_keep_issue_fn(pid)),
        journals: m.journals.filter(clear_keep_journal_fn(m.issues, pid)),
        ..m
    }
}

/// One project's activity stamped to a known time.
pub open spec fn set_project_activity_sync(
    s: Seq<ProjectView>,
    pid: u64,
    act: u64,
    now: u64,
) -> Seq<ProjectView> {
    s.map_values(
        |q: ProjectView| if q.id == pid {
            project_with_activity(q, Some(act), Some(now))
        } else {
            q
        },
    )
}

/// State after the single-issue refresh: the issue row upserted, its
/// journal set replaced wholesale, and its project stamped with the
/// issue's own update time as activity and `now` as sync time.
pub open spec fn spec_insert_issue_with_journals(m: DbView, p: IssueView, now: u64) -> DbView {
    DbView {
        issues: upsert_issue_row(m.issues, normalize_issue(p)),
        journals: m.journals.filter(journal_not_of_issue_fn(p.id)) + journal_rows_of(
            p.id,
            p.journals,
        ),
        projects: set_project_activity_sync(m.projects, p.project.id, p.updated_on, now),
        ..m
    }
}

/// What `get_issue_with_journals` attaches: this issue's journals, in
/// creation-time ascending order.
pub open spec fn journals_of_issue(journals: Seq<JournalRowView>, iid: u64) -> Seq<JournalView> {
    journals.filter(journal_of_issue_fn(iid)).map_values(journal_row_journal_fn())
}

/// Ordering journals by creation time.
pub open spec fn journal_created_leq_fn() -> spec_fn(JournalView, JournalView) -> bool {
    |a: JournalView, b: JournalView| a.created_on <= b.created_on
}

/// What the point lookup returns: the stored row with its journal
/// history attached in creation-time ascending order, or nothing.
pub open spec fn spec_get_issue_with_journals(m: DbView, iid: u64) -> Option<IssueView> {
    match issue_lookup(m.issues, iid) {
        Some(row) => Some(
            IssueView {
                journals: sort_by_asc(journals_of_issue(m.journals, iid), journal_created_leq_fn()),
                ..row
            },
        ),
        None => None,
    }
}

/// View of a journal sequence.
pub open spec fn js_view(s: Seq<Journal>) -> Seq<JournalView> {
    s.map_values(|j: Journal| j@)
}

/// A whole batch of users upserted, first to last, each stamped.
pub open spec fn upsert_users_seq(s: Seq<UserRowView>, us: Seq<UserView>, now: u64) -> Seq<
    UserRowView,
>
    decreases us.len(),
{
    if us.len() == 0 {
        s
    } else {
        upsert_users_seq(
            upsert_user_row(s, UserRowView { user: us[0], cached_at: now }),
            us.drop_first(),
            now,
        )
    }
}

/// State after a user batch upsert: each row replaced by id, with the
/// write time recorded.
pub open spec fn spec_insert_users(m: DbView, us: Seq<UserView>, now: u64) -> DbView {
    DbView { users: upsert_users_seq(m.users, us, now), ..m }
}

/// Ordering users by last name, then first name.
pub open spec fn user_order_fn() -> spec_fn(UserView, UserView) -> bool {
    |a: UserView, b: UserView| if a.lastname == b.lastname {
        lex_leq(a.firstname, b.firstname)
    } else {
        lex_leq(a.lastname, b.lastname)
    }
}

/// What `get_users` returns: every cached user, by last then first name.
pub open spec fn spec_get_users(m: DbView) -> Seq<UserView> {
    sort_by_asc(m.users.map_values(|r: UserRowView| r.user), user_order_fn())
}

/// View of a user sequence.
pub open spec fn users_list_view(s: Seq<User>) -> Seq<UserView> {
    s.map_values(|u: User| u@)
}

/// Elements of a filtered sequence come from the original.
proof fn lemma_filter_elems_in<A>(s: Seq<A>, pred: spec_fn(A) -> bool)
    ensures
        forall|k: int| 0 <= k < s.filter(pred).len() ==> s.contains(#[trigger] s.filter(pred)[k]),
    decreases s.len(),
{
    reveal(Seq::filter);
    if s.len() > 0 {
        lemma_filter_elems_in(s.drop_last(), pred);
        let f0 = s.drop_last().filter(pred);
        assert forall|k: int|
            0 <= k < s.filter(pred).len() implies s.contains(#[trigger] s.filter(pred)[k]) by {
            if k < f0.len() {
                assert(s.drop_last().contains(f0[k]));
                let j = choose|j: int| 0 <= j < s.drop_last().len() && s.drop_last()[j] == f0[k];
                assert(s[j] == f0[k]);
            } else {
                assert(s.filter(pred)[k] == s.last());
                assert(s[s.len() - 1] == s.last());
            }
        }
    }
}

/// Filtering keeps distinct keys distinct.
proof fn lemma_filter_unique_by<A>(s: Seq<A>, pred: spec_fn(A) -> bool, key: spec_fn(A) -> u64)
    requires
        forall|i: int, j: int| 0 <= i < j < s.len() ==> key(s[i]) != key(s[j]),
    ensures
        forall|i: int, j: int|
            0 <= i < j < s.filter(pred).len() ==> key(#[trigger] s.filter(pred)[i]) != key(
                #[trigger] s.filter(pred)[j],
            ),
    decreases s.len(),
{
    reveal(Seq::filter);
    if s.len() > 0 {
        let d = s.drop_last();
        assert forall|i: int, j: int| 0 <= i < j < d.len() implies key(d[i]) != key(d[j]) by {
            assert(d[i] == s[i] && d[j] == s[j]);
        }
        lemma_filter_unique_by(d, pred, key);
        lemma_filter_elems_in(d, pred);
        let f0 = d.filter(pred);
        if pred(s.last()) {
            assert forall|i: int, j: int|
                0 <= i < j < s.filter(pred).len() implies key(#[trigger] s.filter(pred)[i])
                != key(#[trigger] s.filter(pred)[j]) by {
                if j < f0.len() {
                    assert(s.filter(pred)[i] == f0[i] && s.filter(pred)[j] == f0[j]);
                } else {
                    assert(s.filter(pred)[j] == s.last());
                    assert(s.filter(pred)[i] == f0[i]);
                    assert(d.contains(f0[i]));
                    let w = choose|w: int| 0 <= w < d.len() && d[w] == f0[i];
                    assert(d[w] == s[w]);
                    assert(key(s[w]) != key(s[s.len() - 1]));
                    assert(s.last() == s[s.len() - 1]);
                }
            }
        }
    }
}

/// Which ascending key an issue sort uses.
enum IssueKey {
    Updated,
    Status,
    Priority,
}

impl IssueKey {
    /// The comparator this key stands for.
    spec fn leq_fn(self) -> spec_fn(IssueView, IssueView) -> bool {
        match self {
            IssueKey::Updated => issue_updated_leq_fn(),
            IssueKey::Status => issue_status_leq_fn(),
            IssueKey::Priority => issue_priority_leq_fn(),
        }
    }
}

/// Compare two issues under a key, executable.
fn issue_leq_exec(k: &IssueKey, a: &Issue, b: &Issue) -> (r: bool)
    ensures
        r == k.leq_fn()(a@, b@),
{
    match k {
        IssueKey::Updated => a.updated_on <= b.updated_on,
        IssueKey::Status => {
            let ac = str_chars(a.status.name.as_str());
            let bc = str_chars(b.status.name.as_str());
            chars_lex_leq(&ac, &bc)
        },
        IssueKey::Priority => a.priority.id <= b.priority.id,
    }
}

/// Insert one issue into a key-sorted list, after its equals.
#[verifier::loop_isolation(false)]
fn insert_issue_sorted(out: &mut Vec<Issue>, x: Issue, k: &IssueKey)
    ensures
        issues_view(final(out)@) == insert_sorted_by(issues_view(old(out)@), x@, k.leq_fn()),
{
    let ghost s = issues_view(out@);
    let mut idx: usize = 0;
    while idx < out.len()
        invariant
            idx <= s.len(),
            forall|j: int| 0 <= j < idx ==> k.leq_fn()(s[j], x@),
        decreases s.len() - idx,
    {
        if !issue_leq_exec(k, &out[idx], &x) {
            break;
        }
        proof {
            assert(s[idx as int] == out@[idx as int]@);
        }
        idx = idx + 1;
    }
    proof {
        assert(idx < s.len() ==> s[idx as int] == out@[idx as int]@);
        lemma_insert_sorted_by_at(s, x@, k.leq_fn(), idx as int);
    }
    out.insert(idx, x);
    proof {
        assert(issues_view(out@) =~= s.take(idx as int) + seq![x@] + s.skip(idx as int));
    }
}

/// Stable sort of issues under a key, ascending.
#[verifier::loop_isolation(false)]
fn sort_issues_by(input: &Vec<Issue>, k: &IssueKey) -> (out: Vec<Issue>)
    ensures
        issues_view(out@) == sort_by_asc(issues_view(input@), k.leq_fn()),
{
    let ghost iv = issues_view(input@);
    let mut out: Vec<Issue> = Vec::new();
    let mut j: usize = 0;
    proof {
        assert(iv.take(0) =~= Seq::<IssueView>::empty());
    }
    while j < input.len()
        invariant
            j <= iv.len(),
            iv.len() == input@.len(),
            issues_view(out@) == sort_by_asc(iv.take(j as int), k.leq_fn()),
        decreases iv.len() - j,
    {
        proof {
            assert(input@[j as int]@ == iv[j as int]);
        }
        insert_issue_sorted(&mut out, copy_issue(&input[j]), k);
        proof {
            lemma_sort_by_asc_push(iv.take(j as int), iv[j as int], k.leq_fn());
            assert(iv.take(j + 1) =~= iv.take(j as int).push(iv[j as int]));
        }
        j = j + 1;
    }
    proof {
        assert(iv.take(iv.len() as int) =~= iv);
    }
    out
}

/// Reverse a list of issues.
#[verifier::loop_isolation(false)]
fn reverse_issues(input: Vec<Issue>) -> (out: Vec<Issue>)
    ensures
        issues_view(out@) == issues_view(input@).reverse(),
{
    let mut v = input;
    let ghost orig = issues_view(v@);
    let mut out: Vec<Issue> = Vec::new();
    while v.len() > 0
        invariant
            v@.len() <= orig.len(),
            issues_view(v@) == orig.take(v@.len() as int),
            out@.len() == orig.len() - v@.len(),
            forall|j: int| 0 <= j < out@.len() ==> out@[j]@ == orig[orig.len() - 1 - j],
        decreases v@.len(),
    {
        let ghost before = v@;
        match v.pop() {
            Some(x) => {
                proof {
                    assert(issues_view(before)[before.len() - 1] == x@);
                    assert(orig.take(before.len() as int)[before.len() - 1] == orig[before.len()
                        - 1]);
                    assert(v@ =~= before.drop_last());
                    assert(issues_view(v@) =~= orig.take(v@.len() as int));
                }
                out.push(x);
            },
            None => {
                proof {
                    assert(false);
                }
            },
        }
    }
    proof {
        assert(issues_view(out@) =~= orig.reverse());
    }
    out
}

/// Whether `p` matches the issue filters, executable.
fn issue_matches_exec(
    p: &Issue,
    pid: Option<u64>,
    fc: &Option<Vec<char>>,
    assignee: Option<u64>,
) -> (r: bool)
    ensures
        r == issue_matches_filter(p@, pid, opt_chars_view(*fc), assignee),
{
    match pid {
        Some(x) => {
            if p.project.id != x {
                return false;
            }
        },
        None => {},
    }
    match assignee {
        Some(a) => {
            match &p.assigned_to {
                Some(an) => {
                    if an.id != a {
                        return false;
                    }
                },
                None => {
                    return false;
                },
            }
        },
        None => {},
    }
    match fc {
        None => true,
        Some(n) => {
            if n.len() == 0 {
                return true;
            }
            let subj_c = str_chars(p.subject.as_str());
            if chars_contain_ci(&subj_c, n) {
                return true;
            }
            match &p.description {
                Some(d) => {
                    let d_c = str_chars(d.as_str());
                    if chars_contain_ci(&d_c, n) {
                        return true;
                    }
                },
                None => {},
            }
            let id_c = u64_dec_chars(p.id);
            chars_contain_ci(&id_c, n)
        },
    }
}

impl Database {
    /// A fresh, empty store.
    pub fn new() -> (r: Database)
        ensures
            r@ == DbView::empty(),
            r@.wf(),
    {
        let r = Database {
            projects: Vec::new(),
            issues: Vec::new(),
            journals: Vec::new(),
            users: Vec::new(),
            projects_last_synced: None,
            issues_last_synced: None,
        };
        proof {
            assert(r@ =~= DbView::empty());
        }
        r
    }

    /// Well-formedness of the store's abstract state.
    pub open spec fn wf(&self) -> bool {
        self@.wf()
    }

    /// Insert-or-replace each project by id, preserving each row's
    /// `last_issue_activity` / `last_issues_sync`, then recompute
    /// `last_issue_activity` for every project from the cached issues and
    /// stamp the global projects sync time with `now`. All-or-nothing;
    /// this store never fails.
    #[verifier::loop_isolation(false)]
    pub fn insert_projects_at(&mut self, projects: &Vec<Project>, now: u64) -> (r: Result<(), CacheError>)
        requires
            old(self).wf(),
        ensures
            r is Ok,
            final(self).wf(),
            final(self)@ == spec_insert_projects(old(self)@, projects_view(projects@), now),
    {
        let ghost ps = projects_view(projects@);
        let ghost s0 = projects_view(old(self).projects@);
        let mut i: usize = 0;
        proof {
            assert(ps.take(0) =~= Seq::<ProjectView>::empty());
        }
        while i < projects.len()
            invariant
                ps == projects_view(projects@),
                ps.len() == projects@.len(),
                i <= projects@.len(),
                unique_project_ids(projects_view(self.projects@)),
                projects_view(self.projects@) == upsert_projects_seq(s0, ps.take(i as int)),
                self.issues == old(self).issues,
                self.journals == old(self).journals,
                self.users == old(self).users,
                self.projects_last_synced == old(self).projects_last_synced,
                self.issues_last_synced == old(self).issues_last_synced,
            decreases projects@.len() - i,
        {
            let ghost s_cur = projects_view(self.projects@);
            let mut p = copy_project(&projects[i]);
            let prev = proj_find_preserved(&self.projects, p.id);
            match prev {
                Some((act, syn)) => {
                    p.last_issue_activity = act;
                    p.last_issues_sync = syn;
                },
                None => {
                    p.last_issue_activity = None;
                    p.last_issues_sync = None;
                },
            }
            proof {
                assert(p@ == merge_project(proj_lookup(s_cur, ps[i as int].id), ps[i as int]));
            }
            upsert_project_exec(&mut self.projects, p);
            proof {
                lemma_upsert_projects_seq_push(s0, ps.take(i as int), ps[i as int]);
                assert(ps.take(i + 1) =~= ps.take(i as int).push(ps[i as int]));
            }
            i = i + 1;
        }
        proof {
            assert(ps.take(projects@.len() as int) =~= ps);
        }
        recompute_all_activity(&mut self.projects, &self.issues);
        self.projects_last_synced = Some(now);
        proof {
            lemma_upsert_projects_seq_unique(s0, ps);
            lemma_recompute_activity_unique(upsert_projects_seq(s0, ps), issues_view(
                self.issues@,
            ));
            assert(final(self)@ =~= spec_insert_projects(old(self)@, ps, now));
        }
        Ok(())
    }

    /// As [`Self::insert_projects_at`], stamped with the current time.
    pub fn insert_projects(&mut self, projects: &Vec<Project>) -> (r: Result<(), CacheError>)
        requires
            old(self).wf(),
        ensures
            r is Ok,
            final(self).wf(),
            exists|now: u64| final(self)@ == spec_insert_projects(
                old(self)@,
                projects_view(projects@),
                now,
            ),
    {
        let now: u64 = crate::clock::now_millis();
        let r = self.insert_projects_at(projects, now);
        proof {
            assert(final(self)@ == spec_insert_projects(
                old(self)@,
                projects_view(projects@),
                now,
            ));
        }
        r
    }

    /// All projects matching the text filter, most recently active
    /// first, with graceful fallback through the staleness tiers.
    /// Matching is a case-insensitive substring test against name,
    /// identifier and description.
    #[verifier::loop_isolation(false)]
    pub fn get_projects(&self, filter: Option<&str>) -> (r: Result<Vec<Project>, CacheError>)
        requires
            self.wf(),
        ensures
            (r matches Ok(v) && projects_view(v@) == spec_get_projects(
                self@,
                opt_text_view(filter),
            )),
    {
        let fc: Option<Vec<char>> = match filter {
            Some(f) => Some(str_chars(f)),
            None => None,
        };
        let ghost fv = opt_text_view(filter);
        proof {
            assert(opt_chars_view(fc) == fv);
        }
        let ghost table = projects_view(self.projects@);
        let ghost pred = project_filter_fn(fv);
        let mut matched: Vec<Project> = Vec::new();
        let mut i: usize = 0;
        proof {
            assert(table.take(0) =~= Seq::<ProjectView>::empty());
            reveal(Seq::filter);
        }
        while i < self.projects.len()
            invariant
                i <= table.len(),
                projects_view(matched@) == table.take(i as int).filter(pred),
            decreases table.len() - i,
        {
            proof {
                lemma_filter_take_step(table, pred, i as int);
                assert(self.projects@[i as int]@ == table[i as int]);
            }
            if project_matches_exec(&self.projects[i], &fc) {
                let row = copy_project(&self.projects[i]);
                matched.push(row);
                proof {
                    assert(projects_view(matched@) =~= table.take(i as int).filter(pred).push(
                        table[i as int],
                    ));
                }
            }
            i = i + 1;
        }
        proof {
            assert(table.take(table.len() as int) =~= table);
        }
        let mut out: Vec<Project> = Vec::new();
        let ghost mseq = projects_view(matched@);
        let mut j: usize = 0;
        proof {
            assert(mseq.take(0) =~= Seq::<ProjectView>::empty());
        }
        while j < matched.len()
            invariant
                j <= mseq.len(),
                mseq == projects_view(matched@),
                projects_view(out@) == sort_by_asc(mseq.take(j as int), project_before_fn()),
            decreases mseq.len() - j,
        {
            proof {
                assert(matched@[j as int]@ == mseq[j as int]);
            }
            insert_project_sorted(&mut out, copy_project(&matched[j]));
            proof {
                lemma_sort_by_asc_push(mseq.take(j as int), mseq[j as int], project_before_fn());
                assert(mseq.take(j + 1) =~= mseq.take(j as int).push(mseq[j as int]));
            }
            j = j + 1;
        }
        proof {
            assert(mseq.take(mseq.len() as int) =~= mseq);
        }
        Ok(out)
    }

    /// Insert-or-replace each issue by id (normalized: journals and the
    /// project display name are not stored), then, for each project id
    /// the batch touches, recompute `last_issue_activity` from the full
    /// cached issue set and stamp `last_issues_sync` with `now`.
    /// All-or-nothing; this store never fails.
    #[verifier::loop_isolation(false)]
    pub fn insert_issues_at(&mut self, issues: &Vec<Issue>, now: u64) -> (r: Result<(), CacheError>)
        requires
            old(self).wf(),
        ensures
            r is Ok,
            final(self).wf(),
            final(self)@ == spec_insert_issues(old(self)@, issues_view(issues@), now),
    {
        let ghost ps = issues_view(issues@);
        let ghost s0 = issues_view(old(self).issues@);
        let ghost p0 = projects_view(old(self).projects@);
        let mut i: usize = 0;
        proof {
            assert(ps.take(0) =~= Seq::<IssueView>::empty());
        }
        while i < issues.len()
            invariant
                ps.len() == issues@.len(),
                i <= issues@.len(),
                unique_issue_ids(issues_view(self.issues@)),
                issues_view(self.issues@) == upsert_issues_seq(s0, ps.take(i as int)),
                self.projects == old(self).projects,
                self.journals == old(self).journals,
                self.users == old(self).users,
                self.projects_last_synced == old(self).projects_last_synced,
                self.issues_last_synced == old(self).issues_last_synced,
            decreases issues@.len() - i,
        {
            let row = copy_issue_normalized(&issues[i]);
            proof {
                assert(issues@[i as int]@ == ps[i as int]);
            }
            upsert_issue_exec(&mut self.issues, row);
            proof {
                lemma_upsert_issues_seq_push(s0, ps.take(i as int), ps[i as int]);
                assert(ps.take(i + 1) =~= ps.take(i as int).push(ps[i as int]));
            }
            i = i + 1;
        }
        proof {
            assert(ps.take(issues@.len() as int) =~= ps);
        }
        let ghost issues2 = issues_view(self.issues@);
        let pids: Vec<u64> = collect_project_ids(issues);
        let mut k: usize = 0;
        proof {
            assert(pids@.take(0).to_set() =~= Set::<u64>::empty());
            assert(stamp_touched_projects(p0, issues2, Set::<u64>::empty(), now) =~= p0);
        }
        while k < pids.len()
            invariant
                k <= pids@.len(),
                unique_issue_ids(issues_view(self.issues@)),
                issues_view(self.issues@) == issues2,
                projects_view(self.projects@) == stamp_touched_projects(
                    p0,
                    issues2,
                    pids@.take(k as int).to_set(),
                    now,
                ),
                self.journals == old(self).journals,
                self.users == old(self).users,
                self.projects_last_synced == old(self).projects_last_synced,
                self.issues_last_synced == old(self).issues_last_synced,
            decreases pids@.len() - k,
        {
            let pid: u64 = pids[k];
            proof {
                assert(!pids@.take(k as int).to_set().contains(pid)) by {
                    if pids@.take(k as int).to_set().contains(pid) {
                        broadcast use vstd::seq_lib::group_seq_properties;

                        assert(pids@.take(k as int).contains(pid));
                        let j = choose|j: int|
                            0 <= j < k && #[trigger] pids@.take(k as int)[j] == pid;
                        assert(pids@[j] == pids@[k as int]);
                    }
                }
                lemma_stamp_extend(p0, issues2, pids@.take(k as int).to_set(), now, pid);
            }
            stamp_one_exec(&mut self.projects, &self.issues, pid, now);
            proof {
                broadcast use vstd::seq_lib::group_seq_properties;

                assert(pids@.take(k + 1) =~= pids@.take(k as int).push(pid));
                assert(pids@.take(k + 1).to_set() =~= pids@.take(k as int).to_set().insert(
                    pid,
                ));
            }
            k = k + 1;
        }
        proof {
            broadcast use vstd::seq_lib::group_seq_properties;

            assert(pids@.take(pids@.len() as int) =~= pids@);
            assert(pids@.to_set() =~= batch_project_ids(ps));
            assert forall|a: int, b: int|
                0 <= a < b < projects_view(self.projects@).len() implies projects_view(
                self.projects@,
            )[a].id != projects_view(self.projects@)[b].id by {
                assert(projects_view(self.projects@)[a].id == p0[a].id);
                assert(projects_view(self.projects@)[b].id == p0[b].id);
                assert(p0[a].id != p0[b].id);
            }
            assert(final(self)@ =~= spec_insert_issues(old(self)@, ps, now));
        }
        Ok(())
    }

    /// As [`Self::insert_issues_at`], stamped with the current time.
    pub fn insert_issues(&mut self, issues: &Vec<Issue>) -> (r: Result<(), CacheError>)
        requires
            old(self).wf(),
        ensures
            r is Ok,
            final(self).wf(),
            exists|now: u64| final(self)@ == spec_insert_issues(
                old(self)@,
                issues_view(issues@),
                now,
            ),
    {
        let now: u64 = crate::clock::now_millis();
        let r = self.insert_issues_at(issues, now);
        proof {
            assert(final(self)@ == spec_insert_issues(old(self)@, issues_view(issues@), now));
        }
        r
    }

    /// The issues matching the given project, assignee and text
    /// filters, under the asked-for order. Rows come back as the table
    /// stores them: no journals and no project display name.
    #[verifier::loop_isolation(false)]
    pub fn get_issues(
        &self,
        project_id: Option<u64>,
        sort_order: IssueSortOrder,
        filter: Option<&str>,
        assigned_to_id: Option<u64>,
    ) -> (r: Result<Vec<Issue>, CacheError>)
        requires
            self.wf(),
        ensures
            (r matches Ok(v) && issues_view(v@) == spec_get_issues(
                self@,
                project_id,
                sort_order,
                opt_text_view(filter),
                assigned_to_id,
            )),
    {
        let fc: Option<Vec<char>> = match filter {
            Some(f) => Some(str_chars(f)),
            None => None,
        };
        let ghost fv = opt_text_view(filter);
        proof {
            assert(opt_chars_view(fc) == fv);
        }
        let ghost table = issues_view(self.issues@);
        let ghost pred = issue_filter_fn(project_id, fv, assigned_to_id);
        let mut matched: Vec<Issue> = Vec::new();
        let mut i: usize = 0;
        proof {
            assert(table.take(0) =~= Seq::<IssueView>::empty());
            reveal(Seq::filter);
        }
        while i < self.issues.len()
            invariant
                i <= table.len(),
                table.len() == self.issues@.len(),
                issues_view(matched@) == table.take(i as int).filter(pred),
            decreases table.len() - i,
        {
            proof {
                lemma_filter_take_step(table, pred, i as int);
                assert(self.issues@[i as int]@ == table[i as int]);
            }
            if issue_matches_exec(&self.issues[i], project_id, &fc, assigned_to_id) {
                matched.push(copy_issue(&self.issues[i]));
                proof {
                    assert(issues_view(matched@) =~= table.take(i as int).filter(pred).push(
                        table[i as int],
                    ));
                }
            }
            i = i + 1;
        }
        proof {
            assert(table.take(table.len() as int) =~= table);
        }
        let out: Vec<Issue> = match sort_order {
            IssueSortOrder::UpdatedDesc => {
                reverse_issues(sort_issues_by(&matched, &IssueKey::Updated))
            },
            IssueSortOrder::StatusAsc => sort_issues_by(&matched, &IssueKey::Status),
            IssueSortOrder::StatusDesc => {
                reverse_issues(sort_issues_by(&matched, &IssueKey::Status))
            },
            IssueSortOrder::PriorityAsc => sort_issues_by(&matched, &IssueKey::Priority),
            IssueSortOrder::PriorityDesc => {
                reverse_issues(sort_issues_by(&matched, &IssueKey::Priority))
            },
        };
        Ok(out)
    }

    /// Delete all journals and issues cached for one project: journal
    /// rows of that project's issues go first, then the issue rows.
    /// Other projects' journals are untouched.
    #[verifier::loop_isolation(false)]
    pub fn clear_project_issues(&mut self, project_id: u64) -> (r: Result<(), CacheError>)
        requires
            old(self).wf(),
        ensures
            r is Ok,
            final(self).wf(),
            final(self)@ == spec_clear_project_issues(old(self)@, project_id),
    {
        let ghost iv0 = issues_view(old(self).issues@);
        let ghost jv0 = journals_view(old(self).journals@);
        let ghost jpred = clear_keep_journal_fn(iv0, project_id);
        let mut kept_journals: Vec<JournalRow> = Vec::new();
        let mut i: usize = 0;
        proof {
            assert(jv0.take(0) =~= Seq::<JournalRowView>::empty());
            reveal(Seq::filter);
        }
        while i < self.journals.len()
            invariant
                i <= jv0.len(),
                jv0.len() == self.journals@.len(),
                self.journals == old(self).journals,
                self.issues == old(self).issues,
                journals_view(kept_journals@) == jv0.take(i as int).filter(jpred),
            decreases jv0.len() - i,
        {
            proof {
                lemma_filter_take_step(jv0, jpred, i as int);
                assert(self.journals@[i as int]@ == jv0[i as int]);
            }
            let keep: bool = !self.issue_belongs_to(self.journals[i].issue_id, project_id);
            if keep {
                let row = JournalRow {
                    issue_id: self.journals[i].issue_id,
                    journal: copy_journal(&self.journals[i].journal),
                };
                kept_journals.push(row);
                proof {
                    assert(journals_view(kept_journals@) =~= jv0.take(i as int).filter(
                        jpred,
                    ).push(jv0[i as int]));
                }
            }
            i = i + 1;
        }
        proof {
            assert(jv0.take(jv0.len() as int) =~= jv0);
        }
        self.journals = kept_journals;
        let ghost ipred = clear_keep_issue_fn(project_id);
        let mut kept_issues: Vec<Issue> = Vec::new();
        let mut j: usize = 0;
        proof {
            assert(iv0.take(0) =~= Seq::<IssueView>::empty());
        }
        while j < self.issues.len()
            invariant
                j <= iv0.len(),
                iv0.len() == self.issues@.len(),
                self.issues == old(self).issues,
                issues_view(kept_issues@) == iv0.take(j as int).filter(ipred),
            decreases iv0.len() - j,
        {
            proof {
                lemma_filter_take_step(iv0, ipred, j as int);
                assert(self.issues@[j as int]@ == iv0[j as int]);
            }
            if self.issues[j].project.id != project_id {
                kept_issues.push(copy_issue(&self.issues[j]));
                proof {
                    assert(issues_view(kept_issues@) =~= iv0.take(j as int).filter(ipred).push(
                        iv0[j as int],
                    ));
                }
            }
            j = j + 1;
        }
        proof {
            assert(iv0.take(iv0.len() as int) =~= iv0);
        }
        self.issues = kept_issues;
        proof {
            lemma_filter_unique_by(iv0, ipred, (|p: IssueView| p.id));
            assert(unique_issue_ids(issues_view(self.issues@)));
            lemma_filter_unique_by(jv0, jpred, (|jr: JournalRowView| jr.journal.id));
            assert(unique_journal_ids(journals_view(self.journals@)));
            assert(final(self)@ =~= spec_clear_project_issues(old(self)@, project_id));
        }
        Ok(())
    }

    /// Whether the cached issue with this id belongs to this project.
    #[verifier::loop_isolation(false)]
    fn issue_belongs_to(&self, issue_id: u64, project_id: u64) -> (r: bool)
        ensures
            r == issue_of_project(issues_view(self.issues@), issue_id, project_id),
    {
        let ghost iv = issues_view(self.issues@);
        let mut i: usize = 0;
        while i < self.issues.len()
            invariant
                i <= iv.len(),
                iv.len() == self.issues@.len(),
                forall|k: int| 0 <= k < i ==> !(iv[k].id == issue_id && iv[k].project.id
                    == project_id),
            decreases iv.len() - i,
        {
            proof {
                assert(self.issues@[i as int]@ == iv[i as int]);
            }
            if self.issues[i].id == issue_id && self.issues[i].project.id == project_id {
                return true;
            }
            i = i + 1;
        }
        false
    }

    /// Upsert the single issue row, replace its journal set wholesale
    /// (delete-all-then-insert), and stamp its project's activity with
    /// the issue's own `updated_on` and its sync time with `now`. This
    /// is the only path that writes journal data.
    #[verifier::loop_isolation(false)]
    pub fn insert_issue_with_journals_at(&mut self, issue: &Issue, now: u64) -> (r: Result<(), CacheError>)
        requires
            old(self).wf(),
            journals_admissible(old(self)@.journals, issue@),
        ensures
            r is Ok,
            final(self).wf(),
            final(self)@ == spec_insert_issue_with_journals(old(self)@, issue@, now),
    {
        let ghost p = issue@;
        let ghost iv0 = issues_view(old(self).issues@);
        let ghost jv0 = journals_view(old(self).journals@);
        let ghost pv0 = projects_view(old(self).projects@);
        upsert_issue_exec(&mut self.issues, copy_issue_normalized(issue));
        let ghost jpred = journal_not_of_issue_fn(p.id);
        let mut kept: Vec<JournalRow> = Vec::new();
        let mut i: usize = 0;
        proof {
            assert(jv0.take(0) =~= Seq::<JournalRowView>::empty());
            reveal(Seq::filter);
        }
        while i < self.journals.len()
            invariant
                i <= jv0.len(),
                jv0.len() == self.journals@.len(),
                self.journals == old(self).journals,
                journals_view(kept@) == jv0.take(i as int).filter(jpred),
            decreases jv0.len() - i,
        {
            proof {
                lemma_filter_take_step(jv0, jpred, i as int);
                assert(self.journals@[i as int]@ == jv0[i as int]);
            }
            if self.journals[i].issue_id != issue.id {
                let row = JournalRow {
                    issue_id: self.journals[i].issue_id,
                    journal: copy_journal(&self.journals[i].journal),
                };
                kept.push(row);
                proof {
                    assert(journals_view(kept@) =~= jv0.take(i as int).filter(jpred).push(
                        jv0[i as int],
                    ));
                }
            }
            i = i + 1;
        }
        proof {
            assert(jv0.take(jv0.len() as int) =~= jv0);
        }
        let ghost kept_v = journals_view(kept@);
        let mut j: usize = 0;
        while j < issue.journals.len()
            invariant
                j <= p.journals.len(),
                p.journals.len() == issue.journals@.len(),
                journals_view(kept@) == kept_v + journal_rows_of(p.id, p.journals.take(j as int)),
            decreases p.journals.len() - j,
        {
            proof {
                assert(issue.journals@[j as int]@ == p.journals[j as int]);
            }
            let mut jn = copy_journal(&issue.journals[j]);
            jn.private_notes = false;
            let ghost jnv = jn@;
            let ghost kept_before = kept@;
            proof {
                assert(jnv =~= normalize_journal(p.journals[j as int]));
            }
            kept.push(JournalRow { issue_id: issue.id, journal: jn });
            proof {
                let rows1 = journal_rows_of(p.id, p.journals.take(j + 1));
                let rows0 = journal_rows_of(p.id, p.journals.take(j as int));
                assert(rows1.len() == j + 1);
                assert forall|t: int| 0 <= t < j implies rows1[t] == rows0[t] by {
                    assert(p.journals.take(j + 1)[t] == p.journals[t]);
                    assert(p.journals.take(j as int)[t] == p.journals[t]);
                }
                assert(p.journals.take(j + 1)[j as int] == p.journals[j as int]);
                assert(rows1[j as int] == JournalRowView {
                    issue_id: p.id,
                    journal: normalize_journal(p.journals[j as int]),
                });
                assert forall|t: int|
                    0 <= t < kept_before.len() implies journals_view(kept@)[t] == journals_view(
                    kept_before,
                )[t] by {
                    assert(kept@[t] == kept_before[t]);
                }
                assert(journals_view(kept@)[kept_before.len() as int] == JournalRowView {
                    issue_id: p.id,
                    journal: jnv,
                });
                assert(rows0.len() == j as int);
                assert(kept_before.len() == kept_v.len() + j);
                assert(journals_view(kept@).len() == kept_v.len() + j + 1);
                assert forall|t: int|
                    0 <= t < kept_v.len() + j + 1 implies journals_view(kept@)[t] == (kept_v
                    + rows1)[t] by {
                    if t < kept_v.len() {
                        assert(journals_view(kept_before)[t] == (kept_v + rows0)[t]);
                        assert((kept_v + rows0)[t] == kept_v[t]);
                        assert((kept_v + rows1)[t] == kept_v[t]);
                    } else if t < kept_v.len() + j {
                        assert(journals_view(kept_before)[t] == (kept_v + rows0)[t]);
                        assert((kept_v + rows0)[t] == rows0[t - kept_v.len()]);
                        assert((kept_v + rows1)[t] == rows1[t - kept_v.len()]);
                        assert(rows1[t - kept_v.len()] == rows0[t - kept_v.len()]);
                    } else {
                        assert((kept_v + rows1)[t] == rows1[j as int]);
                    }
                }
                assert(journals_view(kept@) =~= kept_v + rows1);
            }
            j = j + 1;
        }
        proof {
            assert(p.journals.take(p.journals.len() as int) =~= p.journals);
        }
        self.journals = kept;
        let ghost pid = p.project.id;
        let n: usize = self.projects.len();
        let mut k: usize = 0;
        while k < n
            invariant
                n == self.projects@.len(),
                pv0.len() == n,
                k <= n,
                forall|t: int| k <= t < n ==> self.projects@[t] == old(self).projects@[t],
                forall|t: int| 0 <= t < k ==> #[trigger] self.projects@[t]@ == (if pv0[t].id
                    == pid {
                    project_with_activity(pv0[t], Some(p.updated_on), Some(now))
                } else {
                    pv0[t]
                }),
                issues_view(self.issues@) == upsert_issue_row(iv0, normalize_issue(p)),
                unique_issue_ids(issues_view(self.issues@)),
                self.journals@ == kept@,
                self.users == old(self).users,
                self.projects_last_synced == old(self).projects_last_synced,
                self.issues_last_synced == old(self).issues_last_synced,
            decreases n - k,
        {
            proof {
                assert(old(self).projects@[k as int]@ == pv0[k as int]);
            }
            if self.projects[k].id == issue.project.id {
                let mut row = self.projects.remove(k);
                row.last_issue_activity = Some(issue.updated_on);
                row.last_issues_sync = Some(now);
                self.projects.insert(k, row);
            }
            k = k + 1;
        }
        proof {
            assert(projects_view(self.projects@) =~= set_project_activity_sync(
                pv0,
                pid,
                p.updated_on,
                now,
            ));
            assert forall|a: int, b: int|
                0 <= a < b < projects_view(self.projects@).len() implies projects_view(
                self.projects@,
            )[a].id != projects_view(self.projects@)[b].id by {
                assert(projects_view(self.projects@)[a].id == pv0[a].id);
                assert(projects_view(self.projects@)[b].id == pv0[b].id);
            }
            lemma_filter_unique_by(jv0, jpred, (|jr: JournalRowView| jr.journal.id));
            lemma_filter_elems_in(jv0, jpred);
            broadcast use vstd::seq_lib::group_filter_ensures;

            let fj = jv0.filter(jpred);
            let newj = journal_rows_of(p.id, p.journals);
            assert forall|a: int, b: int|
                0 <= a < b < journals_view(self.journals@).len() implies journals_view(
                self.journals@,
            )[a].journal.id != journals_view(self.journals@)[b].journal.id by {
                let whole = journals_view(self.journals@);
                assert(whole == fj + newj);
                if b < fj.len() {
                    assert(whole[a] == fj[a] && whole[b] == fj[b]);
                } else if a >= fj.len() {
                    assert(whole[a] == newj[a - fj.len()] && whole[b] == newj[b - fj.len()]);
                    assert(newj[a - fj.len()].journal.id == p.journals[a - fj.len()].id);
                    assert(newj[b - fj.len()].journal.id == p.journals[b - fj.len()].id);
                } else {
                    assert(whole[a] == fj[a] && whole[b] == newj[b - fj.len()]);
                    assert(jv0.contains(fj[a]));
                    let w = choose|w: int| 0 <= w < jv0.len() && jv0[w] == fj[a];
                    assert(jpred(fj[a]));
                    assert(jv0[w].issue_id != p.id);
                    assert(newj[b - fj.len()].journal.id == p.journals[b - fj.len()].id);
                }
            }
            assert(final(self)@ =~= spec_insert_issue_with_journals(old(self)@, p, now));
        }
        Ok(())
    }

    /// As [`Self::insert_issue_with_journals_at`], stamped with the
    /// current time.
    pub fn insert_issue_with_journals(&mut self, issue: &Issue) -> (r: Result<(), CacheError>)
        requires
            old(self).wf(),
            journals_admissible(old(self)@.journals, issue@),
        ensures
            r is Ok,
            final(self).wf(),
            exists|now: u64| final(self)@ == spec_insert_issue_with_journals(
                old(self)@,
                issue@,
                now,
            ),
    {
        let now: u64 = crate::clock::now_millis();
        let r = self.insert_issue_with_journals_at(issue, now);
        proof {
            assert(final(self)@ == spec_insert_issue_with_journals(old(self)@, issue@, now));
        }
        r
    }

    /// Point lookup of one issue with its journal history attached, in
    /// creation-time ascending order, each journal with its ordered
    /// detail list.
    #[verifier::loop_isolation(false)]
    pub fn get_issue_with_journals(&self, issue_id: u64) -> (r: Result<Option<Issue>, CacheError>)
        requires
            self.wf(),
        ensures
            (r matches Ok(v) && (match spec_get_issue_with_journals(self@, issue_id) {
                Some(pv) => v matches Some(x) && x@ == pv,
                None => v is None,
            })),
    {
        let ghost iv = issues_view(self.issues@);
        let mut found: Option<usize> = None;
        let mut i: usize = 0;
        while i < self.issues.len()
            invariant
                i <= iv.len(),
                iv.len() == self.issues@.len(),
                found is None,
                forall|k: int| 0 <= k < i ==> iv[k].id != issue_id,
            decreases iv.len() - i,
        {
            proof {
                assert(iv[i as int] == self.issues@[i as int]@);
            }
            if self.issues[i].id == issue_id {
                found = Some(i);
                break;
            }
            i = i + 1;
        }
        let idx: usize = match found {
            Some(idx) => idx,
            None => {
                proof {
                    assert(!issue_has_id(iv, issue_id));
                }
                return Ok(None);
            },
        };
        proof {
            assert(iv[idx as int] == self.issues@[idx as int]@);
            lemma_issue_index_is(iv, idx as int, issue_id);
        }
        let ghost row = iv[idx as int];
        let base = copy_issue(&self.issues[idx]);
        let ghost jv = journals_view(self.journals@);
        let ghost rowpred = journal_of_issue_fn(issue_id);
        let ghost tojournal = journal_row_journal_fn();
        let mut js: Vec<Journal> = Vec::new();
        let mut k: usize = 0;
        proof {
            assert(jv.take(0) =~= Seq::<JournalRowView>::empty());
            reveal(Seq::filter);
        }
        while k < self.journals.len()
            invariant
                k <= jv.len(),
                jv.len() == self.journals@.len(),
                js_view(js@) == jv.take(k as int).filter(rowpred).map_values(tojournal),
            decreases jv.len() - k,
        {
            proof {
                lemma_filter_take_step(jv, rowpred, k as int);
                assert(self.journals@[k as int]@ == jv[k as int]);
            }
            if self.journals[k].issue_id == issue_id {
                let ghost js_before = js@;
                js.push(copy_journal(&self.journals[k].journal));
                proof {
                    let f0 = jv.take(k as int).filter(rowpred);
                    assert(jv.take(k + 1).filter(rowpred) == f0.push(jv[k as int]));
                    assert forall|t: int|
                        0 <= t < f0.len() implies f0.push(jv[k as int]).map_values(tojournal)[t]
                        == f0.map_values(tojournal)[t] by {
                        assert(f0.push(jv[k as int])[t] == f0[t]);
                    }
                    assert forall|t: int|
                        0 <= t < js_before.len() implies js_view(js@)[t] == js_view(
                        js_before,
                    )[t] by {
                        assert(js@[t] == js_before[t]);
                    }
                    assert(js_view(js@)[js_before.len() as int] == jv[k as int].journal);
                    let target = jv.take(k + 1).filter(rowpred).map_values(tojournal);
                    assert(target == f0.push(jv[k as int]).map_values(tojournal));
                    assert(js_before.len() == f0.len());
                    assert(js_view(js@).len() == f0.len() + 1);
                    assert(target.len() == f0.len() + 1);
                    assert forall|t: int|
                        0 <= t < f0.len() + 1 implies js_view(js@)[t] == target[t] by {
                        if t < f0.len() {
                            assert(js_view(js@)[t] == js_view(js_before)[t]);
                            assert(js_view(js_before)[t] == f0.map_values(tojournal)[t]);
                            assert(target[t] == f0.map_values(tojournal)[t]);
                        } else {
                            assert(target[t] == tojournal(f0.push(jv[k as int])[t]));
                            assert(f0.push(jv[k as int])[t] == jv[k as int]);
                        }
                    }
                    assert(js_view(js@) =~= target);
                }
            }
            k = k + 1;
        }
        proof {
            assert(jv.take(jv.len() as int) =~= jv);
        }
        let mut sorted: Vec<Journal> = Vec::new();
        let ghost mj = js_view(js@);
        let mut t: usize = 0;
        proof {
            assert(mj.take(0) =~= Seq::<JournalView>::empty());
        }
        while t < js.len()
            invariant
                t <= mj.len(),
                mj.len() == js@.len(),
                mj == js_view(js@),
                js_view(sorted@) == sort_by_asc(mj.take(t as int), journal_created_leq_fn()),
            decreases mj.len() - t,
        {
            proof {
                assert(js@[t as int]@ == mj[t as int]);
            }
            insert_journal_sorted(&mut sorted, copy_journal(&js[t]));
            proof {
                lemma_sort_by_asc_push(mj.take(t as int), mj[t as int], journal_created_leq_fn());
                assert(mj.take(t + 1) =~= mj.take(t as int).push(mj[t as int]));
            }
            t = t + 1;
        }
        proof {
            assert(mj.take(mj.len() as int) =~= mj);
        }
        let mut out = base;
        out.journals = sorted;
        proof {
            assert(journals_of_issue(jv, issue_id) == jv.filter(rowpred).map_values(tojournal));
            assert(out@ =~= (IssueView {
                journals: sort_by_asc(journals_of_issue(jv, issue_id), journal_created_leq_fn()),
                ..row
            }));
        }
        Ok(Some(out))
    }

    /// Insert-or-replace each user by id, recording `now` as the row's
    /// write time. All-or-nothing; this store never fails.
    #[verifier::loop_isolation(false)]
    pub fn insert_users_at(&mut self, users: &Vec<User>, now: u64) -> (r: Result<(), CacheError>)
        requires
            old(self).wf(),
        ensures
            r is Ok,
            final(self).wf(),
            final(self)@ == spec_insert_users(old(self)@, users_list_view(users@), now),
    {
        let ghost us = users_list_view(users@);
        let ghost s0 = users_view(old(self).users@);
        let mut i: usize = 0;
        proof {
            assert(us.take(0) =~= Seq::<UserView>::empty());
        }
        while i < users.len()
            invariant
                us.len() == users@.len(),
                i <= users@.len(),
                unique_user_ids(users_view(self.users@)),
                users_view(self.users@) == upsert_users_seq(s0, us.take(i as int), now),
                self.projects == old(self).projects,
                self.issues == old(self).issues,
                self.journals == old(self).journals,
                self.projects_last_synced == old(self).projects_last_synced,
                self.issues_last_synced == old(self).issues_last_synced,
            decreases users@.len() - i,
        {
            proof {
                assert(users@[i as int]@ == us[i as int]);
            }
            let row = UserRow { user: copy_user(&users[i]), cached_at: now };
            upsert_user_exec(&mut self.users, row);
            proof {
                lemma_upsert_users_seq_push(s0, us.take(i as int), us[i as int], now);
                assert(us.take(i + 1) =~= us.take(i as int).push(us[i as int]));
            }
            i = i + 1;
        }
        proof {
            assert(us.take(users@.len() as int) =~= us);
            assert(final(self)@ =~= spec_insert_users(old(self)@, us, now));
        }
        Ok(())
    }

    /// As [`Self::insert_users_at`], stamped with the current time.
    pub fn insert_users(&mut self, users: &Vec<User>) -> (r: Result<(), CacheError>)
        requires
            old(self).wf(),
        ensures
            r is Ok,
            final(self).wf(),
            exists|now: u64| final(self)@ == spec_insert_users(
                old(self)@,
                users_list_view(users@),
                now,
            ),
    {
        let now: u64 = crate::clock::now_millis();
        let r = self.insert_users_at(users, now);
        proof {
            assert(final(self)@ == spec_insert_users(old(self)@, users_list_view(users@), now));
        }
        r
    }

    /// Every cached user, ordered by last name then first name.
    #[verifier::loop_isolation(false)]
    pub fn get_users(&self) -> (r: Result<Vec<User>, CacheError>)
        requires
            self.wf(),
        ensures
            (r matches Ok(v) && users_list_view(v@) == spec_get_users(self@)),
    {
        let ghost uv = users_view(self.users@).map_values(|r: UserRowView| r.user);
        proof {
            assert(uv.len() == self.users@.len());
        }
        let mut out: Vec<User> = Vec::new();
        let mut i: usize = 0;
        proof {
            assert(uv.take(0) =~= Seq::<UserView>::empty());
        }
        while i < self.users.len()
            invariant
                i <= uv.len(),
                uv.len() == self.users@.len(),
                users_list_view(out@) == sort_by_asc(uv.take(i as int), user_order_fn()),
            decreases uv.len() - i,
        {
            proof {
                assert(users_view(self.users@)[i as int] == self.users@[i as int]@);
                assert(uv[i as int] == self.users@[i as int]@.user);
            }
            insert_user_sorted(&mut out, copy_user(&self.users[i].user));
            proof {
                lemma_sort_by_asc_push(uv.take(i as int), uv[i as int], user_order_fn());
                assert(uv.take(i + 1) =~= uv.take(i as int).push(uv[i as int]));
            }
            i = i + 1;
        }
        proof {
            assert(uv.take(uv.len() as int) =~= uv);
        }
        Ok(out)
    }

    /// When the project list was last synced, if ever.
    pub fn get_last_projects_sync(&self) -> (r: Result<Option<u64>, CacheError>)
        ensures
            r matches Ok(t) && t == self@.projects_last_synced,
    {
        Ok(self.projects_last_synced)
    }

    /// When issues were last synced globally, if ever.
    pub fn get_last_issues_sync(&self) -> (r: Result<Option<u64>, CacheError>)
        ensures
            r matches Ok(t) && t == self@.issues_last_synced,
    {
        Ok(self.issues_last_synced)
    }

    /// The name of the project with this id, if it is cached.
    #[verifier::loop_isolation(false)]
    pub fn get_project_name(&self, project_id: u64) -> (r: Result<Option<String>, CacheError>)
        requires
            self.wf(),
        ensures
            r matches Ok(name) && (match proj_lookup(self@.projects, project_id) {
                Some(q) => name matches Some(n) && n@ == q.name,
                None => name is None,
            }),
    {
        let ghost s = projects_view(self.projects@);
        let mut i: usize = 0;
        while i < self.projects.len()
            invariant
                s == projects_view(self.projects@),
                i <= self.projects@.len(),
                s.len() == self.projects@.len(),
                unique_project_ids(s),
                forall|k: int| 0 <= k < i ==> s[k].id != project_id,
            decreases self.projects@.len() - i,
        {
            if self.projects[i].id == project_id {
                proof {
                    lemma_proj_index_is(s, i as int, project_id);
                }
                return Ok(Some(self.projects[i].name.clone()));
            }
            i = i + 1;
        }
        proof {
            assert(!proj_has_id(s, project_id));
        }
        Ok(None)
    }

    /// Set one project's `last_issue_activity` directly; used when an
    /// external signal reveals a more current activity time than the
    /// cache holds. Projects not carrying this id are untouched.
    #[verifier::loop_isolation(false)]
    pub fn update_project_last_activity(&mut self, project_id: u64, last_activity: u64) -> (r: Result<(), CacheError>)
        requires
            old(self).wf(),
        ensures
            r is Ok,
            final(self).wf(),
            final(self)@ == (DbView {
                projects: set_project_activity(old(self)@.projects, project_id, last_activity),
                ..old(self)@
            }),
    {
        let ghost s0 = projects_view(old(self).projects@);
        let n: usize = self.projects.len();
        let mut i: usize = 0;
        while i < n
            invariant
                n == self.projects@.len(),
                s0.len() == n,
                i <= n,
                forall|k: int| i <= k < n ==> self.projects@[k] == old(self).projects@[k],
                forall|k: int| 0 <= k < i ==> #[trigger] self.projects@[k]@ == (if s0[k].id
                    == project_id {
                    project_with_activity(s0[k], Some(last_activity), s0[k].last_issues_sync)
                } else {
                    s0[k]
                }),
                self.issues == old(self).issues,
                self.journals == old(self).journals,
                self.users == old(self).users,
                self.projects_last_synced == old(self).projects_last_synced,
                self.issues_last_synced == old(self).issues_last_synced,
            decreases n - i,
        {
            proof {
                assert(old(self).projects@[i as int]@ == s0[i as int]);
            }
            if self.projects[i].id == project_id {
                let mut row = self.projects.remove(i);
                row.last_issue_activity = Some(last_activity);
                self.projects.insert(i, row);
            }
            i = i + 1;
        }
        proof {
            assert(projects_view(self.projects@) =~= set_project_activity(
                s0,
                project_id,
                last_activity,
            ));
            assert forall|a: int, b: int|
                0 <= a < b < projects_view(self.projects@).len() implies projects_view(
                self.projects@,
            )[a].id != projects_view(self.projects@)[b].id by {
                assert(s0[a].id != s0[b].id);
            }
            assert(final(self)@ =~= DbView {
                projects: set_project_activity(old(self)@.projects, project_id, last_activity),
                ..old(self)@
            });
        }
        Ok(())
    }
}

} // verus!
