//! Data model of the tracker entities the cache holds: projects, issues,
//! journals, users, and the small lookup types the remote service reports.
//!
//! Timestamps are plain integers (milliseconds since the Unix epoch);
//! the cache only ever compares them, so their unit is opaque to it.

use vstd::prelude::*;

verus! {

/// An id together with its display name, as the remote service reports
/// most references (tracker, status, priority, author, assignee).
#[derive(Debug, Clone)]
pub struct IdName {
    pub id: u64,
    pub name: String,
}

/// Mathematical value of an [`IdName`].
#[verifier::ext_equal]
pub struct IdNameView {
    pub id: u64,
    pub name: Seq<char>,
}

impl View for IdName {
    type V = IdNameView;

    open spec fn view(&self) -> IdNameView {
        IdNameView { id: self.id, name: self.name@ }
    }
}

/// Optional string viewed as an optional character sequence.
pub open spec fn opt_str_view(s: Option<String>) -> Option<Seq<char>> {
    match s {
        Some(t) => Some(t@),
        None => None,
    }
}

/// Optional reference viewed through the referent's view.
pub open spec fn opt_id_name_view(p: Option<IdName>) -> Option<IdNameView> {
    match p {
        Some(q) => Some(q@),
        None => None,
    }
}

/// A project row as the cache stores it.
#[derive(Debug, Clone)]
pub struct Project {
    pub id: u64,
    pub name: String,
    pub identifier: String,
    pub description: Option<String>,
    pub status: Option<u32>,
    /// Non-owning back-reference to a parent project, forming a tree.
    pub parent: Option<IdName>,
    pub created_on: Option<u64>,
    pub updated_on: Option<u64>,
    /// Maximum `updated_on` among this project's cached issues; maintained
    /// by the store, never taken from the remote service.
    pub last_issue_activity: Option<u64>,
    /// When this project's issues were last merged successfully.
    pub last_issues_sync: Option<u64>,
}

/// Mathematical value of a [`Project`].
#[verifier::ext_equal]
pub struct ProjectView {
    pub id: u64,
    pub name: Seq<char>,
    pub identifier: Seq<char>,
    pub description: Option<Seq<char>>,
    pub status: Option<u32>,
    pub parent: Option<IdNameView>,
    pub created_on: Option<u64>,
    pub updated_on: Option<u64>,
    pub last_issue_activity: Option<u64>,
    pub last_issues_sync: Option<u64>,
}

impl View for Project {
    type V = ProjectView;

    open spec fn view(&self) -> ProjectView {
        ProjectView {
            id: self.id,
            name: self.name@,
            identifier: self.identifier@,
            description: opt_str_view(self.description),
            status: self.status,
            parent: opt_id_name_view(self.parent),
            created_on: self.created_on,
            updated_on: self.updated_on,
            last_issue_activity: self.last_issue_activity,
            last_issues_sync: self.last_issues_sync,
        }
    }
}

/// A single field change within a journal entry. All values are opaque
/// strings; decoding them is a presentation concern, not a cache concern.
#[derive(Debug, Clone)]
pub struct JournalDetail {
    /// Property class: standard attribute, custom field, or attachment.
    pub property: String,
    pub name: String,
    pub old_value: Option<String>,
    pub new_value: Option<String>,
}

/// Mathematical value of a [`JournalDetail`].
#[verifier::ext_equal]
pub struct JournalDetailView {
    pub property: Seq<char>,
    pub name: Seq<char>,
    pub old_value: Option<Seq<char>>,
    pub new_value: Option<Seq<char>>,
}

impl View for JournalDetail {
    type V = JournalDetailView;

    open spec fn view(&self) -> JournalDetailView {
        JournalDetailView {
            property: self.property@,
            name: self.name@,
            old_value: opt_str_view(self.old_value),
            new_value: opt_str_view(self.new_value),
        }
    }
}

/// A comment/change event attached to an issue.
#[derive(Debug, Clone)]
pub struct Journal {
    pub id: u64,
    pub user: IdName,
    pub notes: Option<String>,
    pub created_on: u64,
    pub private_notes: bool,
    pub details: Vec<JournalDetail>,
}

/// Mathematical value of a [`Journal`].
#[verifier::ext_equal]
pub struct JournalView {
    pub id: u64,
    pub user: IdNameView,
    pub notes: Option<Seq<char>>,
    pub created_on: u64,
    pub private_notes: bool,
    pub details: Seq<JournalDetailView>,
}

impl View for Journal {
    type V = JournalView;

    open spec fn view(&self) -> JournalView {
        JournalView {
            id: self.id,
            user: self.user@,
            notes: opt_str_view(self.notes),
            created_on: self.created_on,
            private_notes: self.private_notes,
            details: self.details@.map_values(|d: JournalDetail| d@),
        }
    }
}

/// An issue row as the cache stores it, with the foreign names the store
/// denormalizes alongside their ids.
#[derive(Debug, Clone)]
pub struct Issue {
    pub id: u64,
    pub project: IdName,
    pub tracker: IdName,
    pub status: IdName,
    pub priority: IdName,
    pub author: IdName,
    pub assigned_to: Option<IdName>,
    pub subject: String,
    pub description: Option<String>,
    pub created_on: u64,
    pub updated_on: u64,
    pub due_date: Option<String>,
    pub done_ratio: Option<u32>,
    /// Full comment history; filled only by the single-issue path.
    pub journals: Vec<Journal>,
}

/// Mathematical value of an [`Issue`].
#[verifier::ext_equal]
pub struct IssueView {
    pub id: u64,
    pub project: IdNameView,
    pub tracker: IdNameView,
    pub status: IdNameView,
    pub priority: IdNameView,
    pub author: IdNameView,
    pub assigned_to: Option<IdNameView>,
    pub subject: Seq<char>,
    pub description: Option<Seq<char>>,
    pub created_on: u64,
    pub updated_on: u64,
    pub due_date: Option<Seq<char>>,
    pub done_ratio: Option<u32>,
    pub journals: Seq<JournalView>,
}

impl View for Issue {
    type V = IssueView;

    open spec fn view(&self) -> IssueView {
        IssueView {
            id: self.id,
            project: self.project@,
            tracker: self.tracker@,
            status: self.status@,
            priority: self.priority@,
            author: self.author@,
            assigned_to: opt_id_name_view(self.assigned_to),
            subject: self.subject@,
            description: opt_str_view(self.description),
            created_on: self.created_on,
            updated_on: self.updated_on,
            due_date: opt_str_view(self.due_date),
            done_ratio: self.done_ratio,
            journals: self.journals@.map_values(|j: Journal| j@),
        }
    }
}

/// A tracker user.
#[derive(Debug, Clone)]
pub struct User {
    pub id: u64,
    pub login: String,
    pub firstname: String,
    pub lastname: String,
    pub mail: Option<String>,
}

/// Mathematical value of a [`User`].
#[verifier::ext_equal]
pub struct UserView {
    pub id: u64,
    pub login: Seq<char>,
    pub firstname: Seq<char>,
    pub lastname: Seq<char>,
    pub mail: Option<Seq<char>>,
}

impl View for User {
    type V = UserView;

    open spec fn view(&self) -> UserView {
        UserView {
            id: self.id,
            login: self.login@,
            firstname: self.firstname@,
            lastname: self.lastname@,
            mail: opt_str_view(self.mail),
        }
    }
}

/// An issue tracker category (Bug, Feature, ...).
#[derive(Debug, Clone)]
pub struct Tracker {
    pub id: u64,
    pub name: String,
}

/// Page of trackers from the remote service.
#[derive(Debug, Clone)]
pub struct TrackersResponse {
    pub trackers: Vec<Tracker>,
}

/// A workflow status an issue can be in.
#[derive(Debug, Clone)]
pub struct IssueStatus {
    pub id: u64,
    pub name: String,
}

/// Page of statuses from the remote service.
#[derive(Debug, Clone)]
pub struct IssueStatusesResponse {
    pub issue_statuses: Vec<IssueStatus>,
}

/// An issue priority level.
#[derive(Debug, Clone)]
pub struct Priority {
    pub id: u64,
    pub name: String,
}

/// Page of priorities from the remote service.
#[derive(Debug, Clone)]
pub struct PrioritiesResponse {
    pub issue_priorities: Vec<Priority>,
}

/// A per-project issue category.
#[derive(Debug, Clone)]
pub struct IssueCategory {
    pub id: u64,
    pub name: String,
}

/// A custom field value carried on an issue.
#[derive(Debug, Clone)]
pub struct IssueCustomField {
    pub id: u64,
    pub name: String,
    pub value: String,
}

/// Definition of a custom field, with its format metadata.
#[derive(Debug, Clone)]
pub struct CustomField {
    pub id: u64,
    pub name: String,
    pub customized_type: Option<String>,
    pub field_format: Option<String>,
    pub possible_values: Option<Vec<CustomFieldValue>>,
    pub multiple: Option<bool>,
    pub required: Option<bool>,
}

/// One admissible value of a custom field.
#[derive(Debug, Clone)]
pub struct CustomFieldValue {
    pub value: String,
    pub label: Option<String>,
}

/// A pending file upload: the token the service handed back plus the
/// metadata to attach it with.
#[derive(Debug, Clone)]
pub struct Upload {
    pub token: String,
    pub filename: Option<String>,
    pub description: Option<String>,
    pub content_type: Option<String>,
}

/// Token handed back after uploading a file.
#[derive(Debug, Clone)]
pub struct UploadToken {
    pub id: u64,
    pub token: String,
}

/// Response to a file upload.
#[derive(Debug, Clone)]
pub struct UploadResponse {
    pub upload: UploadToken,
}

/// Envelope around a single user.
#[derive(Debug, Clone)]
pub struct UserWrapper {
    pub user: User,
}

/// Paginated page of users.
#[derive(Debug, Clone)]
pub struct UsersResponse {
    pub users: Vec<User>,
    pub total_count: Option<u32>,
    pub offset: Option<u32>,
    pub limit: Option<u32>,
}

/// A user's membership in a project, with their roles there.
#[derive(Debug, Clone)]
pub struct ProjectMembership {
    pub id: u64,
    pub project: IdName,
    pub user: Option<IdName>,
    pub roles: Vec<IdName>,
}

/// Paginated page of project memberships.
#[derive(Debug, Clone)]
pub struct MembershipsResponse {
    pub memberships: Vec<ProjectMembership>,
    pub total_count: Option<u32>,
    pub offset: Option<u32>,
    pub limit: Option<u32>,
}

/// Paginated page of projects.
#[derive(Debug, Clone)]
pub struct ProjectsResponse {
    pub projects: Vec<Project>,
    pub total_count: Option<u32>,
    pub offset: Option<u32>,
    pub limit: Option<u32>,
}

/// Paginated page of issues.
#[derive(Debug, Clone)]
pub struct IssuesResponse {
    pub issues: Vec<Issue>,
    pub total_count: Option<u32>,
    pub offset: Option<u32>,
    pub limit: Option<u32>,
}

// Copy helpers with known contracts: the derived `Clone` impls carry no
// specification, so the store copies rows through these instead.

/// Copy of an optional string, equal in value.
pub fn copy_opt_string(s: &Option<String>) -> (r: Option<String>)
    ensures
        opt_str_view(r) == opt_str_view(*s),
{
    match s {
        Some(t) => Some(t.clone()),
        None => None,
    }
}

/// Copy of an [`IdName`], equal in value.
pub fn copy_id_name(p: &IdName) -> (r: IdName)
    ensures
        r@ == p@,
{
    IdName { id: p.id, name: p.name.clone() }
}

/// Copy of an optional [`IdName`], equal in value.
pub fn copy_opt_id_name(p: &Option<IdName>) -> (r: Option<IdName>)
    ensures
        opt_id_name_view(r) == opt_id_name_view(*p),
{
    match p {
        Some(q) => Some(copy_id_name(q)),
        None => None,
    }
}

/// Copy of a [`Project`], equal in value.
pub fn copy_project(p: &Project) -> (r: Project)
    ensures
        r@ == p@,
{
    Project {
        id: p.id,
        name: p.name.clone(),
        identifier: p.identifier.clone(),
        description: copy_opt_string(&p.description),
        status: p.status,
        parent: copy_opt_id_name(&p.parent),
        created_on: p.created_on,
        updated_on: p.updated_on,
        last_issue_activity: p.last_issue_activity,
        last_issues_sync: p.last_issues_sync,
    }
}

/// Copy of a [`JournalDetail`], equal in value.
pub fn copy_journal_detail(d: &JournalDetail) -> (r: JournalDetail)
    ensures
        r@ == d@,
{
    JournalDetail {
        property: d.property.clone(),
        name: d.name.clone(),
        old_value: copy_opt_string(&d.old_value),
        new_value: copy_opt_string(&d.new_value),
    }
}

/// Copy of a [`Journal`], equal in value.
pub fn copy_journal(j: &Journal) -> (r: Journal)
    ensures
        r@ == j@,
{
    let mut details: Vec<JournalDetail> = Vec::new();
    let mut i: usize = 0;
    while i < j.details.len()
        invariant
            i <= j.details@.len(),
            details@.len() == i,
            forall|k: int| 0 <= k < i ==> details@[k]@ == j.details@[k]@,
        decreases j.details@.len() - i,
    {
        details.push(copy_journal_detail(&j.details[i]));
        i = i + 1;
    }
    proof {
        assert(details@.map_values(|d: JournalDetail| d@) =~= j.details@.map_values(
            |d: JournalDetail| d@,
        ));
    }
    Journal {
        id: j.id,
        user: copy_id_name(&j.user),
        notes: copy_opt_string(&j.notes),
        created_on: j.created_on,
        private_notes: j.private_notes,
        details,
    }
}

/// Copy of an [`Issue`], equal in value.
pub fn copy_issue(s: &Issue) -> (r: Issue)
    ensures
        r@ == s@,
{
    let mut journals: Vec<Journal> = Vec::new();
    let mut i: usize = 0;
    while i < s.journals.len()
        invariant
            i <= s.journals@.len(),
            journals@.len() == i,
            forall|k: int| 0 <= k < i ==> journals@[k]@ == s.journals@[k]@,
        decreases s.journals@.len() - i,
    {
        journals.push(copy_journal(&s.journals[i]));
        i = i + 1;
    }
    proof {
        assert(journals@.map_values(|j: Journal| j@) =~= s.journals@.map_values(
            |j: Journal| j@,
        ));
    }
    Issue {
        id: s.id,
        project: copy_id_name(&s.project),
        tracker: copy_id_name(&s.tracker),
        status: copy_id_name(&s.status),
        priority: copy_id_name(&s.priority),
        author: copy_id_name(&s.author),
        assigned_to: copy_opt_id_name(&s.assigned_to),
        subject: s.subject.clone(),
        description: copy_opt_string(&s.description),
        created_on: s.created_on,
        updated_on: s.updated_on,
        due_date: copy_opt_string(&s.due_date),
        done_ratio: s.done_ratio,
        journals,
    }
}

/// Copy of a [`User`], equal in value.
pub fn copy_user(u: &User) -> (r: User)
    ensures
        r@ == u@,
{
    User {
        id: u.id,
        login: u.login.clone(),
        firstname: u.firstname.clone(),
        lastname: u.lastname.clone(),
        mail: copy_opt_string(&u.mail),
    }
}

} // verus!
