//! The store's laws: what holds of every sequence of cache operations.
//! Each law is stated over the abstract state and the spec functions the
//! operations' own contracts use, and proved from their definitions.

use vstd::prelude::*;
use vstd::seq_lib::group_to_multiset_ensures;

use crate::app::IssueSortOrder;
use crate::db::{
    batch_project_ids, clear_keep_issue_fn, clear_keep_journal_fn, issue_filter_fn, issue_has_id,
    lemma_proj_index_is, lemma_recompute_activity_unique, lemma_upsert_projects_seq_unique,
    merge_project, proj_has_id, proj_index_of, project_with_activity, recompute_activity,
    unique_project_ids, upsert_project_row, upsert_projects_seq,
    issue_index_of, issue_lookup, issue_of_project, issue_priority_leq_fn, journal_not_of_issue_fn,
    journal_created_leq_fn, journal_of_issue_fn, journal_row_journal_fn, journal_rows_of,
    max_activity, normalize_issue, normalize_journal, normalized_journals, proj_lookup,
    spec_clear_project_issues, spec_get_issue_with_journals, spec_get_issues,
    spec_insert_issue_with_journals, spec_insert_issues, spec_insert_projects, unique_issue_ids,
    upsert_issue_row, upsert_issues_seq, DbView, JournalRowView,
};
use crate::redmine::{IssueView, ProjectView};
use crate::sorting::{
    lemma_sort_by_asc_multiset, lemma_sort_by_asc_of_sorted, lemma_sort_by_asc_sorted,
    sort_by_asc, sorted_by,
};

verus! {

// Helper facts about filtering.

/// A filter that keeps everything returns its input.
proof fn lemma_filter_all<A>(s: Seq<A>, pred: spec_fn(A) -> bool)
    requires
        forall|k: int| 0 <= k < s.len() ==> pred(#[trigger] s[k]),
    ensures
        s.filter(pred) == s,
    decreases s.len(),
{
    reveal(Seq::filter);
    if s.len() > 0 {
        let d = s.drop_last();
        assert forall|k: int| 0 <= k < d.len() implies pred(#[trigger] d[k]) by {
            assert(d[k] == s[k]);
        }
        lemma_filter_all(d, pred);
        assert(pred(s.last()));
        assert(d.push(s.last()) =~= s);
    }
}

/// A filter that keeps nothing returns the empty sequence.
proof fn lemma_filter_none<A>(s: Seq<A>, pred: spec_fn(A) -> bool)
    requires
        forall|k: int| 0 <= k < s.len() ==> !pred(#[trigger] s[k]),
    ensures
        s.filter(pred) == Seq::<A>::empty(),
    decreases s.len(),
{
    reveal(Seq::filter);
    if s.len() > 0 {
        let d = s.drop_last();
        assert forall|k: int| 0 <= k < d.len() implies !pred(#[trigger] d[k]) by {
            assert(d[k] == s[k]);
        }
        lemma_filter_none(d, pred);
        assert(!pred(s.last()));
    }
}

/// Filtering distributes over concatenation.
proof fn lemma_filter_concat<A>(a: Seq<A>, b: Seq<A>, pred: spec_fn(A) -> bool)
    ensures
        (a + b).filter(pred) == a.filter(pred) + b.filter(pred),
    decreases b.len(),
{
    reveal(Seq::filter);
    if b.len() == 0 {
        assert(a + b =~= a);
        assert(a.filter(pred) + b.filter(pred) =~= a.filter(pred));
    } else {
        lemma_filter_concat(a, b.drop_last(), pred);
        assert((a + b).drop_last() =~= a + b.drop_last());
        assert((a + b).last() == b.last());
        if pred(b.last()) {
            assert(a.filter(pred) + b.filter(pred) =~= (a.filter(pred) + b.drop_last().filter(
                pred,
            )).push(b.last()));
        }
    }
}

// Helper facts about the activity maximum.

/// The activity maximum is absent exactly when the project has no
/// cached issues, and otherwise is the maximum `updated_on` among them.
pub proof fn lemma_max_activity_characterized(issues: Seq<IssueView>, pid: u64)
    ensures
        match max_activity(issues, pid) {
            None => forall|k: int|
                0 <= k < issues.len() ==> (#[trigger] issues[k]).project.id != pid,
            Some(t) => (exists|k: int|
                0 <= k < issues.len() && (#[trigger] issues[k]).project.id == pid
                    && issues[k].updated_on == t) && (forall|k: int|
                0 <= k < issues.len() && (#[trigger] issues[k]).project.id == pid
                    ==> issues[k].updated_on <= t),
        },
    decreases issues.len(),
{
    if issues.len() > 0 {
        let d = issues.drop_last();
        let n = issues.len() - 1;
        let last = issues[n];
        lemma_max_activity_characterized(d, pid);
        assert forall|k: int| 0 <= k < d.len() implies #[trigger] d[k] == issues[k] by {}
        assert(issues.last() == last);
        let rest = max_activity(d, pid);
        match max_activity(issues, pid) {
            None => {
                assert(rest is None);
                assert(last.project.id != pid);
                assert forall|k: int|
                    0 <= k < issues.len() implies (#[trigger] issues[k]).project.id != pid by {
                    if k < n {
                        assert(d[k].project.id != pid);
                    }
                }
            },
            Some(t) => {
                if last.project.id == pid {
                    match rest {
                        None => {
                            assert(t == last.updated_on);
                            assert(issues[n].project.id == pid && issues[n].updated_on == t);
                            assert forall|k: int|
                                0 <= k < issues.len() && (#[trigger] issues[k]).project.id
                                == pid implies issues[k].updated_on <= t by {
                                if k < n {
                                    assert(d[k].project.id != pid);
                                }
                            }
                        },
                        Some(m0) => {
                            if last.updated_on > m0 {
                                assert(t == last.updated_on);
                                assert(issues[n].project.id == pid && issues[n].updated_on
                                    == t);
                            } else {
                                assert(t == m0);
                                let w = choose|w: int|
                                    0 <= w < d.len() && (#[trigger] d[w]).project.id == pid
                                        && d[w].updated_on == m0;
                                assert(issues[w].project.id == pid && issues[w].updated_on
                                    == t);
                            }
                            assert forall|k: int|
                                0 <= k < issues.len() && (#[trigger] issues[k]).project.id
                                == pid implies issues[k].updated_on <= t by {
                                if k < n {
                                    assert(d[k].updated_on <= m0);
                                }
                            }
                        },
                    }
                } else {
                    assert(rest == Some(t));
                    let w = choose|w: int|
                        0 <= w < d.len() && (#[trigger] d[w]).project.id == pid && d[w].updated_on
                            == t;
                    assert(issues[w].project.id == pid && issues[w].updated_on == t);
                    assert forall|k: int|
                        0 <= k < issues.len() && (#[trigger] issues[k]).project.id
                        == pid implies issues[k].updated_on <= t by {
                        if k < n {
                            assert(d[k].updated_on <= t);
                        }
                    }
                }
            },
        }
    }
}

// Helper facts about the batch issue upsert.

/// One row's upsert pins its own id's lookup and leaves the others.
proof fn lemma_upsert_issue_row_lookup(s: Seq<IssueView>, p: IssueView)
    requires
        unique_issue_ids(s),
    ensures
        unique_issue_ids(upsert_issue_row(s, p)),
        issue_lookup(upsert_issue_row(s, p), p.id) == Some(p),
        forall|id2: u64| id2 != p.id ==> issue_lookup(upsert_issue_row(s, p), id2)
            == issue_lookup(s, id2),
{
    let t = upsert_issue_row(s, p);
    if issue_has_id(s, p.id) {
        let idx = issue_index_of(s, p.id);
        assert(0 <= idx < s.len() && s[idx].id == p.id);
        assert(t =~= s.update(idx, p));
        assert forall|i: int, j: int| 0 <= i < j < t.len() implies t[i].id != t[j].id by {
            assert(s[i].id != s[j].id);
        }
        assert(t[idx] == p);
        lemma_unique_issue_index(t, idx, p.id);
        assert forall|id2: u64|
            id2 != p.id implies issue_lookup(t, id2) == issue_lookup(s, id2) by {
            if issue_has_id(s, id2) {
                let j = issue_index_of(s, id2);
                assert(0 <= j < s.len() && s[j].id == id2);
                assert(j != idx);
                assert(t[j] == s[j]);
                lemma_unique_issue_index(t, j, id2);
                lemma_unique_issue_index(s, j, id2);
            } else {
                if issue_has_id(t, id2) {
                    let j = issue_index_of(t, id2);
                    assert(0 <= j < t.len() && t[j].id == id2);
                    assert(j != idx);
                    assert(s[j].id == id2);
                }
            }
        }
    } else {
        assert(t =~= s.push(p));
        assert forall|i: int, j: int| 0 <= i < j < t.len() implies t[i].id != t[j].id by {
            if j < s.len() {
                assert(s[i].id != s[j].id);
            } else {
                assert(t[j] == p);
                assert(t[i] == s[i]);
            }
        }
        assert(t[s.len() as int] == p);
        lemma_unique_issue_index(t, s.len() as int, p.id);
        assert forall|id2: u64|
            id2 != p.id implies issue_lookup(t, id2) == issue_lookup(s, id2) by {
            if issue_has_id(s, id2) {
                let j = issue_index_of(s, id2);
                assert(0 <= j < s.len() && s[j].id == id2);
                assert(t[j] == s[j]);
                lemma_unique_issue_index(t, j, id2);
                lemma_unique_issue_index(s, j, id2);
            } else {
                if issue_has_id(t, id2) {
                    let j = issue_index_of(t, id2);
                    assert(0 <= j < t.len() && t[j].id == id2);
                    if j < s.len() {
                        assert(s[j].id == id2);
                    }
                }
            }
        }
    }
}

/// With unique ids, the lookup's index is the row's index.
proof fn lemma_unique_issue_index(s: Seq<IssueView>, i: int, id: u64)
    requires
        unique_issue_ids(s),
        0 <= i < s.len(),
        s[i].id == id,
    ensures
        issue_has_id(s, id),
        issue_index_of(s, id) == i,
        issue_lookup(s, id) == Some(s[i]),
{
    assert(issue_has_id(s, id));
    let j = issue_index_of(s, id);
    assert(0 <= j < s.len() && s[j].id == id);
    if j < i {
        assert(s[j].id != s[i].id);
    } else if i < j {
        assert(s[i].id != s[j].id);
    }
}

/// A batch not naming an id leaves that id's lookup alone.
proof fn lemma_upsert_issues_seq_untouched(s: Seq<IssueView>, ps: Seq<IssueView>, id: u64)
    requires
        unique_issue_ids(s),
        forall|j: int| 0 <= j < ps.len() ==> (#[trigger] ps[j]).id != id,
    ensures
        unique_issue_ids(upsert_issues_seq(s, ps)),
        issue_lookup(upsert_issues_seq(s, ps), id) == issue_lookup(s, id),
    decreases ps.len(),
{
    if ps.len() > 0 {
        let s1 = upsert_issue_row(s, normalize_issue(ps[0]));
        lemma_upsert_issue_row_lookup(s, normalize_issue(ps[0]));
        assert(normalize_issue(ps[0]).id == ps[0].id);
        assert forall|j: int|
            0 <= j < ps.drop_first().len() implies (#[trigger] ps.drop_first()[j]).id != id by {
            assert(ps.drop_first()[j] == ps[j + 1]);
        }
        lemma_upsert_issues_seq_untouched(s1, ps.drop_first(), id);
    }
}

/// In a batch with distinct ids, every batch row ends up stored,
/// normalized.
proof fn lemma_upsert_issues_seq_batch(s: Seq<IssueView>, ps: Seq<IssueView>, i: int)
    requires
        unique_issue_ids(s),
        unique_issue_ids(ps),
        0 <= i < ps.len(),
    ensures
        unique_issue_ids(upsert_issues_seq(s, ps)),
        issue_lookup(upsert_issues_seq(s, ps), ps[i].id) == Some(normalize_issue(ps[i])),
    decreases ps.len(),
{
    let s1 = upsert_issue_row(s, normalize_issue(ps[0]));
    lemma_upsert_issue_row_lookup(s, normalize_issue(ps[0]));
    assert(unique_issue_ids(ps.drop_first())) by {
        assert forall|a: int, b: int|
            0 <= a < b < ps.drop_first().len() implies (#[trigger] ps.drop_first()[a]).id != (
        #[trigger] ps.drop_first()[b]).id by {
            assert(ps.drop_first()[a] == ps[a + 1]);
            assert(ps.drop_first()[b] == ps[b + 1]);
        }
    }
    if i == 0 {
        assert forall|j: int|
            0 <= j < ps.drop_first().len() implies (#[trigger] ps.drop_first()[j]).id
            != ps[0].id by {
            assert(ps.drop_first()[j] == ps[j + 1]);
        }
        lemma_upsert_issues_seq_untouched(s1, ps.drop_first(), ps[0].id);
        assert(normalize_issue(ps[0]).id == ps[0].id);
    } else {
        assert(ps.drop_first()[i - 1] == ps[i]);
        lemma_upsert_issues_seq_batch(s1, ps.drop_first(), i - 1);
    }
}

// Helper facts about the batch project upsert.

/// Equality of two project rows on everything the remote service
/// supplies: all fields but the two the store maintains.
spec fn project_fields_eq(a: ProjectView, b: ProjectView) -> bool {
    a.id == b.id && a.name == b.name && a.identifier == b.identifier && a.description
        == b.description && a.status == b.status && a.parent == b.parent && a.created_on
        == b.created_on && a.updated_on == b.updated_on
}

/// Every batch row is already stored, field for field.
spec fn absorbs(t: Seq<ProjectView>, ps: Seq<ProjectView>) -> bool {
    forall|i: int|
        0 <= i < ps.len() ==> match proj_lookup(t, (#[trigger] ps[i]).id) {
            Some(q) => project_fields_eq(q, ps[i]),
            None => false,
        }
}

/// One project row's upsert pins its own id's lookup and leaves the
/// others.
proof fn lemma_upsert_project_row_lookup(s: Seq<ProjectView>, p: ProjectView)
    requires
        unique_project_ids(s),
    ensures
        unique_project_ids(upsert_project_row(s, p)),
        proj_lookup(upsert_project_row(s, p), p.id) == Some(p),
        forall|id2: u64| id2 != p.id ==> proj_lookup(upsert_project_row(s, p), id2)
            == proj_lookup(s, id2),
{
    let t = upsert_project_row(s, p);
    if proj_has_id(s, p.id) {
        let idx = proj_index_of(s, p.id);
        assert(0 <= idx < s.len() && s[idx].id == p.id);
        assert(t =~= s.update(idx, p));
        assert forall|i: int, j: int| 0 <= i < j < t.len() implies t[i].id != t[j].id by {
            assert(s[i].id != s[j].id);
        }
        assert(t[idx] == p);
        lemma_proj_index_is(t, idx, p.id);
        assert forall|id2: u64|
            id2 != p.id implies proj_lookup(t, id2) == proj_lookup(s, id2) by {
            if proj_has_id(s, id2) {
                let j = proj_index_of(s, id2);
                assert(0 <= j < s.len() && s[j].id == id2);
                assert(j != idx);
                assert(t[j] == s[j]);
                lemma_proj_index_is(t, j, id2);
                lemma_proj_index_is(s, j, id2);
            } else {
                if proj_has_id(t, id2) {
                    let j = proj_index_of(t, id2);
                    assert(0 <= j < t.len() && t[j].id == id2);
                    assert(j != idx);
                    assert(s[j].id == id2);
                }
            }
        }
    } else {
        assert(t =~= s.push(p));
        assert forall|i: int, j: int| 0 <= i < j < t.len() implies t[i].id != t[j].id by {
            if j < s.len() {
                assert(s[i].id != s[j].id);
            } else {
                assert(t[j] == p);
                assert(t[i] == s[i]);
            }
        }
        assert(t[s.len() as int] == p);
        lemma_proj_index_is(t, s.len() as int, p.id);
        assert forall|id2: u64|
            id2 != p.id implies proj_lookup(t, id2) == proj_lookup(s, id2) by {
            if proj_has_id(s, id2) {
                let j = proj_index_of(s, id2);
                assert(0 <= j < s.len() && s[j].id == id2);
                assert(t[j] == s[j]);
                lemma_proj_index_is(t, j, id2);
                lemma_proj_index_is(s, j, id2);
            } else {
                if proj_has_id(t, id2) {
                    let j = proj_index_of(t, id2);
                    assert(0 <= j < t.len() && t[j].id == id2);
                    if j < s.len() {
                        assert(s[j].id == id2);
                    }
                }
            }
        }
    }
}

/// A batch not naming an id leaves that id's lookup alone.
proof fn lemma_upsert_projects_seq_untouched(s: Seq<ProjectView>, ps: Seq<ProjectView>, id: u64)
    requires
        unique_project_ids(s),
        forall|j: int| 0 <= j < ps.len() ==> (#[trigger] ps[j]).id != id,
    ensures
        unique_project_ids(upsert_projects_seq(s, ps)),
        proj_lookup(upsert_projects_seq(s, ps), id) == proj_lookup(s, id),
    decreases ps.len(),
{
    if ps.len() > 0 {
        let merged = merge_project(proj_lookup(s, ps[0].id), ps[0]);
        let s1 = upsert_project_row(s, merged);
        assert(merged.id == ps[0].id);
        lemma_upsert_project_row_lookup(s, merged);
        assert forall|j: int|
            0 <= j < ps.drop_first().len() implies (#[trigger] ps.drop_first()[j]).id != id by {
            assert(ps.drop_first()[j] == ps[j + 1]);
        }
        lemma_upsert_projects_seq_untouched(s1, ps.drop_first(), id);
    }
}

/// In a batch with distinct ids, every batch row ends up stored, field
/// for field.
proof fn lemma_upsert_projects_seq_batch(s: Seq<ProjectView>, ps: Seq<ProjectView>, i: int)
    requires
        unique_project_ids(s),
        unique_project_ids(ps),
        0 <= i < ps.len(),
    ensures
        unique_project_ids(upsert_projects_seq(s, ps)),
        match proj_lookup(upsert_projects_seq(s, ps), ps[i].id) {
            Some(q) => project_fields_eq(q, ps[i]),
            None => false,
        },
    decreases ps.len(),
{
    let merged = merge_project(proj_lookup(s, ps[0].id), ps[0]);
    let s1 = upsert_project_row(s, merged);
    assert(merged.id == ps[0].id);
    lemma_upsert_project_row_lookup(s, merged);
    assert(unique_project_ids(ps.drop_first())) by {
        assert forall|a: int, b: int|
            0 <= a < b < ps.drop_first().len() implies (#[trigger] ps.drop_first()[a]).id != (
        #[trigger] ps.drop_first()[b]).id by {
            assert(ps.drop_first()[a] == ps[a + 1]);
            assert(ps.drop_first()[b] == ps[b + 1]);
        }
    }
    if i == 0 {
        assert forall|j: int|
            0 <= j < ps.drop_first().len() implies (#[trigger] ps.drop_first()[j]).id
            != ps[0].id by {
            assert(ps.drop_first()[j] == ps[j + 1]);
        }
        lemma_upsert_projects_seq_untouched(s1, ps.drop_first(), ps[0].id);
        assert(project_fields_eq(merged, ps[0]));
    } else {
        assert(ps.drop_first()[i - 1] == ps[i]);
        lemma_upsert_projects_seq_batch(s1, ps.drop_first(), i - 1);
    }
}

/// Upserting a batch the table already holds, field for field, changes
/// nothing: the merge preserves the stored activity and sync fields,
/// and every other field is already in place.
proof fn lemma_upsert_projects_seq_absorbed(t: Seq<ProjectView>, ps: Seq<ProjectView>)
    requires
        unique_project_ids(t),
        absorbs(t, ps),
    ensures
        upsert_projects_seq(t, ps) == t,
    decreases ps.len(),
{
    if ps.len() > 0 {
        let q = proj_lookup(t, ps[0].id);
        assert(q is Some && project_fields_eq(q.unwrap(), ps[0]));
        let merged = merge_project(q, ps[0]);
        assert(merged == q.unwrap());
        let idx = proj_index_of(t, ps[0].id);
        assert(0 <= idx < t.len() && t[idx].id == ps[0].id);
        assert(t[idx] == q.unwrap());
        assert(upsert_project_row(t, merged) =~= t);
        assert forall|i: int|
            0 <= i < ps.drop_first().len() implies match proj_lookup(
            t,
            (#[trigger] ps.drop_first()[i]).id,
        ) {
            Some(q2) => project_fields_eq(q2, ps.drop_first()[i]),
            None => false,
        } by {
            assert(ps.drop_first()[i] == ps[i + 1]);
        }
        lemma_upsert_projects_seq_absorbed(t, ps.drop_first());
    }
}

/// The recompute touches only activity, so lookups keep their fields,
/// and recomputing twice is recomputing once.
proof fn lemma_recompute_lookup(t: Seq<ProjectView>, issues: Seq<IssueView>, id: u64)
    requires
        unique_project_ids(t),
    ensures
        match proj_lookup(t, id) {
            Some(q) => proj_lookup(recompute_activity(t, issues), id) == Some(
                project_with_activity(q, max_activity(issues, id), q.last_issues_sync),
            ),
            None => proj_lookup(recompute_activity(t, issues), id) is None,
        },
{
    let r = recompute_activity(t, issues);
    assert(r.len() == t.len());
    assert forall|k: int| 0 <= k < t.len() implies (#[trigger] r[k]).id == t[k].id by {}
    lemma_recompute_activity_unique(t, issues);
    if proj_has_id(t, id) {
        let j = proj_index_of(t, id);
        assert(0 <= j < t.len() && t[j].id == id);
        lemma_proj_index_is(t, j, id);
        assert(r[j] == project_with_activity(t[j], max_activity(issues, t[j].id),
            t[j].last_issues_sync));
        lemma_proj_index_is(r, j, id);
    } else {
        if proj_has_id(r, id) {
            let j = proj_index_of(r, id);
            assert(0 <= j < r.len() && r[j].id == id);
            assert(t[j].id == id);
        }
    }
}

/// Recomputing activity twice from the same issues is recomputing once.
proof fn lemma_recompute_idempotent(t: Seq<ProjectView>, issues: Seq<IssueView>)
    ensures
        recompute_activity(recompute_activity(t, issues), issues) == recompute_activity(
            t,
            issues,
        ),
{
    let r1 = recompute_activity(t, issues);
    let r2 = recompute_activity(r1, issues);
    assert forall|k: int| 0 <= k < t.len() implies r2[k] == r1[k] by {
        assert(r1[k] == project_with_activity(t[k], max_activity(issues, t[k].id),
            t[k].last_issues_sync));
        assert(r1[k].id == t[k].id);
    }
    assert(r2 =~= r1);
}

// The laws.

/// Upsert idempotence: upserting the same project batch twice leaves
/// the store exactly as one upsert left it, except for the global
/// projects sync stamp, which advances. In particular the project
/// query returns the same rows with the same field values.
pub proof fn law_upsert_projects_idempotent(
    m: DbView,
    ps: Seq<ProjectView>,
    t1: u64,
    t2: u64,
)
    requires
        m.wf(),
        unique_project_ids(ps),
    ensures
        spec_insert_projects(spec_insert_projects(m, ps, t1), ps, t2) == (DbView {
            projects_last_synced: Some(t2),
            ..spec_insert_projects(m, ps, t1)
        }),
{
    let m1 = spec_insert_projects(m, ps, t1);
    let a = upsert_projects_seq(m.projects, ps);
    let r1 = recompute_activity(a, m.issues);
    lemma_upsert_projects_seq_unique(m.projects, ps);
    lemma_recompute_activity_unique(a, m.issues);
    assert(absorbs(a, ps)) by {
        assert forall|i: int|
            0 <= i < ps.len() implies match proj_lookup(a, (#[trigger] ps[i]).id) {
            Some(q) => project_fields_eq(q, ps[i]),
            None => false,
        } by {
            lemma_upsert_projects_seq_batch(m.projects, ps, i);
        }
    }
    assert(absorbs(r1, ps)) by {
        assert forall|i: int|
            0 <= i < ps.len() implies match proj_lookup(r1, (#[trigger] ps[i]).id) {
            Some(q) => project_fields_eq(q, ps[i]),
            None => false,
        } by {
            lemma_recompute_lookup(a, m.issues, ps[i].id);
        }
    }
    lemma_upsert_projects_seq_absorbed(r1, ps);
    assert(upsert_projects_seq(m1.projects, ps) == r1);
    lemma_recompute_idempotent(a, m.issues);
    assert(m1.issues == m.issues);
    assert(spec_insert_projects(m1, ps, t2) =~= (DbView {
        projects_last_synced: Some(t2),
        ..m1
    }));
}

// The laws.

/// After a project batch upsert, every project's `last_issue_activity`
/// is the activity maximum over its cached issues: re-upserting project
/// metadata never invents or loses activity.
pub proof fn law_upsert_projects_recomputes_activity(
    m: DbView,
    ps: Seq<ProjectView>,
    now: u64,
    k: int,
)
    requires
        0 <= k < spec_insert_projects(m, ps, now).projects.len(),
    ensures
        (#[trigger] spec_insert_projects(m, ps, now).projects[k]).last_issue_activity
            == max_activity(m.issues, spec_insert_projects(m, ps, now).projects[k].id),
{
}

/// Activity preservation: a project whose cached activity agrees with
/// its cached issues (which the store maintains) keeps that activity,
/// unchanged, across a metadata re-upsert that carries no activity.
pub proof fn law_upsert_projects_preserves_activity(
    m: DbView,
    ps: Seq<ProjectView>,
    now: u64,
    pid: u64,
    q: ProjectView,
)
    requires
        proj_lookup(m.projects, pid) == Some(q),
        q.last_issue_activity == max_activity(m.issues, pid),
    ensures
        forall|k: int|
            0 <= k < spec_insert_projects(m, ps, now).projects.len() && (
            #[trigger] spec_insert_projects(m, ps, now).projects[k]).id == pid
                ==> spec_insert_projects(m, ps, now).projects[k].last_issue_activity
                == q.last_issue_activity,
{
    assert forall|k: int|
        0 <= k < spec_insert_projects(m, ps, now).projects.len() && (
        #[trigger] spec_insert_projects(m, ps, now).projects[k]).id == pid
            implies spec_insert_projects(m, ps, now).projects[k].last_issue_activity
            == q.last_issue_activity by {
        law_upsert_projects_recomputes_activity(m, ps, now, k);
    }
}

/// Activity recompute: after an issue batch upsert with distinct issue
/// ids, every touched project's `last_issue_activity` equals the
/// maximum `updated_on` over all issues then cached for it.
pub proof fn law_upsert_issues_recomputes_activity(
    m: DbView,
    ps: Seq<IssueView>,
    now: u64,
)
    requires
        m.wf(),
        unique_issue_ids(ps),
    ensures
        forall|k: int|
            0 <= k < spec_insert_issues(m, ps, now).projects.len() && batch_project_ids(
                ps,
            ).contains((#[trigger] spec_insert_issues(m, ps, now).projects[k]).id)
                ==> spec_insert_issues(m, ps, now).projects[k].last_issue_activity
                == max_activity(spec_insert_issues(m, ps, now).issues,
                spec_insert_issues(m, ps, now).projects[k].id),
{
    let after = spec_insert_issues(m, ps, now);
    let issues2 = upsert_issues_seq(m.issues, ps);
    assert forall|k: int|
        0 <= k < after.projects.len() && batch_project_ids(ps).contains(
            (#[trigger] after.projects[k]).id,
        ) implies after.projects[k].last_issue_activity == max_activity(
        after.issues,
        after.projects[k].id,
    ) by {
        let pid = m.projects[k].id;
        assert(after.projects[k].id == pid);
        let i = choose|i: int| 0 <= i < ps.len() && (#[trigger] ps[i]).project.id == pid;
        lemma_upsert_issues_seq_batch(m.issues, ps, i);
        let stored = normalize_issue(ps[i]);
        assert(issue_lookup(issues2, ps[i].id) == Some(stored));
        assert(issue_has_id(issues2, ps[i].id));
        let w = issue_index_of(issues2, ps[i].id);
        assert(issues2[w] == stored);
        assert(stored.project.id == pid);
        lemma_max_activity_characterized(issues2, pid);
        assert(!(max_activity(issues2, pid) is None));
    }
}

/// Cascade delete: clearing a project leaves no issue of it, no journal
/// row of any of its issues, and every other journal row untouched.
pub proof fn law_clear_project_issues(m: DbView, pid: u64)
    ensures
        forall|k: int|
            0 <= k < spec_clear_project_issues(m, pid).issues.len() ==> (
            #[trigger] spec_clear_project_issues(m, pid).issues[k]).project.id != pid,
        forall|k: int|
            0 <= k < spec_clear_project_issues(m, pid).journals.len() ==> !issue_of_project(
                m.issues,
                (#[trigger] spec_clear_project_issues(m, pid).journals[k]).issue_id,
                pid,
            ),
        forall|k: int|
            0 <= k < m.issues.len() && (#[trigger] m.issues[k]).project.id != pid
                ==> spec_clear_project_issues(m, pid).issues.contains(m.issues[k]),
        forall|k: int|
            0 <= k < m.journals.len() && !issue_of_project(
                m.issues,
                (#[trigger] m.journals[k]).issue_id,
                pid,
            ) ==> spec_clear_project_issues(m, pid).journals.contains(m.journals[k]),
{
    broadcast use vstd::seq_lib::group_filter_ensures;

    let after = spec_clear_project_issues(m, pid);
    assert forall|k: int|
        0 <= k < after.issues.len() implies (#[trigger] after.issues[k]).project.id != pid by {
        assert(clear_keep_issue_fn(pid)(after.issues[k]));
    }
    assert forall|k: int|
        0 <= k < after.journals.len() implies !issue_of_project(
        m.issues,
        (#[trigger] after.journals[k]).issue_id,
        pid,
    ) by {
        assert(clear_keep_journal_fn(m.issues, pid)(after.journals[k]));
    }
}

/// Journal replace-wholesale: refreshing the same issue twice leaves
/// exactly the second refresh's journal set; nothing merges or
/// accumulates.
pub proof fn law_journals_replaced_wholesale(
    m: DbView,
    p1: IssueView,
    p2: IssueView,
    t1: u64,
    t2: u64,
)
    requires
        p1.id == p2.id,
    ensures
        spec_insert_issue_with_journals(
            spec_insert_issue_with_journals(m, p1, t1),
            p2,
            t2,
        ).journals == m.journals.filter(journal_not_of_issue_fn(p2.id)) + journal_rows_of(
            p2.id,
            p2.journals,
        ),
{
    broadcast use vstd::seq_lib::group_filter_ensures;

    let keep = journal_not_of_issue_fn(p2.id);
    let mid = m.journals.filter(journal_not_of_issue_fn(p1.id)) + journal_rows_of(
        p1.id,
        p1.journals,
    );
    assert(journal_not_of_issue_fn(p1.id) == keep);
    let a = m.journals.filter(keep);
    let b = journal_rows_of(p1.id, p1.journals);
    lemma_filter_concat(a, b, keep);
    assert forall|k: int| 0 <= k < a.len() implies keep(#[trigger] a[k]) by {}
    lemma_filter_all(a, keep);
    assert forall|k: int| 0 <= k < b.len() implies !keep(#[trigger] b[k]) by {
        assert(b[k].issue_id == p1.id);
    }
    lemma_filter_none(b, keep);
    assert(mid.filter(keep) =~= a);
}

/// Round trip: an issue stored with its journals in creation order is
/// fetched back whole — the same scalar fields, and exactly its
/// journals in the same order, each with its detail list (the store
/// normalizes what it never stores: the project display name and each
/// journal's private-notes flag).
pub proof fn law_issue_journal_round_trip(m: DbView, p: IssueView, now: u64)
    requires
        m.wf(),
        forall|a: int, b: int|
            0 <= a < b < p.journals.len() ==> (#[trigger] p.journals[a]).created_on <= (
            #[trigger] p.journals[b]).created_on,
    ensures
        spec_get_issue_with_journals(spec_insert_issue_with_journals(m, p, now), p.id) == Some(
            IssueView { journals: normalized_journals(p.journals), ..normalize_issue(p) },
        ),
{
    broadcast use vstd::seq_lib::group_filter_ensures;

    let after = spec_insert_issue_with_journals(m, p, now);
    lemma_upsert_issue_row_lookup(m.issues, normalize_issue(p));
    assert(normalize_issue(p).id == p.id);
    assert(issue_lookup(after.issues, p.id) == Some(normalize_issue(p)));
    let sel = journal_of_issue_fn(p.id);
    let a = m.journals.filter(journal_not_of_issue_fn(p.id));
    let b = journal_rows_of(p.id, p.journals);
    lemma_filter_concat(a, b, sel);
    assert forall|k: int| 0 <= k < a.len() implies !sel(#[trigger] a[k]) by {
        assert(journal_not_of_issue_fn(p.id)(a[k]));
    }
    lemma_filter_none(a, sel);
    assert forall|k: int| 0 <= k < b.len() implies sel(#[trigger] b[k]) by {
        assert(b[k].issue_id == p.id);
    }
    lemma_filter_all(b, sel);
    assert(after.journals.filter(sel) =~= b);
    let js = b.map_values(journal_row_journal_fn());
    assert(js =~= normalized_journals(p.journals));
    assert(sorted_by(js, journal_created_leq_fn())) by {
        assert forall|x: int, y: int|
            0 <= x < y < js.len() implies journal_created_leq_fn()(js[x], js[y]) by {
            assert(js[x] == normalize_journal(p.journals[x]));
            assert(js[y] == normalize_journal(p.journals[y]));
        }
    }
    lemma_sort_by_asc_of_sorted(js, journal_created_leq_fn());
    assert(spec_get_issue_with_journals(after, p.id) == Some(
        IssueView { journals: js, ..normalize_issue(p) },
    ));
}

/// Filter correctness: the issue query returns exactly the cached rows
/// matching the project, assignee and text filters — the same rows with
/// the same counts, only reordered.
pub proof fn law_query_issues_exact_filter(
    m: DbView,
    pid: Option<u64>,
    order: IssueSortOrder,
    f: Option<Seq<char>>,
    assignee: Option<u64>,
)
    ensures
        spec_get_issues(m, pid, order, f, assignee).to_multiset() == m.issues.filter(
            issue_filter_fn(pid, f, assignee),
        ).to_multiset(),
{
    broadcast use group_to_multiset_ensures;

    let rows = m.issues.filter(issue_filter_fn(pid, f, assignee));
    match order {
        IssueSortOrder::UpdatedDesc => {
            lemma_sort_by_asc_multiset(rows, crate::db::issue_updated_leq_fn());
            sort_by_asc(rows, crate::db::issue_updated_leq_fn()).lemma_reverse_to_multiset();
        },
        IssueSortOrder::StatusAsc => {
            lemma_sort_by_asc_multiset(rows, crate::db::issue_status_leq_fn());
        },
        IssueSortOrder::StatusDesc => {
            lemma_sort_by_asc_multiset(rows, crate::db::issue_status_leq_fn());
            sort_by_asc(rows, crate::db::issue_status_leq_fn()).lemma_reverse_to_multiset();
        },
        IssueSortOrder::PriorityAsc => {
            lemma_sort_by_asc_multiset(rows, issue_priority_leq_fn());
        },
        IssueSortOrder::PriorityDesc => {
            lemma_sort_by_asc_multiset(rows, issue_priority_leq_fn());
            sort_by_asc(rows, issue_priority_leq_fn()).lemma_reverse_to_multiset();
        },
    }
}

/// Sort order: the priority-ascending query is non-decreasing by
/// priority id.
pub proof fn law_query_issues_priority_sorted(
    m: DbView,
    pid: Option<u64>,
    f: Option<Seq<char>>,
    assignee: Option<u64>,
)
    ensures
        forall|i: int, j: int|
            0 <= i < j < spec_get_issues(m, pid, IssueSortOrder::PriorityAsc, f, assignee).len()
                ==> (#[trigger] spec_get_issues(m, pid, IssueSortOrder::PriorityAsc, f, assignee)[i]).priority.id
                <= (#[trigger] spec_get_issues(m, pid, IssueSortOrder::PriorityAsc, f, assignee)[j]).priority.id,
{
    let rows = m.issues.filter(issue_filter_fn(pid, f, assignee));
    let leq = issue_priority_leq_fn();
    assert(forall|a: IssueView, b: IssueView| #[trigger] leq(a, b) || #[trigger] leq(b, a));
    assert(forall|a: IssueView, b: IssueView, c: IssueView|
        #[trigger] leq(a, b) && #[trigger] leq(b, c) ==> leq(a, c));
    lemma_sort_by_asc_sorted(rows, leq);
    let out = sort_by_asc(rows, leq);
    assert forall|i: int, j: int|
        0 <= i < j < out.len() implies (#[trigger] out[i]).priority.id <= (
    #[trigger] out[j]).priority.id by {
        assert(sorted_by(out, leq));
        assert(leq(out[i], out[j]));
    }
}

/// Sort order: the priority-descending query is the exact reverse of
/// the priority-ascending query over the same filtered set.
pub proof fn law_query_issues_priority_desc_reverse(
    m: DbView,
    pid: Option<u64>,
    f: Option<Seq<char>>,
    assignee: Option<u64>,
)
    ensures
        spec_get_issues(m, pid, IssueSortOrder::PriorityDesc, f, assignee) == spec_get_issues(
            m,
            pid,
            IssueSortOrder::PriorityAsc,
            f,
            assignee,
        ).reverse(),
{
}

} // verus!
