//! The incremental sync controller: resumable, page-at-a-time issue
//! sync for one project, and the pagination decisions the synchronous
//! project/user loops share. The remote fetches themselves are the
//! caller's concern; the controller carries the in-flight state, decides
//! when a cycle is complete, and merges a completed cycle into the cache
//! in one batch — a failed page discards the buffer and flushes nothing.

use vstd::prelude::*;

use crate::db::{
    batch_project_ids, collect_project_ids, compute_max_activity, issues_view, max_activity,
    spec_insert_issues, Database,
};
use crate::error::CacheError;
use crate::laws::lemma_max_activity_characterized;
use crate::redmine::Issue;

verus! {

/// How many rows one remote page asks for.
pub const PAGE_SIZE: usize = 100;

/// What one successful page did to the sync.
#[derive(Debug, Clone, Copy, PartialEq, Eq, Structural)]
pub enum PageOutcome {
    /// More pages remain; fetch the next at the new offset.
    Continue,
    /// The cycle finished and the buffer was merged into the cache.
    Completed,
}

/// The in-flight state of one project's issue sync. All of it is local
/// to one cycle and discarded on completion or error; a retried sync
/// starts from an empty buffer.
pub struct IssueSyncState {
    /// A cycle is running; `begin` on a running cycle is a no-op.
    pub in_progress: bool,
    /// Rows fetched so far (the buffer's length while in progress; kept
    /// after completion for the status line).
    pub loaded_count: usize,
    /// The total the remote service last reported; authoritative once
    /// known.
    pub total_count: usize,
    /// Rows fetched but not yet merged.
    pub buffer: Vec<Issue>,
}

impl IssueSyncState {
    /// An idle controller.
    pub fn new() -> (r: IssueSyncState)
        ensures
            r.in_progress == false,
            r.loaded_count == 0,
            r.total_count == 0,
            r.buffer@.len() == 0,
    {
        IssueSyncState { in_progress: false, loaded_count: 0, total_count: 0, buffer: Vec::new() }
    }

    /// Start a cycle: reset the buffer and counts, unless a cycle is
    /// already running, in which case nothing changes.
    pub fn begin(&mut self)
        ensures
            old(self).in_progress ==> *final(self) == *old(self),
            !old(self).in_progress ==> final(self).in_progress && final(self).loaded_count == 0
                && final(self).total_count == 0 && final(self).buffer@.len() == 0,
    {
        if !self.in_progress {
            self.in_progress = true;
            self.loaded_count = 0;
            self.total_count = 0;
            self.buffer.clear();
        }
    }

    /// The offset the next page must be fetched at: pages are fetched
    /// in strictly increasing offset order, one after the other.
    pub fn next_offset(&self) -> (r: usize)
        ensures
            r == self.buffer@.len(),
    {
        self.buffer.len()
    }

    /// Fold one successfully fetched page in. The cycle is complete
    /// when the page came back short or the running count has reached
    /// the reported total; a complete cycle merges the whole buffer
    /// into the cache in one batch, stamped `now`, and returns to idle.
    pub fn on_page_success(
        &mut self,
        db: &mut Database,
        page_issues: Vec<Issue>,
        total_count: Option<u32>,
        now: u64,
    ) -> (r: Result<PageOutcome, CacheError>)
        requires
            old(self).in_progress,
            old(db).wf(),
            old(self).buffer@.len() + page_issues@.len() <= usize::MAX,
        ensures
            r is Ok,
            final(db).wf(),
            final(self).total_count == (match total_count {
                Some(t) => t as usize,
                None => 0,
            }),
            ({
                let complete = page_issues@.len() < PAGE_SIZE || old(self).buffer@.len()
                    + page_issues@.len() >= (match total_count {
                    Some(t) => t as usize,
                    None => 0,
                });
                if complete {
                    &&& r == Ok::<PageOutcome, CacheError>(PageOutcome::Completed)
                    &&& final(self).in_progress == false
                    &&& final(self).buffer@.len() == 0
                    &&& final(self).loaded_count == old(self).buffer@.len()
                        + page_issues@.len()
                    &&& final(db)@ == spec_insert_issues(
                        old(db)@,
                        issues_view(old(self).buffer@ + page_issues@),
                        now,
                    )
                } else {
                    &&& r == Ok::<PageOutcome, CacheError>(PageOutcome::Continue)
                    &&& final(self).in_progress == true
                    &&& final(self).buffer@ == old(self).buffer@ + page_issues@
                    &&& final(self).loaded_count == final(self).buffer@.len()
                    &&& final(db)@ == old(db)@
                }
            }),
    {
        let received: usize = page_issues.len();
        let total: usize = match total_count {
            Some(t) => t as usize,
            None => 0,
        };
        let mut page = page_issues;
        self.buffer.append(&mut page);
        self.loaded_count = self.buffer.len();
        self.total_count = total;
        if received < PAGE_SIZE || self.loaded_count >= self.total_count {
            let merged = db.insert_issues_at(&self.buffer, now);
            match merged {
                Ok(()) => {},
                Err(_) => {},
            }
            self.buffer.clear();
            self.in_progress = false;
            Ok(PageOutcome::Completed)
        } else {
            Ok(PageOutcome::Continue)
        }
    }

    /// A page fetch failed: abort the cycle, discard the buffer, flush
    /// nothing, and return to idle. The user must re-trigger the sync.
    pub fn on_page_error(&mut self)
        ensures
            final(self).in_progress == false,
            final(self).buffer@.len() == 0,
            final(self).loaded_count == old(self).loaded_count,
            final(self).total_count == old(self).total_count,
    {
        self.in_progress = false;
        self.buffer.clear();
    }
}

/// Whether a synchronous pagination loop (projects, users) is done:
/// the accumulated rows have reached the reported total, or the page
/// came back short.
pub fn pages_done(fetched: usize, accumulated: usize, total_count: Option<u32>, limit: usize) -> (r:
    bool)
    ensures
        r == ((match total_count {
            Some(t) => accumulated >= t as usize,
            None => false,
        }) || fetched < limit),
{
    let total_reached: bool = match total_count {
        Some(t) => accumulated >= t as usize,
        None => false,
    };
    total_reached || fetched < limit
}

/// The most recent `updated_on` per project among a fetched issue list:
/// the enrichment a full project sync seeds `last_issue_activity` with.
/// Every project the list touches appears exactly once, with the
/// maximum `updated_on` among the list's issues for it.
#[verifier::loop_isolation(false)]
pub fn project_activity_from_issues(issues: &Vec<Issue>) -> (r: Vec<(u64, u64)>)
    ensures
        forall|k: int| 0 <= k < r@.len() ==> batch_project_ids(issues_view(issues@)).contains(
            (#[trigger] r@[k]).0,
        ) && max_activity(issues_view(issues@), r@[k].0) == Some(r@[k].1),
        forall|pid: u64| batch_project_ids(issues_view(issues@)).contains(pid) ==> exists|k: int|
            0 <= k < r@.len() && (#[trigger] r@[k]).0 == pid,
        forall|a: int, b: int| 0 <= a < b < r@.len() ==> (#[trigger] r@[a]).0 != (
        #[trigger] r@[b]).0,
{
    let ghost iv = issues_view(issues@);
    let pids: Vec<u64> = collect_project_ids(issues);
    let mut r: Vec<(u64, u64)> = Vec::new();
    let mut i: usize = 0;
    while i < pids.len()
        invariant
            i <= pids@.len(),
            r@.len() == i,
            forall|k: int| 0 <= k < i ==> (#[trigger] r@[k]).0 == pids@[k],
            forall|k: int| 0 <= k < i ==> max_activity(iv, (#[trigger] r@[k]).0) == Some(
                r@[k].1,
            ),
        decreases pids@.len() - i,
    {
        let pid: u64 = pids[i];
        proof {
            assert(pids@[i as int] == pid);
            assert(pids@.contains(pid));
            assert(batch_project_ids(iv).contains(pid));
        }
        match compute_max_activity(issues, pid) {
            Some(t) => {
                r.push((pid, t));
            },
            None => {
                proof {
                    lemma_max_activity_characterized(iv, pid);
                    let w = choose|w: int| 0 <= w < iv.len() && (#[trigger] iv[w]).project.id
                        == pid;
                    assert(iv[w].project.id != pid);
                    assert(false);
                }
            },
        }
        i = i + 1;
    }
    proof {
        assert forall|k: int|
            0 <= k < r@.len() implies batch_project_ids(iv).contains((#[trigger] r@[k]).0) by {
            assert(r@[k].0 == pids@[k]);
            assert(pids@.contains(pids@[k]));
        }
        assert forall|pid: u64|
            batch_project_ids(iv).contains(pid) implies exists|k: int|
            0 <= k < r@.len() && (#[trigger] r@[k]).0 == pid by {
            assert(pids@.contains(pid));
            let k = choose|k: int| 0 <= k < pids@.len() && pids@[k] == pid;
            assert(r@[k].0 == pid);
        }
        assert forall|a: int, b: int|
            0 <= a < b < r@.len() implies (#[trigger] r@[a]).0 != (#[trigger] r@[b]).0 by {
            assert(r@[a].0 == pids@[a] && r@[b].0 == pids@[b]);
        }
    }
    r
}

} // verus!
