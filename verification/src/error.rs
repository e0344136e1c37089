//! Typed failures the core reports: storage failures from the cache, and
//! remote-fetch failures from a sync cycle. Both are surfaced as
//! dismissible messages and never terminate the process.

use vstd::prelude::*;

verus! {

/// A storage failure while reading or writing the cache.
#[derive(Debug, Clone)]
pub enum CacheError {
    /// The backing store rejected an operation; the message names it.
    Storage(String),
}

impl CacheError {
    /// A short message for the status line.
    pub fn message(&self) -> (r: &String)
        ensures
            self matches CacheError::Storage(m) && r@ == m@,
    {
        match self {
            CacheError::Storage(m) => m,
        }
    }
}

/// A remote-fetch failure encountered mid-sync: the cycle is aborted,
/// buffered rows are discarded, and the user must re-trigger the sync.
#[derive(Debug, Clone)]
pub enum SyncError {
    /// The remote service call failed; the message names the operation.
    Remote(String),
}

impl SyncError {
    /// A short message for the status line.
    pub fn message(&self) -> (r: &String)
        ensures
            self matches SyncError::Remote(m) && r@ == m@,
    {
        match self {
            SyncError::Remote(m) => m,
        }
    }
}

} // verus!
