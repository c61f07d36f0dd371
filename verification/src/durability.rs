//! Coalescing of durability-sync requests.
//!
//! The persistent store offers one sync primitive. The manager keeps at
//! most one sync logically in flight: a request made while one is pending
//! coalesces into it instead of issuing a second. A sync that fails is
//! reported as a diagnostic only — durability is best-effort, and a
//! failed sync never fails the upload job.

use vstd::prelude::*;

use crate::UploadError;

verus! {

/// Wraps the persistent store's sync primitive and coalesces requests so
/// that at most one sync is in flight.
pub struct DurabilityManager {
    pending: bool,
}

impl DurabilityManager {
    /// Whether a sync is currently in flight.
    pub closed spec fn sync_pending(&self) -> bool {
        self.pending
    }

    /// A manager with no sync in flight.
    pub fn new() -> (m: Self)
        ensures
            !m.sync_pending(),
    {
        DurabilityManager { pending: false }
    }

    /// Requests that the store reach a durable state reflecting all
    /// appends issued so far. Returns whether a new sync must actually be
    /// issued: while one is already in flight the request coalesces into
    /// it and no second sync starts.
    pub fn request_sync(&mut self) -> (issue: bool)
        ensures
            final(self).sync_pending(),
            issue == !old(self).sync_pending(),
    {
        let issue = !self.pending;
        self.pending = true;
        issue
    }

    /// Records the completion of the in-flight sync. A failed sync yields
    /// a diagnostic `SyncFailure` for the log; it is never fatal to the
    /// job, which continues.
    pub fn sync_completed(&mut self, success: bool) -> (diagnostic: Option<UploadError>)
        requires
            old(self).sync_pending(),
        ensures
            !final(self).sync_pending(),
            diagnostic == (if success {
                Option::<UploadError>::None
            } else {
                Option::Some(UploadError::SyncFailure)
            }),
    {
        self.pending = false;
        if success {
            None
        } else {
            Some(UploadError::SyncFailure)
        }
    }
}

} // verus!
