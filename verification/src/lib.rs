//! Chunked-upload pipeline for assembling a large byte source into an
//! append-only destination object, in bounded-size chunks, while chunk
//! decodes complete out of program order.
//!
//! The core is [`sequencer::ChunkSequencer`]: it receives decoded chunks in
//! arbitrary order and emits append commands strictly in chunk-index order,
//! so the destination object always equals the concatenation of the chunks
//! in index order. Around it stand chunk descriptor generation
//! ([`chunks`]), the reassembly theory ([`assembly`]), the append-only
//! destination object ([`sink`]), a whole-job driver ([`pipeline`]), the
//! durability-sync coalescer ([`durability`]), and the catalog of
//! finished files ([`catalog`]).

use vstd::prelude::*;

pub mod assembly;
pub mod catalog;
pub mod chunks;
pub mod durability;
pub mod pipeline;
pub mod sequencer;
pub mod sink;

verus! {

/// The error taxonomy of the upload system.
///
/// `CreateFailure`, `ReadFailure`, `WriteFailure` and `FlushFailure` are
/// fatal to the upload job. `SyncFailure` is diagnostic only: durability is
/// best-effort and a failed sync never fails the job. `DeleteFailure` is
/// fatal to the single delete action that raised it, not to anything else.
#[derive(Clone, Copy, Debug, PartialEq, Eq, Structural)]
pub enum UploadError {
    CreateFailure,
    ReadFailure,
    WriteFailure,
    FlushFailure,
    SyncFailure,
    DeleteFailure,
}

impl UploadError {
    /// Whether this error halts the upload state machine when it occurs on
    /// the upload path. Sync failures are reported but never halt the job,
    /// and a delete failure concerns one catalog action only.
    pub open spec fn fatal_to_job(self) -> bool {
        match self {
            UploadError::CreateFailure => true,
            UploadError::ReadFailure => true,
            UploadError::WriteFailure => true,
            UploadError::FlushFailure => true,
            UploadError::SyncFailure => false,
            UploadError::DeleteFailure => false,
        }
    }

    /// Executable form of [`UploadError::fatal_to_job`].
    pub fn is_fatal_to_job(&self) -> (r: bool)
        ensures
            r == self.fatal_to_job(),
    {
        match self {
            UploadError::CreateFailure => true,
            UploadError::ReadFailure => true,
            UploadError::WriteFailure => true,
            UploadError::FlushFailure => true,
            UploadError::SyncFailure => false,
            UploadError::DeleteFailure => false,
        }
    }

    /// A human-readable description of the error.
    pub fn describe(&self) -> (r: String)
        ensures
            match self {
                UploadError::CreateFailure => r@ == "failed to create the destination object"@,
                UploadError::ReadFailure => r@ == "failed to read a chunk of the source"@,
                UploadError::WriteFailure => r@ == "failed to append to the destination object"@,
                UploadError::FlushFailure => r@ == "failed to flush the destination object"@,
                UploadError::SyncFailure => r@ == "durability sync failed"@,
                UploadError::DeleteFailure => r@ == "failed to delete the file"@,
            },
    {
        match self {
            UploadError::CreateFailure => "failed to create the destination object".to_owned(),
            UploadError::ReadFailure => "failed to read a chunk of the source".to_owned(),
            UploadError::WriteFailure => "failed to append to the destination object".to_owned(),
            UploadError::FlushFailure => "failed to flush the destination object".to_owned(),
            UploadError::SyncFailure => "durability sync failed".to_owned(),
            UploadError::DeleteFailure => "failed to delete the file".to_owned(),
        }
    }
}

} // verus!
