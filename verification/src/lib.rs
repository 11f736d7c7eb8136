//! The verified core of an interactive, resumable model conversation:
//! the message model and its lossless line format, the append-only
//! history store's exact durable bytes, the pending-call sidecar, the
//! stream assembler that folds chunked model output into history
//! entries, and the state machine that decides each step of a session.
//! Everything durable or decided is specified here; the unverified edge
//! around this crate only moves bytes between these functions, the
//! disk, the console and the completion provider.

pub mod assembler;
pub mod codec;
pub mod machine;
pub mod message;
pub mod store;

use vstd::prelude::*;

verus! {

/// The errors this library can report. Every failure is fatal for the
/// current run: the transcript is the sole source of truth, and continuing
/// past a broken store or an unrecognised chunk would corrupt it silently.
#[derive(Clone, Copy, PartialEq, Eq, Structural, Debug)]
pub enum CoreError {
    /// A persisted line failed to deserialize on load.
    CorruptHistory,
    /// Durable storage could not be reached for an append or a load.
    StorageUnavailable,
    /// The completion call or its stream failed.
    ProviderFailure,
    /// The stream produced a chunk kind the assembler does not recognise.
    UnsupportedChunk,
}

} // verus!
