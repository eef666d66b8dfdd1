//! The ways in which an upload can fail.

use vstd::prelude::*;

verus! {

/// Why a step of the upload failed.
#[derive(Clone, Copy, Debug, PartialEq, Eq, Structural)]
pub enum UploadError {
    /// Received bytes hold an escape byte that is not followed by one of the
    /// two escape codes, or are too short to hold an acknowledgement.
    FramingError,
    /// The acknowledgement carries another sequence number than the frame
    /// that was sent calls for.
    SequenceMismatch,
    /// The port produced no acknowledgement in time.
    Timeout,
    /// The port could not be opened, written or read.
    IoError,
    /// No port matches the selection.
    NotFound,
    /// The request cannot be carried out as stated.
    ValidationError,
}

} // verus!
