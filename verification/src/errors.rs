//! Error taxonomy of the asset pipeline.
//!
//! Every failure is local to a single path and is surfaced through
//! `get`/`status`/`error` queries; nothing here aborts the process.

use vstd::prelude::*;

verus! {

/// Why a byte buffer could not be decoded into an image.
#[derive(Debug, Clone, Copy, PartialEq, Eq, Structural)]
pub enum DecodeError {
    /// The input ends before the declared pixel payload is complete
    /// (or before the header itself is complete).
    Truncated,
    /// The header declares a channel layout or size the decoder does
    /// not handle.
    Unsupported,
    /// The input carries more bytes than the declared payload needs.
    Corrupt,
}

/// Why a referenced image failed, as recorded in a construction error.
#[derive(Debug, Clone, Copy, PartialEq, Eq, Structural)]
pub enum ImageFailure {
    /// The underlying byte fetch for the image failed.
    IoError,
    /// The image bytes could not be decoded.
    DecodeFailed(DecodeError),
}

/// A per-path load failure.
#[derive(Debug, Clone, Copy, PartialEq, Eq, Structural)]
pub enum LoadError {
    /// The underlying byte fetch failed (file missing or unreadable).
    IoError,
    /// The descriptor text could not be parsed.
    MalformedDescriptor,
    /// The image bytes could not be decoded.
    DecodeFailed(DecodeError),
    /// Material construction failed because a referenced texture
    /// itself failed; wraps that texture's failure.
    ConstructionError(ImageFailure),
}

} // verus!
