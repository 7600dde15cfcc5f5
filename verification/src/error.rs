//! Error taxonomy of the decoding pipeline.
use vstd::prelude::*;

verus! {

/// What can go wrong while decoding one archive entry.
#[derive(Clone, Copy, PartialEq, Eq, Structural, Debug)]
pub enum PakError {
    /// An upstream read or write failed.
    IoError,
    /// The entry declares a ZIP compression method the pipeline does not handle.
    UnsupportedCodec,
    /// A compressed stream (deflate, zlib, or the inner envelope) is corrupt.
    CodecError,
    /// A format decoder rejected the payload.
    ParseError,
    /// The requested output encoding is reserved and not yet available.
    Unimplemented,
}

impl PakError {
    /// Short description, for callers that report errors as text.
    pub fn describe(&self) -> &'static str {
        match self {
            PakError::IoError => "read or write failed",
            PakError::UnsupportedCodec => "compression method not supported",
            PakError::CodecError => "corrupt compressed stream",
            PakError::ParseError => "payload rejected by format decoder",
            PakError::Unimplemented => "output encoding not implemented",
        }
    }
}

} // verus!
