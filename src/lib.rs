//! Reading GMA addon archives and planning the extraction of their files.
use vstd::prelude::*;

pub mod cursor;
pub mod text;
pub mod archive;
pub mod paths;
pub mod extract;
pub mod laws;

verus! {

/// Why decoding or extracting an archive stopped.
#[derive(Debug, Clone, Copy, PartialEq, Eq, Structural)]
pub enum GmaError {
    /// The stream does not start with the archive signature.
    InvalidFormat,
    /// The stream ended before a field or a payload was complete.
    Truncated,
    /// A record name would place its file outside the extraction target.
    UnsafePath,
}

} // verus!
