use vstd::prelude::*;

verus! {

/// The ways a pipeline run can fail. Cache read and decode failures are
/// recovered locally (treated as a cache miss) and never surface; a fetch
/// failure during pagination only ends the run early with a partial result.
#[derive(Clone, Copy, Debug, PartialEq, Eq, Structural)]
pub enum AppError {
    /// A transport-level failure (DNS, connection reset, timeout).
    Network,
    /// A non-2xx, non-429 response with its status code.
    HttpStatus(u16),
    /// HTTP 429 after the retry budget ran out; carries the retries used.
    RateLimited(u64),
    /// A cache read or write failed at the file level.
    Io,
    /// A cache entry could not be decompressed or decoded.
    Decode,
    /// A malformed input, such as a bad repository reference.
    Invalid,
}

} // verus!
