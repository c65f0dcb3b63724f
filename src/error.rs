use vstd::prelude::*;

verus! {

/// The ways an operation on a block or on the chain can fail.
#[derive(Debug, Clone, Copy, PartialEq, Eq, Structural)]
pub enum ChainError {
    /// The system clock could not be read as a time after the Unix epoch.
    Clock,
    /// A value could not be encoded, or stored bytes could not be decoded.
    Encoding,
    /// The key-value store failed to open, read, write or flush.
    Store,
    /// Stored tip bytes are not valid UTF-8 text.
    Utf8,
    /// Every nonce of the search range was tried without meeting the target.
    Exhausted,
}

} // verus!
