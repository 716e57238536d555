use vstd::prelude::*;

verus! {

/// Error returned by the fingerprinting operations.
///
/// Every error is recoverable: it is reported to the immediate caller as an
/// explicit value, and no operation retries, since all operations are pure
/// and deterministic.
#[derive(Clone, Copy, Debug, PartialEq, Eq, Structural)]
pub enum IngestError {
    /// Keyed hashing was invoked with a key whose length is not exactly 32
    /// bytes.
    InvalidKeyLength,
    /// Aggregation was invoked with zero digests; there is no well-defined
    /// root for an empty set.
    EmptyInput,
}

impl IngestError {
    /// A short human-readable description of the error.
    pub fn message(&self) -> (r: &'static str)
        ensures
            *self is InvalidKeyLength ==> r@ == "Key must be exactly 32 bytes"@,
            *self is EmptyInput ==> r@ == "Hash list cannot be empty"@,
    {
        match self {
            IngestError::InvalidKeyLength => "Key must be exactly 32 bytes",
            IngestError::EmptyInput => "Hash list cannot be empty",
        }
    }
}

} // verus!
