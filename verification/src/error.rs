use vstd::prelude::*;

verus! {

/// Everything that can go wrong while building or decoding a chunk.
#[derive(Clone, Copy, Debug, PartialEq, Eq)]
pub enum Error {
    /// A type code given as text is not exactly four ASCII letters.
    InvalidFormat,
    /// The checksum stored in a record differs from the one computed over
    /// its type code and payload.
    IntegrityError,
    /// The buffer is too short for the framing and the payload it declares.
    TruncatedInput,
    /// The payload was asked for as text and is not valid UTF-8.
    EncodingError,
}

} // verus!
