use vstd::prelude::*;

verus! {

/// The error kinds that the codec and the session distinguish.
#[derive(Clone, Copy, Debug, PartialEq, Eq, Structural)]
pub enum Error {
    /// The stream ended in the middle of a field.
    Truncated,
    /// A tag byte did not match the field schedule.
    UnexpectedField { got: u8, want: u8 },
    /// A type-tag nibble outside the recognized set.
    InvalidTyp3,
    /// A byte other than 1 or 2 where a vote type was expected.
    InvalidVoteType,
    /// A timestamp finer than a nanosecond.
    Precision,
    /// A variable-length integer that does not fit in 64 bits.
    Overflow,
    /// The keyring holds no signer for the supplied public key.
    UnknownPublicKey,
    /// The underlying stream failed.
    Io,
}

} // verus!
