use vstd::prelude::*;

verus! {

/// The ways in which decoding a wire value can fail.
///
/// Every malformed input is reported through one of these variants; decoding
/// never panics. The error raised by a nested element (for example a bad
/// nullifier inside a transaction) is propagated to the caller unchanged.
#[derive(Clone, Debug, PartialEq, Eq, Structural)]
pub enum Error {
    /// The buffer is shorter than the shape being parsed requires.
    FailedToDecode,
    /// A commitment's tag byte selects neither the private nor the public variant.
    UnsupportedCommitmentType,
    /// A nullifier's tag byte selects neither the private nor the public variant.
    UnsupportedNullifierType,
}

} // verus!
