use vstd::prelude::*;

verus! {

/// Everything that can go wrong in a single protocol operation.
///
/// Cryptographic mismatch during MAC verification is reported as a plain
/// `false` instead; these variants are for operationally malformed input and
/// for a batch proof that does not check out.
#[derive(Clone, Copy, Debug, PartialEq, Eq, Structural)]
pub enum TokenError {
    /// Bytes do not decode to a scalar or a protocol value of the right shape.
    InvalidEncoding,
    /// A decoded point is not a valid group element.
    InvalidGroupElement,
    /// Batch inputs disagree in length.
    LengthMismatch,
    /// A batch is empty.
    EmptyBatch,
    /// The recomputed challenge does not match the proof.
    ProofVerificationFailed,
    /// The secure random source failed.
    RandomSourceFailure,
}

} // verus!
