//! Typed errors of the protocol core.
//!
//! Every failure is reported as one of five kinds, never as a panic:
//! malformed input, an unsatisfied quorum, a private-verification failure,
//! a boundary failure of the secret vault, or a caller that is not a
//! participant of the run.  Infrastructure unavailability is kept distinct
//! from cryptographic rejection so that callers never mistake one for the
//! other.

use vstd::prelude::*;

verus! {

/// Errors of the interactive distributed key generation protocol.
#[derive(Clone, Copy, Debug, PartialEq, Eq, Structural)]
pub enum IdkgError {
    /// The acting node is not among the dealers of the parameters.
    NotADealer,
    /// The acting node is not among the receivers of the parameters.
    NotAReceiver,
    /// A dealing's commitment or ciphertext framing is structurally invalid.
    MalformedDealing,
    /// Fewer valid dealings than the reconstruction threshold requires.
    InsufficientDealings,
    /// A transcript's framing is inconsistent with its parameters.
    MalformedTranscript,
    /// A transcript's combined commitment does not match its dealings.
    InvalidTranscript,
    /// A decrypted share does not match the dealing's public commitment.
    PrivateVerificationFailure,
    /// A complaint's framing is structurally invalid.
    MalformedComplaint,
    /// A complaint's disclosed decryption is wrong, or no mismatch exists.
    InvalidComplaint,
    /// An opening's framing or disclosed decryption is invalid.
    MalformedOpening,
    /// Openings do not cover every dealing that failed private verification.
    InsufficientOpenings,
    /// A referenced public key is absent from the registry at the version.
    PublicKeyNotFound,
    /// The vault holds no decryption key for the acting node.
    SecretKeyNotFound,
    /// A prior transcript that a resharing or product operation builds on
    /// was never loaded into the vault.
    PriorTranscriptNotLoaded,
    /// The vault could not be reached over its channel.
    VaultUnavailable,
}

/// Errors of the threshold-ECDSA signing protocol.
#[derive(Clone, Copy, Debug, PartialEq, Eq, Structural)]
pub enum EcdsaError {
    /// The acting node is not among the signers of the inputs.
    NotASigner,
    /// The signing inputs are structurally inconsistent.
    MalformedInputs,
    /// A referenced transcript was never loaded into the vault.
    MissingLocalShare,
    /// A signature share does not match the signer's public commitment.
    InvalidSigShare,
    /// Fewer valid shares than the reconstruction threshold requires.
    InsufficientSigShares,
    /// A combined signature does not verify under the derived public key.
    InvalidSignature,
    /// The secret vault could not be reached.
    VaultUnavailable,
}

/// Errors of the classic (non-interactive DKG) threshold scheme.
#[derive(Clone, Copy, Debug, PartialEq, Eq, Structural)]
pub enum ThresholdSigError {
    /// No transcript data is stored for the key-generation identifier.
    ThresholdSigDataNotFound,
    /// The store holds no secret share of this node for the identifier.
    SecretShareNotFound,
    /// The signer is not a member of the committee of the generation.
    NotACommitteeMember,
    /// A signature share does not match the signer's public commitment.
    InvalidSigShare,
    /// Fewer shares than the reconstruction threshold requires.
    InsufficientSigShares,
    /// A combined signature does not verify under the public coefficients.
    InvalidSignature,
    /// The subnet's public key is absent from the registry at the version.
    PublicKeyNotFound,
}

} // verus!
