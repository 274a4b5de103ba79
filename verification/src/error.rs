//! The error taxonomy shared by every component.

use vstd::prelude::*;

verus! {

/// Why an operation was refused.
#[derive(Debug, Clone, Copy, PartialEq, Eq, Structural)]
pub enum KeriError {
    /// The identifier has no entry in the identifier index.
    NotIndexedError,
    /// The identifier already has an entry in the identifier index.
    IdentifierPresentError,
    /// The event's sequence number or predecessor digest does not follow the
    /// current state.
    SequenceError,
    /// A rotation revealed a key set that does not match the stored commitment.
    CommitmentMismatch,
    /// A threshold or tally does not fit the set it counts over.
    MalformedEvent,
    /// The receipt's signer is not a witness of the identifier.
    UnknownWitness,
    /// The receipt's signer is not an indexed validator.
    UnknownValidator,
    /// The underlying store failed.
    StorageError,
    /// Stored bytes could not be decoded.
    SerializationError,
}

} // verus!
