//! The event that replaces the signing authority of an identifier.

use crate::bytes::bytes_equal;
use crate::error::KeriError;
use crate::event::sections::{KeyConfig, KeyConfigView, WitnessConfig, WitnessConfigView};
use crate::prefix::{clone_keys, SelfAddressingPrefix};
use crate::state::signatory::{Signatory, SignatoryView};
use crate::state::{IdentifierState, IdentifierStateView};
use vstd::prelude::*;

verus! {

/// A rotation: the key set that the previous establishment event committed
/// to, now revealed, with the commitment to the one after it, and the
/// witnesses from here on.
#[derive(Debug, Clone, PartialEq, Eq)]
pub struct RotationEvent {
    /// The digest of the event before this one.
    pub previous_event_hash: SelfAddressingPrefix,
    /// The revealed signing authority and the next commitment.
    pub key_config: KeyConfig,
    /// The digest of the revealed key set, as whoever presents the event
    /// computed it. It is what the earlier commitment is held against.
    pub key_set_digest: SelfAddressingPrefix,
    /// The witnesses from this event on.
    pub witness_config: WitnessConfig,
}

/// A `RotationEvent` as plain values.
pub struct RotationEventView {
    pub previous_event_hash: Seq<u8>,
    pub key_config: KeyConfigView,
    pub key_set_digest: Seq<u8>,
    pub witness_config: WitnessConfigView,
}

impl View for RotationEvent {
    type V = RotationEventView;

    open spec fn view(&self) -> RotationEventView {
        RotationEventView {
            previous_event_hash: self.previous_event_hash@,
            key_config: self.key_config@,
            key_set_digest: self.key_set_digest@,
            witness_config: self.witness_config@,
        }
    }
}

impl RotationEventView {
    /// What the rotation, an event with the digest `digest`, makes of
    /// `state`. The event must name the state's last event as its
    /// predecessor, else the sequence is broken. The digest of the revealed
    /// key set must be the commitment that the state holds. Then the
    /// sequence number moves on by one, the last event is this one, the
    /// signing authority, the commitment and the witnesses are replaced by
    /// those of the event, and the rest is kept.
    pub open spec fn applied(self, state: IdentifierStateView, digest: Seq<u8>) -> Result<
        IdentifierStateView,
        KeriError,
    > {
        if !state.followed_by(self.previous_event_hash) {
            Err(KeriError::SequenceError)
        } else if self.key_set_digest != state.next {
            Err(KeriError::CommitmentMismatch)
        } else if !self.key_config.well_formed() || !self.witness_config.well_formed() {
            Err(KeriError::MalformedEvent)
        } else {
            Ok(
                IdentifierStateView {
                    current: SignatoryView {
                        threshold: self.key_config.threshold,
                        signers: self.key_config.public_keys,
                    },
                    next: self.key_config.threshold_key_digest,
                    witnesses: self.witness_config.witnesses,
                    tally: self.witness_config.tally,
                    sn: (state.sn + 1) as u64,
                    last: digest,
                    ..state
                },
            )
        }
    }
}

impl RotationEvent {
    /// Applies the rotation, an event with the digest `digest`, to `state`.
    pub fn apply_to(&self, state: IdentifierState, digest: &SelfAddressingPrefix) -> (next: Result<
        IdentifierState,
        KeriError,
    >)
        ensures
            match next {
                Ok(after) => self@.applied(state@, digest@) == Ok::<IdentifierStateView, KeriError>(
                    after@,
                ),
                Err(e) => self@.applied(state@, digest@) == Err::<IdentifierStateView, KeriError>(
                    e,
                ),
            },
    {
        if !state.is_followed_by(&self.previous_event_hash) {
            return Err(KeriError::SequenceError);
        }
        if !bytes_equal(self.key_set_digest.as_bytes(), state.next.as_bytes()) {
            return Err(KeriError::CommitmentMismatch);
        }
        if !self.key_config.is_well_formed() || !self.witness_config.is_well_formed() {
            return Err(KeriError::MalformedEvent);
        }
        Ok(
            IdentifierState {
                prefix: state.prefix,
                sn: state.sn + 1,
                last: digest.clone(),
                current: Signatory {
                    threshold: self.key_config.threshold,
                    signers: clone_keys(&self.key_config.public_keys),
                },
                next: self.key_config.threshold_key_digest.clone(),
                witnesses: clone_keys(&self.witness_config.witnesses),
                tally: self.witness_config.tally,
                open_seals: state.open_seals,
                delegator: state.delegator,
            },
        )
    }
}

} // verus!
