//! The founding event of an identifier.

use crate::error::KeriError;
use crate::event::sections::{KeyConfig, KeyConfigView, WitnessConfig, WitnessConfigView};
use crate::prefix::{clone_keys, SelfAddressingPrefix};
use crate::state::signatory::{Signatory, SignatoryView};
use crate::state::{IdentifierState, IdentifierStateView};
use vstd::prelude::*;

verus! {

/// An inception: the first signing authority and the first witnesses.
#[derive(Debug, Clone, PartialEq, Eq)]
pub struct InceptionEvent {
    pub key_config: KeyConfig,
    pub witness_config: WitnessConfig,
}

/// An `InceptionEvent` as plain values.
pub struct InceptionEventView {
    pub key_config: KeyConfigView,
    pub witness_config: WitnessConfigView,
}

impl View for InceptionEvent {
    type V = InceptionEventView;

    open spec fn view(&self) -> InceptionEventView {
        InceptionEventView { key_config: self.key_config@, witness_config: self.witness_config@ }
    }
}

impl InceptionEventView {
    /// What the inception, an event with the digest `digest`, makes of
    /// `state`: of the state only the identifier is kept. The sequence number
    /// is 0 and the last event is this one; the signing authority and the
    /// witnesses are those of the event, no seal is open and no delegator is
    /// recorded. A threshold or tally that its set cannot meet is refused.
    pub open spec fn applied(self, state: IdentifierStateView, digest: Seq<u8>) -> Result<
        IdentifierStateView,
        KeriError,
    > {
        if !self.key_config.well_formed() || !self.witness_config.well_formed() {
            Err(KeriError::MalformedEvent)
        } else {
            Ok(
                IdentifierStateView {
                    current: SignatoryView {
                        threshold: self.key_config.threshold,
                        signers: self.key_config.public_keys,
                    },
                    next: self.key_config.threshold_key_digest,
                    witnesses: self.witness_config.witnesses,
                    tally: self.witness_config.tally,
                    open_seals: Seq::empty(),
                    delegator: None,
                    prefix: state.prefix,
                    sn: 0,
                    last: digest,
                },
            )
        }
    }
}

impl InceptionEvent {
    /// Applies the inception, an event with the digest `digest`, to `state`.
    pub fn apply_to(&self, state: IdentifierState, digest: &SelfAddressingPrefix) -> (next: Result<
        IdentifierState,
        KeriError,
    >)
        ensures
            match next {
                Ok(after) => self@.applied(state@, digest@) == Ok::<IdentifierStateView, KeriError>(
                    after@,
                ),
                Err(e) => self@.applied(state@, digest@) == Err::<IdentifierStateView, KeriError>(
                    e,
                ),
            },
    {
        if !self.key_config.is_well_formed() || !self.witness_config.is_well_formed() {
            return Err(KeriError::MalformedEvent);
        }
        let after = IdentifierState {
            prefix: state.prefix,
            sn: 0,
            last: digest.clone(),
            current: Signatory {
                threshold: self.key_config.threshold,
                signers: clone_keys(&self.key_config.public_keys),
            },
            next: self.key_config.threshold_key_digest.clone(),
            witnesses: clone_keys(&self.witness_config.witnesses),
            tally: self.witness_config.tally,
            open_seals: Vec::new(),
            delegator: None,
        };
        assert(after@.open_seals =~= Seq::empty());
        Ok(after)
    }
}

} // verus!
