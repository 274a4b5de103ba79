//! The founding event of a delegated identifier.

use crate::error::KeriError;
use crate::event::sections::{
    DelegatingLocationSeal, KeyConfig, KeyConfigView, WitnessConfig, WitnessConfigView,
};
use crate::prefix::{clone_keys, SelfAddressingPrefix};
use crate::state::signatory::{Signatory, SignatoryView};
use crate::state::{IdentifierState, IdentifierStateView};
use vstd::prelude::*;

verus! {

/// A delegated inception: an inception together with the place in the
/// delegator's log that anchors it.
#[derive(Debug, Clone, PartialEq, Eq)]
pub struct DelegatedInceptionEvent {
    pub key_config: KeyConfig,
    pub witness_config: WitnessConfig,
    pub delegation_location: DelegatingLocationSeal,
}

/// A `DelegatedInceptionEvent` as plain values.
pub struct DelegatedInceptionEventView {
    pub key_config: KeyConfigView,
    pub witness_config: WitnessConfigView,
    pub delegation_location: (Seq<u8>, u64, Seq<u8>),
}

impl View for DelegatedInceptionEvent {
    type V = DelegatedInceptionEventView;

    open spec fn view(&self) -> DelegatedInceptionEventView {
        DelegatedInceptionEventView {
            key_config: self.key_config@,
            witness_config: self.witness_config@,
            delegation_location: self.delegation_location@,
        }
    }
}

impl DelegatedInceptionEventView {
    /// What the delegated inception, an event with the digest `digest`,
    /// makes of `state`: of the state only the identifier is kept. The
    /// sequence number is 0 and the last event is this one; the signing
    /// authority and the witnesses are those of the event, no seal is open,
    /// and the location seal is recorded. Whether the delegator's log holds
    /// the anchor there is for the caller to settle.
    pub open spec fn applied(self, state: IdentifierStateView, digest: Seq<u8>) -> Result<
        IdentifierStateView,
        KeriError,
    > {
        if !self.key_config.well_formed() || !self.witness_config.well_formed() {
            Err(KeriError::MalformedEvent)
        } else {
            Ok(
                IdentifierStateView {
                    current: SignatoryView {
                        threshold: self.key_config.threshold,
                        signers: self.key_config.public_keys,
                    },
                    next: self.key_config.threshold_key_digest,
                    witnesses: self.witness_config.witnesses,
                    tally: self.witness_config.tally,
                    open_seals: Seq::empty(),
                    delegator: Some(self.delegation_location),
                    prefix: state.prefix,
                    sn: 0,
                    last: digest,
                },
            )
        }
    }
}

impl DelegatedInceptionEvent {
    /// Applies the delegated inception, an event with the digest `digest`,
    /// to `state`.
    pub fn apply_to(&self, state: IdentifierState, digest: &SelfAddressingPrefix) -> (next: Result<
        IdentifierState,
        KeriError,
    >)
        ensures
            match next {
                Ok(after) => self@.applied(state@, digest@) == Ok::<IdentifierStateView, KeriError>(
                    after@,
                ),
                Err(e) => self@.applied(state@, digest@) == Err::<IdentifierStateView, KeriError>(
                    e,
                ),
            },
    {
        if !self.key_config.is_well_formed() || !self.witness_config.is_well_formed() {
            return Err(KeriError::MalformedEvent);
        }
        let after = IdentifierState {
            prefix: state.prefix,
            sn: 0,
            last: digest.clone(),
            current: Signatory {
                threshold: self.key_config.threshold,
                signers: clone_keys(&self.key_config.public_keys),
            },
            next: self.key_config.threshold_key_digest.clone(),
            witnesses: clone_keys(&self.witness_config.witnesses),
            tally: self.witness_config.tally,
            open_seals: Vec::new(),
            delegator: Some(self.delegation_location.clone()),
        };
        assert(after@.open_seals =~= Seq::empty());
        Ok(after)
    }
}

} // verus!
