//! The rotation of a delegated identifier.

use crate::error::KeriError;
use crate::event::event_data::rotation::{RotationEvent, RotationEventView};
use crate::event::sections::DelegatingLocationSeal;
use crate::prefix::SelfAddressingPrefix;
use crate::state::{IdentifierState, IdentifierStateView};
use vstd::prelude::*;

verus! {

/// A delegated rotation: a rotation together with the place in the
/// delegator's log that anchors it.
#[derive(Debug, Clone, PartialEq, Eq)]
pub struct DelegatedRotationEvent {
    pub rotation: RotationEvent,
    pub delegation_location: DelegatingLocationSeal,
}

/// A `DelegatedRotationEvent` as plain values.
pub struct DelegatedRotationEventView {
    pub rotation: RotationEventView,
    pub delegation_location: (Seq<u8>, u64, Seq<u8>),
}

impl View for DelegatedRotationEvent {
    type V = DelegatedRotationEventView;

    open spec fn view(&self) -> DelegatedRotationEventView {
        DelegatedRotationEventView {
            rotation: self.rotation@,
            delegation_location: self.delegation_location@,
        }
    }
}

impl DelegatedRotationEventView {
    /// What the delegated rotation, an event with the digest `digest`, makes
    /// of `state`: as the rotation does, and the location seal is recorded.
    pub open spec fn applied(self, state: IdentifierStateView, digest: Seq<u8>) -> Result<
        IdentifierStateView,
        KeriError,
    > {
        match self.rotation.applied(state, digest) {
            Ok(rotated) => Ok(
                IdentifierStateView { delegator: Some(self.delegation_location), ..rotated },
            ),
            Err(e) => Err(e),
        }
    }
}

impl DelegatedRotationEvent {
    /// Applies the delegated rotation, an event with the digest `digest`, to
    /// `state`.
    pub fn apply_to(&self, state: IdentifierState, digest: &SelfAddressingPrefix) -> (next: Result<
        IdentifierState,
        KeriError,
    >)
        ensures
            match next {
                Ok(after) => self@.applied(state@, digest@) == Ok::<IdentifierStateView, KeriError>(
                    after@,
                ),
                Err(e) => self@.applied(state@, digest@) == Err::<IdentifierStateView, KeriError>(
                    e,
                ),
            },
    {
        match self.rotation.apply_to(state, digest) {
            Ok(rotated) => {
                let mut after = rotated;
                after.delegator = Some(self.delegation_location.clone());
                Ok(after)
            },
            Err(e) => Err(e),
        }
    }
}

} // verus!
