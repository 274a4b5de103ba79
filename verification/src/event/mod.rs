//! Events and what applying one does to the state of its identifier.

pub mod event_data;
pub mod sections;

use crate::bytes::bytes_equal;
use crate::error::KeriError;
use crate::event::event_data::{EventData, EventDataView};
use crate::prefix::{IdentifierPrefix, SelfAddressingPrefix};
use crate::state::{IdentifierState, IdentifierStateView};
use vstd::prelude::*;

verus! {

/// One entry of a key event log, as it is presented: the identifier, the
/// sequence number that the event claims, the digest of the event and what it
/// carries.
#[derive(Debug, Clone, PartialEq, Eq)]
pub struct Event {
    pub prefix: IdentifierPrefix,
    pub sn: u64,
    pub digest: SelfAddressingPrefix,
    pub event_data: EventData,
}

/// An `Event` as plain values.
pub struct EventView {
    pub prefix: Seq<u8>,
    pub sn: u64,
    pub digest: Seq<u8>,
    pub event_data: EventDataView,
}

impl View for Event {
    type V = EventView;

    open spec fn view(&self) -> EventView {
        EventView {
            prefix: self.prefix@,
            sn: self.sn,
            digest: self.digest@,
            event_data: self.event_data@,
        }
    }
}

impl EventView {
    /// Whether the event founds a log.
    pub open spec fn is_inception(self) -> bool {
        self.event_data is Icp || self.event_data is Dip
    }

    /// The digest that the event names as its predecessor's. A founding event
    /// and a receipt name none.
    pub open spec fn previous(self) -> Option<Seq<u8>> {
        match self.event_data {
            EventDataView::Rot(rotation) => Some(rotation.previous_event_hash),
            EventDataView::Ixn(interaction) => Some(interaction.previous_event_hash),
            EventDataView::Drt(delegated) => Some(delegated.rotation.previous_event_hash),
            _ => None,
        }
    }

    /// Whether the event is the next one for `state`: a founding event claims
    /// sequence number 0; any other follows the state's sequence number by
    /// one and names the state's last event as its predecessor.
    pub open spec fn follows(self, state: IdentifierStateView) -> bool {
        if self.is_inception() {
            self.sn == 0
        } else {
            self.sn == state.sn + 1 && self.previous() == Some(state.last)
        }
    }

    /// What what the event carries makes of `state`, given the event's
    /// digest.
    pub open spec fn payload_applied(self, state: IdentifierStateView) -> Result<
        IdentifierStateView,
        KeriError,
    > {
        match self.event_data {
            EventDataView::Icp(inception) => inception.applied(state, self.digest),
            EventDataView::Rot(rotation) => rotation.applied(state, self.digest),
            EventDataView::Ixn(interaction) => interaction.applied(state, self.digest),
            EventDataView::Dip(delegated) => delegated.applied(state, self.digest),
            EventDataView::Drt(delegated) => delegated.applied(state, self.digest),
            EventDataView::Rct(_) => Ok(state),
        }
    }

    /// What the event makes of `state`. A receipt leaves it as it is. Any
    /// other event must follow the state, with the sequence number that it
    /// claims too, else the sequence is broken; what it carries is then
    /// applied, which moves the state to the event's sequence number and
    /// digest.
    pub open spec fn applied(self, state: IdentifierStateView) -> Result<
        IdentifierStateView,
        KeriError,
    > {
        if self.event_data is Rct {
            Ok(state)
        } else if !self.follows(state) {
            Err(KeriError::SequenceError)
        } else {
            self.payload_applied(state)
        }
    }
}

impl Event {
    /// Computes `follows`.
    pub fn is_next_for(&self, state: &IdentifierState) -> (ok: bool)
        ensures
            ok == self@.follows(state@),
    {
        match &self.event_data {
            EventData::Icp(_) => self.sn == 0,
            EventData::Dip(_) => self.sn == 0,
            EventData::Rot(rotation) => state.sn < u64::MAX && self.sn == state.sn + 1
                && bytes_equal(rotation.previous_event_hash.as_bytes(), state.last.as_bytes()),
            EventData::Ixn(interaction) => state.sn < u64::MAX && self.sn == state.sn + 1
                && bytes_equal(interaction.previous_event_hash.as_bytes(), state.last.as_bytes()),
            EventData::Drt(delegated) => state.sn < u64::MAX && self.sn == state.sn + 1
                && bytes_equal(
                delegated.rotation.previous_event_hash.as_bytes(),
                state.last.as_bytes(),
            ),
            EventData::Rct(_) => false,
        }
    }

    /// Applies the event to `state`.
    pub fn apply_to(&self, state: IdentifierState) -> (next: Result<IdentifierState, KeriError>)
        ensures
            match next {
                Ok(after) => self@.applied(state@) == Ok::<IdentifierStateView, KeriError>(after@),
                Err(e) => self@.applied(state@) == Err::<IdentifierStateView, KeriError>(e),
            },
    {
        if let EventData::Rct(receipt) = &self.event_data {
            return receipt.apply_to(state);
        }
        if !self.is_next_for(&state) {
            return Err(KeriError::SequenceError);
        }
        match &self.event_data {
            EventData::Icp(inception) => inception.apply_to(state, &self.digest),
            EventData::Rot(rotation) => rotation.apply_to(state, &self.digest),
            EventData::Ixn(interaction) => interaction.apply_to(state, &self.digest),
            EventData::Dip(delegated) => delegated.apply_to(state, &self.digest),
            EventData::Drt(delegated) => delegated.apply_to(state, &self.digest),
            EventData::Rct(receipt) => receipt.apply_to(state),
        }
    }
}

/// What an accepted event does to the sequence: a founding event puts the
/// state at sequence number 0, any other event, but a receipt, moves it on by
/// exactly one; the state's last digest is the event's, and the identifier
/// stays the same. If the threshold and the tally fitted their sets before,
/// they do after.
pub proof fn lemma_applied_advances(event: EventView, state: IdentifierStateView)
    requires
        event.applied(state) is Ok,
        !(event.event_data is Rct),
    ensures
        event.applied(state)->Ok_0.prefix == state.prefix,
        event.applied(state)->Ok_0.sn == event.sn,
        event.applied(state)->Ok_0.last == event.digest,
        event.is_inception() ==> event.applied(state)->Ok_0.sn == 0,
        !event.is_inception() ==> event.applied(state)->Ok_0.sn == state.sn + 1,
        state.well_formed() ==> event.applied(state)->Ok_0.well_formed(),
        !(event.event_data is Ixn) ==> event.applied(state)->Ok_0.current.threshold >= 1,
{
}

} // verus!
