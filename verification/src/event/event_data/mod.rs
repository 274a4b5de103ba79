//! The kinds of event.

pub mod delegated;
pub mod inception;
pub mod interaction;
pub mod receipt;
pub mod rotation;

use crate::event::event_data::delegated::inception::{
    DelegatedInceptionEvent, DelegatedInceptionEventView,
};
use crate::event::event_data::delegated::rotation::{
    DelegatedRotationEvent, DelegatedRotationEventView,
};
use crate::event::event_data::inception::{InceptionEvent, InceptionEventView};
use crate::event::event_data::interaction::{InteractionEvent, InteractionEventView};
use crate::event::event_data::receipt::EventReceipt;
use crate::event::event_data::rotation::{RotationEvent, RotationEventView};
use vstd::prelude::*;

verus! {

/// What an event carries, by kind.
#[derive(Debug, Clone, PartialEq, Eq)]
pub enum EventData {
    Icp(InceptionEvent),
    Rot(RotationEvent),
    Ixn(InteractionEvent),
    Dip(DelegatedInceptionEvent),
    Drt(DelegatedRotationEvent),
    Rct(EventReceipt),
}

/// An `EventData` as plain values.
pub enum EventDataView {
    Icp(InceptionEventView),
    Rot(RotationEventView),
    Ixn(InteractionEventView),
    Dip(DelegatedInceptionEventView),
    Drt(DelegatedRotationEventView),
    Rct(Seq<u8>),
}

impl View for EventData {
    type V = EventDataView;

    open spec fn view(&self) -> EventDataView {
        match *self {
            EventData::Icp(inception) => EventDataView::Icp(inception@),
            EventData::Rot(rotation) => EventDataView::Rot(rotation@),
            EventData::Ixn(interaction) => EventDataView::Ixn(interaction@),
            EventData::Dip(delegated) => EventDataView::Dip(delegated@),
            EventData::Drt(delegated) => EventDataView::Drt(delegated@),
            EventData::Rct(receipt) => EventDataView::Rct(receipt@),
        }
    }
}

} // verus!
