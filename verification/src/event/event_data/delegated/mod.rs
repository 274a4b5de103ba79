//! Events of delegated identifiers.

pub mod inception;
pub mod rotation;

use crate::event::sections::DelegatedEventSeal;
use crate::state::{IdentifierState, IdentifierStateView};
use vstd::prelude::*;

verus! {

/// The state that a delegator's seal founds: the delegated identifier at
/// sequence number 0 with the sealed event as its last, and nothing else
/// known yet.
pub open spec fn delegated_inception(seal: (Seq<u8>, Seq<u8>)) -> IdentifierStateView {
    IdentifierStateView { prefix: seal.0, sn: 0, last: seal.1, ..IdentifierStateView::initial() }
}

/// The state of a delegated identifier as the delegator's seal founds it.
pub fn incept_delegated(seal: &DelegatedEventSeal) -> (state: IdentifierState)
    ensures
        state@ == delegated_inception(seal@),
{
    let mut state = IdentifierState::default();
    state.prefix = seal.prefix.clone();
    state.sn = 0;
    state.last = seal.event_digest.clone();
    state
}

} // verus!
