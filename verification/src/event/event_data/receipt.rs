//! The event by which a witness or validator attests another event.

use crate::error::KeriError;
use crate::prefix::SelfAddressingPrefix;
use crate::state::IdentifierState;
use vstd::prelude::*;

verus! {

/// A receipt: the digest of the event that it attests. The signatures travel
/// beside it and go to the receipt tables.
#[derive(Debug, Clone, PartialEq, Eq)]
pub struct EventReceipt {
    pub receipted_event_digest: SelfAddressingPrefix,
}

impl View for EventReceipt {
    type V = Seq<u8>;

    open spec fn view(&self) -> Seq<u8> {
        self.receipted_event_digest@
    }
}

impl EventReceipt {
    /// A receipt changes nothing in the state of the identifier whose event
    /// it attests.
    pub fn apply_to(&self, state: IdentifierState) -> (next: Result<IdentifierState, KeriError>)
        ensures
            next == Ok::<IdentifierState, KeriError>(state),
    {
        Ok(state)
    }
}

} // verus!
