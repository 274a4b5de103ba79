//! The event that anchors seals without touching the signing authority.

use crate::error::KeriError;
use crate::event::sections::DelegatedEventSeal;
use crate::prefix::{views, SelfAddressingPrefix};
use crate::state::{IdentifierState, IdentifierStateView};
use vstd::prelude::*;

verus! {

/// An interaction: the seals that it anchors into the log.
#[derive(Debug, Clone, PartialEq, Eq)]
pub struct InteractionEvent {
    /// The digest of the event before this one.
    pub previous_event_hash: SelfAddressingPrefix,
    /// The anchored seals.
    pub data: Vec<DelegatedEventSeal>,
}

/// An `InteractionEvent` as plain values.
pub struct InteractionEventView {
    pub previous_event_hash: Seq<u8>,
    pub data: Seq<(Seq<u8>, Seq<u8>)>,
}

impl View for InteractionEvent {
    type V = InteractionEventView;

    open spec fn view(&self) -> InteractionEventView {
        InteractionEventView {
            previous_event_hash: self.previous_event_hash@,
            data: views(self.data@),
        }
    }
}

impl InteractionEventView {
    /// What the interaction, an event with the digest `digest`, makes of
    /// `state`. The event must name the state's last event as its
    /// predecessor, else the sequence is broken. Then the sequence number
    /// moves on by one, the last event is this one, and the event's seals are
    /// added, in order, behind the open ones; the rest is kept.
    pub open spec fn applied(self, state: IdentifierStateView, digest: Seq<u8>) -> Result<
        IdentifierStateView,
        KeriError,
    > {
        if !state.followed_by(self.previous_event_hash) {
            Err(KeriError::SequenceError)
        } else {
            Ok(
                IdentifierStateView {
                    sn: (state.sn + 1) as u64,
                    last: digest,
                    open_seals: state.open_seals + self.data,
                    ..state
                },
            )
        }
    }
}

impl InteractionEvent {
    /// Applies the interaction, an event with the digest `digest`, to
    /// `state`.
    pub fn apply_to(&self, state: IdentifierState, digest: &SelfAddressingPrefix) -> (next: Result<
        IdentifierState,
        KeriError,
    >)
        ensures
            match next {
                Ok(after) => self@.applied(state@, digest@) == Ok::<IdentifierStateView, KeriError>(
                    after@,
                ),
                Err(e) => self@.applied(state@, digest@) == Err::<IdentifierStateView, KeriError>(
                    e,
                ),
            },
    {
        if !state.is_followed_by(&self.previous_event_hash) {
            return Err(KeriError::SequenceError);
        }
        let IdentifierState {
            prefix,
            sn,
            last,
            current,
            next,
            witnesses,
            tally,
            open_seals,
            delegator,
        } = state;
        let mut seals = open_seals;
        let mut i: usize = 0;
        while i < self.data.len()
            invariant
                i <= self.data@.len(),
                views(seals@) == state@.open_seals + views(self.data@).subrange(0, i as int),
            decreases self.data@.len() - i,
        {
            let ghost before = seals@;
            let seal = self.data[i].clone();
            seals.push(seal);
            i += 1;
            assert(views(seals@) =~= views(before).push(self.data@[i - 1]@));
            assert(views(seals@) =~= state@.open_seals + views(self.data@).subrange(0, i as int));
        }
        assert(views(self.data@).subrange(0, i as int) =~= views(self.data@));
        let after = IdentifierState {
            prefix,
            sn: sn + 1,
            last: digest.clone(),
            current,
            next,
            witnesses,
            tally,
            open_seals: seals,
            delegator,
        };
        Ok(after)
    }
}

} // verus!
