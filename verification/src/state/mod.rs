//! The state of an identifier: what folding its events, in order, gives.

pub mod signatory;

use crate::bytes::bytes_equal;
use crate::event::sections::{clone_seals, DelegatedEventSeal, DelegatingLocationSeal};
use crate::prefix::{clone_keys, views, BasicPrefix, IdentifierPrefix, SelfAddressingPrefix};
use crate::state::signatory::{Signatory, SignatoryView};
use vstd::prelude::*;

verus! {

/// The state of one identifier after the events finalised so far.
#[derive(Debug, PartialEq, Eq)]
pub struct IdentifierState {
    /// The identifier.
    pub prefix: IdentifierPrefix,
    /// The sequence number of the last event applied.
    pub sn: u64,
    /// The digest of the last event applied.
    pub last: SelfAddressingPrefix,
    /// The current signing authority.
    pub current: Signatory,
    /// The commitment to the next key set.
    pub next: SelfAddressingPrefix,
    /// The witnesses.
    pub witnesses: Vec<BasicPrefix>,
    /// The number of witness receipts that an event needs.
    pub tally: u64,
    /// The seals anchored by interaction events and not yet resolved.
    pub open_seals: Vec<DelegatedEventSeal>,
    /// Where the delegator anchored the latest delegated establishment event,
    /// if the identifier is delegated.
    pub delegator: Option<DelegatingLocationSeal>,
}

/// An `IdentifierState` as plain values.
#[verifier::ext_equal]
pub struct IdentifierStateView {
    pub prefix: Seq<u8>,
    pub sn: u64,
    pub last: Seq<u8>,
    pub current: SignatoryView,
    pub next: Seq<u8>,
    pub witnesses: Seq<Seq<u8>>,
    pub tally: u64,
    pub open_seals: Seq<(Seq<u8>, Seq<u8>)>,
    pub delegator: Option<(Seq<u8>, u64, Seq<u8>)>,
}

/// The view of an optional location seal.
pub open spec fn optional_seal(seal: Option<DelegatingLocationSeal>) -> Option<
    (Seq<u8>, u64, Seq<u8>),
> {
    match seal {
        Some(location) => Some(location@),
        None => None,
    }
}

impl View for IdentifierState {
    type V = IdentifierStateView;

    open spec fn view(&self) -> IdentifierStateView {
        IdentifierStateView {
            prefix: self.prefix@,
            sn: self.sn,
            last: self.last@,
            current: self.current@,
            next: self.next@,
            witnesses: views(self.witnesses@),
            tally: self.tally,
            open_seals: views(self.open_seals@),
            delegator: optional_seal(self.delegator),
        }
    }
}

impl IdentifierStateView {
    /// The state of an identifier of which nothing is known yet.
    pub open spec fn initial() -> IdentifierStateView {
        IdentifierStateView {
            prefix: Seq::empty(),
            sn: 0,
            last: Seq::empty(),
            current: SignatoryView { threshold: 0, signers: Seq::empty() },
            next: Seq::empty(),
            witnesses: Seq::empty(),
            tally: 0,
            open_seals: Seq::empty(),
            delegator: None,
        }
    }

    /// Whether an event that names `previous` as its predecessor can follow
    /// the state: the state's last event is that predecessor, and the
    /// sequence number has room to move on.
    pub open spec fn followed_by(self, previous: Seq<u8>) -> bool {
        previous == self.last && self.sn < u64::MAX
    }

    /// Whether the threshold and the tally fit the sets they count over.
    pub open spec fn well_formed(self) -> bool {
        &&& self.current.threshold <= self.current.signers.len()
        &&& self.tally <= self.witnesses.len()
    }
}

impl IdentifierState {
    /// Whether an event that names `previous` as its predecessor can follow
    /// the state.
    pub fn is_followed_by(&self, previous: &SelfAddressingPrefix) -> (ok: bool)
        ensures
            ok == self@.followed_by(previous@),
    {
        bytes_equal(previous.as_bytes(), self.last.as_bytes()) && self.sn < u64::MAX
    }
}

impl Default for IdentifierState {
    fn default() -> (empty: Self)
        ensures
            empty@ == IdentifierStateView::initial(),
    {
        let empty = IdentifierState {
            prefix: IdentifierPrefix::from_bytes(&[]),
            sn: 0,
            last: SelfAddressingPrefix::from_bytes(&[]),
            current: Signatory::default(),
            next: SelfAddressingPrefix::from_bytes(&[]),
            witnesses: Vec::new(),
            tally: 0,
            open_seals: Vec::new(),
            delegator: None,
        };
        assert(empty@.prefix =~= Seq::empty());
        assert(empty@.last =~= Seq::empty());
        assert(empty@.next =~= Seq::empty());
        assert(empty@.witnesses =~= Seq::empty());
        assert(empty@.open_seals =~= Seq::empty());
        empty
    }
}

impl Clone for IdentifierState {
    fn clone(&self) -> (copy: Self)
        ensures
            copy@ == self@,
    {
        let delegator = match &self.delegator {
            Some(location) => Some(location.clone()),
            None => None,
        };
        IdentifierState {
            prefix: self.prefix.clone(),
            sn: self.sn,
            last: self.last.clone(),
            current: self.current.clone(),
            next: self.next.clone(),
            witnesses: clone_keys(&self.witnesses),
            tally: self.tally,
            open_seals: clone_seals(&self.open_seals),
            delegator,
        }
    }
}

} // verus!
