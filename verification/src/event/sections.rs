//! The parts that events are made of: key and witness configurations, and the
//! seals that tie one log to another.

use crate::prefix::{clone_keys, views, BasicPrefix, IdentifierPrefix, SelfAddressingPrefix};
use vstd::prelude::*;

verus! {

/// The signing authority that an establishment event declares: how many
/// signatures are needed, who may sign, and a commitment to the next key set.
#[derive(Debug, PartialEq, Eq)]
pub struct KeyConfig {
    pub threshold: usize,
    pub public_keys: Vec<BasicPrefix>,
    pub threshold_key_digest: SelfAddressingPrefix,
}

/// A `KeyConfig` as plain values.
pub struct KeyConfigView {
    pub threshold: usize,
    pub public_keys: Seq<Seq<u8>>,
    pub threshold_key_digest: Seq<u8>,
}

impl View for KeyConfig {
    type V = KeyConfigView;

    open spec fn view(&self) -> KeyConfigView {
        KeyConfigView {
            threshold: self.threshold,
            public_keys: views(self.public_keys@),
            threshold_key_digest: self.threshold_key_digest@,
        }
    }
}

impl KeyConfigView {
    /// Whether the threshold can be met by the declared signers: at least one
    /// signature is asked for, and no more than there are signers.
    pub open spec fn well_formed(self) -> bool {
        1 <= self.threshold <= self.public_keys.len()
    }
}

impl KeyConfig {
    /// Whether the threshold can be met by the declared signers.
    pub fn is_well_formed(&self) -> (ok: bool)
        ensures
            ok == self@.well_formed(),
    {
        1 <= self.threshold && self.threshold <= self.public_keys.len()
    }
}

impl Clone for KeyConfig {
    fn clone(&self) -> (copy: Self)
        ensures
            copy@ == self@,
    {
        KeyConfig {
            threshold: self.threshold,
            public_keys: clone_keys(&self.public_keys),
            threshold_key_digest: self.threshold_key_digest.clone(),
        }
    }
}

/// The witnesses of an identifier and how many of their receipts are needed.
#[derive(Debug, PartialEq, Eq)]
pub struct WitnessConfig {
    pub tally: u64,
    pub witnesses: Vec<BasicPrefix>,
}

/// A `WitnessConfig` as plain values.
pub struct WitnessConfigView {
    pub tally: u64,
    pub witnesses: Seq<Seq<u8>>,
}

impl View for WitnessConfig {
    type V = WitnessConfigView;

    open spec fn view(&self) -> WitnessConfigView {
        WitnessConfigView { tally: self.tally, witnesses: views(self.witnesses@) }
    }
}

impl WitnessConfigView {
    /// Whether the tally can be met by the declared witnesses.
    pub open spec fn well_formed(self) -> bool {
        self.tally <= self.witnesses.len()
    }
}

impl WitnessConfig {
    /// Whether the tally can be met by the declared witnesses.
    pub fn is_well_formed(&self) -> (ok: bool)
        ensures
            ok == self@.well_formed(),
    {
        self.tally <= self.witnesses.len() as u64
    }
}

impl Clone for WitnessConfig {
    fn clone(&self) -> (copy: Self)
        ensures
            copy@ == self@,
    {
        WitnessConfig { tally: self.tally, witnesses: clone_keys(&self.witnesses) }
    }
}

/// A seal that anchors an event of another identifier: that identifier and
/// the digest of the anchored event.
#[derive(Debug, PartialEq, Eq)]
pub struct DelegatedEventSeal {
    pub prefix: IdentifierPrefix,
    pub event_digest: SelfAddressingPrefix,
}

impl View for DelegatedEventSeal {
    type V = (Seq<u8>, Seq<u8>);

    open spec fn view(&self) -> (Seq<u8>, Seq<u8>) {
        (self.prefix@, self.event_digest@)
    }
}

impl Clone for DelegatedEventSeal {
    fn clone(&self) -> (copy: Self)
        ensures
            copy@ == self@,
    {
        DelegatedEventSeal { prefix: self.prefix.clone(), event_digest: self.event_digest.clone() }
    }
}

/// A seal that points at the place in the delegator's log where a delegated
/// event is anchored: the delegator, the sequence number there, and the
/// digest of the event before it.
#[derive(Debug, PartialEq, Eq)]
pub struct DelegatingLocationSeal {
    pub prefix: IdentifierPrefix,
    pub sn: u64,
    pub prior_digest: SelfAddressingPrefix,
}

impl View for DelegatingLocationSeal {
    type V = (Seq<u8>, u64, Seq<u8>);

    open spec fn view(&self) -> (Seq<u8>, u64, Seq<u8>) {
        (self.prefix@, self.sn, self.prior_digest@)
    }
}

impl Clone for DelegatingLocationSeal {
    fn clone(&self) -> (copy: Self)
        ensures
            copy@ == self@,
    {
        DelegatingLocationSeal {
            prefix: self.prefix.clone(),
            sn: self.sn,
            prior_digest: self.prior_digest.clone(),
        }
    }
}

/// A fresh copy of a list of seals.
pub fn clone_seals(seals: &Vec<DelegatedEventSeal>) -> (copy: Vec<DelegatedEventSeal>)
    ensures
        views(copy@) == views(seals@),
{
    let mut out: Vec<DelegatedEventSeal> = Vec::new();
    let mut i: usize = 0;
    while i < seals.len()
        invariant
            i <= seals@.len(),
            out@.len() == i,
            forall|j: int| 0 <= j < i ==> out@[j]@ == seals@[j]@,
        decreases seals@.len() - i,
    {
        out.push(seals[i].clone());
        i += 1;
    }
    assert(views(out@) =~= views(seals@));
    out
}

} // verus!
