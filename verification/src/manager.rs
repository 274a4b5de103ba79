//! The escrow manager: what becomes of an event that is presented. It is
//! logged, judged against the state of its identifier and what the tables
//! hold, and then finalised or moved into the escrow that fits.

use crate::bytes::{bytes_equal, starts_with};
use crate::database::cbor::{cbor_decoding, cbor_u64};
use crate::database::clock::now_rfc3339;
use crate::database::escrow::Escrow;
use crate::database::history::Step;
use crate::database::index::{lemma_index_keeps_ids_distinct, lemma_next_id_unique};
use crate::database::keys::{
    entry_key, lemma_entry_key_injective, lemma_entry_key_parts, lemma_key_at_position,
    make_entry_key, make_sn_key, sn_key,
};
use crate::database::laws::{lemma_escrow_exclusive, lemma_finalise_exclusive};
use crate::database::soundness::{
    lemma_escrowed_sound, lemma_finalise_sound, lemma_index_sound, lemma_logged_sound,
};
use crate::database::{escrow_tables, log_tables, SledEventDatabase, Table, Tables};
use crate::error::KeriError;
use crate::event::event_data::EventData;
use crate::event::{Event, EventView};
use crate::prefix::{views, AttachedSignaturePrefix, SelfAddressingPrefix};
use crate::signatures::{count_signers, threshold_met};
use crate::state::{IdentifierState, IdentifierStateView};
use vstd::prelude::*;
use vstd::slice::slice_subrange;

verus! {

/// What is to be done with a presented event.
#[derive(Debug, Clone, Copy, PartialEq, Eq, Structural)]
pub enum Disposition {
    /// It is the canonical event of its position already: nothing is done.
    AlreadyFinalised,
    /// It becomes the canonical event of its position.
    Finalise,
    /// It waits for more signatures.
    PartiallySigned,
    /// It waits for its predecessor.
    OutOfOrder,
    /// It competes with another event for its position and is not validly
    /// signed yet.
    LikelyDuplicitous,
    /// It is validly signed and so is the canonical event of its position:
    /// both are recorded as duplicitous.
    Duplicitous,
}

/// The rule of the escrow manager. Where the position has a canonical event,
/// the presented one is that event, or competes with it: validly signed it is
/// duplicitous, else likely so. Where the position is free, an event whose
/// predecessor is not finalised is out of order; one that is validly signed
/// is finalised; one that is not waits, as likely duplicitous if another
/// event waits for the same position, else as partially signed.
pub open spec fn disposition(
    canonical: Option<Seq<u8>>,
    digest: Seq<u8>,
    predecessor_known: bool,
    rival: bool,
    met: bool,
) -> Disposition {
    match canonical {
        Some(other) => if other == digest {
            Disposition::AlreadyFinalised
        } else if met {
            Disposition::Duplicitous
        } else {
            Disposition::LikelyDuplicitous
        },
        None => if !predecessor_known {
            Disposition::OutOfOrder
        } else if met {
            Disposition::Finalise
        } else if rival {
            Disposition::LikelyDuplicitous
        } else {
            Disposition::PartiallySigned
        },
    }
}

/// Computes `disposition`.
pub fn decide(
    canonical: &Option<SelfAddressingPrefix>,
    digest: &SelfAddressingPrefix,
    predecessor_known: bool,
    rival: bool,
    met: bool,
) -> (what: Disposition)
    ensures
        what == disposition(
            match *canonical {
                Some(other) => Some(other@),
                None => None,
            },
            digest@,
            predecessor_known,
            rival,
            met,
        ),
{
    match canonical {
        Some(other) => if bytes_equal(other.as_bytes(), digest.as_bytes()) {
            Disposition::AlreadyFinalised
        } else if met {
            Disposition::Duplicitous
        } else {
            Disposition::LikelyDuplicitous
        },
        None => if !predecessor_known {
            Disposition::OutOfOrder
        } else if met {
            Disposition::Finalise
        } else if rival {
            Disposition::LikelyDuplicitous
        } else {
            Disposition::PartiallySigned
        },
    }
}

/// A judgement: what is to be done with the event and, where it is to be
/// finalised, the state that it leads to.
#[derive(Debug)]
pub struct Judgement {
    pub disposition: Disposition,
    pub state: Option<IdentifierState>,
}

/// The view of an optional state.
pub open spec fn optional_state(state: Option<IdentifierState>) -> Option<IdentifierStateView> {
    match state {
        Some(held) => Some(held@),
        None => None,
    }
}

impl View for Judgement {
    type V = (Disposition, Option<IdentifierStateView>);

    open spec fn view(&self) -> (Disposition, Option<IdentifierStateView>) {
        (self.disposition, optional_state(self.state))
    }
}

impl Tables {
    /// Whether a category holds, for the position, an event other than the
    /// one under `digest`.
    pub open spec fn rival_in(self, category: Escrow, id: u64, sn: u64, digest: Seq<u8>) -> bool {
        exists|other: Seq<u8>|
            other != digest && #[trigger] self.escrowed_in(category, id, sn, other)
    }

    /// Whether `digests` lists the events that wait, out of order, for the
    /// position: each of them, and nothing else.
    pub open spec fn lists_waiting(self, id: u64, sn: u64, digests: Seq<Seq<u8>>) -> bool {
        &&& forall|i: int|
            0 <= i < digests.len() ==> self.escrowed_in(
                Escrow::OutOfOrder,
                id,
                sn,
                #[trigger] digests[i],
            )
        &&& forall|digest: Seq<u8>|
            #[trigger] self.escrowed_in(Escrow::OutOfOrder, id, sn, digest) ==> digests.contains(
                digest,
            )
    }

    /// Whether another event waits for the position.
    pub open spec fn has_rival(self, id: u64, sn: u64, digest: Seq<u8>) -> bool {
        ||| self.rival_in(Escrow::PartiallySigned, id, sn, digest)
        ||| self.rival_in(Escrow::OutOfOrder, id, sn, digest)
        ||| self.rival_in(Escrow::LikelyDuplicitous, id, sn, digest)
    }

    /// Whether the event before position `sn` is finalised, or there is none.
    pub open spec fn predecessor_known(self, id: u64, sn: u64) -> bool {
        sn == 0 || self.finalised(id, (sn - 1) as u64)
    }

    /// Whether `last` is the digest of the canonical event before position
    /// `sn`, or there is none.
    pub open spec fn tip_matches(self, id: u64, sn: u64, last: Seq<u8>) -> bool {
        sn == 0 || self.canonical(id, (sn - 1) as u64) == Some(last)
    }

    /// The judgement of a logged event of identifier `id`, presented with
    /// `state` as the state of the identifier.
    ///
    /// A receipt takes no position in a log and is refused. An event that
    /// competes with a canonical event is held against the state's signing
    /// authority. An event for the next position must fit the log's last
    /// event and is applied to the state; it is held against the signing
    /// authority of the state that it leads to, so an establishment event
    /// answers to the keys that it establishes.
    pub open spec fn judged(self, id: u64, state: IdentifierStateView, event: EventView) -> Result<
        (Disposition, Option<IdentifierStateView>),
        KeriError,
    > {
        if event.event_data is Rct {
            Err(KeriError::SequenceError)
        } else {
            match self.signatures_of(id, event.digest) {
                None => Err(KeriError::SerializationError),
                Some(all) => match self.canonical(id, event.sn) {
                    Some(other) => Ok(
                        (
                            disposition(
                                Some(other),
                                event.digest,
                                true,
                                false,
                                threshold_met(
                                    all,
                                    state.current.signers.len(),
                                    state.current.threshold as nat,
                                ),
                            ),
                            None,
                        ),
                    ),
                    None => if !self.predecessor_known(id, event.sn) {
                        Ok((Disposition::OutOfOrder, None))
                    } else if !self.tip_matches(id, event.sn, state.last) {
                        Err(KeriError::SequenceError)
                    } else {
                        match event.applied(state) {
                            Err(e) => Err(e),
                            Ok(next) => if threshold_met(
                                all,
                                next.current.signers.len(),
                                next.current.threshold as nat,
                            ) {
                                Ok((Disposition::Finalise, Some(next)))
                            } else {
                                Ok(
                                    (
                                        disposition(
                                            None,
                                            event.digest,
                                            true,
                                            self.has_rival(id, event.sn, event.digest),
                                            false,
                                        ),
                                        None,
                                    ),
                                )
                            },
                        }
                    },
                },
            }
        }
    }

    /// The tables after a judged event is dealt with as its disposition
    /// says. A duplicitous event is recorded together with the canonical
    /// event of its position, which stays canonical.
    pub open spec fn settled(self, id: u64, sn: u64, digest: Seq<u8>, what: Disposition) -> Tables {
        match what {
            Disposition::AlreadyFinalised => self,
            Disposition::Finalise => self.finalise(id, sn, digest),
            Disposition::PartiallySigned => self.escrowed(Escrow::PartiallySigned, id, sn, digest),
            Disposition::OutOfOrder => self.escrowed(Escrow::OutOfOrder, id, sn, digest),
            Disposition::LikelyDuplicitous => self.escrowed(
                Escrow::LikelyDuplicitous,
                id,
                sn,
                digest,
            ),
            Disposition::Duplicitous => match self.canonical(id, sn) {
                Some(other) => self.escrowed(Escrow::Duplicitous, id, sn, digest).escrowed(
                    Escrow::Duplicitous,
                    id,
                    sn,
                    other,
                ),
                None => self.escrowed(Escrow::Duplicitous, id, sn, digest),
            },
        }
    }
}

impl SledEventDatabase {
    /// Whether a category holds, for the position, an event other than the
    /// one under `dig`.
    pub fn holds_rival(
        &self,
        category: Escrow,
        id: u64,
        sn: u64,
        dig: &SelfAddressingPrefix,
    ) -> (found: Result<bool, KeriError>)
        ensures
            match found {
                Ok(present) => present == self@.rival_in(category, id, sn, dig@),
                Err(e) => e == KeriError::StorageError,
            },
    {
        let start = make_sn_key(id, sn);
        let own = make_entry_key(id, sn, dig.as_bytes());
        let pairs = self.scan(category.in_table(), start.as_slice())?;
        let mut i: usize = 0;
        while i < pairs.len()
            invariant
                i <= pairs@.len(),
                own@ == entry_key(id, sn, dig@),
                start@ == sn_key(id, sn),
                forall|j: int| 0 <= j < i ==> (#[trigger] pairs@[j]).0@ == own@,
                forall|j: int|
                    0 <= j < pairs@.len() ==> {
                        &&& starts_with((#[trigger] pairs@[j]).0@, start@)
                        &&& self@.get(category.table(), pairs@[j].0@) == Some(pairs@[j].1@)
                    },
            decreases pairs@.len() - i,
        {
            if !bytes_equal(pairs[i].0.as_slice(), own.as_slice()) {
                proof {
                    let key = pairs@[i as int].0@;
                    let other = key.subrange(16, key.len() as int);
                    lemma_key_at_position(id, sn, key);
                    assert(self@.escrowed_in(category, id, sn, other));
                }
                return Ok(true);
            }
            i += 1;
        }
        proof {
            if self@.rival_in(category, id, sn, dig@) {
                let other = choose|other: Seq<u8>|
                    other != dig@ && #[trigger] self@.escrowed_in(category, id, sn, other);
                let key = entry_key(id, sn, other);
                lemma_entry_key_parts(id, sn, other);
                assert(self@.has(category.table(), key) && starts_with(key, start@));
                let j = choose|j: int| 0 <= j < pairs@.len() && pairs@[j].0@ == key;
                assert(pairs@[j].0@ == own@);
                lemma_entry_key_injective(id, sn, other, id, sn, dig@);
            }
        }
        Ok(false)
    }

    /// Whether another event waits for the position.
    pub fn any_rival(&self, id: u64, sn: u64, dig: &SelfAddressingPrefix) -> (found: Result<
        bool,
        KeriError,
    >)
        ensures
            match found {
                Ok(present) => present == self@.has_rival(id, sn, dig@),
                Err(e) => e == KeriError::StorageError,
            },
    {
        match self.holds_rival(Escrow::PartiallySigned, id, sn, dig) {
            Ok(true) => return Ok(true),
            Ok(false) => {},
            Err(e) => return Err(e),
        }
        match self.holds_rival(Escrow::OutOfOrder, id, sn, dig) {
            Ok(true) => return Ok(true),
            Ok(false) => {},
            Err(e) => return Err(e),
        }
        self.holds_rival(Escrow::LikelyDuplicitous, id, sn, dig)
    }

    /// The digests of the events that wait, out of order, for the position.
    /// Once the position before it is finalised they can be presented again.
    pub fn waiting_at(&self, id: u64, sn: u64) -> (found: Result<
        Vec<SelfAddressingPrefix>,
        KeriError,
    >)
        ensures
            match found {
                Ok(digests) => self@.lists_waiting(id, sn, views(digests@)),
                Err(e) => e == KeriError::StorageError,
            },
    {
        let start = make_sn_key(id, sn);
        let pairs = self.scan(Table::OutOfOrderEvents, start.as_slice())?;
        let mut out: Vec<SelfAddressingPrefix> = Vec::new();
        let mut i: usize = 0;
        proof {
            lemma_entry_key_parts(id, sn, Seq::empty());
        }
        while i < pairs.len()
            invariant
                i <= pairs@.len(),
                out@.len() == i,
                start@ == sn_key(id, sn),
                start@.len() == 16,
                forall|j: int|
                    0 <= j < pairs@.len() ==> {
                        &&& starts_with((#[trigger] pairs@[j]).0@, start@)
                        &&& self@.get(Table::OutOfOrderEvents, pairs@[j].0@) == Some(pairs@[j].1@)
                    },
                forall|j: int|
                    0 <= j < i ==> (#[trigger] pairs@[j]).0@ == entry_key(id, sn, out@[j]@),
            decreases pairs@.len() - i,
        {
            let key = &pairs[i].0;
            assert(starts_with(pairs@[i as int].0@, start@));
            let digest = SelfAddressingPrefix::from_bytes(
                slice_subrange(key.as_slice(), 16, key.len()),
            );
            proof {
                lemma_key_at_position(id, sn, key@);
            }
            out.push(digest);
            i += 1;
        }
        proof {
            let digests = views(out@);
            assert forall|j: int| 0 <= j < digests.len() implies self@.escrowed_in(
                Escrow::OutOfOrder,
                id,
                sn,
                #[trigger] digests[j],
            ) by {
                assert(pairs@[j].0@ == entry_key(id, sn, out@[j]@));
            }
            assert forall|digest: Seq<u8>| #[trigger]
                self@.escrowed_in(Escrow::OutOfOrder, id, sn, digest) implies digests.contains(
                digest,
            ) by {
                let key = entry_key(id, sn, digest);
                lemma_entry_key_parts(id, sn, digest);
                assert(self@.has(Table::OutOfOrderEvents, key) && starts_with(key, start@));
                let j = choose|j: int| 0 <= j < pairs@.len() && pairs@[j].0@ == key;
                assert(pairs@[j].0@ == entry_key(id, sn, out@[j]@));
                lemma_entry_key_injective(id, sn, digest, id, sn, out@[j]@);
                assert(digests[j] == digest);
            }
        }
        Ok(out)
    }

    /// Judges a logged event of identifier `id` against `state`.
    pub fn judge(&self, id: u64, state: &IdentifierState, event: &Event) -> (judgement: Result<
        Judgement,
        KeriError,
    >)
        ensures
            match judgement {
                Ok(reached) => self@.judged(id, state@, event@) == Ok::<
                    (Disposition, Option<IdentifierStateView>),
                    KeriError,
                >(reached@),
                Err(KeriError::StorageError) => !(event@.event_data is Rct),
                Err(e) => self@.judged(id, state@, event@) == Err::<
                    (Disposition, Option<IdentifierStateView>),
                    KeriError,
                >(e),
            },
    {
        if let EventData::Rct(_) = &event.event_data {
            return Err(KeriError::SequenceError);
        }
        let all = self.stored_signatures(id, &event.digest)?;
        let canonical = self.canonical_digest(id, event.sn)?;
        if canonical.is_some() {
            let met = count_signers(&all, state.current.signers.len()) >= state.current.threshold;
            assert(views(state.current.signers@).len() == state.current.signers@.len());
            let what = decide(&canonical, &event.digest, true, false, met);
            return Ok(Judgement { disposition: what, state: None });
        }
        if event.sn > 0 {
            let before = self.canonical_digest(id, event.sn - 1)?;
            match before {
                None => {
                    return Ok(Judgement { disposition: Disposition::OutOfOrder, state: None });
                },
                Some(tip) => {
                    if !bytes_equal(tip.as_bytes(), state.last.as_bytes()) {
                        return Err(KeriError::SequenceError);
                    }
                },
            }
        }
        let next = event.apply_to(state.clone())?;
        assert(views(next.current.signers@).len() == next.current.signers@.len());
        if count_signers(&all, next.current.signers.len()) >= next.current.threshold {
            return Ok(Judgement { disposition: Disposition::Finalise, state: Some(next) });
        }
        let rival = self.any_rival(id, event.sn, &event.digest)?;
        let what = decide(&canonical, &event.digest, true, rival, false);
        Ok(Judgement { disposition: what, state: None })
    }
}

/// What became of a presented event.
#[derive(Debug)]
pub enum Outcome {
    /// It is now the canonical event of its position. `state` is the state
    /// of the identifier after it; `waiting` holds the digests of the events
    /// that wait, out of order, for the next position and can now be
    /// presented again.
    Finalised { state: IdentifierState, waiting: Vec<SelfAddressingPrefix> },
    /// It was the canonical event of its position already.
    AlreadyFinalised,
    /// It is in the escrow named.
    Escrowed(Escrow),
}

impl Outcome {
    /// Whether the outcome is what the judgement asks for, with `after` as
    /// the tables once the event is dealt with.
    pub open spec fn follows(
        self,
        judgement: (Disposition, Option<IdentifierStateView>),
        after: Tables,
        id: u64,
        sn: u64,
    ) -> bool {
        match judgement.0 {
            Disposition::AlreadyFinalised => self is AlreadyFinalised,
            Disposition::PartiallySigned => self == Outcome::Escrowed(Escrow::PartiallySigned),
            Disposition::OutOfOrder => self == Outcome::Escrowed(Escrow::OutOfOrder),
            Disposition::LikelyDuplicitous => self == Outcome::Escrowed(Escrow::LikelyDuplicitous),
            Disposition::Duplicitous => self == Outcome::Escrowed(Escrow::Duplicitous),
            Disposition::Finalise => {
                &&& self is Finalised
                &&& Some(self->state@) == judgement.1
                &&& if sn < u64::MAX {
                    after.lists_waiting(id, (sn + 1) as u64, views(self->waiting@))
                } else {
                    self->waiting@.len() == 0
                }
            },
        }
    }
}

/// Where the presenting of events stands: the state of the identifier, and
/// the digests of the logged events that are to be presented next, in order.
#[derive(Debug)]
pub struct Progress {
    pub state: IdentifierState,
    pub pending: Vec<SelfAddressingPrefix>,
}

impl View for Progress {
    type V = (IdentifierStateView, Seq<Seq<u8>>);

    open spec fn view(&self) -> (IdentifierStateView, Seq<Seq<u8>>) {
        (self.state@, views(self.pending@))
    }
}

/// Where the presenting stands after an event, presented with `state`, came
/// to `outcome`, with `rest` still to be presented. A finalised event moves
/// the state on and puts the events that waited for the next position behind
/// the rest; the rest stays, so that an event that waited for the position
/// just taken is presented again and leaves the out-of-order escrow. Any
/// other outcome leaves state and rest as they are.
pub open spec fn advanced(
    outcome: Outcome,
    state: IdentifierStateView,
    rest: Seq<Seq<u8>>,
) -> (IdentifierStateView, Seq<Seq<u8>>) {
    match outcome {
        Outcome::Finalised { state: reached, waiting } => (reached@, rest + views(waiting@)),
        _ => (state, rest),
    }
}

/// Computes `advanced`.
pub fn advance(outcome: Outcome, state: IdentifierState, rest: Vec<SelfAddressingPrefix>) -> (next:
    Progress)
    ensures
        next@ == advanced(outcome, state@, views(rest@)),
{
    match outcome {
        Outcome::Finalised { state: reached, waiting } => {
            let mut pending = rest;
            let mut i: usize = 0;
            assert(views(pending@) =~= views(rest@) + views(waiting@).subrange(0, 0));
            while i < waiting.len()
                invariant
                    i <= waiting@.len(),
                    views(pending@) == views(rest@) + views(waiting@).subrange(0, i as int),
                decreases waiting@.len() - i,
            {
                let ghost before = pending@;
                pending.push(waiting[i].clone());
                i += 1;
                assert(views(pending@) =~= views(before).push(waiting@[i - 1]@));
                assert(views(pending@) =~= views(rest@) + views(waiting@).subrange(0, i as int));
            }
            assert(views(waiting@).subrange(0, i as int) =~= views(waiting@));
            Progress { state: reached, pending }
        },
        _ => Progress { state, pending: rest },
    }
}

impl Progress {
    /// Takes the digest that is to be presented next off the list, if there
    /// is one.
    pub fn take_next(&mut self) -> (next: Option<SelfAddressingPrefix>)
        ensures
            final(self).state@ == old(self).state@,
            match next {
                Some(digest) => {
                    &&& old(self)@.1.len() > 0
                    &&& digest@ == old(self)@.1[0]
                    &&& final(self)@.1 == old(self)@.1.drop_first()
                },
                None => old(self)@.1.len() == 0 && final(self)@.1 == old(self)@.1,
            },
    {
        if self.pending.len() == 0 {
            None
        } else {
            let digest = self.pending.remove(0);
            assert(views(self.pending@) =~= views(old(self).pending@).drop_first());
            Some(digest)
        }
    }
}

impl Tables {
    /// Whether what is needed to receive an event of the identifier can be
    /// read: the identifier's id or, for one that is not indexed, every id,
    /// and the signatures stored for the event.
    pub open spec fn readable_for(self, prefix: Seq<u8>, digest: Seq<u8>) -> bool {
        exists|id: u64| #[trigger]
            self.enters_as(prefix, id) && self.signatures_of(id, digest) is Some && (self.indexed(
                prefix,
            ) || self.ids_readable())
    }

    /// The tables after an event is received: its identifier is indexed, as
    /// `id`, if it was not, and the event is logged with the presented
    /// signatures added behind the stored ones.
    pub open spec fn received(
        self,
        prefix: Seq<u8>,
        id: u64,
        digest: Seq<u8>,
        raw: Seq<u8>,
        stamp: Seq<u8>,
        presented: Seq<(u16, Seq<u8>)>,
    ) -> Tables {
        self.entered(prefix, id).logged(
            id,
            digest,
            raw,
            stamp,
            self.signatures_of(id, digest)->0 + presented,
        )
    }
}

/// The tables that presenting an event can change: every table but those of
/// the receipts.
pub open spec fn presenting_tables() -> Set<Table> {
    log_tables().union(escrow_tables()).insert(Table::Identifiers).insert(Table::KeyEventLogs)
}

/// Whether `result` and the tables `after` are what presenting an event at
/// the time `stamp` gives from the tables `before`.
///
/// A receipt is refused and nothing is stored. Where something that is
/// needed cannot be read, nothing is stored either. Otherwise the event is
/// received and judged: a refusal by the judgement leaves the event logged
/// and nothing more; a disposition is carried out. Where the store fails,
/// the receipts at least are as they were.
pub open spec fn presented(
    before: Tables,
    after: Tables,
    state: IdentifierStateView,
    event: EventView,
    raw: Seq<u8>,
    signatures: Seq<(u16, Seq<u8>)>,
    stamp: Seq<u8>,
    result: Result<Outcome, KeriError>,
) -> bool {
    let id = after.id_of(event.prefix)->0;
    let received = before.received(event.prefix, id, event.digest, raw, stamp, signatures);
    match result {
        Err(KeriError::StorageError) => {
            &&& !(event.event_data is Rct)
            &&& after.agrees_except(before, presenting_tables())
        },
        Err(KeriError::SerializationError) => {
            &&& !(event.event_data is Rct)
            &&& !before.readable_for(event.prefix, event.digest)
            &&& after == before
        },
        Err(e) => if event.event_data is Rct {
            e == KeriError::SequenceError && after == before
        } else {
            &&& after.id_of(event.prefix) is Some
            &&& before.enters_as(event.prefix, id)
            &&& before.signatures_of(id, event.digest) is Some
            &&& after == received
            &&& received.judged(id, state, event) == Err::<
                (Disposition, Option<IdentifierStateView>),
                KeriError,
            >(e)
        },
        Ok(outcome) => {
            &&& !(event.event_data is Rct)
            &&& after.id_of(event.prefix) is Some
            &&& before.enters_as(event.prefix, id)
            &&& before.signatures_of(id, event.digest) is Some
            &&& received.judged(id, state, event) is Ok
            &&& after == received.settled(
                id,
                event.sn,
                event.digest,
                received.judged(id, state, event)->Ok_0.0,
            )
            &&& outcome.follows(received.judged(id, state, event)->Ok_0, after, id, event.sn)
        },
    }
}

/// What is needed to receive an event cannot be read where the identifier's
/// id cannot, where the identifier is not indexed and some id cannot, or
/// where the signatures stored for the event under the id that the
/// identifier has or would get cannot.
proof fn lemma_unreadable(tables: Tables, prefix: Seq<u8>, digest: Seq<u8>, expected: u64)
    requires
        ({
            ||| tables.indexed(prefix) && tables.id_of(prefix) is None
            ||| !tables.indexed(prefix) && !tables.ids_readable()
            ||| tables.enters_as(prefix, expected) && tables.signatures_of(expected, digest) is None
        }),
    ensures
        !tables.readable_for(prefix, digest),
{
    if tables.readable_for(prefix, digest) {
        let id = choose|id: u64| #[trigger]
            tables.enters_as(prefix, id) && tables.signatures_of(id, digest) is Some && (
            tables.indexed(prefix) || tables.ids_readable());
        if tables.enters_as(prefix, expected) && !tables.indexed(prefix) {
            lemma_next_id_unique(tables, id, expected);
        }
    }
}

impl SledEventDatabase {
    /// Carries out a disposition for an event of identifier `id`.
    pub(crate) fn settle(
        &mut self,
        id: u64,
        sn: u64,
        dig: &SelfAddressingPrefix,
        what: Disposition,
    ) -> (done: Result<(), KeriError>)
        ensures
            match done {
                Ok(()) => final(self)@ == old(self)@.settled(id, sn, dig@, what),
                Err(e) => e == KeriError::StorageError && final(self)@.agrees_except(
                    old(self)@,
                    escrow_tables().insert(Table::KeyEventLogs),
                ),
            },
    {
        let own = make_entry_key(id, sn, dig.as_bytes());
        match what {
            Disposition::AlreadyFinalised => Ok(()),
            Disposition::Finalise => {
                self.release(id, sn, dig)?;
                let key = make_sn_key(id, sn);
                self.write(Table::KeyEventLogs, key.as_slice(), dig.as_bytes())
            },
            Disposition::PartiallySigned => {
                self.release(id, sn, dig)?;
                self.write(Table::PartiallySignedEvents, own.as_slice(), dig.as_bytes())
            },
            Disposition::OutOfOrder => {
                self.release(id, sn, dig)?;
                self.write(Table::OutOfOrderEvents, own.as_slice(), dig.as_bytes())
            },
            Disposition::LikelyDuplicitous => {
                self.release(id, sn, dig)?;
                self.write(Table::LikelyDuplicitousEvents, own.as_slice(), dig.as_bytes())
            },
            Disposition::Duplicitous => {
                let canonical = self.canonical_digest(id, sn)?;
                self.release(id, sn, dig)?;
                self.write(Table::DuplicitousEvents, own.as_slice(), dig.as_bytes())?;
                match canonical {
                    Some(other) => {
                        self.release(id, sn, &other)?;
                        let key = make_entry_key(id, sn, other.as_bytes());
                        self.write(Table::DuplicitousEvents, key.as_slice(), other.as_bytes())
                    },
                    None => Ok(()),
                }
            },
        }
    }

    /// Presents an event at the time `stamp`, with `state` as the state of
    /// its identifier: the event is received, judged and dealt with.
    pub fn process_event_at(
        &mut self,
        state: &IdentifierState,
        event: &Event,
        raw: &[u8],
        sigs: &[AttachedSignaturePrefix],
        stamp: &[u8],
    ) -> (result: Result<Outcome, KeriError>)
        ensures
            presented(old(self)@, final(self)@, state@, event@, raw@, views(sigs@), stamp@, result),
            old(self)@.sound() && result != Err::<Outcome, KeriError>(KeriError::StorageError)
                ==> final(self)@.sound(),
    {
        if let EventData::Rct(_) = &event.event_data {
            return Err(KeriError::SequenceError);
        }
        let known = self.holds(Table::Identifiers, event.prefix.as_bytes())?;
        let expected = if known {
            self.get_identifier_id(&event.prefix)
        } else {
            self.next_identifier_id()
        };
        let expected = match expected {
            Ok(expected) => expected,
            Err(KeriError::SerializationError) => {
                proof {
                    lemma_unreadable(old(self)@, event.prefix@, event.digest@, 0);
                }
                return Err(KeriError::SerializationError);
            },
            Err(e) => return Err(e),
        };
        match self.stored_signatures(expected, &event.digest) {
            Ok(_) => {},
            Err(KeriError::SerializationError) => {
                proof {
                    lemma_unreadable(old(self)@, event.prefix@, event.digest@, expected);
                }
                return Err(KeriError::SerializationError);
            },
            Err(e) => return Err(e),
        }
        let id = self.get_or_assign_identifier_id(&event.prefix)?;
        proof {
            if !known {
                lemma_next_id_unique(old(self)@, id, expected);
            }
        }
        let ghost entered = self@;
        assert(entered == old(self)@.entered(event.prefix@, id));
        assert(entered.signatures_of(id, event.digest@) == old(self)@.signatures_of(
            id,
            event.digest@,
        ));
        self.log_event_at(&event.prefix, &event.digest, raw, sigs, stamp)?;
        let ghost received = self@;
        assert(received == old(self)@.received(
            event.prefix@,
            id,
            event.digest@,
            raw@,
            stamp@,
            views(sigs@),
        ));
        assert(received.id_of(event.prefix@) == Some(id));
        proof {
            if old(self)@.sound() {
                if !known {
                    lemma_index_sound(old(self)@, event.prefix@, id);
                }
                lemma_logged_sound(
                    entered,
                    id,
                    event.digest@,
                    raw@,
                    stamp@,
                    old(self)@.signatures_of(id, event.digest@)->0 + views(sigs@),
                );
            }
        }
        let judgement = self.judge(id, state, event)?;
        proof {
            if old(self)@.sound() {
                lemma_settled_sound(received, id, event.sn, event.digest@, judgement.disposition);
            }
        }
        self.settle(id, event.sn, &event.digest, judgement.disposition)?;
        assert(self@.id_of(event.prefix@) == Some(id));
        let outcome = match judgement.disposition {
            Disposition::AlreadyFinalised => Outcome::AlreadyFinalised,
            Disposition::PartiallySigned => Outcome::Escrowed(Escrow::PartiallySigned),
            Disposition::OutOfOrder => Outcome::Escrowed(Escrow::OutOfOrder),
            Disposition::LikelyDuplicitous => Outcome::Escrowed(Escrow::LikelyDuplicitous),
            Disposition::Duplicitous => Outcome::Escrowed(Escrow::Duplicitous),
            Disposition::Finalise => {
                let waiting = if event.sn < u64::MAX {
                    self.waiting_at(id, event.sn + 1)?
                } else {
                    Vec::new()
                };
                let state = match judgement.state {
                    Some(state) => state,
                    None => vstd::pervasive::unreached(),
                };
                Outcome::Finalised { state, waiting }
            },
        };
        Ok(outcome)
    }

    /// Presents an event now, with `state` as the state of its identifier.
    /// It is `process_event_at` with the wall clock's time as the stamp.
    pub fn process_event(
        &mut self,
        state: &IdentifierState,
        event: &Event,
        raw: &[u8],
        sigs: &[AttachedSignaturePrefix],
    ) -> (result: Result<Outcome, KeriError>)
        ensures
            exists|stamp: Seq<u8>| #[trigger]
                presented(
                    old(self)@,
                    final(self)@,
                    state@,
                    event@,
                    raw@,
                    views(sigs@),
                    stamp,
                    result,
                ),
            old(self)@.sound() && result != Err::<Outcome, KeriError>(KeriError::StorageError)
                ==> final(self)@.sound(),
    {
        let stamp = now_rfc3339();
        self.process_event_at(state, event, raw, sigs, stamp.as_slice())
    }
}

/// Dealing with a judged event puts no event into two escrows.
pub proof fn lemma_settled_exclusive(
    tables: Tables,
    id: u64,
    sn: u64,
    digest: Seq<u8>,
    what: Disposition,
)
    requires
        tables.complete(),
        tables.exclusive(),
    ensures
        tables.settled(id, sn, digest, what).complete(),
        tables.settled(id, sn, digest, what).exclusive(),
{
    match what {
        Disposition::AlreadyFinalised => {},
        Disposition::Finalise => {
            lemma_finalise_exclusive(tables, id, sn, digest);
        },
        Disposition::PartiallySigned => {
            lemma_escrow_exclusive(tables, Escrow::PartiallySigned, id, sn, digest);
        },
        Disposition::OutOfOrder => {
            lemma_escrow_exclusive(tables, Escrow::OutOfOrder, id, sn, digest);
        },
        Disposition::LikelyDuplicitous => {
            lemma_escrow_exclusive(tables, Escrow::LikelyDuplicitous, id, sn, digest);
        },
        Disposition::Duplicitous => {
            lemma_escrow_exclusive(tables, Escrow::Duplicitous, id, sn, digest);
            match tables.canonical(id, sn) {
                Some(other) => {
                    lemma_escrow_exclusive(
                        tables.escrowed(Escrow::Duplicitous, id, sn, digest),
                        Escrow::Duplicitous,
                        id,
                        sn,
                        other,
                    );
                },
                None => {},
            }
        },
    }
}

/// Presenting an event keeps every event in at most one escrow, keeps ids
/// distinct, and finalises nothing but the presented event, and that only at
/// the next position of its log: the canonical events of every identifier
/// stay as they were but for the one that may be added.
pub proof fn lemma_presented(
    before: Tables,
    after: Tables,
    state: IdentifierStateView,
    event: EventView,
    raw: Seq<u8>,
    signatures: Seq<(u16, Seq<u8>)>,
    stamp: Seq<u8>,
    result: Result<Outcome, KeriError>,
)
    requires
        before.complete(),
        presented(before, after, state, event, raw, signatures, stamp, result),
        result != Err::<Outcome, KeriError>(KeriError::StorageError),
    ensures
        before.exclusive() ==> after.exclusive(),
        before.ids_distinct() ==> after.ids_distinct(),
        forall|prefix: Seq<u8>|
            #[trigger] before.indexed(prefix) ==> after.id_of(prefix) == before.id_of(prefix),
        result matches Ok(Outcome::Finalised { .. }) ==> {
            &&& before.next_position(after.id_of(event.prefix)->0, event.sn)
            &&& after.canonical(after.id_of(event.prefix)->0, event.sn) == Some(event.digest)
        },
        forall|id: u64, sn: u64|
            !(result matches Ok(Outcome::Finalised { .. }) && id == after.id_of(event.prefix)->0
                && sn == event.sn) ==> #[trigger] after.canonical(id, sn) == before.canonical(
                id,
                sn,
            ),
{
    let id = after.id_of(event.prefix)->0;
    let entered = before.entered(event.prefix, id);
    let received = before.received(event.prefix, id, event.digest, raw, stamp, signatures);
    if after != before {
        assert forall|prefix: Seq<u8>| #[trigger] before.indexed(prefix) implies entered.id_of(
            prefix,
        ) == before.id_of(prefix) by {}
        assert forall|prefix: Seq<u8>| #[trigger]
            received.id_of(prefix) == entered.id_of(prefix) by {}
        assert forall|prefix: Seq<u8>| #[trigger]
            after.id_of(prefix) == received.id_of(prefix) by {
            if result is Ok {
                let what = received.judged(id, state, event)->Ok_0.0;
                assert(after == received.settled(id, event.sn, event.digest, what));
            }
        }
        if !before.indexed(event.prefix) {
            assert(before.next_id(id));
            assert(entered.id_of(event.prefix) == Some(id));
            assert(cbor_decoding(cbor_u64(id)) == Some(id));
            if before.ids_distinct() {
                lemma_index_keeps_ids_distinct(before, event.prefix, id);
            }
        }
        assert forall|any: Escrow, other: u64, at: u64, under: Seq<u8>| #[trigger]
            received.escrowed_in(any, other, at, under) == before.escrowed_in(
                any,
                other,
                at,
                under,
            ) by {}
        if before.exclusive() {
            assert forall|other: u64, at: u64, under: Seq<u8>| #[trigger]
                received.exclusive_at(other, at, under) by {
                assert(before.exclusive_at(other, at, under));
            }
        }
        assert forall|other: u64, at: u64| #[trigger]
            received.canonical(other, at) == before.canonical(other, at) by {}
        match result {
            Ok(outcome) => {
                let what = received.judged(id, state, event)->Ok_0.0;
                if before.exclusive() {
                    lemma_settled_exclusive(received, id, event.sn, event.digest, what);
                }
                assert forall|prefix: Seq<u8>| #[trigger]
                    after.id_of(prefix) == received.id_of(prefix) by {}
                if what == Disposition::Finalise {
                    assert(received.canonical(id, event.sn) is None);
                    assert(received.predecessor_known(id, event.sn));
                    assert(received.next_position(id, event.sn));
                    assert(before.finalised(id, event.sn) == received.finalised(id, event.sn));
                    if event.sn > 0 {
                        assert(received.canonical(id, (event.sn - 1) as u64) == before.canonical(
                            id,
                            (event.sn - 1) as u64,
                        ));
                    }
                    lemma_finalise_extends_log_at(received, id, event.sn, event.digest);
                } else {
                    assert forall|other: u64, at: u64| #[trigger]
                        after.canonical(other, at) == received.canonical(other, at) by {}
                }
            },
            Err(_) => {},
        }
    }
}

/// Finalising changes the canonical event of one position only.
proof fn lemma_finalise_extends_log_at(tables: Tables, id: u64, sn: u64, digest: Seq<u8>)
    requires
        tables.complete(),
    ensures
        tables.finalise(id, sn, digest).canonical(id, sn) == Some(digest),
        forall|other: u64, at: u64|
            other != id || at != sn ==> #[trigger] tables.finalise(id, sn, digest).canonical(
                other,
                at,
            ) == tables.canonical(other, at),
{
    let after = tables.finalise(id, sn, digest);
    assert forall|other: u64, at: u64| other != id || at != sn implies #[trigger] after.canonical(
        other,
        at,
    ) == tables.canonical(other, at) by {
        if sn_key(other, at) == sn_key(id, sn) {
            crate::database::keys::lemma_sn_key_injective(other, at, id, sn);
        }
    }
}

/// Presenting an event keeps the tables sound: whatever is presented, and
/// however it is judged, ids stay distinct, every log stays without gaps, no
/// event is in two escrows and no canonical event waits in one.
pub proof fn lemma_presented_sound(
    before: Tables,
    after: Tables,
    state: IdentifierStateView,
    event: EventView,
    raw: Seq<u8>,
    signatures: Seq<(u16, Seq<u8>)>,
    stamp: Seq<u8>,
    result: Result<Outcome, KeriError>,
)
    requires
        before.sound(),
        presented(before, after, state, event, raw, signatures, stamp, result),
        result != Err::<Outcome, KeriError>(KeriError::StorageError),
    ensures
        after.sound(),
{
    let id = after.id_of(event.prefix)->0;
    let entered = before.entered(event.prefix, id);
    let all = before.signatures_of(id, event.digest)->0 + signatures;
    let received = entered.logged(id, event.digest, raw, stamp, all);
    if after != before {
        assert forall|prefix: Seq<u8>| #[trigger]
            received.id_of(prefix) == entered.id_of(prefix) by {}
        assert forall|prefix: Seq<u8>| #[trigger]
            after.id_of(prefix) == received.id_of(prefix) by {
            if result is Ok {
                let what = received.judged(id, state, event)->Ok_0.0;
                assert(after == received.settled(id, event.sn, event.digest, what));
            }
        }
        if !before.indexed(event.prefix) {
            assert(entered.id_of(event.prefix) == Some(id));
            lemma_index_sound(before, event.prefix, id);
        }
        lemma_logged_sound(entered, id, event.digest, raw, stamp, all);
        if result is Ok {
            let what = received.judged(id, state, event)->Ok_0.0;
            lemma_settled_sound(received, id, event.sn, event.digest, what);
        }
    }
}

/// Carrying out a disposition keeps the tables sound, as long as an event is
/// finalised at the next position of its log only and the canonical event of
/// a position is not made to wait.
pub proof fn lemma_settled_sound(
    tables: Tables,
    id: u64,
    sn: u64,
    digest: Seq<u8>,
    what: Disposition,
)
    requires
        tables.sound(),
        what == Disposition::Finalise ==> tables.next_position(id, sn),
        what == Disposition::PartiallySigned || what == Disposition::OutOfOrder || what
            == Disposition::LikelyDuplicitous ==> tables.canonical(id, sn) != Some(digest),
    ensures
        tables.settled(id, sn, digest, what).sound(),
{
    match what {
        Disposition::AlreadyFinalised => {},
        Disposition::Finalise => {
            lemma_finalise_sound(tables, id, sn, digest);
        },
        Disposition::PartiallySigned => {
            lemma_escrowed_sound(tables, Escrow::PartiallySigned, id, sn, digest);
        },
        Disposition::OutOfOrder => {
            lemma_escrowed_sound(tables, Escrow::OutOfOrder, id, sn, digest);
        },
        Disposition::LikelyDuplicitous => {
            lemma_escrowed_sound(tables, Escrow::LikelyDuplicitous, id, sn, digest);
        },
        Disposition::Duplicitous => {
            lemma_escrowed_sound(tables, Escrow::Duplicitous, id, sn, digest);
            match tables.canonical(id, sn) {
                Some(other) => {
                    lemma_escrowed_sound(
                        tables.escrowed(Escrow::Duplicitous, id, sn, digest),
                        Escrow::Duplicitous,
                        id,
                        sn,
                        other,
                    );
                },
                None => {},
            }
        },
    }
}

/// Promotion, first half: when an event is finalised, every event that
/// waited out of order for the position behind it is named in the outcome,
/// and so is put on the list of what is presented next.
pub proof fn lemma_finalising_names_the_waiting(
    before: Tables,
    after: Tables,
    state: IdentifierStateView,
    event: EventView,
    raw: Seq<u8>,
    signatures: Seq<(u16, Seq<u8>)>,
    stamp: Seq<u8>,
    result: Result<Outcome, KeriError>,
    waits: Seq<u8>,
)
    requires
        before.complete(),
        presented(before, after, state, event, raw, signatures, stamp, result),
        result matches Ok(Outcome::Finalised { .. }),
        event.sn < u64::MAX,
        before.escrowed_in(
            Escrow::OutOfOrder,
            after.id_of(event.prefix)->0,
            (event.sn + 1) as u64,
            waits,
        ),
    ensures
        views(result->Ok_0->waiting@).contains(waits),
        advanced(result->Ok_0, state, Seq::empty()).1.contains(waits),
{
    let id = after.id_of(event.prefix)->0;
    let next = (event.sn + 1) as u64;
    let received = before.received(event.prefix, id, event.digest, raw, stamp, signatures);
    assert(received.escrowed_in(Escrow::OutOfOrder, id, next, waits));
    if entry_key(id, next, waits) == entry_key(id, event.sn, event.digest) {
        lemma_entry_key_injective(id, next, waits, id, event.sn, event.digest);
    }
    assert(after.escrowed_in(Escrow::OutOfOrder, id, next, waits));
    let listed = views(result->Ok_0->waiting@);
    assert(after.lists_waiting(id, next, listed));
    assert(Seq::<Seq<u8>>::empty() + listed =~= listed);
}

/// Promotion, second half: an event whose position is free and whose
/// predecessor is finalised is never judged out of order again; if it fits
/// the state and the signatures stored for it meet the threshold, it is
/// judged to be finalised, with nothing more presented.
pub proof fn lemma_waiting_is_promoted(
    tables: Tables,
    id: u64,
    state: IdentifierStateView,
    event: EventView,
)
    requires
        !(event.event_data is Rct),
        tables.signatures_of(id, event.digest) is Some,
        tables.canonical(id, event.sn) is None,
        tables.predecessor_known(id, event.sn),
    ensures
        tables.judged(id, state, event) matches Ok(reached) ==> reached.0
            != Disposition::OutOfOrder,
        tables.tip_matches(id, event.sn, state.last) && event.applied(state) is Ok && threshold_met(
            tables.signatures_of(id, event.digest)->0,
            event.applied(state)->Ok_0.current.signers.len(),
            event.applied(state)->Ok_0.current.threshold as nat,
        ) ==> tables.judged(id, state, event) == Ok::<
            (Disposition, Option<IdentifierStateView>),
            KeriError,
        >((Disposition::Finalise, Some(event.applied(state)->Ok_0))),
{
}

/// An event whose application to the state fails is never judged to be
/// finalised, whatever the tables hold and however many signatures are
/// stored for it: a rotation whose reveal does not match the commitment
/// stays out of the key event log.
pub proof fn lemma_refused_is_never_finalised(
    tables: Tables,
    id: u64,
    state: IdentifierStateView,
    event: EventView,
)
    requires
        event.applied(state) is Err,
    ensures
        tables.judged(id, state, event) matches Ok(reached) ==> reached.0 != Disposition::Finalise,
{
}

/// The steps that carry out a disposition.
pub open spec fn settling_steps(
    tables: Tables,
    id: u64,
    sn: u64,
    digest: Seq<u8>,
    what: Disposition,
) -> Seq<Step> {
    match what {
        Disposition::AlreadyFinalised => Seq::empty(),
        Disposition::Finalise => seq![Step::Finalise { id, sn, digest }],
        Disposition::PartiallySigned => seq![
            Step::Escrow { category: Escrow::PartiallySigned, id, sn, digest },
        ],
        Disposition::OutOfOrder => seq![
            Step::Escrow { category: Escrow::OutOfOrder, id, sn, digest },
        ],
        Disposition::LikelyDuplicitous => seq![
            Step::Escrow { category: Escrow::LikelyDuplicitous, id, sn, digest },
        ],
        Disposition::Duplicitous => match tables.canonical(id, sn) {
            Some(other) => seq![
                Step::Escrow { category: Escrow::Duplicitous, id, sn, digest },
                Step::Escrow { category: Escrow::Duplicitous, id, sn, digest: other },
            ],
            None => seq![Step::Escrow { category: Escrow::Duplicitous, id, sn, digest }],
        },
    }
}

/// The steps that presenting an event takes, from its result: the
/// identifier is indexed if it was not, the event is logged, and the
/// disposition, if one was reached, is carried out.
pub open spec fn presenting_steps(
    before: Tables,
    after: Tables,
    state: IdentifierStateView,
    event: EventView,
    raw: Seq<u8>,
    signatures: Seq<(u16, Seq<u8>)>,
    stamp: Seq<u8>,
    result: Result<Outcome, KeriError>,
) -> Seq<Step> {
    let id = after.id_of(event.prefix)->0;
    let received = before.received(event.prefix, id, event.digest, raw, stamp, signatures);
    let entering = if before.indexed(event.prefix) {
        Seq::<Step>::empty()
    } else {
        seq![Step::Index { prefix: event.prefix, id }]
    };
    let logging = entering.push(
        Step::Log {
            id,
            digest: event.digest,
            raw,
            stamp,
            signatures: before.signatures_of(id, event.digest)->0 + signatures,
        },
    );
    if after == before {
        Seq::empty()
    } else {
        match result {
            Ok(_) => logging + settling_steps(
                received,
                id,
                event.sn,
                event.digest,
                received.judged(id, state, event)->Ok_0.0,
            ),
            Err(_) => logging,
        }
    }
}

/// Presenting an event is a sequence of steps of the database, each of which
/// can be taken. So what holds after every sequence of steps holds after
/// every presenting: sound tables stay sound, an identifier keeps its id,
/// and a canonical event stays canonical.
pub proof fn lemma_presenting_is_a_history(
    before: Tables,
    after: Tables,
    state: IdentifierStateView,
    event: EventView,
    raw: Seq<u8>,
    signatures: Seq<(u16, Seq<u8>)>,
    stamp: Seq<u8>,
    result: Result<Outcome, KeriError>,
)
    requires
        before.complete(),
        presented(before, after, state, event, raw, signatures, stamp, result),
        result != Err::<Outcome, KeriError>(KeriError::StorageError),
    ensures
        before.admits_all(
            presenting_steps(before, after, state, event, raw, signatures, stamp, result),
        ),
        after == before.after_all(
            presenting_steps(before, after, state, event, raw, signatures, stamp, result),
        ),
{
    let steps = presenting_steps(before, after, state, event, raw, signatures, stamp, result);
    if after != before {
        let id = after.id_of(event.prefix)->0;
        let entered = before.entered(event.prefix, id);
        let all = before.signatures_of(id, event.digest)->0 + signatures;
        let received = entered.logged(id, event.digest, raw, stamp, all);
        let log = Step::Log { id, digest: event.digest, raw, stamp, signatures: all };
        assert forall|prefix: Seq<u8>| #[trigger]
            received.id_of(prefix) == entered.id_of(prefix) by {}
        assert forall|prefix: Seq<u8>| #[trigger]
            after.id_of(prefix) == received.id_of(prefix) by {
            if result is Ok {
                let what = received.judged(id, state, event)->Ok_0.0;
                assert(after == received.settled(id, event.sn, event.digest, what));
            }
        }
        let entering = if before.indexed(event.prefix) {
            Seq::<Step>::empty()
        } else {
            seq![Step::Index { prefix: event.prefix, id }]
        };
        if !before.indexed(event.prefix) {
            let index = Step::Index { prefix: event.prefix, id };
            assert(entered.id_of(event.prefix) == Some(id));
            assert(before.next_id(id));
            assert(before.admits(index));
            lemma_history_push(before, Seq::empty(), index);
            assert(entering =~= Seq::<Step>::empty().push(index));
        }
        assert(before.admits_all(entering));
        assert(before.after_all(entering) == entered);
        let logging = entering.push(log);
        lemma_history_push(before, entering, log);
        assert(before.after_all(logging) == received);
        match result {
            Ok(_) => {
                let what = received.judged(id, state, event)->Ok_0.0;
                let settling = settling_steps(received, id, event.sn, event.digest, what);
                assert(after == received.settled(id, event.sn, event.digest, what));
                match what {
                    Disposition::AlreadyFinalised => {
                        assert(logging + settling =~= logging);
                    },
                    Disposition::Duplicitous => {
                        let first = Step::Escrow {
                            category: Escrow::Duplicitous,
                            id,
                            sn: event.sn,
                            digest: event.digest,
                        };
                        lemma_history_push(before, logging, first);
                        match received.canonical(id, event.sn) {
                            Some(other) => {
                                let second = Step::Escrow {
                                    category: Escrow::Duplicitous,
                                    id,
                                    sn: event.sn,
                                    digest: other,
                                };
                                lemma_history_push(before, logging.push(first), second);
                                assert(logging + settling =~= logging.push(first).push(second));
                            },
                            None => {
                                assert(logging + settling =~= logging.push(first));
                            },
                        }
                    },
                    _ => {
                        assert(settling.len() == 1);
                        lemma_history_push(before, logging, settling[0]);
                        assert(logging + settling =~= logging.push(settling[0]));
                    },
                }
            },
            Err(_) => {},
        }
    }
}

/// Taking one more step after a sequence of steps.
proof fn lemma_history_push(tables: Tables, steps: Seq<Step>, step: Step)
    ensures
        tables.after_all(steps.push(step)) == tables.after_all(steps).after(step),
        tables.admits_all(steps.push(step)) == (tables.admits_all(steps) && tables.after_all(
            steps,
        ).admits(step)),
{
    assert(steps.push(step).drop_last() =~= steps);
    assert(steps.push(step).last() == step);
}

} // verus!
