//! What holds of the tables whatever is done to them, stated over what they
//! hold.

use crate::database::escrow::Escrow;
use crate::database::keys::{
    digest_key, entry_key, lemma_digest_key_injective, lemma_entry_key_injective,
    lemma_sn_key_injective, sn_key,
};
use crate::database::receipts::ReceiptKind;
use crate::database::Tables;
use crate::signatures::Signature;
use vstd::prelude::*;

verus! {

/// An event as it is logged: its digest and bytes, the stamp of its arrival,
/// and the signatures stored for it.
pub struct Logged {
    pub digest: Seq<u8>,
    pub raw: Seq<u8>,
    pub stamp: Seq<u8>,
    pub signatures: Seq<Signature>,
}

impl Tables {
    /// Whether the canonical events of identifier `id` are exactly those at
    /// the positions below `length`: the log starts at 0 and has no gap.
    pub open spec fn log_length(self, id: u64, length: nat) -> bool {
        forall|sn: u64| #[trigger] self.finalised(id, sn) <==> sn < length
    }

    /// Whether the bytes of every canonical event of identifier `id` were
    /// logged.
    pub open spec fn log_has_bytes(self, id: u64) -> bool {
        forall|sn: u64| #[trigger] self.finalised(id, sn) ==> self.event_at(id, sn) is Some
    }

    /// The tables after each event of a list is logged, with whatever stamp
    /// and signatures, and finalised at the next position, the first at
    /// `start`.
    pub open spec fn recorded(self, id: u64, start: nat, events: Seq<Logged>) -> Tables
        decreases events.len(),
    {
        if events.len() == 0 {
            self
        } else {
            self.recorded(id, start, events.drop_last()).logged(
                id,
                events.last().digest,
                events.last().raw,
                events.last().stamp,
                events.last().signatures,
            ).finalise(id, (start + events.len() - 1) as u64, events.last().digest)
        }
    }
}

/// The bytes of a list of events, one behind the other.
pub open spec fn concatenated(events: Seq<Logged>) -> Seq<u8>
    decreases events.len(),
{
    if events.len() == 0 {
        Seq::empty()
    } else {
        concatenated(events.drop_last()) + events.last().raw
    }
}

/// In tables that hold nothing no identifier has an id, no log has an event
/// and no event is in escrow.
pub proof fn lemma_empty_tables()
    ensures
        Tables::empty().complete(),
        Tables::empty().ids_distinct(),
        Tables::empty().next_id(0),
        Tables::empty().exclusive(),
        forall|id: u64| #[trigger] Tables::empty().log_length(id, 0),
{
    let empty = Tables::empty();
    assert forall|id: u64, sn: u64, digest: Seq<u8>| #[trigger]
        empty.exclusive_at(id, sn, digest) by {
        assert forall|first: Escrow, second: Escrow|
            #[trigger] empty.escrowed_in(first, id, sn, digest) && #[trigger] empty.escrowed_in(
                second,
                id,
                sn,
                digest,
            ) implies first == second by {}
    }
}

/// Finalising adds exactly one position to a log, the one at its end: the
/// sequence numbers of the canonical events of an identifier count up from 0
/// by one, with no gap and none twice. The logs of other identifiers and the
/// earlier positions stay as they were.
pub proof fn lemma_finalise_extends_log(
    tables: Tables,
    id: u64,
    sn: u64,
    digest: Seq<u8>,
    length: nat,
)
    requires
        tables.complete(),
        tables.log_length(id, length),
        tables.next_position(id, sn),
    ensures
        sn == length,
        tables.finalise(id, sn, digest).log_length(id, length + 1),
        tables.finalise(id, sn, digest).canonical(id, sn) == Some(digest),
        forall|other: u64, at: u64|
            other != id || at != sn ==> #[trigger] tables.finalise(id, sn, digest).canonical(
                other,
                at,
            ) == tables.canonical(other, at),
{
    let after = tables.finalise(id, sn, digest);
    if sn > 0 {
        assert(tables.finalised(id, (sn - 1) as u64));
    }
    assert(!tables.finalised(id, sn));
    assert forall|other: u64, at: u64| other != id || at != sn implies #[trigger] after.canonical(
        other,
        at,
    ) == tables.canonical(other, at) by {
        if sn_key(other, at) == sn_key(id, sn) {
            lemma_sn_key_injective(other, at, id, sn);
        }
    }
    assert forall|at: u64| #[trigger] after.finalised(id, at) <==> at < length + 1 by {
        if at != sn {
            assert(after.canonical(id, at) == tables.canonical(id, at));
            assert(after.finalised(id, at) == tables.finalised(id, at));
        }
    }
}

/// Finalising an event whose bytes were logged adds those bytes at the end of
/// the identifier's key event log.
pub proof fn lemma_finalise_extends_kerl(
    tables: Tables,
    id: u64,
    digest: Seq<u8>,
    raw: Seq<u8>,
    length: nat,
)
    requires
        tables.complete(),
        tables.log_length(id, length),
        tables.log_has_bytes(id),
        length <= u64::MAX,
        tables.event_bytes(id, digest) == Some(raw),
    ensures
        tables.finalise(id, length as u64, digest).kerl(id) == tables.kerl(id) + raw,
        tables.finalise(id, length as u64, digest).log_has_bytes(id),
{
    let after = tables.finalise(id, length as u64, digest);
    assert(tables.next_position(id, length as u64)) by {
        if length > 0 {
            assert(tables.finalised(id, (length - 1) as u64));
        }
    }
    lemma_finalise_extends_log(tables, id, length as u64, digest, length);
    assert forall|other: u64, any: Seq<u8>| #[trigger]
        after.event_bytes(other, any) == tables.event_bytes(other, any) by {}
    assert forall|sn: u64| #[trigger] after.finalised(id, sn) implies after.event_at(
        id,
        sn,
    ) is Some by {
        if sn != length {
            assert(after.canonical(id, sn) == tables.canonical(id, sn));
            assert(tables.finalised(id, sn));
        }
    }
    lemma_kerl_from_after_finalise(tables, id, digest, raw, length, 0);
}

/// From any position up to the end of the log, the bytes that follow are
/// those that followed before and the new event's.
proof fn lemma_kerl_from_after_finalise(
    tables: Tables,
    id: u64,
    digest: Seq<u8>,
    raw: Seq<u8>,
    length: nat,
    from: nat,
)
    requires
        tables.complete(),
        tables.log_length(id, length),
        tables.log_has_bytes(id),
        length <= u64::MAX,
        from <= length,
        tables.event_bytes(id, digest) == Some(raw),
        tables.next_position(id, length as u64),
    ensures
        tables.finalise(id, length as u64, digest).kerl_from(id, from) == tables.kerl_from(id, from)
            + raw,
    decreases length - from,
{
    let after = tables.finalise(id, length as u64, digest);
    lemma_finalise_extends_log(tables, id, length as u64, digest, length);
    assert forall|other: u64, any: Seq<u8>| #[trigger]
        after.event_bytes(other, any) == tables.event_bytes(other, any) by {}
    if from == length {
        assert(!tables.finalised(id, length as u64));
        assert(tables.kerl_from(id, from) =~= Seq::<u8>::empty());
        assert(after.event_at(id, length as u64) == Some(raw));
        if length < u64::MAX {
            assert(!after.finalised(id, (length + 1) as u64));
            assert(after.kerl_from(id, length + 1) =~= Seq::<u8>::empty());
        } else {
            assert(after.kerl_from(id, length + 1) =~= Seq::<u8>::empty());
        }
        assert(after.kerl_from(id, from) =~= raw + Seq::<u8>::empty());
        assert(raw + Seq::<u8>::empty() =~= Seq::<u8>::empty() + raw);
    } else {
        lemma_kerl_from_after_finalise(tables, id, digest, raw, length, from + 1);
        assert(after.canonical(id, from as u64) == tables.canonical(id, from as u64));
        assert(after.event_at(id, from as u64) == tables.event_at(id, from as u64));
        match tables.event_at(id, from as u64) {
            Some(bytes) => {
                assert(bytes + (tables.kerl_from(id, from + 1) + raw) =~= (bytes
                    + tables.kerl_from(id, from + 1)) + raw);
            },
            None => {
                assert(tables.finalised(id, from as u64));
            },
        }
    }
}

/// Logging an event stores its bytes under its digest and leaves the bytes
/// under other digests, every log and every id as they were.
pub proof fn lemma_logged(
    tables: Tables,
    id: u64,
    digest: Seq<u8>,
    raw: Seq<u8>,
    stamp: Seq<u8>,
    signatures: Seq<Signature>,
)
    requires
        tables.complete(),
    ensures
        tables.logged(id, digest, raw, stamp, signatures).complete(),
        tables.logged(id, digest, raw, stamp, signatures).event_bytes(id, digest) == Some(raw),
        forall|other: u64, any: Seq<u8>|
            other != id || any != digest ==> #[trigger] tables.logged(
                id,
                digest,
                raw,
                stamp,
                signatures,
            ).event_bytes(other, any) == tables.event_bytes(other, any),
        forall|other: u64, sn: u64| #[trigger]
            tables.logged(id, digest, raw, stamp, signatures).canonical(other, sn)
                == tables.canonical(other, sn),
        forall|prefix: Seq<u8>| #[trigger]
            tables.logged(id, digest, raw, stamp, signatures).id_of(prefix) == tables.id_of(prefix),
{
    let after = tables.logged(id, digest, raw, stamp, signatures);
    assert forall|other: u64, any: Seq<u8>| other != id || any != digest implies #[trigger]
        after.event_bytes(other, any) == tables.event_bytes(other, any) by {
        if digest_key(other, any) == digest_key(id, digest) {
            lemma_digest_key_injective(other, any, id, digest);
        }
    }
}

/// Round trip: after the events of a list are logged, whatever their stamps
/// and signatures, and finalised in order on an identifier without canonical
/// events, the identifier's key event log is their bytes, one behind the
/// other. Two events of the list that share a digest must have the same
/// bytes, as a digest is made from the bytes.
pub proof fn lemma_kerl_round_trip(tables: Tables, id: u64, events: Seq<Logged>)
    requires
        tables.complete(),
        tables.log_length(id, 0),
        events.len() <= u64::MAX,
        forall|i: int, j: int|
            0 <= i < events.len() && 0 <= j < events.len() && (#[trigger] events[i]).digest == (
            #[trigger] events[j]).digest ==> events[i].raw == events[j].raw,
    ensures
        tables.recorded(id, 0, events).kerl(id) == concatenated(events),
        tables.recorded(id, 0, events).log_length(id, events.len()),
{
    lemma_recorded(tables, id, events);
}

/// What holds after each step of `lemma_kerl_round_trip`.
proof fn lemma_recorded(tables: Tables, id: u64, events: Seq<Logged>)
    requires
        tables.complete(),
        tables.log_length(id, 0),
        events.len() <= u64::MAX,
        forall|i: int, j: int|
            0 <= i < events.len() && 0 <= j < events.len() && (#[trigger] events[i]).digest == (
            #[trigger] events[j]).digest ==> events[i].raw == events[j].raw,
    ensures
        tables.recorded(id, 0, events).complete(),
        tables.recorded(id, 0, events).kerl(id) == concatenated(events),
        tables.recorded(id, 0, events).log_length(id, events.len()),
        forall|i: int|
            0 <= i < events.len() ==> {
                &&& tables.recorded(id, 0, events).canonical(id, i as u64) == Some(
                    (#[trigger] events[i]).digest,
                )
                &&& tables.recorded(id, 0, events).event_bytes(id, events[i].digest) == Some(
                    events[i].raw,
                )
            },
    decreases events.len(),
{
    if events.len() == 0 {
        assert(!tables.finalised(id, 0));
        assert(tables.kerl(id) =~= Seq::<u8>::empty());
    } else {
        let front = events.drop_last();
        let last = events.last();
        let at = (events.len() - 1) as nat;
        assert forall|i: int, j: int|
            0 <= i < front.len() && 0 <= j < front.len() && (#[trigger] front[i]).digest == (
            #[trigger] front[j]).digest implies front[i].raw == front[j].raw by {
            assert(front[i] == events[i] && front[j] == events[j]);
        }
        lemma_recorded(tables, id, front);
        let before = tables.recorded(id, 0, front);
        let logged = before.logged(id, last.digest, last.raw, last.stamp, last.signatures);
        let after = logged.finalise(id, at as u64, last.digest);
        assert(after == tables.recorded(id, 0, events));
        lemma_logged(before, id, last.digest, last.raw, last.stamp, last.signatures);
        assert forall|sn: u64| #[trigger] logged.finalised(id, sn) <==> sn < at by {
            assert(logged.canonical(id, sn) == before.canonical(id, sn));
            assert(before.finalised(id, sn) <==> sn < at);
        }
        assert forall|i: int| 0 <= i < front.len() implies {
            &&& logged.canonical(id, i as u64) == Some((#[trigger] events[i]).digest)
            &&& logged.event_bytes(id, events[i].digest) == Some(events[i].raw)
        } by {
            assert(front[i] == events[i]);
            assert(logged.canonical(id, i as u64) == before.canonical(id, i as u64));
            if events[i].digest == last.digest {
                assert(events[events.len() - 1].digest == events[i].digest);
            }
        }
        assert forall|sn: u64| #[trigger] logged.finalised(id, sn) implies logged.event_at(
            id,
            sn,
        ) is Some by {
            assert(sn < at);
            assert(logged.canonical(id, sn) == Some(events[sn as int].digest));
        }
        assert forall|sn: u64| #[trigger] before.event_at(id, sn) == logged.event_at(id, sn) by {
            assert(logged.canonical(id, sn) == before.canonical(id, sn));
            if sn < at {
                assert(before.canonical(id, sn) == Some(front[sn as int].digest));
                assert(front[sn as int] == events[sn as int]);
                if events[sn as int].digest == last.digest {
                    assert(events[events.len() - 1].digest == events[sn as int].digest);
                }
            } else {
                assert(!before.finalised(id, sn));
            }
        }
        lemma_kerl_unchanged(before, logged, id, 0);
        lemma_finalise_extends_kerl(logged, id, last.digest, last.raw, at);
        lemma_finalise_extends_log(logged, id, at as u64, last.digest, at);
        assert forall|other: u64, any: Seq<u8>| #[trigger]
            after.event_bytes(other, any) == logged.event_bytes(other, any) by {}
        assert forall|i: int| 0 <= i < events.len() implies {
            &&& after.canonical(id, i as u64) == Some((#[trigger] events[i]).digest)
            &&& after.event_bytes(id, events[i].digest) == Some(events[i].raw)
        } by {
            if i < front.len() {
                assert(after.canonical(id, i as u64) == logged.canonical(id, i as u64));
            }
        }
    }
}

/// Tables that agree on the bytes of an identifier's canonical events agree
/// on its key event log.
proof fn lemma_kerl_unchanged(first: Tables, second: Tables, id: u64, from: nat)
    requires
        forall|sn: u64| #[trigger] first.event_at(id, sn) == second.event_at(id, sn),
    ensures
        first.kerl_from(id, from) == second.kerl_from(id, from),
    decreases u64::MAX + 1 - from,
{
    if from <= u64::MAX {
        assert(first.event_at(id, from as u64) == second.event_at(id, from as u64));
        lemma_kerl_unchanged(first, second, id, from + 1);
    }
}

/// Receipt idempotence: adding the same receipt a second time leaves the
/// tables, and with them every count of receipts, as they were.
pub proof fn lemma_receipt_twice(
    tables: Tables,
    kind: ReceiptKind,
    id: u64,
    sn: u64,
    digest: Seq<u8>,
    signer: Seq<u8>,
    signature: Seq<u8>,
)
    requires
        tables.complete(),
    ensures
        tables.with_receipt(kind, id, sn, digest, signer, signature).with_receipt(
            kind,
            id,
            sn,
            digest,
            signer,
            signature,
        ) == tables.with_receipt(kind, id, sn, digest, signer, signature),
        forall|witnesses: Seq<Seq<u8>>| #[trigger]
            tables.with_receipt(kind, id, sn, digest, signer, signature).with_receipt(
                kind,
                id,
                sn,
                digest,
                signer,
                signature,
            ).witness_receipts(id, sn, digest, witnesses) == tables.with_receipt(
                kind,
                id,
                sn,
                digest,
                signer,
                signature,
            ).witness_receipts(id, sn, digest, witnesses),
{
    let once = tables.with_receipt(kind, id, sn, digest, signer, signature);
    let twice = once.with_receipt(kind, id, sn, digest, signer, signature);
    assert(twice.held =~~= once.held);
}

/// Escrow exclusivity: after an event has moved into a category it is in that
/// category and in no other, every other event is where it was, and if no
/// event was in two categories before, none is after.
pub proof fn lemma_escrow_exclusive(
    tables: Tables,
    category: Escrow,
    id: u64,
    sn: u64,
    digest: Seq<u8>,
)
    requires
        tables.complete(),
    ensures
        tables.escrowed(category, id, sn, digest).complete(),
        tables.escrowed(category, id, sn, digest).category_of(id, sn, digest) == Some(category),
        tables.escrowed(category, id, sn, digest).exclusive_at(id, sn, digest),
        forall|any: Escrow, other: u64, at: u64, under: Seq<u8>|
            other != id || at != sn || under != digest ==> #[trigger] tables.escrowed(
                category,
                id,
                sn,
                digest,
            ).escrowed_in(any, other, at, under) == tables.escrowed_in(any, other, at, under),
        tables.exclusive() ==> tables.escrowed(category, id, sn, digest).exclusive(),
{
    let after = tables.escrowed(category, id, sn, digest);
    assert forall|any: Escrow, other: u64, at: u64, under: Seq<u8>|
        other != id || at != sn || under != digest implies #[trigger] after.escrowed_in(
        any,
        other,
        at,
        under,
    ) == tables.escrowed_in(any, other, at, under) by {
        if entry_key(other, at, under) == entry_key(id, sn, digest) {
            lemma_entry_key_injective(other, at, under, id, sn, digest);
        }
    }
    assert forall|first: Escrow, second: Escrow|
        #[trigger] after.escrowed_in(first, id, sn, digest) && #[trigger] after.escrowed_in(
            second,
            id,
            sn,
            digest,
        ) implies first == second by {
        assert(first == category);
        assert(second == category);
    }
    if tables.exclusive() {
        assert forall|other: u64, at: u64, under: Seq<u8>| #[trigger]
            after.exclusive_at(other, at, under) by {
            if other != id || at != sn || under != digest {
                assert(tables.exclusive_at(other, at, under));
                assert forall|first: Escrow, second: Escrow|
                    #[trigger] after.escrowed_in(first, other, at, under)
                        && #[trigger] after.escrowed_in(second, other, at, under) implies first
                    == second by {
                    assert(tables.escrowed_in(first, other, at, under));
                    assert(tables.escrowed_in(second, other, at, under));
                }
            }
        }
    }
}

/// Moving an event into the category that already holds it, and it alone,
/// changes nothing.
pub proof fn lemma_escrow_twice(tables: Tables, category: Escrow, id: u64, sn: u64, digest: Seq<u8>)
    requires
        tables.complete(),
    ensures
        tables.escrowed(category, id, sn, digest).escrowed(category, id, sn, digest)
            == tables.escrowed(category, id, sn, digest),
{
    let once = tables.escrowed(category, id, sn, digest);
    let twice = once.escrowed(category, id, sn, digest);
    assert(twice.held =~~= once.held);
}

/// A discarded event is in no escrow, every other event is where it was, and
/// discarding puts no event into two.
pub proof fn lemma_release_exclusive(tables: Tables, id: u64, sn: u64, digest: Seq<u8>)
    requires
        tables.complete(),
    ensures
        tables.released(id, sn, digest).complete(),
        tables.released(id, sn, digest).category_of(id, sn, digest) is None,
        forall|any: Escrow, other: u64, at: u64, under: Seq<u8>|
            other != id || at != sn || under != digest ==> #[trigger] tables.released(
                id,
                sn,
                digest,
            ).escrowed_in(any, other, at, under) == tables.escrowed_in(any, other, at, under),
        tables.exclusive() ==> tables.released(id, sn, digest).exclusive(),
{
    let after = tables.released(id, sn, digest);
    assert forall|any: Escrow, other: u64, at: u64, under: Seq<u8>|
        other != id || at != sn || under != digest implies #[trigger] after.escrowed_in(
        any,
        other,
        at,
        under,
    ) == tables.escrowed_in(any, other, at, under) by {
        if entry_key(other, at, under) == entry_key(id, sn, digest) {
            lemma_entry_key_injective(other, at, under, id, sn, digest);
        }
    }
    assert forall|any: Escrow| !#[trigger] after.escrowed_in(any, id, sn, digest) by {}
    if tables.exclusive() {
        assert forall|other: u64, at: u64, under: Seq<u8>| #[trigger]
            after.exclusive_at(other, at, under) by {
            if other != id || at != sn || under != digest {
                assert(tables.exclusive_at(other, at, under));
                assert forall|first: Escrow, second: Escrow|
                    #[trigger] after.escrowed_in(first, other, at, under)
                        && #[trigger] after.escrowed_in(second, other, at, under) implies first
                    == second by {
                    assert(tables.escrowed_in(first, other, at, under));
                    assert(tables.escrowed_in(second, other, at, under));
                }
            }
        }
    }
}

/// A finalised event is in no escrow, and finalising puts no event into two.
pub proof fn lemma_finalise_exclusive(tables: Tables, id: u64, sn: u64, digest: Seq<u8>)
    requires
        tables.complete(),
    ensures
        tables.finalise(id, sn, digest).complete(),
        tables.finalise(id, sn, digest).category_of(id, sn, digest) is None,
        tables.exclusive() ==> tables.finalise(id, sn, digest).exclusive(),
{
    let after = tables.finalise(id, sn, digest);
    assert forall|any: Escrow, other: u64, at: u64, under: Seq<u8>|
        other != id || at != sn || under != digest implies #[trigger] after.escrowed_in(
        any,
        other,
        at,
        under,
    ) == tables.escrowed_in(any, other, at, under) by {
        if entry_key(other, at, under) == entry_key(id, sn, digest) {
            lemma_entry_key_injective(other, at, under, id, sn, digest);
        }
    }
    assert forall|any: Escrow| !#[trigger] after.escrowed_in(any, id, sn, digest) by {}
    if tables.exclusive() {
        assert forall|other: u64, at: u64, under: Seq<u8>| #[trigger]
            after.exclusive_at(other, at, under) by {
            if other != id || at != sn || under != digest {
                assert(tables.exclusive_at(other, at, under));
                assert forall|first: Escrow, second: Escrow|
                    #[trigger] after.escrowed_in(first, other, at, under)
                        && #[trigger] after.escrowed_in(second, other, at, under) implies first
                    == second by {
                    assert(tables.escrowed_in(first, other, at, under));
                    assert(tables.escrowed_in(second, other, at, under));
                }
            }
        }
    }
}

/// After a replay every signer whose receipt waited for the event has its
/// receipt with the receipts of finalised events, and waits no more.
pub proof fn lemma_replayed(
    tables: Tables,
    kind: ReceiptKind,
    id: u64,
    sn: u64,
    digest: Seq<u8>,
    signer: Seq<u8>,
)
    requires
        tables.complete(),
        tables.receipted(kind.escrow_table(), id, sn, digest, signer),
    ensures
        tables.replayed(kind, id, sn, digest).receipted(kind.table(), id, sn, digest, signer),
        !tables.replayed(kind, id, sn, digest).has(kind.escrow_table(), entry_key(id, sn, signer)),
{
    crate::database::keys::lemma_entry_key_parts(id, sn, signer);
    assert(tables.waits_for(kind, id, sn, digest, entry_key(id, sn, signer)));
}

} // verus!
