//! The state of sound tables, and that every operation keeps it: ids are
//! distinct, every log is without gaps, no event is in two escrows, and no
//! canonical event waits in one.

use crate::database::escrow::Escrow;
use crate::database::index::lemma_index_keeps_ids_distinct;
use crate::database::keys::{entry_key, lemma_entry_key_injective};
use crate::database::laws::{
    lemma_empty_tables, lemma_escrow_exclusive, lemma_finalise_exclusive,
    lemma_finalise_extends_log, lemma_release_exclusive,
};
use crate::database::receipts::ReceiptKind;
use crate::database::{Table, Tables};
use crate::signatures::Signature;
use vstd::prelude::*;

verus! {

impl Tables {
    /// Whether the log of identifier `id` starts at 0 and has no gap.
    pub open spec fn log_contiguous(self, id: u64) -> bool {
        exists|length: nat| #[trigger] self.log_length(id, length)
    }

    /// Whether the event waits in none of the three escrows from which an
    /// event can still be finalised.
    pub open spec fn pending_free(self, id: u64, sn: u64, digest: Seq<u8>) -> bool {
        &&& !self.escrowed_in(Escrow::PartiallySigned, id, sn, digest)
        &&& !self.escrowed_in(Escrow::OutOfOrder, id, sn, digest)
        &&& !self.escrowed_in(Escrow::LikelyDuplicitous, id, sn, digest)
    }

    /// Whether no canonical event waits in an escrow.
    pub open spec fn settled_apart(self) -> bool {
        forall|id: u64, sn: u64, digest: Seq<u8>|
            self.canonical(id, sn) == Some(digest) ==> #[trigger] self.pending_free(id, sn, digest)
    }

    /// Whether the tables are sound.
    pub open spec fn sound(self) -> bool {
        &&& self.complete()
        &&& self.ids_distinct()
        &&& self.exclusive()
        &&& self.settled_apart()
        &&& forall|id: u64| #[trigger] self.log_contiguous(id)
    }

    /// Whether two tables hold the same index, key event log and escrows.
    pub open spec fn same_core(self, other: Tables) -> bool {
        &&& self.table(Table::Identifiers) == other.table(Table::Identifiers)
        &&& self.table(Table::KeyEventLogs) == other.table(Table::KeyEventLogs)
        &&& self.table(Table::PartiallySignedEvents) == other.table(Table::PartiallySignedEvents)
        &&& self.table(Table::OutOfOrderEvents) == other.table(Table::OutOfOrderEvents)
        &&& self.table(Table::LikelyDuplicitousEvents) == other.table(
            Table::LikelyDuplicitousEvents,
        )
        &&& self.table(Table::DuplicitousEvents) == other.table(Table::DuplicitousEvents)
    }
}

/// Tables that hold nothing are sound.
pub proof fn lemma_empty_sound()
    ensures
        Tables::empty().sound(),
{
    lemma_empty_tables();
    let empty = Tables::empty();
    assert forall|id: u64| #[trigger] empty.log_contiguous(id) by {
        assert(empty.log_length(id, 0));
    }
    assert forall|id: u64, sn: u64, digest: Seq<u8>|
        empty.canonical(id, sn) == Some(digest) implies #[trigger] empty.pending_free(
        id,
        sn,
        digest,
    ) by {}
}

/// Soundness rests on the index, the key event log and the escrows alone.
pub proof fn lemma_same_core_sound(before: Tables, after: Tables)
    requires
        before.sound(),
        after.complete(),
        before.same_core(after),
    ensures
        after.sound(),
{
    assert forall|prefix: Seq<u8>| #[trigger] after.id_of(prefix) == before.id_of(prefix) by {}
    assert forall|first: Seq<u8>, second: Seq<u8>|
        (#[trigger] after.id_of(first)) is Some && after.id_of(first) == #[trigger] after.id_of(
            second,
        ) implies first == second by {
        assert(before.id_of(first) == before.id_of(second));
    }
    assert forall|any: Escrow, id: u64, sn: u64, digest: Seq<u8>| #[trigger]
        after.escrowed_in(any, id, sn, digest) == before.escrowed_in(any, id, sn, digest) by {}
    assert forall|id: u64, sn: u64, digest: Seq<u8>| #[trigger]
        after.exclusive_at(id, sn, digest) by {
        assert(before.exclusive_at(id, sn, digest));
        assert forall|first: Escrow, second: Escrow|
            #[trigger] after.escrowed_in(first, id, sn, digest) && #[trigger] after.escrowed_in(
                second,
                id,
                sn,
                digest,
            ) implies first == second by {
            assert(before.escrowed_in(first, id, sn, digest));
            assert(before.escrowed_in(second, id, sn, digest));
        }
    }
    assert forall|id: u64, sn: u64, digest: Seq<u8>|
        after.canonical(id, sn) == Some(digest) implies #[trigger] after.pending_free(
        id,
        sn,
        digest,
    ) by {
        assert(before.canonical(id, sn) == Some(digest));
        assert(before.pending_free(id, sn, digest));
    }
    assert forall|id: u64| #[trigger] after.log_contiguous(id) by {
        assert(before.log_contiguous(id));
        let length = choose|length: nat| #[trigger] before.log_length(id, length);
        assert forall|sn: u64| #[trigger] after.finalised(id, sn) <==> sn < length by {
            assert(before.finalised(id, sn) <==> sn < length);
        }
        assert(after.log_length(id, length));
    }
}

/// Giving an identifier that has none the next id keeps the tables sound.
pub proof fn lemma_index_sound(tables: Tables, prefix: Seq<u8>, id: u64)
    requires
        tables.sound(),
        tables.next_id(id),
        tables.index(prefix, id).id_of(prefix) == Some(id),
    ensures
        tables.index(prefix, id).sound(),
{
    let after = tables.index(prefix, id);
    lemma_index_keeps_ids_distinct(tables, prefix, id);
    assert forall|any: Escrow, other: u64, sn: u64, digest: Seq<u8>| #[trigger]
        after.escrowed_in(any, other, sn, digest) == tables.escrowed_in(
            any,
            other,
            sn,
            digest,
        ) by {}
    assert forall|other: u64, sn: u64, digest: Seq<u8>| #[trigger]
        after.exclusive_at(other, sn, digest) by {
        assert(tables.exclusive_at(other, sn, digest));
        assert forall|first: Escrow, second: Escrow|
            #[trigger] after.escrowed_in(first, other, sn, digest) && #[trigger] after.escrowed_in(
                second,
                other,
                sn,
                digest,
            ) implies first == second by {
            assert(tables.escrowed_in(first, other, sn, digest));
            assert(tables.escrowed_in(second, other, sn, digest));
        }
    }
    assert forall|other: u64, sn: u64, digest: Seq<u8>|
        after.canonical(other, sn) == Some(digest) implies #[trigger] after.pending_free(
        other,
        sn,
        digest,
    ) by {
        assert(tables.canonical(other, sn) == Some(digest));
        assert(tables.pending_free(other, sn, digest));
    }
    assert forall|other: u64| #[trigger] after.log_contiguous(other) by {
        assert(tables.log_contiguous(other));
        let length = choose|length: nat| #[trigger] tables.log_length(other, length);
        assert forall|sn: u64| #[trigger] after.finalised(other, sn) <==> sn < length by {
            assert(tables.finalised(other, sn) <==> sn < length);
        }
        assert(after.log_length(other, length));
    }
}

/// Logging keeps the tables sound.
pub proof fn lemma_logged_sound(
    tables: Tables,
    id: u64,
    digest: Seq<u8>,
    raw: Seq<u8>,
    stamp: Seq<u8>,
    signatures: Seq<Signature>,
)
    requires
        tables.sound(),
    ensures
        tables.logged(id, digest, raw, stamp, signatures).sound(),
{
    lemma_same_core_sound(tables, tables.logged(id, digest, raw, stamp, signatures));
}

/// Adding a receipt, setting one aside and replaying the receipts of an
/// event keep the tables sound.
pub proof fn lemma_receipts_sound(
    tables: Tables,
    kind: ReceiptKind,
    id: u64,
    sn: u64,
    digest: Seq<u8>,
    signer: Seq<u8>,
    signature: Seq<u8>,
)
    requires
        tables.sound(),
    ensures
        tables.with_receipt(kind, id, sn, digest, signer, signature).sound(),
        tables.with_escrowed_receipt(kind, id, sn, digest, signer, signature).sound(),
        tables.replayed(kind, id, sn, digest).sound(),
{
    lemma_same_core_sound(tables, tables.with_receipt(kind, id, sn, digest, signer, signature));
    lemma_same_core_sound(
        tables,
        tables.with_escrowed_receipt(kind, id, sn, digest, signer, signature),
    );
    lemma_same_core_sound(tables, tables.replayed(kind, id, sn, digest));
}

/// Finalising an event at the next position of its log keeps the tables
/// sound.
pub proof fn lemma_finalise_sound(tables: Tables, id: u64, sn: u64, digest: Seq<u8>)
    requires
        tables.sound(),
        tables.next_position(id, sn),
    ensures
        tables.finalise(id, sn, digest).sound(),
{
    let after = tables.finalise(id, sn, digest);
    lemma_finalise_exclusive(tables, id, sn, digest);
    assert forall|prefix: Seq<u8>| #[trigger] after.id_of(prefix) == tables.id_of(prefix) by {}
    assert forall|first: Seq<u8>, second: Seq<u8>|
        (#[trigger] after.id_of(first)) is Some && after.id_of(first) == #[trigger] after.id_of(
            second,
        ) implies first == second by {
        assert(tables.id_of(first) == tables.id_of(second));
    }
    assert(tables.log_contiguous(id));
    let length = choose|length: nat| #[trigger] tables.log_length(id, length);
    lemma_finalise_extends_log(tables, id, sn, digest, length);
    assert forall|other: u64| #[trigger] after.log_contiguous(other) by {
        if other == id {
            assert(after.log_length(id, length + 1));
        } else {
            assert(tables.log_contiguous(other));
            let reach = choose|reach: nat| #[trigger] tables.log_length(other, reach);
            assert forall|at: u64| #[trigger] after.finalised(other, at) <==> at < reach by {
                assert(after.canonical(other, at) == tables.canonical(other, at));
                assert(tables.finalised(other, at) <==> at < reach);
            }
            assert(after.log_length(other, reach));
        }
    }
    assert forall|any: Escrow, other: u64, at: u64, under: Seq<u8>|
        other != id || at != sn || under != digest implies #[trigger] after.escrowed_in(
        any,
        other,
        at,
        under,
    ) == tables.escrowed_in(any, other, at, under) by {
        if entry_key(other, at, under) == entry_key(id, sn, digest) {
            lemma_entry_key_injective(other, at, under, id, sn, digest);
        }
    }
    assert forall|other: u64, at: u64, under: Seq<u8>|
        after.canonical(other, at) == Some(under) implies #[trigger] after.pending_free(
        other,
        at,
        under,
    ) by {
        if other == id && at == sn {
            assert(under == digest);
            assert(after.category_of(id, sn, digest) is None);
        } else {
            assert(tables.canonical(other, at) == Some(under));
            assert(tables.pending_free(other, at, under));
        }
    }
}

/// Moving an event that is not settled into an escrow keeps the tables
/// sound.
pub proof fn lemma_escrowed_sound(
    tables: Tables,
    category: Escrow,
    id: u64,
    sn: u64,
    digest: Seq<u8>,
)
    requires
        tables.sound(),
        !tables.settled_at(category, id, sn, digest),
    ensures
        tables.escrowed(category, id, sn, digest).sound(),
{
    let after = tables.escrowed(category, id, sn, digest);
    lemma_escrow_exclusive(tables, category, id, sn, digest);
    lemma_escrows_keep_the_rest(tables, after);
    assert forall|other: u64, at: u64, under: Seq<u8>|
        after.canonical(other, at) == Some(under) implies #[trigger] after.pending_free(
        other,
        at,
        under,
    ) by {
        assert(tables.canonical(other, at) == Some(under));
        assert(tables.pending_free(other, at, under));
        if other == id && at == sn && under == digest {
            assert(category == Escrow::Duplicitous);
            assert(after.category_of(id, sn, digest) == Some(category));
        }
    }
}

/// Discarding an event keeps the tables sound.
pub proof fn lemma_released_sound(tables: Tables, id: u64, sn: u64, digest: Seq<u8>)
    requires
        tables.sound(),
    ensures
        tables.released(id, sn, digest).sound(),
{
    let after = tables.released(id, sn, digest);
    lemma_release_exclusive(tables, id, sn, digest);
    lemma_escrows_keep_the_rest(tables, after);
    assert forall|other: u64, at: u64, under: Seq<u8>|
        after.canonical(other, at) == Some(under) implies #[trigger] after.pending_free(
        other,
        at,
        under,
    ) by {
        assert(tables.canonical(other, at) == Some(under));
        assert(tables.pending_free(other, at, under));
    }
}

/// Tables that differ in the escrows alone have the same ids and the same
/// logs.
proof fn lemma_escrows_keep_the_rest(before: Tables, after: Tables)
    requires
        before.ids_distinct(),
        forall|id: u64| #[trigger] before.log_contiguous(id),
        before.table(Table::Identifiers) == after.table(Table::Identifiers),
        before.table(Table::KeyEventLogs) == after.table(Table::KeyEventLogs),
    ensures
        after.ids_distinct(),
        forall|id: u64| #[trigger] after.log_contiguous(id),
        forall|id: u64, sn: u64| #[trigger] after.canonical(id, sn) == before.canonical(id, sn),
{
    assert forall|prefix: Seq<u8>| #[trigger] after.id_of(prefix) == before.id_of(prefix) by {}
    assert forall|first: Seq<u8>, second: Seq<u8>|
        (#[trigger] after.id_of(first)) is Some && after.id_of(first) == #[trigger] after.id_of(
            second,
        ) implies first == second by {
        assert(before.id_of(first) == before.id_of(second));
    }
    assert forall|id: u64| #[trigger] after.log_contiguous(id) by {
        assert(before.log_contiguous(id));
        let length = choose|length: nat| #[trigger] before.log_length(id, length);
        assert forall|sn: u64| #[trigger] after.finalised(id, sn) <==> sn < length by {
            assert(before.finalised(id, sn) <==> sn < length);
        }
        assert(after.log_length(id, length));
    }
}

} // verus!
