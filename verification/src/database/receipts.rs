//! The receipt tables. A receipt is kept under the position of the receipted
//! event and its signer, and holds the digest of the event and the signature.
//! Receipts of finalised events and receipts that wait for their event are
//! kept apart.

use crate::bytes::{bytes_equal, copy_bytes};
use crate::codec::{
    decode_frames, encode_frames, encode_signature, frames, parse_frames, signature_record,
};
use crate::bytes::starts_with;
use crate::database::keys::{entry_key, make_entry_key, make_sn_key, sn_key};
use crate::database::soundness::lemma_receipts_sound;
use crate::database::{SledEventDatabase, Table, Tables};
use crate::error::KeriError;
use crate::prefix::{
    views, AttachedSignaturePrefix, BasicPrefix, IdentifierPrefix, SelfAddressingPrefix,
    SelfSigningPrefix,
};
use vstd::prelude::*;

verus! {

/// The two kinds of receipt.
#[derive(Debug, Clone, Copy, PartialEq, Eq, Structural)]
pub enum ReceiptKind {
    /// A witness's receipt, signed with a key that cannot be rotated.
    NonTransferable,
    /// A validator's receipt, signed under the validator's own identifier.
    Transferable,
}

impl ReceiptKind {
    /// The table of receipts of finalised events.
    pub open spec fn table(self) -> Table {
        match self {
            ReceiptKind::NonTransferable => Table::ReceiptsNt,
            ReceiptKind::Transferable => Table::ReceiptsT,
        }
    }

    /// The table of receipts that wait for their event.
    pub open spec fn escrow_table(self) -> Table {
        match self {
            ReceiptKind::NonTransferable => Table::EscrowedReceiptsNt,
            ReceiptKind::Transferable => Table::EscrowedReceiptsT,
        }
    }

    /// Computes `table`.
    pub fn in_table(self) -> (table: Table)
        ensures
            table == self.table(),
    {
        match self {
            ReceiptKind::NonTransferable => Table::ReceiptsNt,
            ReceiptKind::Transferable => Table::ReceiptsT,
        }
    }

    /// Computes `escrow_table`.
    pub fn in_escrow_table(self) -> (table: Table)
        ensures
            table == self.escrow_table(),
    {
        match self {
            ReceiptKind::NonTransferable => Table::EscrowedReceiptsNt,
            ReceiptKind::Transferable => Table::EscrowedReceiptsT,
        }
    }
}

/// A receipt as it is stored: the digest of the receipted event, then the
/// signature.
pub open spec fn receipt_record(digest: Seq<u8>, signature: Seq<u8>) -> Seq<u8> {
    frames(seq![digest, signature])
}

/// The digest and the signature that a stored receipt holds, if it holds
/// the two.
pub open spec fn parse_receipt_record(bytes: Seq<u8>) -> Option<(Seq<u8>, Seq<u8>)> {
    match parse_frames(bytes) {
        Some(parts) => if parts.len() == 2 {
            Some((parts[0], parts[1]))
        } else {
            None
        },
        None => None,
    }
}

/// The digest of the receipted event that a stored receipt holds.
pub open spec fn receipted_event(bytes: Seq<u8>) -> Option<Seq<u8>> {
    match parse_receipt_record(bytes) {
        Some(parts) => Some(parts.0),
        None => None,
    }
}

/// Writes a receipt in its stored form.
pub fn encode_receipt(digest: &[u8], signature: &[u8]) -> (bytes: Vec<u8>)
    ensures
        bytes@ == receipt_record(digest@, signature@),
{
    let mut parts: Vec<Vec<u8>> = Vec::new();
    parts.push(copy_bytes(digest));
    parts.push(copy_bytes(signature));
    assert(views(parts@) =~= seq![digest@, signature@]);
    encode_frames(&parts)
}

/// Whether what a table of receipts holds under a key is a receipt of the
/// event under `dig`.
pub fn names_event(stored: &Option<Vec<u8>>, dig: &SelfAddressingPrefix) -> (named: bool)
    ensures
        named == match *stored {
            Some(bytes) => receipted_event(bytes@) == Some(dig@),
            None => false,
        },
{
    match stored {
        Some(bytes) => match receipted_digest(bytes.as_slice()) {
            Some(digest) => bytes_equal(digest.as_slice(), dig.as_bytes()),
            None => false,
        },
        None => false,
    }
}

/// Reads the digest of the receipted event from a stored receipt.
pub fn receipted_digest(bytes: &[u8]) -> (digest: Option<Vec<u8>>)
    ensures
        match digest {
            Some(found) => receipted_event(bytes@) == Some(found@),
            None => receipted_event(bytes@) is None,
        },
{
    match decode_frames(bytes) {
        Some(parts) => if parts.len() == 2 {
            Some(copy_bytes(parts[0].as_slice()))
        } else {
            None
        },
        None => None,
    }
}

impl Tables {
    /// Whether a table of receipts holds one of `signer` for the event under
    /// `digest` of identifier `id` at `sn`.
    pub open spec fn receipted(
        self,
        table: Table,
        id: u64,
        sn: u64,
        digest: Seq<u8>,
        signer: Seq<u8>,
    ) -> bool {
        match self.get(table, entry_key(id, sn, signer)) {
            Some(stored) => receipted_event(stored) == Some(digest),
            None => false,
        }
    }

    /// The number of positions in the list `witnesses` whose witness has a
    /// receipt, among the receipts of finalised events, for the event under
    /// `digest` of identifier `id` at `sn`.
    pub open spec fn witness_receipts(
        self,
        id: u64,
        sn: u64,
        digest: Seq<u8>,
        witnesses: Seq<Seq<u8>>,
    ) -> nat
        decreases witnesses.len(),
    {
        if witnesses.len() == 0 {
            0
        } else {
            self.witness_receipts(id, sn, digest, witnesses.drop_last()) + if self.receipted(
                Table::ReceiptsNt,
                id,
                sn,
                digest,
                witnesses.last(),
            ) {
                1nat
            } else {
                0nat
            }
        }
    }

    /// The tables after a receipt is added to the receipts of finalised
    /// events: it replaces the signer's receipt for the position, and the
    /// signer's waiting receipt for the position is gone.
    pub open spec fn with_receipt(
        self,
        kind: ReceiptKind,
        id: u64,
        sn: u64,
        digest: Seq<u8>,
        signer: Seq<u8>,
        signature: Seq<u8>,
    ) -> Tables {
        self.without(kind.escrow_table(), entry_key(id, sn, signer)).put(
            kind.table(),
            entry_key(id, sn, signer),
            receipt_record(digest, signature),
        )
    }

    /// The tables after a receipt is added to the waiting receipts: it
    /// replaces the signer's waiting receipt for the position.
    pub open spec fn with_escrowed_receipt(
        self,
        kind: ReceiptKind,
        id: u64,
        sn: u64,
        digest: Seq<u8>,
        signer: Seq<u8>,
        signature: Seq<u8>,
    ) -> Tables {
        self.put(
            kind.escrow_table(),
            entry_key(id, sn, signer),
            receipt_record(digest, signature),
        )
    }
}

/// The keys of the first `upto` of a list of entries.
pub open spec fn keys_seen(pairs: Seq<(Vec<u8>, Vec<u8>)>, upto: int) -> Set<Seq<u8>> {
    Set::new(|key: Seq<u8>| exists|j: int| 0 <= j < upto && (#[trigger] pairs[j]).0@ == key)
}

impl Tables {
    /// Whether `key` is the key of a waiting receipt for the event under
    /// `digest` of identifier `id` at `sn`.
    pub open spec fn waits_for(
        self,
        kind: ReceiptKind,
        id: u64,
        sn: u64,
        digest: Seq<u8>,
        key: Seq<u8>,
    ) -> bool {
        &&& starts_with(key, sn_key(id, sn))
        &&& self.has(kind.escrow_table(), key)
        &&& receipted_event(self.table(kind.escrow_table())[key]) == Some(digest)
    }

    /// The tables after the waiting receipts for an event whose keys are
    /// among `keys` have moved to the receipts of finalised events.
    pub open spec fn replayed_among(
        self,
        kind: ReceiptKind,
        id: u64,
        sn: u64,
        digest: Seq<u8>,
        keys: Set<Seq<u8>>,
    ) -> Tables {
        let waiting = self.table(kind.escrow_table());
        let kept = self.table(kind.table());
        Tables {
            held: self.held.insert(
                kind.escrow_table(),
                Map::new(
                    |key: Seq<u8>|
                        waiting.contains_key(key) && !(keys.contains(key) && self.waits_for(
                            kind,
                            id,
                            sn,
                            digest,
                            key,
                        )),
                    |key: Seq<u8>| waiting[key],
                ),
            ).insert(
                kind.table(),
                Map::new(
                    |key: Seq<u8>|
                        kept.contains_key(key) || (keys.contains(key) && self.waits_for(
                            kind,
                            id,
                            sn,
                            digest,
                            key,
                        )),
                    |key: Seq<u8>|
                        if keys.contains(key) && self.waits_for(kind, id, sn, digest, key) {
                            waiting[key]
                        } else {
                            kept[key]
                        },
                ),
            ),
        }
    }

    /// The tables after every waiting receipt for an event has moved to the
    /// receipts of finalised events, each replacing the signer's receipt for
    /// the position.
    pub open spec fn replayed(
        self,
        kind: ReceiptKind,
        id: u64,
        sn: u64,
        digest: Seq<u8>,
    ) -> Tables {
        self.replayed_among(kind, id, sn, digest, Set::full())
    }
}

impl SledEventDatabase {
    /// Moves the waiting receipts for an event to the receipts of finalised
    /// events. It is for the moment at which the event is finalised.
    pub fn replay_receipts(
        &mut self,
        kind: ReceiptKind,
        pref: &IdentifierPrefix,
        sn: u64,
        dig: &SelfAddressingPrefix,
    ) -> (done: Result<(), KeriError>)
        ensures
            match done {
                Ok(()) => {
                    &&& old(self)@.id_of(pref@) is Some
                    &&& final(self)@ == old(self)@.replayed(
                        kind,
                        old(self)@.id_of(pref@)->0,
                        sn,
                        dig@,
                    )
                    &&& old(self)@.sound() ==> final(self)@.sound()
                },
                Err(KeriError::NotIndexedError) => {
                    &&& !old(self)@.indexed(pref@)
                    &&& final(self)@ == old(self)@
                },
                Err(KeriError::SerializationError) => {
                    &&& old(self)@.indexed(pref@)
                    &&& old(self)@.id_of(pref@) is None
                    &&& final(self)@ == old(self)@
                },
                Err(KeriError::StorageError) => final(self)@.agrees_except(
                    old(self)@,
                    set![kind.table(), kind.escrow_table()],
                ),
                Err(_) => false,
            },
    {
        proof {
            self.lemma_complete();
        }
        let id = self.get_identifier_id(pref)?;
        let start = make_sn_key(id, sn);
        let pairs = self.scan(kind.in_escrow_table(), start.as_slice())?;
        let ghost before = self@;
        let mut i: usize = 0;
        assert(self@.held =~~= before.replayed_among(
            kind,
            id,
            sn,
            dig@,
            keys_seen(pairs@, 0),
        ).held);
        while i < pairs.len()
            invariant
                i <= pairs@.len(),
                before == old(self)@,
                before.complete(),
                start@ == sn_key(id, sn),
                forall|j: int|
                    0 <= j < pairs@.len() ==> {
                        &&& starts_with((#[trigger] pairs@[j]).0@, start@)
                        &&& before.get(kind.escrow_table(), pairs@[j].0@) == Some(pairs@[j].1@)
                    },
                forall|j: int, k: int|
                    0 <= j < k < pairs@.len() ==> (#[trigger] pairs@[j]).0@ != (
                    #[trigger] pairs@[k]).0@,
                self@ == before.replayed_among(kind, id, sn, dig@, keys_seen(pairs@, i as int)),
            decreases pairs@.len() - i,
        {
            let key = &pairs[i].0;
            let value = &pairs[i].1;
            let waits = match receipted_digest(value.as_slice()) {
                Some(digest) => bytes_equal(digest.as_slice(), dig.as_bytes()),
                None => false,
            };
            let ghost reached = self@;
            assert(waits == before.waits_for(kind, id, sn, dig@, key@));
            if waits {
                self.erase(kind.in_escrow_table(), key.as_slice())?;
                self.write(kind.in_table(), key.as_slice(), value.as_slice())?;
            }
            proof {
                let seen = keys_seen(pairs@, i as int);
                let next = keys_seen(pairs@, i + 1);
                assert forall|other: Seq<u8>| #[trigger] next.contains(other) <==> seen.contains(
                    other,
                ) || other == key@ by {
                    if seen.contains(other) {
                        let j = choose|j: int| 0 <= j < i && (#[trigger] pairs@[j]).0@ == other;
                        assert(pairs@[j].0@ == other);
                    }
                    if other == key@ {
                        assert(pairs@[i as int].0@ == other);
                    }
                }
                assert(!seen.contains(key@)) by {
                    if seen.contains(key@) {
                        let j = choose|j: int| 0 <= j < i && (#[trigger] pairs@[j]).0@ == key@;
                        assert(pairs@[j].0@ != pairs@[i as int].0@);
                    }
                }
                let expected = before.replayed_among(kind, id, sn, dig@, next);
                assert(self@.table(kind.escrow_table()) =~= expected.table(kind.escrow_table()));
                assert(self@.table(kind.table()) =~= expected.table(kind.table()));
                assert(self@.held =~~= expected.held);
            }
            i += 1;
        }
        proof {
            let all = keys_seen(pairs@, pairs@.len() as int);
            let expected = before.replayed(kind, id, sn, dig@);
            assert forall|key: Seq<u8>| #[trigger]
                before.waits_for(kind, id, sn, dig@, key) implies all.contains(key) by {
                assert(before.has(kind.escrow_table(), key) && starts_with(key, start@));
                let j = choose|j: int| 0 <= j < pairs@.len() && pairs@[j].0@ == key;
                assert(pairs@[j].0@ == key);
            }
            assert(self@.table(kind.escrow_table()) =~= expected.table(kind.escrow_table()));
            assert(self@.table(kind.table()) =~= expected.table(kind.table()));
            assert(self@.held =~~= expected.held);
            if before.sound() {
                lemma_receipts_sound(before, kind, id, sn, dig@, Seq::empty(), Seq::empty());
            }
        }
        Ok(())
    }

    /// Adds a receipt to the receipts of finalised events.
    pub fn add_receipt(
        &mut self,
        kind: ReceiptKind,
        pref: &IdentifierPrefix,
        sn: u64,
        dig: &SelfAddressingPrefix,
        signer: &[u8],
        signature: &[u8],
    ) -> (done: Result<(), KeriError>)
        ensures
            match done {
                Ok(()) => {
                    &&& old(self)@.id_of(pref@) is Some
                    &&& final(self)@ == old(self)@.with_receipt(
                        kind,
                        old(self)@.id_of(pref@)->0,
                        sn,
                        dig@,
                        signer@,
                        signature@,
                    )
                    &&& old(self)@.sound() ==> final(self)@.sound()
                },
                Err(KeriError::NotIndexedError) => {
                    &&& !old(self)@.indexed(pref@)
                    &&& final(self)@ == old(self)@
                },
                Err(KeriError::SerializationError) => {
                    &&& old(self)@.indexed(pref@)
                    &&& old(self)@.id_of(pref@) is None
                    &&& final(self)@ == old(self)@
                },
                Err(KeriError::StorageError) => final(self)@.agrees_except(
                    old(self)@,
                    set![kind.table(), kind.escrow_table()],
                ),
                Err(_) => false,
            },
    {
        let id = self.get_identifier_id(pref)?;
        let key = make_entry_key(id, sn, signer);
        let record = encode_receipt(dig.as_bytes(), signature);
        proof {
            if old(self)@.sound() {
                lemma_receipts_sound(old(self)@, kind, id, sn, dig@, signer@, signature@);
            }
        }
        self.erase(kind.in_escrow_table(), key.as_slice())?;
        self.write(kind.in_table(), key.as_slice(), record.as_slice())
    }

    /// Adds a receipt to the waiting receipts.
    pub fn escrow_receipt(
        &mut self,
        kind: ReceiptKind,
        pref: &IdentifierPrefix,
        sn: u64,
        dig: &SelfAddressingPrefix,
        signer: &[u8],
        signature: &[u8],
    ) -> (done: Result<(), KeriError>)
        ensures
            match done {
                Ok(()) => {
                    &&& old(self)@.id_of(pref@) is Some
                    &&& final(self)@ == old(self)@.with_escrowed_receipt(
                        kind,
                        old(self)@.id_of(pref@)->0,
                        sn,
                        dig@,
                        signer@,
                        signature@,
                    )
                    &&& old(self)@.sound() ==> final(self)@.sound()
                },
                Err(KeriError::NotIndexedError) => {
                    &&& !old(self)@.indexed(pref@)
                    &&& final(self)@ == old(self)@
                },
                Err(KeriError::SerializationError) => {
                    &&& old(self)@.indexed(pref@)
                    &&& old(self)@.id_of(pref@) is None
                    &&& final(self)@ == old(self)@
                },
                Err(KeriError::StorageError) => final(self)@.agrees_except(
                    old(self)@,
                    set![kind.escrow_table()],
                ),
                Err(_) => false,
            },
    {
        let id = self.get_identifier_id(pref)?;
        let key = make_entry_key(id, sn, signer);
        let record = encode_receipt(dig.as_bytes(), signature);
        proof {
            if old(self)@.sound() {
                lemma_receipts_sound(old(self)@, kind, id, sn, dig@, signer@, signature@);
            }
        }
        self.write(kind.in_escrow_table(), key.as_slice(), record.as_slice())
    }

    /// Adds a witness's receipt of a finalised event.
    pub fn add_nt_receipt_for_event(
        &mut self,
        pref: &IdentifierPrefix,
        sn: u64,
        dig: &SelfAddressingPrefix,
        signer: &BasicPrefix,
        sig: &SelfSigningPrefix,
    ) -> (done: Result<(), KeriError>)
        ensures
            match done {
                Ok(()) => {
                    &&& old(self)@.id_of(pref@) is Some
                    &&& final(self)@ == old(self)@.with_receipt(
                        ReceiptKind::NonTransferable,
                        old(self)@.id_of(pref@)->0,
                        sn,
                        dig@,
                        signer@,
                        sig@,
                    )
                    &&& old(self)@.sound() ==> final(self)@.sound()
                },
                Err(KeriError::NotIndexedError) => {
                    &&& !old(self)@.indexed(pref@)
                    &&& final(self)@ == old(self)@
                },
                Err(KeriError::SerializationError) => {
                    &&& old(self)@.indexed(pref@)
                    &&& old(self)@.id_of(pref@) is None
                    &&& final(self)@ == old(self)@
                },
                Err(KeriError::StorageError) => final(self)@.agrees_except(
                    old(self)@,
                    set![Table::ReceiptsNt, Table::EscrowedReceiptsNt],
                ),
                Err(_) => false,
            },
    {
        self.add_receipt(
            ReceiptKind::NonTransferable,
            pref,
            sn,
            dig,
            signer.as_bytes(),
            sig.as_bytes(),
        )
    }

    /// Adds a validator's receipt of a finalised event. The signature is
    /// stored with the position of the key that made it.
    pub fn add_t_receipt_for_event(
        &mut self,
        pref: &IdentifierPrefix,
        sn: u64,
        dig: &SelfAddressingPrefix,
        signer: &IdentifierPrefix,
        sig: &AttachedSignaturePrefix,
    ) -> (done: Result<(), KeriError>)
        ensures
            match done {
                Ok(()) => {
                    &&& old(self)@.id_of(pref@) is Some
                    &&& final(self)@ == old(self)@.with_receipt(
                        ReceiptKind::Transferable,
                        old(self)@.id_of(pref@)->0,
                        sn,
                        dig@,
                        signer@,
                        signature_record(sig@),
                    )
                    &&& old(self)@.sound() ==> final(self)@.sound()
                },
                Err(KeriError::NotIndexedError) => {
                    &&& !old(self)@.indexed(pref@)
                    &&& final(self)@ == old(self)@
                },
                Err(KeriError::SerializationError) => {
                    &&& old(self)@.indexed(pref@)
                    &&& old(self)@.id_of(pref@) is None
                    &&& final(self)@ == old(self)@
                },
                Err(KeriError::StorageError) => final(self)@.agrees_except(
                    old(self)@,
                    set![Table::ReceiptsT, Table::EscrowedReceiptsT],
                ),
                Err(_) => false,
            },
    {
        let record = encode_signature(sig);
        self.add_receipt(
            ReceiptKind::Transferable,
            pref,
            sn,
            dig,
            signer.as_bytes(),
            record.as_slice(),
        )
    }

    /// Keeps a witness's receipt of an event that is not finalised.
    pub fn escrow_nt_receipt(
        &mut self,
        pref: &IdentifierPrefix,
        sn: u64,
        dig: &SelfAddressingPrefix,
        signer: &BasicPrefix,
        sig: &SelfSigningPrefix,
    ) -> (done: Result<(), KeriError>)
        ensures
            match done {
                Ok(()) => {
                    &&& old(self)@.id_of(pref@) is Some
                    &&& final(self)@ == old(self)@.with_escrowed_receipt(
                        ReceiptKind::NonTransferable,
                        old(self)@.id_of(pref@)->0,
                        sn,
                        dig@,
                        signer@,
                        sig@,
                    )
                    &&& old(self)@.sound() ==> final(self)@.sound()
                },
                Err(KeriError::NotIndexedError) => {
                    &&& !old(self)@.indexed(pref@)
                    &&& final(self)@ == old(self)@
                },
                Err(KeriError::SerializationError) => {
                    &&& old(self)@.indexed(pref@)
                    &&& old(self)@.id_of(pref@) is None
                    &&& final(self)@ == old(self)@
                },
                Err(KeriError::StorageError) => final(self)@.agrees_except(
                    old(self)@,
                    set![Table::EscrowedReceiptsNt],
                ),
                Err(_) => false,
            },
    {
        self.escrow_receipt(
            ReceiptKind::NonTransferable,
            pref,
            sn,
            dig,
            signer.as_bytes(),
            sig.as_bytes(),
        )
    }

    /// Keeps a validator's receipt of an event that is not finalised.
    pub fn escrow_t_receipt(
        &mut self,
        pref: &IdentifierPrefix,
        sn: u64,
        dig: &SelfAddressingPrefix,
        signer: &IdentifierPrefix,
        sig: &AttachedSignaturePrefix,
    ) -> (done: Result<(), KeriError>)
        ensures
            match done {
                Ok(()) => {
                    &&& old(self)@.id_of(pref@) is Some
                    &&& final(self)@ == old(self)@.with_escrowed_receipt(
                        ReceiptKind::Transferable,
                        old(self)@.id_of(pref@)->0,
                        sn,
                        dig@,
                        signer@,
                        signature_record(sig@),
                    )
                    &&& old(self)@.sound() ==> final(self)@.sound()
                },
                Err(KeriError::NotIndexedError) => {
                    &&& !old(self)@.indexed(pref@)
                    &&& final(self)@ == old(self)@
                },
                Err(KeriError::SerializationError) => {
                    &&& old(self)@.indexed(pref@)
                    &&& old(self)@.id_of(pref@) is None
                    &&& final(self)@ == old(self)@
                },
                Err(KeriError::StorageError) => final(self)@.agrees_except(
                    old(self)@,
                    set![Table::EscrowedReceiptsT],
                ),
                Err(_) => false,
            },
    {
        let record = encode_signature(sig);
        self.escrow_receipt(
            ReceiptKind::Transferable,
            pref,
            sn,
            dig,
            signer.as_bytes(),
            record.as_slice(),
        )
    }

    /// Whether the validator has a receipt, among the receipts of finalised
    /// events, for the identifier's event at `sn`.
    pub fn has_receipt(
        &self,
        pref: &IdentifierPrefix,
        sn: u64,
        validator: &IdentifierPrefix,
    ) -> (found: Result<bool, KeriError>)
        ensures
            match found {
                Ok(present) => self@.id_of(pref@) is Some && present == self@.has(
                    Table::ReceiptsT,
                    entry_key(self@.id_of(pref@)->0, sn, validator@),
                ),
                Err(KeriError::NotIndexedError) => !self@.indexed(pref@),
                Err(KeriError::SerializationError) => {
                    &&& self@.indexed(pref@)
                    &&& self@.id_of(pref@) is None
                },
                Err(KeriError::StorageError) => true,
                Err(_) => false,
            },
    {
        let id = self.get_identifier_id(pref)?;
        let key = make_entry_key(id, sn, validator.as_bytes());
        self.holds(Table::ReceiptsT, key.as_slice())
    }

    /// Whether a table of receipts holds one of `signer` for the event under
    /// `dig` of identifier `id` at `sn`.
    pub fn is_receipted(
        &self,
        table: Table,
        id: u64,
        sn: u64,
        dig: &SelfAddressingPrefix,
        signer: &[u8],
    ) -> (found: Result<bool, KeriError>)
        ensures
            match found {
                Ok(present) => present == self@.receipted(table, id, sn, dig@, signer@),
                Err(e) => e == KeriError::StorageError,
            },
    {
        let key = make_entry_key(id, sn, signer);
        match self.read(table, key.as_slice()) {
            Ok(stored) => Ok(names_event(&stored, dig)),
            Err(e) => Err(e),
        }
    }

    /// The number of positions in `witnesses` whose witness has a receipt,
    /// among the receipts of finalised events, for the identifier's event
    /// under `dig` at `sn`.
    pub fn count_witness_receipts(
        &self,
        pref: &IdentifierPrefix,
        sn: u64,
        dig: &SelfAddressingPrefix,
        witnesses: &Vec<BasicPrefix>,
    ) -> (count: Result<usize, KeriError>)
        ensures
            match count {
                Ok(number) => self@.id_of(pref@) is Some && number == self@.witness_receipts(
                    self@.id_of(pref@)->0,
                    sn,
                    dig@,
                    views(witnesses@),
                ),
                Err(KeriError::NotIndexedError) => !self@.indexed(pref@),
                Err(KeriError::SerializationError) => {
                    &&& self@.indexed(pref@)
                    &&& self@.id_of(pref@) is None
                },
                Err(KeriError::StorageError) => true,
                Err(_) => false,
            },
    {
        let id = self.get_identifier_id(pref)?;
        let mut number: usize = 0;
        let mut i: usize = 0;
        assert(views(witnesses@).subrange(0, 0) =~= Seq::<Seq<u8>>::empty());
        while i < witnesses.len()
            invariant
                i <= witnesses@.len(),
                number <= i,
                self@.id_of(pref@) == Some(id),
                number == self@.witness_receipts(
                    id,
                    sn,
                    dig@,
                    views(witnesses@).subrange(0, i as int),
                ),
            decreases witnesses@.len() - i,
        {
            proof {
                let part = views(witnesses@).subrange(0, i + 1);
                assert(part.drop_last() =~= views(witnesses@).subrange(0, i as int));
                assert(part.last() == witnesses@[i as int]@);
            }
            match self.is_receipted(Table::ReceiptsNt, id, sn, dig, witnesses[i].as_bytes()) {
                Ok(true) => {
                    number += 1;
                },
                Ok(false) => {},
                Err(e) => return Err(e),
            }
            i += 1;
        }
        assert(views(witnesses@).subrange(0, i as int) =~= views(witnesses@));
        Ok(number)
    }
}

} // verus!
