//! The event log and the canonical key event log. Logging records that an
//! event was received; finalising makes it the canonical event of its
//! position, and the canonical events, in order, are the key event log.

use crate::bytes::{append_bytes, bytes_equal};
use crate::database::clock::now_rfc3339;
use crate::database::keys::{digest_key, make_digest_key, make_sn_key, sn_key};
use crate::database::laws::{lemma_finalise_exclusive, lemma_finalise_extends_log};
use crate::database::tables::optional_bytes;
use crate::database::soundness::{lemma_finalise_sound, lemma_logged_sound};
use crate::database::{escrow_tables, log_tables, SledEventDatabase, Table, Tables};
use crate::error::KeriError;
use crate::prefix::{views, AttachedSignaturePrefix, IdentifierPrefix, SelfAddressingPrefix};
use crate::signatures::{
    append_signatures, decode_signatures, encode_signatures, parse_signatures,
    signature_frames, Signature,
};
use vstd::prelude::*;

verus! {

impl Tables {
    /// The bytes of the event of identifier `id` logged under `digest`.
    pub open spec fn event_bytes(self, id: u64, digest: Seq<u8>) -> Option<Seq<u8>> {
        self.get(Table::Events, digest_key(id, digest))
    }

    /// The signatures stored for the event of identifier `id` under `digest`:
    /// none for an event without an entry, and nothing where the entry cannot
    /// be read.
    pub open spec fn signatures_of(self, id: u64, digest: Seq<u8>) -> Option<Seq<Signature>> {
        match self.get(Table::Signatures, digest_key(id, digest)) {
            Some(stored) => parse_signatures(stored),
            None => Some(Seq::empty()),
        }
    }

    /// The digest of the canonical event of identifier `id` at `sn`.
    pub open spec fn canonical(self, id: u64, sn: u64) -> Option<Seq<u8>> {
        self.get(Table::KeyEventLogs, sn_key(id, sn))
    }

    /// Whether identifier `id` has a canonical event at `sn`.
    pub open spec fn finalised(self, id: u64, sn: u64) -> bool {
        self.has(Table::KeyEventLogs, sn_key(id, sn))
    }

    /// Whether `sn` is where the next canonical event of identifier `id`
    /// goes: the position is free, and it is 0 or the one before it is taken.
    pub open spec fn next_position(self, id: u64, sn: u64) -> bool {
        !self.finalised(id, sn) && (sn == 0 || self.finalised(id, (sn - 1) as u64))
    }

    /// The bytes of the canonical event of identifier `id` at `sn`.
    pub open spec fn event_at(self, id: u64, sn: u64) -> Option<Seq<u8>> {
        match self.canonical(id, sn) {
            Some(digest) => self.event_bytes(id, digest),
            None => None,
        }
    }

    /// The bytes of the canonical events of identifier `id` from `sn` on, one
    /// behind the other, up to the first position that has none.
    pub open spec fn kerl_from(self, id: u64, sn: nat) -> Seq<u8>
        decreases u64::MAX + 1 - sn,
    {
        if sn > u64::MAX {
            Seq::empty()
        } else {
            match self.event_at(id, sn as u64) {
                Some(bytes) => bytes + self.kerl_from(id, sn + 1),
                None => Seq::empty(),
            }
        }
    }

    /// The key event log of identifier `id` as bytes.
    pub open spec fn kerl(self, id: u64) -> Seq<u8> {
        self.kerl_from(id, 0)
    }

    /// The tables after an event of identifier `id` is logged: its bytes and
    /// the time stamp replace what was stored under the digest, and the
    /// signatures are stored as given.
    pub open spec fn logged(
        self,
        id: u64,
        digest: Seq<u8>,
        raw: Seq<u8>,
        stamp: Seq<u8>,
        signatures: Seq<Signature>,
    ) -> Tables {
        self.put(Table::Events, digest_key(id, digest), raw).put(
            Table::DatetimeStamps,
            digest_key(id, digest),
            stamp,
        ).put(Table::Signatures, digest_key(id, digest), signature_frames(signatures))
    }

    /// The tables after the event under `digest` becomes the canonical event
    /// of identifier `id` at `sn`: it leaves every escrow and enters the key
    /// event log.
    pub open spec fn finalise(self, id: u64, sn: u64, digest: Seq<u8>) -> Tables {
        self.released(id, sn, digest).put(Table::KeyEventLogs, sn_key(id, sn), digest)
    }
}

/// Whether the event under `digest` is the canonical event of its position,
/// from what the key event log holds there.
pub fn is_canonical(
    canonical: &Option<SelfAddressingPrefix>,
    digest: &SelfAddressingPrefix,
) -> (same: bool)
    ensures
        same == match *canonical {
            Some(other) => other@ == digest@,
            None => false,
        },
{
    match canonical {
        Some(other) => bytes_equal(other.as_bytes(), digest.as_bytes()),
        None => false,
    }
}

/// Whether an event may be finalised at a position, from whether the
/// position is taken and whether the one before it is finalised, or there is
/// none before it.
pub fn position_is_next(taken: bool, predecessor_known: bool) -> (next: Result<(), KeriError>)
    ensures
        next == if !taken && predecessor_known {
            Ok::<(), KeriError>(())
        } else {
            Err::<(), KeriError>(KeriError::SequenceError)
        },
{
    if !taken && predecessor_known {
        Ok(())
    } else {
        Err(KeriError::SequenceError)
    }
}

impl SledEventDatabase {
    /// The signatures stored for an event.
    pub fn stored_signatures(&self, id: u64, digest: &SelfAddressingPrefix) -> (stored: Result<
        Vec<AttachedSignaturePrefix>,
        KeriError,
    >)
        ensures
            match stored {
                Ok(list) => self@.signatures_of(id, digest@) == Some(views(list@)),
                Err(KeriError::SerializationError) => self@.signatures_of(id, digest@) is None,
                Err(KeriError::StorageError) => true,
                Err(_) => false,
            },
    {
        let key = make_digest_key(id, digest.as_bytes());
        match self.read(Table::Signatures, key.as_slice()) {
            Ok(Some(bytes)) => match decode_signatures(bytes.as_slice()) {
                Some(list) => Ok(list),
                None => Err(KeriError::SerializationError),
            },
            Ok(None) => {
                let list: Vec<AttachedSignaturePrefix> = Vec::new();
                assert(views(list@) =~= Seq::<Signature>::empty());
                Ok(list)
            },
            Err(e) => Err(e),
        }
    }

    /// Logs an event received at the time `stamp`: its bytes and the stamp
    /// are stored under its digest, and its signatures are added, in order, behind those
    /// already stored for it. The key event log is not touched.
    pub fn log_event_at(
        &mut self,
        prefix: &IdentifierPrefix,
        dig: &SelfAddressingPrefix,
        raw: &[u8],
        sigs: &[AttachedSignaturePrefix],
        stamp: &[u8],
    ) -> (done: Result<(), KeriError>)
        ensures
            match done {
                Ok(()) => {
                    &&& old(self)@.id_of(prefix@) is Some
                    &&& old(self)@.signatures_of(old(self)@.id_of(prefix@)->0, dig@) is Some
                    &&& final(self)@ == old(self)@.logged(
                        old(self)@.id_of(prefix@)->0,
                        dig@,
                        raw@,
                        stamp@,
                        old(self)@.signatures_of(old(self)@.id_of(prefix@)->0, dig@)->0
                            + views(sigs@),
                    )
                    &&& final(self)@.signatures_of(old(self)@.id_of(prefix@)->0, dig@) == Some(
                        old(self)@.signatures_of(old(self)@.id_of(prefix@)->0, dig@)->0
                            + views(sigs@),
                    )
                    &&& old(self)@.sound() ==> final(self)@.sound()
                },
                Err(KeriError::NotIndexedError) => {
                    &&& !old(self)@.indexed(prefix@)
                    &&& final(self)@ == old(self)@
                },
                Err(KeriError::SerializationError) => {
                    &&& final(self)@ == old(self)@
                    &&& old(self)@.indexed(prefix@)
                    &&& old(self)@.id_of(prefix@) matches Some(id) ==> old(self)@.signatures_of(
                        id,
                        dig@,
                    ) is None
                },
                Err(KeriError::StorageError) => final(self)@.agrees_except(
                    old(self)@,
                    log_tables(),
                ),
                Err(_) => false,
            },
    {
        let id = self.get_identifier_id(prefix)?;
        let stored = self.stored_signatures(id, dig)?;
        let all = append_signatures(stored, sigs);
        let encoded = encode_signatures(&all);
        let key = make_digest_key(id, dig.as_bytes());
        proof {
            if old(self)@.sound() {
                lemma_logged_sound(old(self)@, id, dig@, raw@, stamp@, views(all@));
            }
        }
        self.write(Table::Events, key.as_slice(), raw)?;
        self.write(Table::DatetimeStamps, key.as_slice(), stamp)?;
        match self.write(Table::Signatures, key.as_slice(), encoded.as_slice()) {
            Ok(()) => Ok(()),
            Err(e) => Err(e),
        }
    }

    /// Logs an event received now. It is `log_event_at` with the wall
    /// clock's time as the stamp.
    pub fn log_event(
        &mut self,
        prefix: &IdentifierPrefix,
        dig: &SelfAddressingPrefix,
        raw: &[u8],
        sigs: &[AttachedSignaturePrefix],
    ) -> (done: Result<(), KeriError>)
        ensures
            match done {
                Ok(()) => {
                    &&& old(self)@.id_of(prefix@) is Some
                    &&& old(self)@.signatures_of(old(self)@.id_of(prefix@)->0, dig@) is Some
                    &&& exists|stamp: Seq<u8>|
                        final(self)@ == #[trigger] old(self)@.logged(
                            old(self)@.id_of(prefix@)->0,
                            dig@,
                            raw@,
                            stamp,
                            old(self)@.signatures_of(old(self)@.id_of(prefix@)->0, dig@)->0
                            + views(sigs@),
                        )
                    &&& old(self)@.sound() ==> final(self)@.sound()
                },
                Err(KeriError::NotIndexedError) => {
                    &&& !old(self)@.indexed(prefix@)
                    &&& final(self)@ == old(self)@
                },
                Err(KeriError::SerializationError) => {
                    &&& final(self)@ == old(self)@
                    &&& old(self)@.indexed(prefix@)
                    &&& old(self)@.id_of(prefix@) matches Some(id) ==> old(self)@.signatures_of(
                        id,
                        dig@,
                    ) is None
                },
                Err(KeriError::StorageError) => final(self)@.agrees_except(
                    old(self)@,
                    log_tables(),
                ),
                Err(_) => false,
            },
    {
        let stamp = now_rfc3339();
        self.log_event_at(prefix, dig, raw, sigs, stamp.as_slice())
    }

    /// The bytes of the event of the identifier logged under `dig`.
    pub fn logged_event(
        &self,
        pref: &IdentifierPrefix,
        dig: &SelfAddressingPrefix,
    ) -> (found: Result<Option<Vec<u8>>, KeriError>)
        ensures
            match found {
                Ok(bytes) => self@.id_of(pref@) is Some && optional_bytes(bytes)
                    == self@.event_bytes(self@.id_of(pref@)->0, dig@),
                Err(KeriError::NotIndexedError) => !self@.indexed(pref@),
                Err(KeriError::SerializationError) => {
                    &&& self@.indexed(pref@)
                    &&& self@.id_of(pref@) is None
                },
                Err(KeriError::StorageError) => true,
                Err(_) => false,
            },
    {
        let id = self.get_identifier_id(pref)?;
        let key = make_digest_key(id, dig.as_bytes());
        self.read(Table::Events, key.as_slice())
    }

    /// The digest of the canonical event of an identifier at `sn`.
    pub fn canonical_digest(&self, id: u64, sn: u64) -> (found: Result<
        Option<SelfAddressingPrefix>,
        KeriError,
    >)
        ensures
            match found {
                Ok(Some(digest)) => self@.canonical(id, sn) == Some(digest@),
                Ok(None) => self@.canonical(id, sn) is None,
                Err(e) => e == KeriError::StorageError,
            },
    {
        let key = make_sn_key(id, sn);
        match self.read(Table::KeyEventLogs, key.as_slice()) {
            Ok(Some(bytes)) => Ok(Some(SelfAddressingPrefix::from_bytes(bytes.as_slice()))),
            Ok(None) => Ok(None),
            Err(e) => Err(e),
        }
    }

    /// The bytes of the canonical event of an identifier at `sn`.
    pub fn canonical_event(&self, id: u64, sn: u64) -> (found: Result<Option<Vec<u8>>, KeriError>)
        ensures
            match found {
                Ok(Some(bytes)) => self@.event_at(id, sn) == Some(bytes@),
                Ok(None) => self@.event_at(id, sn) is None,
                Err(e) => e == KeriError::StorageError,
            },
    {
        let digest = match self.canonical_digest(id, sn) {
            Ok(Some(digest)) => digest,
            Ok(None) => return Ok(None),
            Err(e) => return Err(e),
        };
        let key = make_digest_key(id, digest.as_bytes());
        self.read(Table::Events, key.as_slice())
    }

    /// Makes the event under `dig` the canonical event of the identifier at
    /// `sn`. The position must be the next one: 0 for the first event, and
    /// after that one above the last. The event leaves every escrow.
    pub fn finalise_event(
        &mut self,
        prefix: &IdentifierPrefix,
        sn: u64,
        dig: &SelfAddressingPrefix,
    ) -> (done: Result<(), KeriError>)
        ensures
            match done {
                Ok(()) => {
                    &&& old(self)@.id_of(prefix@) is Some
                    &&& old(self)@.next_position(old(self)@.id_of(prefix@)->0, sn)
                    &&& final(self)@ == old(self)@.finalise(old(self)@.id_of(prefix@)->0, sn, dig@)
                    &&& final(self)@.canonical(old(self)@.id_of(prefix@)->0, sn) == Some(dig@)
                    &&& forall|length: nat|
                        #[trigger] old(self)@.log_length(old(self)@.id_of(prefix@)->0, length)
                            ==> sn == length && final(self)@.log_length(
                            old(self)@.id_of(prefix@)->0,
                            length + 1,
                        )
                    &&& final(self)@.category_of(old(self)@.id_of(prefix@)->0, sn, dig@) is None
                    &&& old(self)@.exclusive() ==> final(self)@.exclusive()
                    &&& old(self)@.sound() ==> final(self)@.sound()
                },
                Err(KeriError::NotIndexedError) => {
                    &&& !old(self)@.indexed(prefix@)
                    &&& final(self)@ == old(self)@
                },
                Err(KeriError::SerializationError) => {
                    &&& old(self)@.indexed(prefix@)
                    &&& old(self)@.id_of(prefix@) is None
                    &&& final(self)@ == old(self)@
                },
                Err(KeriError::SequenceError) => {
                    &&& old(self)@.id_of(prefix@) is Some
                    &&& !old(self)@.next_position(old(self)@.id_of(prefix@)->0, sn)
                    &&& final(self)@ == old(self)@
                },
                Err(KeriError::StorageError) => final(self)@.agrees_except(
                    old(self)@,
                    escrow_tables().insert(Table::KeyEventLogs),
                ),
                Err(_) => false,
            },
    {
        let id = self.get_identifier_id(prefix)?;
        let key = make_sn_key(id, sn);
        let taken = self.holds(Table::KeyEventLogs, key.as_slice())?;
        let predecessor_known = if sn > 0 {
            let before = make_sn_key(id, sn - 1);
            match self.holds(Table::KeyEventLogs, before.as_slice()) {
                Ok(known) => known,
                Err(e) => return Err(e),
            }
        } else {
            true
        };
        position_is_next(taken, predecessor_known)?;
        proof {
            self.lemma_complete();
            lemma_finalise_exclusive(old(self)@, id, sn, dig@);
            if old(self)@.sound() {
                lemma_finalise_sound(old(self)@, id, sn, dig@);
            }
            assert forall|length: nat| #[trigger] old(self)@.log_length(id, length) implies sn
                == length && old(self)@.finalise(id, sn, dig@).log_length(id, length + 1) by {
                lemma_finalise_extends_log(old(self)@, id, sn, dig@, length);
            }
        }
        self.release(id, sn, dig)?;
        self.write(Table::KeyEventLogs, key.as_slice(), dig.as_bytes())
    }

    /// The bytes of the canonical event of the identifier at `sn`, if there
    /// is one and its bytes were logged.
    pub fn last_event_at_sn(&self, pref: &IdentifierPrefix, sn: u64) -> (found: Result<
        Option<Vec<u8>>,
        KeriError,
    >)
        ensures
            match found {
                Ok(Some(bytes)) => self@.id_of(pref@) is Some && self@.event_at(
                    self@.id_of(pref@)->0,
                    sn,
                ) == Some(bytes@),
                Ok(None) => self@.id_of(pref@) is Some && self@.event_at(
                    self@.id_of(pref@)->0,
                    sn,
                ) is None,
                Err(KeriError::NotIndexedError) => !self@.indexed(pref@),
                Err(KeriError::SerializationError) => {
                    &&& self@.indexed(pref@)
                    &&& self@.id_of(pref@) is None
                },
                Err(KeriError::StorageError) => true,
                Err(_) => false,
            },
    {
        let id = self.get_identifier_id(pref)?;
        self.canonical_event(id, sn)
    }

    /// The key event log of the identifier as bytes: its canonical events
    /// from position 0 on, one behind the other. An identifier that is not
    /// indexed has none.
    pub fn get_kerl(&self, id: &IdentifierPrefix) -> (found: Result<Option<Vec<u8>>, KeriError>)
        ensures
            match found {
                Ok(Some(bytes)) => self@.id_of(id@) is Some && bytes@ == self@.kerl(
                    self@.id_of(id@)->0,
                ),
                Ok(None) => !self@.indexed(id@),
                Err(KeriError::SerializationError) => {
                    &&& self@.indexed(id@)
                    &&& self@.id_of(id@) is None
                },
                Err(KeriError::StorageError) => true,
                Err(_) => false,
            },
    {
        let number = match self.get_identifier_id(id) {
            Ok(number) => number,
            Err(KeriError::NotIndexedError) => return Ok(None),
            Err(e) => return Err(e),
        };
        let mut out: Vec<u8> = Vec::new();
        let mut sn: u64 = 0;
        assert(out@ + self@.kerl_from(number, 0) =~= self@.kerl(number));
        loop
            invariant
                self@.id_of(id@) == Some(number),
                self@.kerl(number) == out@ + self@.kerl_from(number, sn as nat),
            decreases u64::MAX - sn,
        {
            let bytes = match self.canonical_event(number, sn) {
                Ok(Some(bytes)) => bytes,
                Ok(None) => {
                    assert(out@ + Seq::<u8>::empty() =~= out@);
                    return Ok(Some(out));
                },
                Err(e) => return Err(e),
            };
            let ghost before = out@;
            append_bytes(&mut out, bytes.as_slice());
            assert(before + (bytes@ + self@.kerl_from(number, sn as nat + 1)) =~= out@
                + self@.kerl_from(number, sn as nat + 1));
            if sn == u64::MAX {
                assert(out@ + Seq::<u8>::empty() =~= out@);
                return Ok(Some(out));
            }
            sn += 1;
        }
    }
}

} // verus!
