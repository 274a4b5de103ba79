//! The escrows: where an event waits that cannot be finalised yet, and where
//! events are recorded that can never be. An event at a position is in at
//! most one of them.

use crate::database::keys::{entry_key, make_entry_key};
use crate::database::laws::{lemma_escrow_exclusive, lemma_release_exclusive};
use crate::database::log::is_canonical;
use crate::database::soundness::{lemma_escrowed_sound, lemma_released_sound};
use crate::database::{escrow_tables, SledEventDatabase, Table, Tables};
use crate::error::KeriError;
use crate::prefix::{IdentifierPrefix, SelfAddressingPrefix};
use vstd::prelude::*;

verus! {

/// The categories of escrow.
#[derive(Debug, Clone, Copy, PartialEq, Eq, Structural)]
pub enum Escrow {
    /// The signatures do not meet the threshold yet.
    PartiallySigned,
    /// The predecessor is not finalised yet.
    OutOfOrder,
    /// Another event competes for the position.
    LikelyDuplicitous,
    /// Two validly signed events claim the position. This one is final.
    Duplicitous,
}

impl Escrow {
    /// The table that holds the category.
    pub open spec fn table(self) -> Table {
        match self {
            Escrow::PartiallySigned => Table::PartiallySignedEvents,
            Escrow::OutOfOrder => Table::OutOfOrderEvents,
            Escrow::LikelyDuplicitous => Table::LikelyDuplicitousEvents,
            Escrow::Duplicitous => Table::DuplicitousEvents,
        }
    }

    /// Computes `table`.
    pub fn in_table(self) -> (table: Table)
        ensures
            table == self.table(),
    {
        match self {
            Escrow::PartiallySigned => Table::PartiallySignedEvents,
            Escrow::OutOfOrder => Table::OutOfOrderEvents,
            Escrow::LikelyDuplicitous => Table::LikelyDuplicitousEvents,
            Escrow::Duplicitous => Table::DuplicitousEvents,
        }
    }
}

impl Tables {
    /// Whether the event under `digest` of identifier `id` at `sn` is in the
    /// category.
    pub open spec fn escrowed_in(
        self,
        category: Escrow,
        id: u64,
        sn: u64,
        digest: Seq<u8>,
    ) -> bool {
        self.has(category.table(), entry_key(id, sn, digest))
    }

    /// The category that holds the event, where exactly one does.
    pub open spec fn category_of(self, id: u64, sn: u64, digest: Seq<u8>) -> Option<Escrow> {
        if self.escrowed_in(Escrow::PartiallySigned, id, sn, digest) {
            Some(Escrow::PartiallySigned)
        } else if self.escrowed_in(Escrow::OutOfOrder, id, sn, digest) {
            Some(Escrow::OutOfOrder)
        } else if self.escrowed_in(Escrow::LikelyDuplicitous, id, sn, digest) {
            Some(Escrow::LikelyDuplicitous)
        } else if self.escrowed_in(Escrow::Duplicitous, id, sn, digest) {
            Some(Escrow::Duplicitous)
        } else {
            None
        }
    }

    /// Whether the event is in at most one category.
    pub open spec fn exclusive_at(self, id: u64, sn: u64, digest: Seq<u8>) -> bool {
        forall|first: Escrow, second: Escrow|
            #[trigger] self.escrowed_in(first, id, sn, digest) && #[trigger] self.escrowed_in(
                second,
                id,
                sn,
                digest,
            ) ==> first == second
    }

    /// Whether every event is in at most one category.
    pub open spec fn exclusive(self) -> bool {
        forall|id: u64, sn: u64, digest: Seq<u8>| #[trigger] self.exclusive_at(id, sn, digest)
    }

    /// Whether the event cannot enter the category because it is settled: it
    /// is the canonical event of its position. A canonical event can still be
    /// recorded as duplicitous.
    pub open spec fn settled_at(self, category: Escrow, id: u64, sn: u64, digest: Seq<u8>) -> bool {
        category != Escrow::Duplicitous && self.canonical(id, sn) == Some(digest)
    }

    /// The tables after the event has left every category.
    pub open spec fn released(self, id: u64, sn: u64, digest: Seq<u8>) -> Tables {
        self.without(Table::PartiallySignedEvents, entry_key(id, sn, digest)).without(
            Table::OutOfOrderEvents,
            entry_key(id, sn, digest),
        ).without(Table::LikelyDuplicitousEvents, entry_key(id, sn, digest)).without(
            Table::DuplicitousEvents,
            entry_key(id, sn, digest),
        )
    }

    /// The tables after the event has moved into the category: it leaves
    /// whichever category held it and enters this one.
    pub open spec fn escrowed(self, category: Escrow, id: u64, sn: u64, digest: Seq<u8>) -> Tables {
        self.released(id, sn, digest).put(category.table(), entry_key(id, sn, digest), digest)
    }
}

impl SledEventDatabase {
    /// Takes an event of identifier `id` out of every escrow.
    pub(crate) fn release(&mut self, id: u64, sn: u64, dig: &SelfAddressingPrefix) -> (done: Result<
        (),
        KeriError,
    >)
        ensures
            match done {
                Ok(()) => final(self)@ == old(self)@.released(id, sn, dig@),
                Err(e) => e == KeriError::StorageError && final(self)@.agrees_except(
                    old(self)@,
                    escrow_tables(),
                ),
            },
    {
        let key = make_entry_key(id, sn, dig.as_bytes());
        self.erase(Table::PartiallySignedEvents, key.as_slice())?;
        self.erase(Table::OutOfOrderEvents, key.as_slice())?;
        self.erase(Table::LikelyDuplicitousEvents, key.as_slice())?;
        self.erase(Table::DuplicitousEvents, key.as_slice())
    }

    /// Discards an event: it leaves the escrow that held it. Its bytes stay
    /// in the log.
    pub fn discard_event(
        &mut self,
        pref: &IdentifierPrefix,
        sn: u64,
        dig: &SelfAddressingPrefix,
    ) -> (done: Result<(), KeriError>)
        ensures
            match done {
                Ok(()) => {
                    &&& old(self)@.id_of(pref@) is Some
                    &&& final(self)@ == old(self)@.released(old(self)@.id_of(pref@)->0, sn, dig@)
                    &&& final(self)@.category_of(old(self)@.id_of(pref@)->0, sn, dig@) is None
                    &&& old(self)@.exclusive() ==> final(self)@.exclusive()
                    &&& old(self)@.sound() ==> final(self)@.sound()
                },
                Err(KeriError::NotIndexedError) => {
                    &&& !old(self)@.indexed(pref@)
                    &&& final(self)@ == old(self)@
                },
                Err(KeriError::SerializationError) => {
                    &&& old(self)@.indexed(pref@)
                    &&& old(self)@.id_of(pref@) is None
                    &&& final(self)@ == old(self)@
                },
                Err(KeriError::StorageError) => final(self)@.agrees_except(
                    old(self)@,
                    escrow_tables(),
                ),
                Err(_) => false,
            },
    {
        proof {
            self.lemma_complete();
        }
        let id = self.get_identifier_id(pref)?;
        proof {
            lemma_release_exclusive(old(self)@, id, sn, dig@);
            if old(self)@.sound() {
                lemma_released_sound(old(self)@, id, sn, dig@);
            }
        }
        self.release(id, sn, dig)
    }

    /// Whether an event is in a category.
    pub fn is_escrowed(
        &self,
        category: Escrow,
        pref: &IdentifierPrefix,
        sn: u64,
        dig: &SelfAddressingPrefix,
    ) -> (found: Result<bool, KeriError>)
        ensures
            match found {
                Ok(present) => self@.id_of(pref@) is Some && present == self@.escrowed_in(
                    category,
                    self@.id_of(pref@)->0,
                    sn,
                    dig@,
                ),
                Err(KeriError::NotIndexedError) => !self@.indexed(pref@),
                Err(KeriError::SerializationError) => {
                    &&& self@.indexed(pref@)
                    &&& self@.id_of(pref@) is None
                },
                Err(KeriError::StorageError) => true,
                Err(_) => false,
            },
    {
        let id = self.get_identifier_id(pref)?;
        let key = make_entry_key(id, sn, dig.as_bytes());
        self.holds(category.in_table(), key.as_slice())
    }

    /// Moves an event into a category. It leaves the category that held it,
    /// so it is in this one alone afterwards; an event that is already there
    /// stays as it is. The canonical event of a position does not wait for
    /// anything: it is refused, unless it is to be recorded as duplicitous.
    pub fn escrow_event(
        &mut self,
        category: Escrow,
        pref: &IdentifierPrefix,
        sn: u64,
        dig: &SelfAddressingPrefix,
    ) -> (done: Result<(), KeriError>)
        ensures
            match done {
                Ok(()) => {
                    &&& old(self)@.id_of(pref@) is Some
                    &&& !old(self)@.settled_at(category, old(self)@.id_of(pref@)->0, sn, dig@)
                    &&& final(self)@ == old(self)@.escrowed(
                        category,
                        old(self)@.id_of(pref@)->0,
                        sn,
                        dig@,
                    )
                    &&& final(self)@.category_of(old(self)@.id_of(pref@)->0, sn, dig@) == Some(
                        category,
                    )
                    &&& final(self)@.exclusive_at(old(self)@.id_of(pref@)->0, sn, dig@)
                    &&& old(self)@.exclusive() ==> final(self)@.exclusive()
                    &&& old(self)@.sound() ==> final(self)@.sound()
                },
                Err(KeriError::NotIndexedError) => {
                    &&& !old(self)@.indexed(pref@)
                    &&& final(self)@ == old(self)@
                },
                Err(KeriError::SerializationError) => {
                    &&& old(self)@.indexed(pref@)
                    &&& old(self)@.id_of(pref@) is None
                    &&& final(self)@ == old(self)@
                },
                Err(KeriError::SequenceError) => {
                    &&& old(self)@.id_of(pref@) is Some
                    &&& old(self)@.settled_at(category, old(self)@.id_of(pref@)->0, sn, dig@)
                    &&& final(self)@ == old(self)@
                },
                Err(KeriError::StorageError) => final(self)@.agrees_except(
                    old(self)@,
                    escrow_tables(),
                ),
                Err(_) => false,
            },
    {
        proof {
            self.lemma_complete();
        }
        let id = self.get_identifier_id(pref)?;
        if !matches!(category, Escrow::Duplicitous) {
            let canonical = self.canonical_digest(id, sn)?;
            if is_canonical(&canonical, dig) {
                return Err(KeriError::SequenceError);
            }
        }
        self.release(id, sn, dig)?;
        let key = make_entry_key(id, sn, dig.as_bytes());
        proof {
            lemma_escrow_exclusive(old(self)@, category, id, sn, dig@);
            if old(self)@.sound() {
                lemma_escrowed_sound(old(self)@, category, id, sn, dig@);
            }
        }
        self.write(category.in_table(), key.as_slice(), dig.as_bytes())
    }

    /// Moves an event into the escrow of partially signed events.
    pub fn escrow_partially_signed_event(
        &mut self,
        pref: &IdentifierPrefix,
        sn: u64,
        dig: &SelfAddressingPrefix,
    ) -> (done: Result<(), KeriError>)
        ensures
            match done {
                Ok(()) => {
                    &&& old(self)@.id_of(pref@) is Some
                    &&& !old(self)@.settled_at(
                        Escrow::PartiallySigned,
                        old(self)@.id_of(pref@)->0,
                        sn,
                        dig@,
                    )
                    &&& final(self)@ == old(self)@.escrowed(
                        Escrow::PartiallySigned,
                        old(self)@.id_of(pref@)->0,
                        sn,
                        dig@,
                    )
                    &&& final(self)@.category_of(old(self)@.id_of(pref@)->0, sn, dig@) == Some(
                        Escrow::PartiallySigned,
                    )
                    &&& final(self)@.exclusive_at(old(self)@.id_of(pref@)->0, sn, dig@)
                    &&& old(self)@.exclusive() ==> final(self)@.exclusive()
                    &&& old(self)@.sound() ==> final(self)@.sound()
                },
                Err(KeriError::NotIndexedError) => {
                    &&& !old(self)@.indexed(pref@)
                    &&& final(self)@ == old(self)@
                },
                Err(KeriError::SerializationError) => {
                    &&& old(self)@.indexed(pref@)
                    &&& old(self)@.id_of(pref@) is None
                    &&& final(self)@ == old(self)@
                },
                Err(KeriError::SequenceError) => {
                    &&& old(self)@.id_of(pref@) is Some
                    &&& old(self)@.settled_at(
                        Escrow::PartiallySigned,
                        old(self)@.id_of(pref@)->0,
                        sn,
                        dig@,
                    )
                    &&& final(self)@ == old(self)@
                },
                Err(KeriError::StorageError) => final(self)@.agrees_except(
                    old(self)@,
                    escrow_tables(),
                ),
                Err(_) => false,
            },
    {
        self.escrow_event(Escrow::PartiallySigned, pref, sn, dig)
    }

    /// Moves an event into the escrow of out-of-order events.
    pub fn escrow_out_of_order_event(
        &mut self,
        pref: &IdentifierPrefix,
        sn: u64,
        dig: &SelfAddressingPrefix,
    ) -> (done: Result<(), KeriError>)
        ensures
            match done {
                Ok(()) => {
                    &&& old(self)@.id_of(pref@) is Some
                    &&& !old(self)@.settled_at(
                        Escrow::OutOfOrder,
                        old(self)@.id_of(pref@)->0,
                        sn,
                        dig@,
                    )
                    &&& final(self)@ == old(self)@.escrowed(
                        Escrow::OutOfOrder,
                        old(self)@.id_of(pref@)->0,
                        sn,
                        dig@,
                    )
                    &&& final(self)@.category_of(old(self)@.id_of(pref@)->0, sn, dig@) == Some(
                        Escrow::OutOfOrder,
                    )
                    &&& final(self)@.exclusive_at(old(self)@.id_of(pref@)->0, sn, dig@)
                    &&& old(self)@.exclusive() ==> final(self)@.exclusive()
                    &&& old(self)@.sound() ==> final(self)@.sound()
                },
                Err(KeriError::NotIndexedError) => {
                    &&& !old(self)@.indexed(pref@)
                    &&& final(self)@ == old(self)@
                },
                Err(KeriError::SerializationError) => {
                    &&& old(self)@.indexed(pref@)
                    &&& old(self)@.id_of(pref@) is None
                    &&& final(self)@ == old(self)@
                },
                Err(KeriError::SequenceError) => {
                    &&& old(self)@.id_of(pref@) is Some
                    &&& old(self)@.settled_at(
                        Escrow::OutOfOrder,
                        old(self)@.id_of(pref@)->0,
                        sn,
                        dig@,
                    )
                    &&& final(self)@ == old(self)@
                },
                Err(KeriError::StorageError) => final(self)@.agrees_except(
                    old(self)@,
                    escrow_tables(),
                ),
                Err(_) => false,
            },
    {
        self.escrow_event(Escrow::OutOfOrder, pref, sn, dig)
    }

    /// Moves an event into the escrow of likely duplicitous events.
    pub fn likely_duplicitous_event(
        &mut self,
        pref: &IdentifierPrefix,
        sn: u64,
        dig: &SelfAddressingPrefix,
    ) -> (done: Result<(), KeriError>)
        ensures
            match done {
                Ok(()) => {
                    &&& old(self)@.id_of(pref@) is Some
                    &&& !old(self)@.settled_at(
                        Escrow::LikelyDuplicitous,
                        old(self)@.id_of(pref@)->0,
                        sn,
                        dig@,
                    )
                    &&& final(self)@ == old(self)@.escrowed(
                        Escrow::LikelyDuplicitous,
                        old(self)@.id_of(pref@)->0,
                        sn,
                        dig@,
                    )
                    &&& final(self)@.category_of(old(self)@.id_of(pref@)->0, sn, dig@) == Some(
                        Escrow::LikelyDuplicitous,
                    )
                    &&& final(self)@.exclusive_at(old(self)@.id_of(pref@)->0, sn, dig@)
                    &&& old(self)@.exclusive() ==> final(self)@.exclusive()
                    &&& old(self)@.sound() ==> final(self)@.sound()
                },
                Err(KeriError::NotIndexedError) => {
                    &&& !old(self)@.indexed(pref@)
                    &&& final(self)@ == old(self)@
                },
                Err(KeriError::SerializationError) => {
                    &&& old(self)@.indexed(pref@)
                    &&& old(self)@.id_of(pref@) is None
                    &&& final(self)@ == old(self)@
                },
                Err(KeriError::SequenceError) => {
                    &&& old(self)@.id_of(pref@) is Some
                    &&& old(self)@.settled_at(
                        Escrow::LikelyDuplicitous,
                        old(self)@.id_of(pref@)->0,
                        sn,
                        dig@,
                    )
                    &&& final(self)@ == old(self)@
                },
                Err(KeriError::StorageError) => final(self)@.agrees_except(
                    old(self)@,
                    escrow_tables(),
                ),
                Err(_) => false,
            },
    {
        self.escrow_event(Escrow::LikelyDuplicitous, pref, sn, dig)
    }

    /// Records an event as duplicitous. The key event log is not touched.
    pub fn duplicitous_event(
        &mut self,
        pref: &IdentifierPrefix,
        sn: u64,
        dig: &SelfAddressingPrefix,
    ) -> (done: Result<(), KeriError>)
        ensures
            match done {
                Ok(()) => {
                    &&& old(self)@.id_of(pref@) is Some
                    &&& final(self)@ == old(self)@.escrowed(
                        Escrow::Duplicitous,
                        old(self)@.id_of(pref@)->0,
                        sn,
                        dig@,
                    )
                    &&& final(self)@.category_of(old(self)@.id_of(pref@)->0, sn, dig@) == Some(
                        Escrow::Duplicitous,
                    )
                    &&& final(self)@.exclusive_at(old(self)@.id_of(pref@)->0, sn, dig@)
                    &&& old(self)@.exclusive() ==> final(self)@.exclusive()
                    &&& old(self)@.sound() ==> final(self)@.sound()
                },
                Err(KeriError::NotIndexedError) => {
                    &&& !old(self)@.indexed(pref@)
                    &&& final(self)@ == old(self)@
                },
                Err(KeriError::SerializationError) => {
                    &&& old(self)@.indexed(pref@)
                    &&& old(self)@.id_of(pref@) is None
                    &&& final(self)@ == old(self)@
                },
                Err(KeriError::StorageError) => final(self)@.agrees_except(
                    old(self)@,
                    escrow_tables(),
                ),
                Err(_) => false,
            },
    {
        self.escrow_event(Escrow::Duplicitous, pref, sn, dig)
    }
}

} // verus!
