//! The identifier index: every identifier gets, on first use, a numeric id,
//! one above the highest in use. The other tables are keyed by that id.

use crate::bytes::starts_with;
use crate::database::cbor::{cbor_decoding, cbor_from_u64, cbor_to_u64, cbor_u64};
use crate::database::soundness::lemma_index_sound;
use crate::database::{SledEventDatabase, Table, Tables};
use crate::error::KeriError;
use crate::prefix::IdentifierPrefix;
use vstd::prelude::*;

verus! {

impl Tables {
    /// Whether the identifier has an entry in the index.
    pub open spec fn indexed(self, prefix: Seq<u8>) -> bool {
        self.has(Table::Identifiers, prefix)
    }

    /// The id of the identifier, if it has an entry that can be read.
    pub open spec fn id_of(self, prefix: Seq<u8>) -> Option<u64> {
        match self.get(Table::Identifiers, prefix) {
            Some(stored) => cbor_decoding(stored),
            None => None,
        }
    }

    /// Whether every entry of the index can be read.
    pub open spec fn ids_readable(self) -> bool {
        forall|prefix: Seq<u8>| #[trigger] self.indexed(prefix) ==> self.id_of(prefix) is Some
    }

    /// Whether some identifier has the id.
    pub open spec fn id_in_use(self, id: u64) -> bool {
        exists|prefix: Seq<u8>| #[trigger] self.id_of(prefix) == Some(id)
    }

    /// Whether no two identifiers share an id.
    pub open spec fn ids_distinct(self) -> bool {
        forall|first: Seq<u8>, second: Seq<u8>|
            (#[trigger] self.id_of(first)) is Some && self.id_of(first) == #[trigger] self.id_of(
                second,
            ) ==> first == second
    }

    /// Whether `id` is the next id to give out: above every id in use, and 0
    /// or one above an id in use.
    pub open spec fn next_id(self, id: u64) -> bool {
        &&& forall|prefix: Seq<u8>|
            (#[trigger] self.id_of(prefix)) matches Some(used) ==> used < id
        &&& id == 0 || self.id_in_use((id - 1) as u64)
    }

    /// The tables after the identifier is given the id.
    pub open spec fn index(self, prefix: Seq<u8>, id: u64) -> Tables {
        self.put(Table::Identifiers, prefix, cbor_u64(id))
    }

    /// Whether `id` is the id under which the identifier is known or, if it
    /// is not indexed yet, will be.
    pub open spec fn enters_as(self, prefix: Seq<u8>, id: u64) -> bool {
        if self.indexed(prefix) {
            self.id_of(prefix) == Some(id)
        } else {
            self.next_id(id)
        }
    }

    /// The tables after an identifier that is not indexed yet is given the
    /// id.
    pub open spec fn entered(self, prefix: Seq<u8>, id: u64) -> Tables {
        if self.indexed(prefix) {
            self
        } else {
            self.index(prefix, id)
        }
    }
}

/// An identifier that is given the next id, and can be read back with it,
/// keeps every other identifier's id as it was and shares its own with none:
/// ids stay distinct.
pub proof fn lemma_index_keeps_ids_distinct(tables: Tables, prefix: Seq<u8>, id: u64)
    requires
        tables.ids_distinct(),
        tables.next_id(id),
        tables.index(prefix, id).id_of(prefix) == Some(id),
    ensures
        forall|other: Seq<u8>|
            other != prefix ==> #[trigger] tables.index(prefix, id).id_of(other) == tables.id_of(
                other,
            ),
        tables.index(prefix, id).ids_distinct(),
{
    let after = tables.index(prefix, id);
    assert forall|other: Seq<u8>| other != prefix implies #[trigger] after.id_of(other)
        == tables.id_of(other) by {}
    assert forall|first: Seq<u8>, second: Seq<u8>|
        (#[trigger] after.id_of(first)) is Some && after.id_of(first) == #[trigger] after.id_of(
            second,
        ) implies first == second by {
        if first != prefix && second != prefix {
            assert(tables.id_of(first) == tables.id_of(second));
        } else if first != prefix {
            assert(tables.id_of(first) == Some(id));
        } else if second != prefix {
            assert(tables.id_of(second) == Some(id));
        }
    }
}

/// There is at most one next id.
pub proof fn lemma_next_id_unique(tables: Tables, first: u64, second: u64)
    requires
        tables.next_id(first),
        tables.next_id(second),
    ensures
        first == second,
{
    if first < second {
        let prefix = choose|prefix: Seq<u8>| #[trigger]
            tables.id_of(prefix) == Some((second - 1) as u64);
        assert(tables.id_of(prefix) is Some);
    } else if second < first {
        let prefix = choose|prefix: Seq<u8>| #[trigger]
            tables.id_of(prefix) == Some((first - 1) as u64);
        assert(tables.id_of(prefix) is Some);
    }
}

/// The id that an entry of the index holds: none where there is no entry,
/// and a decoding failure where the entry cannot be read.
pub fn identifier_id_from(stored: Option<Vec<u8>>) -> (id: Result<u64, KeriError>)
    ensures
        match stored {
            None => id == Err::<u64, KeriError>(KeriError::NotIndexedError),
            Some(bytes) => match cbor_decoding(bytes@) {
                Some(value) => id == Ok::<u64, KeriError>(value),
                None => id == Err::<u64, KeriError>(KeriError::SerializationError),
            },
        },
{
    match stored {
        None => Err(KeriError::NotIndexedError),
        Some(bytes) => match cbor_to_u64(bytes.as_slice()) {
            Ok(value) => Ok(value),
            Err(_) => Err(KeriError::SerializationError),
        },
    }
}

/// The id to give out next, from the entries of the index: one above the
/// highest id that they hold, or 0 where they hold none. An entry that cannot
/// be read is a decoding failure; if all can be read and the highest possible
/// id is taken, the index is full, which is reported as a storage failure.
pub fn next_id_after(stored: &Vec<(Vec<u8>, Vec<u8>)>) -> (next: Result<u64, KeriError>)
    ensures
        match next {
            Ok(id) => {
                &&& forall|i: int|
                    0 <= i < stored@.len() ==> {
                        &&& (#[trigger] cbor_decoding(stored@[i].1@)) is Some
                        &&& cbor_decoding(stored@[i].1@)->0 < id
                    }
                &&& id == 0 || exists|i: int|
                    0 <= i < stored@.len() && #[trigger] cbor_decoding(stored@[i].1@) == Some(
                        (id - 1) as u64,
                    )
            },
            Err(e) => if exists|i: int|
                0 <= i < stored@.len() && (#[trigger] cbor_decoding(stored@[i].1@)) is None {
                e == KeriError::SerializationError
            } else {
                &&& e == KeriError::StorageError
                &&& exists|i: int|
                    0 <= i < stored@.len() && #[trigger] cbor_decoding(stored@[i].1@) == Some(
                        u64::MAX,
                    )
            },
        },
{
    let mut highest: Option<u64> = None;
    let mut i: usize = 0;
    while i < stored.len()
        invariant
            i <= stored@.len(),
            forall|j: int|
                0 <= j < i ==> {
                    &&& (#[trigger] cbor_decoding(stored@[j].1@)) is Some
                    &&& highest is Some
                    &&& cbor_decoding(stored@[j].1@)->0 <= highest->0
                },
            highest matches Some(top) ==> exists|j: int|
                0 <= j < i && #[trigger] cbor_decoding(stored@[j].1@) == Some(top),
        decreases stored@.len() - i,
    {
        match cbor_to_u64(stored[i].1.as_slice()) {
            Ok(used) => {
                let raise = match highest {
                    Some(top) => used > top,
                    None => true,
                };
                if raise {
                    highest = Some(used);
                }
            },
            Err(_) => {
                return Err(KeriError::SerializationError);
            },
        }
        i += 1;
    }
    match highest {
        None => Ok(0),
        Some(top) => if top == u64::MAX {
            Err(KeriError::StorageError)
        } else {
            Ok(top + 1)
        },
    }
}

impl SledEventDatabase {
    /// The id of an identifier that has one.
    pub fn get_identifier_id(&self, prefix: &IdentifierPrefix) -> (id: Result<u64, KeriError>)
        ensures
            match id {
                Ok(value) => self@.id_of(prefix@) == Some(value),
                Err(KeriError::NotIndexedError) => !self@.indexed(prefix@),
                Err(KeriError::SerializationError) => {
                    &&& self@.indexed(prefix@)
                    &&& self@.id_of(prefix@) is None
                },
                Err(KeriError::StorageError) => true,
                Err(_) => false,
            },
    {
        match self.read(Table::Identifiers, prefix.as_bytes()) {
            Ok(stored) => identifier_id_from(stored),
            Err(e) => Err(e),
        }
    }

    /// The id to give out next.
    pub fn next_identifier_id(&self) -> (next: Result<u64, KeriError>)
        ensures
            match next {
                Ok(id) => self@.next_id(id) && self@.ids_readable(),
                Err(KeriError::SerializationError) => !self@.ids_readable(),
                Err(KeriError::StorageError) => true,
                Err(_) => false,
            },
    {
        let empty: Vec<u8> = Vec::new();
        let stored = self.scan(Table::Identifiers, empty.as_slice())?;
        let next = next_id_after(&stored);
        proof {
            assert forall|prefix: Seq<u8>| #[trigger] self@.indexed(prefix) implies exists|i: int|
                0 <= i < stored@.len() && stored@[i].0@ == prefix by {
                assert(prefix.subrange(0, 0) =~= empty@);
                assert(self@.has(Table::Identifiers, prefix) && starts_with(prefix, empty@));
            }
            match next {
                Ok(id) => {
                    assert forall|prefix: Seq<u8>| #[trigger] self@.indexed(prefix) implies (
                    self@.id_of(prefix) is Some && self@.id_of(prefix)->0 < id) by {
                        let i = choose|i: int| 0 <= i < stored@.len() && stored@[i].0@ == prefix;
                        assert(self@.get(Table::Identifiers, stored@[i].0@) == Some(stored@[i].1@));
                        assert(cbor_decoding(stored@[i].1@) is Some);
                    }
                    assert forall|prefix: Seq<u8>|
                        (#[trigger] self@.id_of(prefix)) is Some implies self@.id_of(prefix)->0
                        < id by {
                        assert(self@.indexed(prefix));
                    }
                    if id != 0 {
                        let i = choose|i: int|
                            0 <= i < stored@.len() && #[trigger] cbor_decoding(stored@[i].1@)
                                == Some((id - 1) as u64);
                        assert(self@.get(Table::Identifiers, stored@[i].0@) == Some(stored@[i].1@));
                        assert(self@.id_of(stored@[i].0@) == Some((id - 1) as u64));
                        assert(self@.id_in_use((id - 1) as u64));
                    }
                },
                Err(KeriError::SerializationError) => {
                    let i = choose|i: int|
                        0 <= i < stored@.len() && (#[trigger] cbor_decoding(stored@[i].1@)) is None;
                    assert(self@.get(Table::Identifiers, stored@[i].0@) == Some(stored@[i].1@));
                    assert(self@.indexed(stored@[i].0@));
                    assert(self@.id_of(stored@[i].0@) is None);
                },
                Err(_) => {},
            }
        }
        next
    }

    /// Gives an identifier that has no id the next one, and returns it.
    pub fn assign_identifier_id(&mut self, prefix: &IdentifierPrefix) -> (id: Result<
        u64,
        KeriError,
    >)
        ensures
            match id {
                Ok(value) => {
                    &&& !old(self)@.indexed(prefix@)
                    &&& old(self)@.next_id(value)
                    &&& final(self)@ == old(self)@.index(prefix@, value)
                    &&& final(self)@.id_of(prefix@) == Some(value)
                    &&& old(self)@.ids_distinct() ==> final(self)@.ids_distinct()
                    &&& old(self)@.sound() ==> final(self)@.sound()
                },
                Err(KeriError::IdentifierPresentError) => {
                    &&& old(self)@.indexed(prefix@)
                    &&& final(self)@ == old(self)@
                },
                Err(KeriError::SerializationError) => {
                    &&& !old(self)@.indexed(prefix@)
                    &&& !old(self)@.ids_readable()
                    &&& final(self)@ == old(self)@
                },
                Err(KeriError::StorageError) => final(self)@.agrees_except(
                    old(self)@,
                    set![Table::Identifiers],
                ),
                Err(_) => false,
            },
    {
        let present = self.holds(Table::Identifiers, prefix.as_bytes())?;
        if present {
            return Err(KeriError::IdentifierPresentError);
        }
        let next = self.next_identifier_id()?;
        let encoded = match cbor_from_u64(next) {
            Ok(encoded) => encoded,
            Err(_) => return Err(KeriError::SerializationError),
        };
        match self.write(Table::Identifiers, prefix.as_bytes(), encoded.as_slice()) {
            Ok(()) => {
                proof {
                    if old(self)@.ids_distinct() {
                        lemma_index_keeps_ids_distinct(old(self)@, prefix@, next);
                    }
                    if old(self)@.sound() {
                        lemma_index_sound(old(self)@, prefix@, next);
                    }
                }
                Ok(next)
            },
            Err(e) => Err(e),
        }
    }

    /// Gives an identifier that has no id the next one.
    pub fn set_identifier_id(&mut self, prefix: &IdentifierPrefix) -> (done: Result<(), KeriError>)
        ensures
            match done {
                Ok(()) => {
                    &&& !old(self)@.indexed(prefix@)
                    &&& exists|id: u64|
                        {
                            &&& old(self)@.next_id(id)
                            &&& final(self)@ == #[trigger] old(self)@.index(prefix@, id)
                            &&& final(self)@.id_of(prefix@) == Some(id)
                        }
                    &&& old(self)@.ids_distinct() ==> final(self)@.ids_distinct()
                    &&& old(self)@.sound() ==> final(self)@.sound()
                },
                Err(KeriError::IdentifierPresentError) => {
                    &&& old(self)@.indexed(prefix@)
                    &&& final(self)@ == old(self)@
                },
                Err(KeriError::SerializationError) => {
                    &&& !old(self)@.indexed(prefix@)
                    &&& !old(self)@.ids_readable()
                    &&& final(self)@ == old(self)@
                },
                Err(KeriError::StorageError) => final(self)@.agrees_except(
                    old(self)@,
                    set![Table::Identifiers],
                ),
                Err(_) => false,
            },
    {
        match self.assign_identifier_id(prefix) {
            Ok(_) => Ok(()),
            Err(e) => Err(e),
        }
    }

    /// The id of an identifier; one that has none is given the next id
    /// first. An identifier keeps the id that it was given.
    pub fn get_or_assign_identifier_id(&mut self, prefix: &IdentifierPrefix) -> (id: Result<
        u64,
        KeriError,
    >)
        ensures
            match id {
                Ok(value) => {
                    &&& final(self)@.id_of(prefix@) == Some(value)
                    &&& if old(self)@.indexed(prefix@) {
                        final(self)@ == old(self)@
                    } else {
                        &&& old(self)@.next_id(value)
                        &&& final(self)@ == old(self)@.index(prefix@, value)
                    }
                    &&& old(self)@.ids_distinct() ==> final(self)@.ids_distinct()
                    &&& old(self)@.sound() ==> final(self)@.sound()
                },
                Err(KeriError::SerializationError) => {
                    &&& final(self)@ == old(self)@
                    &&& if old(self)@.indexed(prefix@) {
                        old(self)@.id_of(prefix@) is None
                    } else {
                        !old(self)@.ids_readable()
                    }
                },
                Err(KeriError::StorageError) => final(self)@.agrees_except(
                    old(self)@,
                    set![Table::Identifiers],
                ),
                Err(_) => false,
            },
    {
        match self.get_identifier_id(prefix) {
            Ok(id) => Ok(id),
            Err(KeriError::NotIndexedError) => {
                match self.assign_identifier_id(prefix) {
                    Ok(id) => Ok(id),
                    Err(KeriError::IdentifierPresentError) => Err(KeriError::StorageError),
                    Err(e) => Err(e),
                }
            },
            Err(e) => Err(e),
        }
    }
}

} // verus!
