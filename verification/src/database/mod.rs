//! The event database: identifier index, event log, canonical key event log,
//! receipts and escrows, each a table of the durable store.

pub mod cbor;
pub mod clock;
pub mod escrow;
pub mod history;
pub mod index;
pub mod soundness;
pub mod keys;
pub mod laws;
pub mod log;
pub mod receipts;
pub mod tables;

use crate::bytes::starts_with;
use crate::database::tables::{
    entries, lookup, open_store, open_table, optional_bytes, table_contains_key, table_get,
    table_insert, table_name, table_remove, table_scan_prefix,
};
use crate::error::KeriError;
use vstd::prelude::*;
use vstd::string::StringSliceAdditionalSpecFns;
use vstd::utf8::encode_utf8;

verus! {

/// The tables of the database.
#[derive(Debug, Clone, Copy, PartialEq, Eq, Structural)]
pub enum Table {
    /// Identifier in canonical form to its numeric id.
    Identifiers,
    /// The bytes of every event that was logged.
    Events,
    /// When each logged event was last received.
    DatetimeStamps,
    /// The signatures attached to each logged event.
    Signatures,
    /// Witness receipts of finalised events.
    ReceiptsNt,
    /// Witness receipts of events that are not finalised.
    EscrowedReceiptsNt,
    /// Validator receipts of finalised events.
    ReceiptsT,
    /// Validator receipts of events that are not finalised.
    EscrowedReceiptsT,
    /// The canonical log: position to digest.
    KeyEventLogs,
    /// Events that wait for more signatures.
    PartiallySignedEvents,
    /// Events that wait for their predecessor.
    OutOfOrderEvents,
    /// Events that compete with another event for their position.
    LikelyDuplicitousEvents,
    /// Events of which two validly signed ones claim one position.
    DuplicitousEvents,
}

impl Table {
    /// The name under which the store keeps the table, as text.
    pub open spec fn name(self) -> Seq<char> {
        match self {
            Table::Identifiers => "iids"@,
            Table::Events => "evts"@,
            Table::DatetimeStamps => "dtss"@,
            Table::Signatures => "sigs"@,
            Table::ReceiptsNt => "rcts"@,
            Table::EscrowedReceiptsNt => "ures"@,
            Table::ReceiptsT => "vrcs"@,
            Table::EscrowedReceiptsT => "vres"@,
            Table::KeyEventLogs => "kels"@,
            Table::PartiallySignedEvents => "pses"@,
            Table::OutOfOrderEvents => "ooes"@,
            Table::LikelyDuplicitousEvents => "ldes"@,
            Table::DuplicitousEvents => "dels"@,
        }
    }

    /// The name under which the store keeps the table, as the bytes that the
    /// store is given.
    pub open spec fn stored_name(self) -> Seq<u8> {
        encode_utf8(self.name())
    }

    /// The name under which the store keeps the table.
    pub fn tree_name(self) -> (name: &'static str)
        ensures
            name@ == self.name(),
            name.spec_bytes() == self.stored_name(),
    {
        match self {
            Table::Identifiers => "iids",
            Table::Events => "evts",
            Table::DatetimeStamps => "dtss",
            Table::Signatures => "sigs",
            Table::ReceiptsNt => "rcts",
            Table::EscrowedReceiptsNt => "ures",
            Table::ReceiptsT => "vrcs",
            Table::EscrowedReceiptsT => "vres",
            Table::KeyEventLogs => "kels",
            Table::PartiallySignedEvents => "pses",
            Table::OutOfOrderEvents => "ooes",
            Table::LikelyDuplicitousEvents => "ldes",
            Table::DuplicitousEvents => "dels",
        }
    }
}

/// What the database holds: for each table, its entries.
#[verifier::ext_equal]
pub struct Tables {
    pub held: Map<Table, Map<Seq<u8>, Seq<u8>>>,
}

impl Tables {
    /// The entries of one table.
    pub open spec fn table(self, table: Table) -> Map<Seq<u8>, Seq<u8>> {
        self.held[table]
    }

    /// The value under `key` in one table, if there is one.
    pub open spec fn get(self, table: Table, key: Seq<u8>) -> Option<Seq<u8>> {
        lookup(self.held[table], key)
    }

    /// Whether one table has a value under `key`.
    pub open spec fn has(self, table: Table, key: Seq<u8>) -> bool {
        self.held[table].contains_key(key)
    }

    /// The tables after `value` is stored under `key` in one of them.
    pub open spec fn put(self, table: Table, key: Seq<u8>, value: Seq<u8>) -> Tables {
        Tables { held: self.held.insert(table, self.held[table].insert(key, value)) }
    }

    /// The tables after `key` is removed from one of them.
    pub open spec fn without(self, table: Table, key: Seq<u8>) -> Tables {
        Tables { held: self.held.insert(table, self.held[table].remove(key)) }
    }

    /// Whether the tables hold what `other` holds in every table but those
    /// in `touched`.
    pub open spec fn agrees_except(self, other: Tables, touched: Set<Table>) -> bool {
        forall|table: Table|
            !touched.contains(table) ==> #[trigger] self.table(table) == other.table(table)
    }

    /// Whether every table is there. It holds of what any database holds.
    pub open spec fn complete(self) -> bool {
        forall|table: Table| self.held.contains_key(table)
    }

    /// Tables that hold nothing.
    pub open spec fn empty() -> Tables {
        Tables { held: Map::new(|table: Table| true, |table: Table| Map::empty()) }
    }
}

/// The tables of the event log.
pub open spec fn log_tables() -> Set<Table> {
    set![Table::Events, Table::DatetimeStamps, Table::Signatures]
}

/// The tables of the escrows.
pub open spec fn escrow_tables() -> Set<Table> {
    set![
        Table::PartiallySignedEvents,
        Table::OutOfOrderEvents,
        Table::LikelyDuplicitousEvents,
        Table::DuplicitousEvents,
    ]
}

/// The event database on the embedded store `sled`: one tree per table.
pub struct SledEventDatabase {
    store: sled::Db,
    identifiers: sled::Tree,
    events: sled::Tree,
    datetime_stamps: sled::Tree,
    signatures: sled::Tree,
    receipts_nt: sled::Tree,
    escrowed_receipts_nt: sled::Tree,
    receipts_t: sled::Tree,
    escrowed_receipts_t: sled::Tree,
    key_event_logs: sled::Tree,
    partially_signed_events: sled::Tree,
    out_of_order_events: sled::Tree,
    likely_duplicitous_events: sled::Tree,
    duplicitous_events: sled::Tree,
}

impl View for SledEventDatabase {
    type V = Tables;

    closed spec fn view(&self) -> Tables {
        Tables {
            held: Map::new(
                |table: Table| true,
                |table: Table|
                    match table {
                        Table::Identifiers => entries(self.identifiers),
                        Table::Events => entries(self.events),
                        Table::DatetimeStamps => entries(self.datetime_stamps),
                        Table::Signatures => entries(self.signatures),
                        Table::ReceiptsNt => entries(self.receipts_nt),
                        Table::EscrowedReceiptsNt => entries(self.escrowed_receipts_nt),
                        Table::ReceiptsT => entries(self.receipts_t),
                        Table::EscrowedReceiptsT => entries(self.escrowed_receipts_t),
                        Table::KeyEventLogs => entries(self.key_event_logs),
                        Table::PartiallySignedEvents => entries(self.partially_signed_events),
                        Table::OutOfOrderEvents => entries(self.out_of_order_events),
                        Table::LikelyDuplicitousEvents => entries(self.likely_duplicitous_events),
                        Table::DuplicitousEvents => entries(self.duplicitous_events),
                    },
            ),
        }
    }
}

/// What becomes of the outcome of opening the store: the store, or a storage
/// failure.
fn store_from(opened: Result<sled::Db, sled::Error>) -> (store: Result<sled::Db, KeriError>)
    ensures
        match opened {
            Ok(db) => store == Ok::<sled::Db, KeriError>(db),
            Err(_) => store == Err::<sled::Db, KeriError>(KeriError::StorageError),
        },
{
    match opened {
        Ok(db) => Ok(db),
        Err(_) => Err(KeriError::StorageError),
    }
}

/// What becomes of the outcome of opening a table: the table, or a storage
/// failure.
fn table_from(opened: Result<sled::Tree, sled::Error>) -> (table: Result<sled::Tree, KeriError>)
    ensures
        match opened {
            Ok(tree) => table == Ok::<sled::Tree, KeriError>(tree),
            Err(_) => table == Err::<sled::Tree, KeriError>(KeriError::StorageError),
        },
{
    match opened {
        Ok(tree) => Ok(tree),
        Err(_) => Err(KeriError::StorageError),
    }
}

impl SledEventDatabase {
    /// The name under which the store keeps the tree that the database uses
    /// for a table.
    pub closed spec fn kept_as(&self, table: Table) -> Seq<u8> {
        match table {
            Table::Identifiers => table_name(self.identifiers),
            Table::Events => table_name(self.events),
            Table::DatetimeStamps => table_name(self.datetime_stamps),
            Table::Signatures => table_name(self.signatures),
            Table::ReceiptsNt => table_name(self.receipts_nt),
            Table::EscrowedReceiptsNt => table_name(self.escrowed_receipts_nt),
            Table::ReceiptsT => table_name(self.receipts_t),
            Table::EscrowedReceiptsT => table_name(self.escrowed_receipts_t),
            Table::KeyEventLogs => table_name(self.key_event_logs),
            Table::PartiallySignedEvents => table_name(self.partially_signed_events),
            Table::OutOfOrderEvents => table_name(self.out_of_order_events),
            Table::LikelyDuplicitousEvents => table_name(self.likely_duplicitous_events),
            Table::DuplicitousEvents => table_name(self.duplicitous_events),
        }
    }

    /// Opens the table that the store keeps under `name`. It fails only
    /// where the store does.
    fn table_named(store: &sled::Db, name: &str) -> (opened: Result<sled::Tree, KeriError>)
        ensures
            match opened {
                Ok(tree) => table_name(tree) == name.spec_bytes(),
                Err(e) => e == KeriError::StorageError,
            },
    {
        table_from(open_table(store, name))
    }

    /// Opens the database kept under `path`, creating it if it is not there.
    /// Each of its tables is the tree that the store keeps under the table's
    /// name; what the tables hold is whatever was stored there before. It
    /// fails only where the store does.
    pub fn new(path: &str) -> (opened: Result<Self, KeriError>)
        ensures
            match opened {
                Ok(database) => {
                    &&& database@.complete()
                    &&& forall|table: Table|
                        #[trigger] database.kept_as(table) == table.stored_name()
                },
                Err(e) => e == KeriError::StorageError,
            },
    {
        let store = store_from(open_store(path))?;
        let identifiers = Self::table_named(&store, Table::Identifiers.tree_name())?;
        let events = Self::table_named(&store, Table::Events.tree_name())?;
        let datetime_stamps = Self::table_named(&store, Table::DatetimeStamps.tree_name())?;
        let signatures = Self::table_named(&store, Table::Signatures.tree_name())?;
        let receipts_nt = Self::table_named(&store, Table::ReceiptsNt.tree_name())?;
        let escrowed_receipts_nt = Self::table_named(
            &store,
            Table::EscrowedReceiptsNt.tree_name(),
        )?;
        let receipts_t = Self::table_named(&store, Table::ReceiptsT.tree_name())?;
        let escrowed_receipts_t = Self::table_named(&store, Table::EscrowedReceiptsT.tree_name())?;
        let key_event_logs = Self::table_named(&store, Table::KeyEventLogs.tree_name())?;
        let partially_signed_events = Self::table_named(
            &store,
            Table::PartiallySignedEvents.tree_name(),
        )?;
        let out_of_order_events = Self::table_named(&store, Table::OutOfOrderEvents.tree_name())?;
        let likely_duplicitous_events = Self::table_named(
            &store,
            Table::LikelyDuplicitousEvents.tree_name(),
        )?;
        let duplicitous_events = Self::table_named(&store, Table::DuplicitousEvents.tree_name())?;
        Ok(
            SledEventDatabase {
                store,
                identifiers,
                events,
                datetime_stamps,
                signatures,
                receipts_nt,
                escrowed_receipts_nt,
                receipts_t,
                escrowed_receipts_t,
                key_event_logs,
                partially_signed_events,
                out_of_order_events,
                likely_duplicitous_events,
                duplicitous_events,
            },
        )
    }

    /// Every table is there.
    pub proof fn lemma_complete(&self)
        ensures
            self@.complete(),
    {
    }

    /// The tree that holds a table.
    fn tree(&self, table: Table) -> (tree: &sled::Tree)
        ensures
            entries(*tree) == self@.table(table),
    {
        match table {
            Table::Identifiers => &self.identifiers,
            Table::Events => &self.events,
            Table::DatetimeStamps => &self.datetime_stamps,
            Table::Signatures => &self.signatures,
            Table::ReceiptsNt => &self.receipts_nt,
            Table::EscrowedReceiptsNt => &self.escrowed_receipts_nt,
            Table::ReceiptsT => &self.receipts_t,
            Table::EscrowedReceiptsT => &self.escrowed_receipts_t,
            Table::KeyEventLogs => &self.key_event_logs,
            Table::PartiallySignedEvents => &self.partially_signed_events,
            Table::OutOfOrderEvents => &self.out_of_order_events,
            Table::LikelyDuplicitousEvents => &self.likely_duplicitous_events,
            Table::DuplicitousEvents => &self.duplicitous_events,
        }
    }

    /// Reads the value under `key` in a table.
    pub fn read(&self, table: Table, key: &[u8]) -> (found: Result<Option<Vec<u8>>, KeriError>)
        ensures
            match found {
                Ok(value) => optional_bytes(value) == self@.get(table, key@),
                Err(e) => e == KeriError::StorageError,
            },
    {
        match table_get(self.tree(table), key) {
            Ok(value) => Ok(value),
            Err(_) => Err(KeriError::StorageError),
        }
    }

    /// Whether a table has a value under `key`.
    pub fn holds(&self, table: Table, key: &[u8]) -> (found: Result<bool, KeriError>)
        ensures
            match found {
                Ok(present) => present == self@.has(table, key@),
                Err(e) => e == KeriError::StorageError,
            },
    {
        match table_contains_key(self.tree(table), key) {
            Ok(present) => Ok(present),
            Err(_) => Err(KeriError::StorageError),
        }
    }

    /// The entries of a table whose key starts with `prefix`, each once.
    pub fn scan(&self, table: Table, prefix: &[u8]) -> (found: Result<
        Vec<(Vec<u8>, Vec<u8>)>,
        KeriError,
    >)
        ensures
            match found {
                Ok(pairs) => {
                    &&& forall|i: int|
                        0 <= i < pairs@.len() ==> {
                            &&& starts_with((#[trigger] pairs@[i]).0@, prefix@)
                            &&& self@.get(table, pairs@[i].0@) == Some(pairs@[i].1@)
                        }
                    &&& forall|key: Seq<u8>|
                        #[trigger] self@.has(table, key) && starts_with(key, prefix@)
                            ==> exists|i: int| 0 <= i < pairs@.len() && pairs@[i].0@ == key
                    &&& forall|i: int, j: int|
                        0 <= i < j < pairs@.len() ==> (#[trigger] pairs@[i]).0@ != (
                        #[trigger] pairs@[j]).0@
                },
                Err(e) => e == KeriError::StorageError,
            },
    {
        let tree = self.tree(table);
        match table_scan_prefix(tree, prefix) {
            Ok(pairs) => {
                assert forall|key: Seq<u8>|
                    #[trigger] self@.has(table, key) && starts_with(key, prefix@) implies exists|
                    i: int,
                | 0 <= i < pairs@.len() && pairs@[i].0@ == key by {
                    assert(entries(*tree).contains_key(key));
                }
                Ok(pairs)
            },
            Err(_) => Err(KeriError::StorageError),
        }
    }

    /// Stores `value` under `key` in a table.
    pub(crate) fn write(&mut self, table: Table, key: &[u8], value: &[u8]) -> (done: Result<
        (),
        KeriError,
    >)
        ensures
            match done {
                Ok(()) => final(self)@ == old(self)@.put(table, key@, value@),
                Err(e) => e == KeriError::StorageError && final(self)@.agrees_except(
                    old(self)@,
                    set![table],
                ),
            },
    {
        let stored = match table {
            Table::Identifiers => table_insert(&mut self.identifiers, key, value),
            Table::Events => table_insert(&mut self.events, key, value),
            Table::DatetimeStamps => table_insert(&mut self.datetime_stamps, key, value),
            Table::Signatures => table_insert(&mut self.signatures, key, value),
            Table::ReceiptsNt => table_insert(&mut self.receipts_nt, key, value),
            Table::EscrowedReceiptsNt => table_insert(&mut self.escrowed_receipts_nt, key, value),
            Table::ReceiptsT => table_insert(&mut self.receipts_t, key, value),
            Table::EscrowedReceiptsT => table_insert(&mut self.escrowed_receipts_t, key, value),
            Table::KeyEventLogs => table_insert(&mut self.key_event_logs, key, value),
            Table::PartiallySignedEvents => table_insert(
                &mut self.partially_signed_events,
                key,
                value,
            ),
            Table::OutOfOrderEvents => table_insert(&mut self.out_of_order_events, key, value),
            Table::LikelyDuplicitousEvents => table_insert(
                &mut self.likely_duplicitous_events,
                key,
                value,
            ),
            Table::DuplicitousEvents => table_insert(&mut self.duplicitous_events, key, value),
        };
        match stored {
            Ok(_) => {
                assert(self@.held =~= old(self)@.put(table, key@, value@).held);
                Ok(())
            },
            Err(_) => Err(KeriError::StorageError),
        }
    }

    /// Removes `key` from a table.
    pub(crate) fn erase(&mut self, table: Table, key: &[u8]) -> (done: Result<(), KeriError>)
        ensures
            match done {
                Ok(()) => final(self)@ == old(self)@.without(table, key@),
                Err(e) => e == KeriError::StorageError && final(self)@.agrees_except(
                    old(self)@,
                    set![table],
                ),
            },
    {
        let removed = match table {
            Table::Identifiers => table_remove(&mut self.identifiers, key),
            Table::Events => table_remove(&mut self.events, key),
            Table::DatetimeStamps => table_remove(&mut self.datetime_stamps, key),
            Table::Signatures => table_remove(&mut self.signatures, key),
            Table::ReceiptsNt => table_remove(&mut self.receipts_nt, key),
            Table::EscrowedReceiptsNt => table_remove(&mut self.escrowed_receipts_nt, key),
            Table::ReceiptsT => table_remove(&mut self.receipts_t, key),
            Table::EscrowedReceiptsT => table_remove(&mut self.escrowed_receipts_t, key),
            Table::KeyEventLogs => table_remove(&mut self.key_event_logs, key),
            Table::PartiallySignedEvents => table_remove(&mut self.partially_signed_events, key),
            Table::OutOfOrderEvents => table_remove(&mut self.out_of_order_events, key),
            Table::LikelyDuplicitousEvents => table_remove(
                &mut self.likely_duplicitous_events,
                key,
            ),
            Table::DuplicitousEvents => table_remove(&mut self.duplicitous_events, key),
        };
        match removed {
            Ok(_) => {
                assert(self@.held =~= old(self)@.without(table, key@).held);
                Ok(())
            },
            Err(_) => Err(KeriError::StorageError),
        }
    }
}

} // verus!
