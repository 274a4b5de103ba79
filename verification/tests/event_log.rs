use keri::database::escrow::Escrow;
use keri::database::keys::{make_digest_key, make_entry_key, make_sn_key};
use keri::database::{SledEventDatabase, Table};
use keri::error::KeriError;
use keri::prefix::{
    AttachedSignaturePrefix, BasicPrefix, IdentifierPrefix, SelfAddressingPrefix,
    SelfSigningPrefix,
};
use keri::signatures::decode_signatures;

fn fresh_database(name: &str) -> SledEventDatabase {
    let stamp = std::time::SystemTime::now()
        .duration_since(std::time::UNIX_EPOCH)
        .unwrap()
        .as_nanos();
    let path = format!("/tmp/keri-databases/{}_{}", name, stamp);
    SledEventDatabase::new(&path).unwrap()
}

/// Stores a value in a table of the database kept under `path`, behind the
/// database's back.
fn plant(path: &str, table: &str, key: &[u8], value: &[u8]) {
    let store = sled::open(path).unwrap();
    let tree = store.open_tree(table).unwrap();
    tree.insert(key, value).unwrap();
    tree.flush().unwrap();
    store.flush().unwrap();
}

/// Removes a value from a table of the database kept under `path`.
fn uproot(path: &str, table: &str, key: &[u8]) {
    let store = sled::open(path).unwrap();
    let tree = store.open_tree(table).unwrap();
    tree.remove(key).unwrap();
    tree.flush().unwrap();
    store.flush().unwrap();
}

fn fresh_path(name: &str) -> String {
    let stamp = std::time::SystemTime::now()
        .duration_since(std::time::UNIX_EPOCH)
        .unwrap()
        .as_nanos();
    format!("/tmp/keri-databases/{}_{}", name, stamp)
}

fn digest(name: &str) -> SelfAddressingPrefix {
    SelfAddressingPrefix::from_bytes(name.as_bytes())
}

#[test]
fn stored_id_is_cbor() {
    let mut db = fresh_database("stored_id_is_cbor");
    for i in 0..30u64 {
        let prefix = IdentifierPrefix::new(&format!("E{}", i));
        assert_eq!(db.get_or_assign_identifier_id(&prefix), Ok(i));
    }
    assert_eq!(db.read(Table::Identifiers, b"E0"), Ok(Some(vec![0x00])));
    assert_eq!(db.read(Table::Identifiers, b"E23"), Ok(Some(vec![0x17])));
    assert_eq!(db.read(Table::Identifiers, b"E24"), Ok(Some(vec![0x18, 0x18])));
    assert_eq!(db.read(Table::Identifiers, b"E29"), Ok(Some(vec![0x18, 0x1d])));
    assert_eq!(db.read(Table::Identifiers, b"E30"), Ok(None));
    assert_eq!(db.holds(Table::Identifiers, b"E7"), Ok(true));
    assert_eq!(db.holds(Table::Identifiers, b"E77"), Ok(false));
    assert_eq!(db.next_identifier_id(), Ok(30));
}

#[test]
fn database_keeps_what_it_held_when_opened_again() {
    let stamp = std::time::SystemTime::now()
        .duration_since(std::time::UNIX_EPOCH)
        .unwrap()
        .as_nanos();
    let path = format!("/tmp/keri-databases/reopen_{}", stamp);
    let alice = IdentifierPrefix::new("EAlice");
    {
        let mut db = SledEventDatabase::new(&path).unwrap();
        assert_eq!(db.get_or_assign_identifier_id(&alice), Ok(0));
        assert_eq!(db.log_event_at(&alice, &digest("d0"), b"zero", &[], b"t"), Ok(()));
        assert_eq!(db.finalise_event(&alice, 0, &digest("d0")), Ok(()));
    }
    let mut db = SledEventDatabase::new(&path).unwrap();
    assert_eq!(db.get_identifier_id(&alice), Ok(0));
    assert_eq!(db.get_kerl(&alice), Ok(Some(b"zero".to_vec())));
    assert_eq!(db.get_or_assign_identifier_id(&IdentifierPrefix::new("EBob")), Ok(1));
}

#[test]
fn scan_lists_entries_under_a_prefix() {
    let mut db = fresh_database("scan_lists_entries_under_a_prefix");
    let alice = IdentifierPrefix::new("EAlice");
    db.set_identifier_id(&alice).unwrap();
    db.escrow_out_of_order_event(&alice, 4, &digest("x")).unwrap();
    db.escrow_out_of_order_event(&alice, 4, &digest("y")).unwrap();
    db.escrow_out_of_order_event(&alice, 5, &digest("z")).unwrap();
    let found = db.scan(Table::OutOfOrderEvents, &make_sn_key(0, 4)).unwrap();
    assert_eq!(
        found,
        vec![
            (make_entry_key(0, 4, b"x"), b"x".to_vec()),
            (make_entry_key(0, 4, b"y"), b"y".to_vec()),
        ]
    );
    assert_eq!(db.scan(Table::OutOfOrderEvents, &[]).unwrap().len(), 3);
    assert_eq!(db.scan(Table::PartiallySignedEvents, &[]).unwrap().len(), 0);
}

#[test]
fn logging_needs_an_indexed_identifier() {
    let mut db = fresh_database("logging_needs_an_indexed_identifier");
    let alice = IdentifierPrefix::new("EAlice");
    assert_eq!(
        db.log_event(&alice, &digest("d0"), b"raw", &[]),
        Err(KeriError::NotIndexedError)
    );
    assert_eq!(
        db.finalise_event(&alice, 0, &digest("d0")),
        Err(KeriError::NotIndexedError)
    );
    assert_eq!(db.last_event_at_sn(&alice, 0), Err(KeriError::NotIndexedError));
    assert_eq!(db.get_kerl(&alice), Ok(None));
    assert_eq!(
        db.escrow_partially_signed_event(&alice, 0, &digest("d0")),
        Err(KeriError::NotIndexedError)
    );
    assert_eq!(
        db.has_receipt(&alice, 0, &IdentifierPrefix::new("EVal")),
        Err(KeriError::NotIndexedError)
    );
}

#[test]
fn logging_stores_bytes_stamp_and_signatures() {
    let mut db = fresh_database("logging_stores_bytes_stamp_and_signatures");
    let alice = IdentifierPrefix::new("EAlice");
    db.set_identifier_id(&alice).unwrap();
    let sig_a = AttachedSignaturePrefix::new(0, b"sig-a");
    let sig_b = AttachedSignaturePrefix::new(1, b"sig-b");
    assert_eq!(
        db.log_event_at(&alice, &digest("d0"), b"event zero", &[sig_a.clone()], b"2020-01-01"),
        Ok(())
    );
    let key = make_digest_key(0, b"d0");
    assert_eq!(db.read(Table::Events, &key), Ok(Some(b"event zero".to_vec())));
    assert_eq!(db.read(Table::DatetimeStamps, &key), Ok(Some(b"2020-01-01".to_vec())));
    assert_eq!(db.stored_signatures(0, &digest("d0")), Ok(vec![sig_a.clone()]));
    // logging does not touch the key event log
    assert_eq!(db.last_event_at_sn(&alice, 0), Ok(None));
    assert_eq!(db.get_kerl(&alice), Ok(Some(vec![])));
    // a second arrival adds its signatures behind the stored ones
    assert_eq!(
        db.log_event_at(
            &alice,
            &digest("d0"),
            b"event zero",
            &[sig_b.clone(), sig_a.clone()],
            b"2020-01-02"
        ),
        Ok(())
    );
    assert_eq!(db.read(Table::DatetimeStamps, &key), Ok(Some(b"2020-01-02".to_vec())));
    // every presented signature is kept, in the order of arrival
    assert_eq!(
        db.stored_signatures(0, &digest("d0")),
        Ok(vec![sig_a.clone(), sig_b.clone(), sig_a.clone()])
    );
    let stored = db.read(Table::Signatures, &key).unwrap().unwrap();
    assert_eq!(decode_signatures(&stored), Some(vec![sig_a.clone(), sig_b, sig_a]));
    // two signatures of one signer, presented together, are both kept
    let first = AttachedSignaturePrefix::new(3, b"first");
    let second = AttachedSignaturePrefix::new(3, b"second");
    assert_eq!(
        db.log_event_at(&alice, &digest("d1"), b"one", &[first.clone(), second.clone()], b"t"),
        Ok(())
    );
    assert_eq!(db.stored_signatures(0, &digest("d1")), Ok(vec![first, second]));
    assert_eq!(db.stored_signatures(0, &digest("other")), Ok(vec![]));
}

#[test]
fn log_event_stamps_with_the_wall_clock() {
    let mut db = fresh_database("log_event_stamps_with_the_wall_clock");
    let alice = IdentifierPrefix::new("EAlice");
    db.set_identifier_id(&alice).unwrap();
    assert_eq!(db.log_event(&alice, &digest("d0"), b"raw", &[]), Ok(()));
    let stamp = db.read(Table::DatetimeStamps, &make_digest_key(0, b"d0")).unwrap().unwrap();
    let text = String::from_utf8(stamp).unwrap();
    // RFC 3339: yyyy-mm-ddThh:mm:ss, then fraction and offset
    assert!(text.len() >= 20);
    let bytes = text.as_bytes();
    assert_eq!(bytes[4], b'-');
    assert_eq!(bytes[7], b'-');
    assert_eq!(bytes[10], b'T');
    assert_eq!(bytes[13], b':');
    assert_eq!(bytes[16], b':');
    assert!(text[0..4].parse::<u32>().unwrap() >= 2024);
    assert_eq!(db.read(Table::Events, &make_digest_key(0, b"d0")), Ok(Some(b"raw".to_vec())));
}

#[test]
fn unreadable_signatures_are_a_serialization_error() {
    let path = fresh_path("unreadable_signatures_are_a_serialization_error");
    let alice = IdentifierPrefix::new("EAlice");
    let key = make_digest_key(0, b"d0");
    {
        let mut db = SledEventDatabase::new(&path).unwrap();
        db.set_identifier_id(&alice).unwrap();
    }
    // a length that reaches past the end
    plant(&path, "sigs", &key, &[3, 0, 0, 0, 0, 0, 0, 0, 1]);
    {
        let mut db = SledEventDatabase::new(&path).unwrap();
        assert_eq!(db.stored_signatures(0, &digest("d0")), Err(KeriError::SerializationError));
        assert_eq!(
            db.log_event_at(&alice, &digest("d0"), b"raw", &[], b"t"),
            Err(KeriError::SerializationError)
        );
        // nothing was stored
        assert_eq!(db.read(Table::Events, &key), Ok(None));
        assert_eq!(db.read(Table::DatetimeStamps, &key), Ok(None));
    }
    uproot(&path, "sigs", &key);
    let mut db = SledEventDatabase::new(&path).unwrap();
    assert_eq!(db.log_event_at(&alice, &digest("d0"), b"raw", &[], b"t"), Ok(()));
}

#[test]
fn unreadable_id_is_a_serialization_error() {
    let path = fresh_path("unreadable_id_is_a_serialization_error");
    let alice = IdentifierPrefix::new("EAlice");
    let bob = IdentifierPrefix::new("EBob");
    {
        let mut db = SledEventDatabase::new(&path).unwrap();
        db.set_identifier_id(&alice).unwrap();
    }
    // a text string where a number belongs
    plant(&path, "iids", b"EBroken", &[0x61, b'x']);
    {
        let mut db = SledEventDatabase::new(&path).unwrap();
        let broken = IdentifierPrefix::new("EBroken");
        assert_eq!(db.get_identifier_id(&broken), Err(KeriError::SerializationError));
        assert_eq!(db.get_or_assign_identifier_id(&broken), Err(KeriError::SerializationError));
        assert_eq!(db.get_kerl(&broken), Err(KeriError::SerializationError));
        assert_eq!(db.last_event_at_sn(&broken, 0), Err(KeriError::SerializationError));
        assert_eq!(
            db.finalise_event(&broken, 0, &digest("d0")),
            Err(KeriError::SerializationError)
        );
        assert_eq!(db.set_identifier_id(&broken), Err(KeriError::IdentifierPresentError));
        // the next id cannot be told while an entry cannot be read
        assert_eq!(db.next_identifier_id(), Err(KeriError::SerializationError));
        assert_eq!(db.set_identifier_id(&bob), Err(KeriError::SerializationError));
        assert_eq!(db.get_identifier_id(&bob), Err(KeriError::NotIndexedError));
        assert_eq!(db.get_identifier_id(&alice), Ok(0));
    }
    uproot(&path, "iids", b"EBroken");
    let mut db = SledEventDatabase::new(&path).unwrap();
    assert_eq!(db.set_identifier_id(&bob), Ok(()));
    assert_eq!(db.get_identifier_id(&bob), Ok(1));
}

#[test]
fn next_id_is_one_above_the_highest() {
    let path = fresh_path("next_id_is_one_above_the_highest");
    {
        let db = SledEventDatabase::new(&path).unwrap();
        assert_eq!(db.next_identifier_id(), Ok(0));
    }
    // 1000 as CBOR
    plant(&path, "iids", b"EFar", &[0x19, 0x03, 0xe8]);
    {
        let mut db = SledEventDatabase::new(&path).unwrap();
        assert_eq!(db.get_identifier_id(&IdentifierPrefix::new("EFar")), Ok(1000));
        assert_eq!(db.next_identifier_id(), Ok(1001));
        assert_eq!(db.get_or_assign_identifier_id(&IdentifierPrefix::new("ENew")), Ok(1001));
        assert_eq!(db.read(Table::Identifiers, b"ENew"), Ok(Some(vec![0x19, 0x03, 0xe9])));
    }
    // 2^32 + 1
    plant(&path, "iids", b"EBig", &[0x1b, 0, 0, 0, 1, 0, 0, 0, 1]);
    {
        let mut db = SledEventDatabase::new(&path).unwrap();
        assert_eq!(
            db.get_or_assign_identifier_id(&IdentifierPrefix::new("ENext")),
            Ok(4294967298)
        );
        assert_eq!(
            db.read(Table::Identifiers, b"ENext"),
            Ok(Some(vec![0x1b, 0, 0, 0, 1, 0, 0, 0, 2]))
        );
    }
    uproot(&path, "iids", b"EBig");
    uproot(&path, "iids", b"ENext");
    // 70000
    plant(&path, "iids", b"EMid", &[0x1a, 0x00, 0x01, 0x11, 0x70]);
    let mut db = SledEventDatabase::new(&path).unwrap();
    assert_eq!(db.get_identifier_id(&IdentifierPrefix::new("EMid")), Ok(70000));
    assert_eq!(db.get_or_assign_identifier_id(&IdentifierPrefix::new("EMid2")), Ok(70001));
    assert_eq!(
        db.read(Table::Identifiers, b"EMid2"),
        Ok(Some(vec![0x1a, 0x00, 0x01, 0x11, 0x71]))
    );
}

#[test]
fn full_index_is_a_storage_error() {
    let path = fresh_path("full_index_is_a_storage_error");
    plant(&path, "iids", b"ELast", &[0x1b, 0xff, 0xff, 0xff, 0xff, 0xff, 0xff, 0xff, 0xff]);
    let mut db = SledEventDatabase::new(&path).unwrap();
    assert_eq!(db.get_identifier_id(&IdentifierPrefix::new("ELast")), Ok(u64::MAX));
    assert_eq!(db.next_identifier_id(), Err(KeriError::StorageError));
    assert_eq!(
        db.set_identifier_id(&IdentifierPrefix::new("EOneMore")),
        Err(KeriError::StorageError)
    );
}

#[test]
fn finalise_counts_up_from_zero_without_gaps_or_repeats() {
    let mut db = fresh_database("finalise_counts_up_from_zero_without_gaps_or_repeats");
    let alice = IdentifierPrefix::new("EAlice");
    let bob = IdentifierPrefix::new("EBob");
    db.set_identifier_id(&alice).unwrap();
    db.set_identifier_id(&bob).unwrap();
    // a log starts at 0
    assert_eq!(db.finalise_event(&alice, 1, &digest("d1")), Err(KeriError::SequenceError));
    assert_eq!(db.finalise_event(&alice, 0, &digest("d0")), Ok(()));
    // no repeats
    assert_eq!(db.finalise_event(&alice, 0, &digest("d0")), Err(KeriError::SequenceError));
    assert_eq!(db.finalise_event(&alice, 0, &digest("d0'")), Err(KeriError::SequenceError));
    // no gaps
    assert_eq!(db.finalise_event(&alice, 2, &digest("d2")), Err(KeriError::SequenceError));
    assert_eq!(db.finalise_event(&alice, 1, &digest("d1")), Ok(()));
    assert_eq!(db.finalise_event(&alice, 2, &digest("d2")), Ok(()));
    assert_eq!(db.finalise_event(&alice, u64::MAX, &digest("d")), Err(KeriError::SequenceError));
    // identifiers do not share a log
    assert_eq!(db.finalise_event(&bob, 1, &digest("b1")), Err(KeriError::SequenceError));
    assert_eq!(db.finalise_event(&bob, 0, &digest("b0")), Ok(()));
    assert_eq!(db.canonical_digest(0, 0), Ok(Some(digest("d0"))));
    assert_eq!(db.canonical_digest(0, 2), Ok(Some(digest("d2"))));
    assert_eq!(db.canonical_digest(0, 3), Ok(None));
    assert_eq!(db.canonical_digest(1, 0), Ok(Some(digest("b0"))));
    assert_eq!(db.read(Table::KeyEventLogs, &make_sn_key(0, 1)), Ok(Some(b"d1".to_vec())));
}

#[test]
fn kerl_is_the_finalised_events_in_order() {
    let mut db = fresh_database("kerl_is_the_finalised_events_in_order");
    let alice = IdentifierPrefix::new("EAlice");
    let bob = IdentifierPrefix::new("EBob");
    db.set_identifier_id(&alice).unwrap();
    db.set_identifier_id(&bob).unwrap();
    let events: Vec<(&str, &[u8])> = vec![
        ("d0", b"<inception>"),
        ("d1", b"<rotation>"),
        ("d2", b""),
        ("d3", b"<interaction>"),
    ];
    // logged in another order than they are finalised
    for (name, raw) in events.iter().rev() {
        assert_eq!(db.log_event_at(&alice, &digest(name), raw, &[], b"t"), Ok(()));
    }
    db.log_event_at(&bob, &digest("d0"), b"<bob>", &[], b"t").unwrap();
    assert_eq!(db.get_kerl(&alice), Ok(Some(vec![])));
    let mut expected: Vec<u8> = Vec::new();
    for (sn, (name, raw)) in events.iter().enumerate() {
        assert_eq!(db.finalise_event(&alice, sn as u64, &digest(name)), Ok(()));
        expected.extend_from_slice(raw);
        assert_eq!(db.get_kerl(&alice), Ok(Some(expected.clone())));
        assert_eq!(db.last_event_at_sn(&alice, sn as u64), Ok(Some(raw.to_vec())));
    }
    assert_eq!(
        db.get_kerl(&alice),
        Ok(Some(b"<inception><rotation><interaction>".to_vec()))
    );
    assert_eq!(db.last_event_at_sn(&alice, 4), Ok(None));
    assert_eq!(db.get_kerl(&bob), Ok(Some(vec![])));
    db.finalise_event(&bob, 0, &digest("d0")).unwrap();
    assert_eq!(db.get_kerl(&bob), Ok(Some(b"<bob>".to_vec())));
    assert_eq!(db.canonical_event(1, 0), Ok(Some(b"<bob>".to_vec())));
}

#[test]
fn finalised_event_without_bytes_ends_the_kerl() {
    let mut db = fresh_database("finalised_event_without_bytes_ends_the_kerl");
    let alice = IdentifierPrefix::new("EAlice");
    db.set_identifier_id(&alice).unwrap();
    db.log_event_at(&alice, &digest("d0"), b"zero", &[], b"t").unwrap();
    db.log_event_at(&alice, &digest("d2"), b"two", &[], b"t").unwrap();
    db.finalise_event(&alice, 0, &digest("d0")).unwrap();
    db.finalise_event(&alice, 1, &digest("d1")).unwrap();
    db.finalise_event(&alice, 2, &digest("d2")).unwrap();
    assert_eq!(db.last_event_at_sn(&alice, 1), Ok(None));
    assert_eq!(db.last_event_at_sn(&alice, 2), Ok(Some(b"two".to_vec())));
    assert_eq!(db.get_kerl(&alice), Ok(Some(b"zero".to_vec())));
}

fn categories_of(
    db: &SledEventDatabase,
    prefix: &IdentifierPrefix,
    sn: u64,
    dig: &SelfAddressingPrefix,
) -> Vec<Escrow> {
    let mut found = Vec::new();
    for category in [
        Escrow::PartiallySigned,
        Escrow::OutOfOrder,
        Escrow::LikelyDuplicitous,
        Escrow::Duplicitous,
    ] {
        if db.is_escrowed(category, prefix, sn, dig).unwrap() {
            found.push(category);
        }
    }
    found
}

#[test]
fn an_event_is_in_one_escrow_at_a_time() {
    let mut db = fresh_database("an_event_is_in_one_escrow_at_a_time");
    let alice = IdentifierPrefix::new("EAlice");
    db.set_identifier_id(&alice).unwrap();
    let d = digest("d5");
    assert_eq!(categories_of(&db, &alice, 5, &d), vec![]);
    assert_eq!(db.escrow_partially_signed_event(&alice, 5, &d), Ok(()));
    assert_eq!(categories_of(&db, &alice, 5, &d), vec![Escrow::PartiallySigned]);
    assert_eq!(db.escrow_out_of_order_event(&alice, 5, &d), Ok(()));
    assert_eq!(categories_of(&db, &alice, 5, &d), vec![Escrow::OutOfOrder]);
    assert_eq!(db.likely_duplicitous_event(&alice, 5, &d), Ok(()));
    assert_eq!(categories_of(&db, &alice, 5, &d), vec![Escrow::LikelyDuplicitous]);
    assert_eq!(db.escrow_partially_signed_event(&alice, 5, &d), Ok(()));
    assert_eq!(categories_of(&db, &alice, 5, &d), vec![Escrow::PartiallySigned]);
    assert_eq!(db.duplicitous_event(&alice, 5, &d), Ok(()));
    assert_eq!(categories_of(&db, &alice, 5, &d), vec![Escrow::Duplicitous]);
    assert_eq!(db.escrow_event(Escrow::OutOfOrder, &alice, 5, &d), Ok(()));
    assert_eq!(categories_of(&db, &alice, 5, &d), vec![Escrow::OutOfOrder]);
    assert_eq!(db.discard_event(&alice, 5, &d), Ok(()));
    assert_eq!(categories_of(&db, &alice, 5, &d), vec![]);
    assert_eq!(db.discard_event(&alice, 5, &d), Ok(()));
    assert_eq!(
        db.discard_event(&IdentifierPrefix::new("ENobody"), 5, &d),
        Err(KeriError::NotIndexedError)
    );
}

#[test]
fn escrowing_again_is_a_no_op() {
    let mut db = fresh_database("escrowing_again_is_a_no_op");
    let alice = IdentifierPrefix::new("EAlice");
    db.set_identifier_id(&alice).unwrap();
    let d = digest("d5");
    db.escrow_partially_signed_event(&alice, 5, &d).unwrap();
    let before = db.scan(Table::PartiallySignedEvents, &[]).unwrap();
    db.escrow_partially_signed_event(&alice, 5, &d).unwrap();
    assert_eq!(db.scan(Table::PartiallySignedEvents, &[]).unwrap(), before);
    assert_eq!(before, vec![(make_entry_key(0, 5, b"d5"), b"d5".to_vec())]);
}

#[test]
fn escrows_of_other_events_are_left_alone() {
    let mut db = fresh_database("escrows_of_other_events_are_left_alone");
    let alice = IdentifierPrefix::new("EAlice");
    let bob = IdentifierPrefix::new("EBob");
    db.set_identifier_id(&alice).unwrap();
    db.set_identifier_id(&bob).unwrap();
    db.escrow_partially_signed_event(&alice, 5, &digest("d5")).unwrap();
    db.escrow_partially_signed_event(&alice, 5, &digest("d5'")).unwrap();
    db.escrow_partially_signed_event(&alice, 6, &digest("d5")).unwrap();
    db.escrow_partially_signed_event(&bob, 5, &digest("d5")).unwrap();
    db.escrow_out_of_order_event(&alice, 5, &digest("d5")).unwrap();
    assert_eq!(categories_of(&db, &alice, 5, &digest("d5")), vec![Escrow::OutOfOrder]);
    assert_eq!(categories_of(&db, &alice, 5, &digest("d5'")), vec![Escrow::PartiallySigned]);
    assert_eq!(categories_of(&db, &alice, 6, &digest("d5")), vec![Escrow::PartiallySigned]);
    assert_eq!(categories_of(&db, &bob, 5, &digest("d5")), vec![Escrow::PartiallySigned]);
}

#[test]
fn finalising_takes_the_event_out_of_escrow() {
    let mut db = fresh_database("finalising_takes_the_event_out_of_escrow");
    let alice = IdentifierPrefix::new("EAlice");
    db.set_identifier_id(&alice).unwrap();
    db.escrow_partially_signed_event(&alice, 0, &digest("d0")).unwrap();
    db.escrow_partially_signed_event(&alice, 0, &digest("rival")).unwrap();
    assert_eq!(db.finalise_event(&alice, 0, &digest("d0")), Ok(()));
    assert_eq!(categories_of(&db, &alice, 0, &digest("d0")), vec![]);
    assert_eq!(categories_of(&db, &alice, 0, &digest("rival")), vec![Escrow::PartiallySigned]);
}

#[test]
fn duplicitous_events_do_not_touch_the_log() {
    let mut db = fresh_database("duplicitous_events_do_not_touch_the_log");
    let alice = IdentifierPrefix::new("EAlice");
    db.set_identifier_id(&alice).unwrap();
    db.log_event_at(&alice, &digest("one"), b"<one>", &[], b"t").unwrap();
    db.log_event_at(&alice, &digest("two"), b"<two>", &[], b"t").unwrap();
    assert_eq!(db.duplicitous_event(&alice, 3, &digest("one")), Ok(()));
    assert_eq!(db.duplicitous_event(&alice, 3, &digest("two")), Ok(()));
    assert_eq!(categories_of(&db, &alice, 3, &digest("one")), vec![Escrow::Duplicitous]);
    assert_eq!(categories_of(&db, &alice, 3, &digest("two")), vec![Escrow::Duplicitous]);
    // neither was finalised
    assert_eq!(db.last_event_at_sn(&alice, 3), Ok(None));
}

#[test]
fn same_witness_receipt_twice_counts_once() {
    let mut db = fresh_database("same_witness_receipt_twice_counts_once");
    let alice = IdentifierPrefix::new("EAlice");
    db.set_identifier_id(&alice).unwrap();
    let w1 = BasicPrefix::from_bytes(b"W1");
    let w2 = BasicPrefix::from_bytes(b"W2");
    let w3 = BasicPrefix::from_bytes(b"W3");
    let witnesses = vec![w1.clone(), w2.clone(), w3.clone()];
    let sig = SelfSigningPrefix::from_bytes(b"sig-w1");
    let d = digest("d3");
    assert_eq!(db.count_witness_receipts(&alice, 3, &d, &witnesses), Ok(0));
    assert_eq!(db.add_nt_receipt_for_event(&alice, 3, &d, &w1, &sig), Ok(()));
    assert_eq!(db.count_witness_receipts(&alice, 3, &d, &witnesses), Ok(1));
    let stored = db.scan(Table::ReceiptsNt, &[]).unwrap();
    assert_eq!(db.add_nt_receipt_for_event(&alice, 3, &d, &w1, &sig), Ok(()));
    assert_eq!(db.count_witness_receipts(&alice, 3, &d, &witnesses), Ok(1));
    assert_eq!(db.scan(Table::ReceiptsNt, &[]).unwrap(), stored);
    assert_eq!(
        stored,
        vec![(
            make_entry_key(0, 3, b"W1"),
            vec![
                2, 0, 0, 0, 0, 0, 0, 0, b'd', b'3', 6, 0, 0, 0, 0, 0, 0, 0, b's', b'i', b'g',
                b'-', b'w', b'1'
            ]
        )]
    );
    assert_eq!(
        db.add_nt_receipt_for_event(&alice, 3, &d, &w3, &SelfSigningPrefix::from_bytes(b"s3")),
        Ok(())
    );
    assert_eq!(db.count_witness_receipts(&alice, 3, &d, &witnesses), Ok(2));
    // receipts of another event or position are not counted
    assert_eq!(db.count_witness_receipts(&alice, 3, &digest("other"), &witnesses), Ok(0));
    assert_eq!(db.count_witness_receipts(&alice, 4, &d, &witnesses), Ok(0));
    assert_eq!(db.count_witness_receipts(&alice, 3, &d, &vec![w2.clone()]), Ok(0));
    assert_eq!(db.is_receipted(Table::ReceiptsNt, 0, 3, &d, b"W1"), Ok(true));
    assert_eq!(db.is_receipted(Table::ReceiptsNt, 0, 3, &d, b"W2"), Ok(false));
}

#[test]
fn escrowed_receipt_leaves_escrow_when_added() {
    let mut db = fresh_database("escrowed_receipt_leaves_escrow_when_added");
    let alice = IdentifierPrefix::new("EAlice");
    db.set_identifier_id(&alice).unwrap();
    let w1 = BasicPrefix::from_bytes(b"W1");
    let sig = SelfSigningPrefix::from_bytes(b"sig");
    let d = digest("d3");
    assert_eq!(db.escrow_nt_receipt(&alice, 3, &d, &w1, &sig), Ok(()));
    assert_eq!(db.is_receipted(Table::EscrowedReceiptsNt, 0, 3, &d, b"W1"), Ok(true));
    assert_eq!(db.is_receipted(Table::ReceiptsNt, 0, 3, &d, b"W1"), Ok(false));
    assert_eq!(db.add_nt_receipt_for_event(&alice, 3, &d, &w1, &sig), Ok(()));
    assert_eq!(db.is_receipted(Table::EscrowedReceiptsNt, 0, 3, &d, b"W1"), Ok(false));
    assert_eq!(db.is_receipted(Table::ReceiptsNt, 0, 3, &d, b"W1"), Ok(true));
}

#[test]
fn has_receipt_sees_validator_receipts_only() {
    let mut db = fresh_database("has_receipt_sees_validator_receipts_only");
    let alice = IdentifierPrefix::new("EAlice");
    let val = IdentifierPrefix::new("EValidator");
    let other = IdentifierPrefix::new("EOther");
    db.set_identifier_id(&alice).unwrap();
    let sig = AttachedSignaturePrefix::new(1, b"val-sig");
    let d = digest("d3");
    assert_eq!(db.has_receipt(&alice, 3, &val), Ok(false));
    assert_eq!(db.escrow_t_receipt(&alice, 3, &d, &val, &sig), Ok(()));
    assert_eq!(db.has_receipt(&alice, 3, &val), Ok(false));
    assert_eq!(db.add_t_receipt_for_event(&alice, 3, &d, &val, &sig), Ok(()));
    assert_eq!(db.has_receipt(&alice, 3, &val), Ok(true));
    assert_eq!(db.has_receipt(&alice, 3, &other), Ok(false));
    assert_eq!(db.has_receipt(&alice, 4, &val), Ok(false));
    assert_eq!(db.scan(Table::EscrowedReceiptsT, &[]).unwrap(), vec![]);
    assert_eq!(
        db.scan(Table::ReceiptsT, &[]).unwrap(),
        vec![(
            make_entry_key(0, 3, b"EValidator"),
            vec![
                2, 0, 0, 0, 0, 0, 0, 0, b'd', b'3', 9, 0, 0, 0, 0, 0, 0, 0, 1, 0, b'v', b'a',
                b'l', b'-', b's', b'i', b'g'
            ]
        )]
    );
    // a witness receipt is not a validator receipt
    db.add_nt_receipt_for_event(
        &alice,
        5,
        &d,
        &BasicPrefix::from_bytes(b"EOther"),
        &SelfSigningPrefix::from_bytes(b"s"),
    )
    .unwrap();
    assert_eq!(db.has_receipt(&alice, 5, &other), Ok(false));
}

#[test]
fn a_canonical_event_does_not_go_back_to_escrow() {
    let mut db = fresh_database("a_canonical_event_does_not_go_back_to_escrow");
    let alice = IdentifierPrefix::new("EAlice");
    db.set_identifier_id(&alice).unwrap();
    db.finalise_event(&alice, 0, &digest("d0")).unwrap();
    assert_eq!(
        db.escrow_partially_signed_event(&alice, 0, &digest("d0")),
        Err(KeriError::SequenceError)
    );
    assert_eq!(
        db.escrow_out_of_order_event(&alice, 0, &digest("d0")),
        Err(KeriError::SequenceError)
    );
    assert_eq!(db.likely_duplicitous_event(&alice, 0, &digest("d0")), Err(KeriError::SequenceError));
    assert_eq!(
        db.escrow_event(Escrow::OutOfOrder, &alice, 0, &digest("d0")),
        Err(KeriError::SequenceError)
    );
    assert_eq!(categories_of(&db, &alice, 0, &digest("d0")), vec![]);
    // a competitor of the canonical event can wait, and the canonical event
    // can be recorded as duplicitous
    assert_eq!(db.likely_duplicitous_event(&alice, 0, &digest("rival")), Ok(()));
    assert_eq!(db.duplicitous_event(&alice, 0, &digest("d0")), Ok(()));
    assert_eq!(categories_of(&db, &alice, 0, &digest("d0")), vec![Escrow::Duplicitous]);
    assert_eq!(db.canonical_digest(0, 0), Ok(Some(digest("d0"))));
}

#[test]
fn tables_are_kept_under_their_names() {
    let names = [
        (Table::Identifiers, "iids"),
        (Table::Events, "evts"),
        (Table::DatetimeStamps, "dtss"),
        (Table::Signatures, "sigs"),
        (Table::ReceiptsNt, "rcts"),
        (Table::EscrowedReceiptsNt, "ures"),
        (Table::ReceiptsT, "vrcs"),
        (Table::EscrowedReceiptsT, "vres"),
        (Table::KeyEventLogs, "kels"),
        (Table::PartiallySignedEvents, "pses"),
        (Table::OutOfOrderEvents, "ooes"),
        (Table::LikelyDuplicitousEvents, "ldes"),
        (Table::DuplicitousEvents, "dels"),
    ];
    for (table, name) in names {
        assert_eq!(table.tree_name(), name);
    }
    let path = fresh_path("tables_are_kept_under_their_names");
    // what is stored under a name behind the database's back is what the
    // database finds in the table of that name, and in no other
    for (at, (_, name)) in names.iter().enumerate() {
        plant(&path, name, b"probe", &[at as u8]);
    }
    {
        let db = SledEventDatabase::new(&path).unwrap();
        for (at, (table, _)) in names.iter().enumerate() {
            assert_eq!(db.read(*table, b"probe"), Ok(Some(vec![at as u8])));
        }
    }
    for (_, name) in names {
        uproot(&path, name, b"probe");
    }
    // and what the database stores is found under the name in the store
    let alice = IdentifierPrefix::new("EAlice");
    {
        let mut db = SledEventDatabase::new(&path).unwrap();
        db.set_identifier_id(&alice).unwrap();
        db.log_event_at(&alice, &digest("d0"), b"zero", &[], b"t").unwrap();
        db.finalise_event(&alice, 0, &digest("d0")).unwrap();
    }
    let store = sled::open(&path).unwrap();
    let index = store.open_tree("iids").unwrap();
    assert_eq!(index.get(b"EAlice").unwrap().map(|v| v.to_vec()), Some(vec![0u8]));
    let log = store.open_tree("kels").unwrap();
    assert_eq!(log.get(make_sn_key(0, 0)).unwrap().map(|v| v.to_vec()), Some(b"d0".to_vec()));
    let events = store.open_tree("evts").unwrap();
    assert_eq!(
        events.get(make_digest_key(0, b"d0")).unwrap().map(|v| v.to_vec()),
        Some(b"zero".to_vec())
    );
    assert_eq!(store.open_tree("dels").unwrap().len(), 0);
}
