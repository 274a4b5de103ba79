use keri::database::receipts::ReceiptKind;
use keri::database::{SledEventDatabase, Table};
use keri::error::KeriError;
use keri::ledger::ReceiptOutcome;
use keri::prefix::{
    contains_key, AttachedSignaturePrefix, BasicPrefix, IdentifierPrefix, SelfAddressingPrefix,
    SelfSigningPrefix,
};
use keri::state::IdentifierState;

fn fresh_database(name: &str) -> SledEventDatabase {
    let stamp = std::time::SystemTime::now()
        .duration_since(std::time::UNIX_EPOCH)
        .unwrap()
        .as_nanos();
    let path = format!("/tmp/keri-databases/{}_{}", name, stamp);
    SledEventDatabase::new(&path).unwrap()
}

fn key(name: &str) -> BasicPrefix {
    BasicPrefix::from_bytes(name.as_bytes())
}

fn digest(name: &str) -> SelfAddressingPrefix {
    SelfAddressingPrefix::from_bytes(name.as_bytes())
}

fn signed(name: &str) -> SelfSigningPrefix {
    SelfSigningPrefix::from_bytes(name.as_bytes())
}

fn witnessed(tally: u64, names: &[&str]) -> IdentifierState {
    let mut state = IdentifierState::default();
    state.prefix = IdentifierPrefix::new("EAlice");
    state.witnesses = names.iter().map(|name| key(name)).collect();
    state.tally = tally;
    state
}

/// A database in which `EAlice` has the finalised event `d0` at sn 0.
fn with_event(name: &str) -> SledEventDatabase {
    let mut db = fresh_database(name);
    let alice = IdentifierPrefix::new("EAlice");
    db.set_identifier_id(&alice).unwrap();
    db.log_event_at(&alice, &digest("d0"), b"<0>", &[], b"t").unwrap();
    db.finalise_event(&alice, 0, &digest("d0")).unwrap();
    db
}

#[test]
fn key_lists_are_searched_by_value() {
    let list = vec![key("W1"), key("W2")];
    assert!(contains_key(&list, &key("W2")));
    assert!(!contains_key(&list, &key("W3")));
    assert!(!contains_key(&Vec::new(), &key("W1")));
}

#[test]
fn receipt_of_an_unknown_witness_is_refused() {
    let mut db = with_event("receipt_of_an_unknown_witness_is_refused");
    let alice = IdentifierPrefix::new("EAlice");
    let state = witnessed(1, &["W1", "W2"]);
    assert_eq!(
        db.add_non_transferable_receipt(&state, &alice, 0, &digest("d0"), &key("W9"), &signed("s")),
        Err(KeriError::UnknownWitness)
    );
    assert_eq!(db.scan(Table::ReceiptsNt, &[]).unwrap(), vec![]);
    assert_eq!(db.scan(Table::EscrowedReceiptsNt, &[]).unwrap(), vec![]);
}

#[test]
fn witness_receipts_count_toward_the_tally() {
    let mut db = with_event("witness_receipts_count_toward_the_tally");
    let alice = IdentifierPrefix::new("EAlice");
    let state = witnessed(2, &["W1", "W2", "W3"]);
    assert_eq!(
        db.add_non_transferable_receipt(&state, &alice, 0, &digest("d0"), &key("W1"), &signed("s1")),
        Ok(ReceiptOutcome::Stored { receipts: 1, tally_met: false })
    );
    // the same receipt again leaves the count as it is
    assert_eq!(
        db.add_non_transferable_receipt(&state, &alice, 0, &digest("d0"), &key("W1"), &signed("s1")),
        Ok(ReceiptOutcome::Stored { receipts: 1, tally_met: false })
    );
    assert_eq!(
        db.add_non_transferable_receipt(&state, &alice, 0, &digest("d0"), &key("W3"), &signed("s3")),
        Ok(ReceiptOutcome::Stored { receipts: 2, tally_met: true })
    );
    assert_eq!(
        db.add_non_transferable_receipt(&state, &alice, 0, &digest("d0"), &key("W2"), &signed("s2")),
        Ok(ReceiptOutcome::Stored { receipts: 3, tally_met: true })
    );
    assert_eq!(db.scan(Table::ReceiptsNt, &[]).unwrap().len(), 3);
}

#[test]
fn tally_of_zero_is_met_at_once() {
    let mut db = with_event("tally_of_zero_is_met_at_once");
    let alice = IdentifierPrefix::new("EAlice");
    let state = witnessed(0, &["W1"]);
    assert_eq!(
        db.add_non_transferable_receipt(&state, &alice, 0, &digest("d0"), &key("W1"), &signed("s1")),
        Ok(ReceiptOutcome::Stored { receipts: 1, tally_met: true })
    );
}

#[test]
fn receipt_of_an_unfinalised_event_is_escrowed() {
    let mut db = with_event("receipt_of_an_unfinalised_event_is_escrowed");
    let alice = IdentifierPrefix::new("EAlice");
    let state = witnessed(1, &["W1", "W2"]);
    // no event at sn 1 yet
    assert_eq!(
        db.add_non_transferable_receipt(&state, &alice, 1, &digest("d1"), &key("W1"), &signed("s1")),
        Ok(ReceiptOutcome::Escrowed)
    );
    // another event than the canonical one at sn 0
    assert_eq!(
        db.add_non_transferable_receipt(&state, &alice, 0, &digest("dx"), &key("W2"), &signed("s2")),
        Ok(ReceiptOutcome::Escrowed)
    );
    assert_eq!(db.scan(Table::ReceiptsNt, &[]).unwrap(), vec![]);
    assert_eq!(db.scan(Table::EscrowedReceiptsNt, &[]).unwrap().len(), 2);
    assert_eq!(db.is_receipted(Table::EscrowedReceiptsNt, 0, 1, &digest("d1"), b"W1"), Ok(true));
    // once the event is finalised the receipt is kept with it
    db.log_event_at(&alice, &digest("d1"), b"<1>", &[], b"t").unwrap();
    db.finalise_event(&alice, 1, &digest("d1")).unwrap();
    assert_eq!(
        db.add_non_transferable_receipt(&state, &alice, 1, &digest("d1"), &key("W1"), &signed("s1")),
        Ok(ReceiptOutcome::Stored { receipts: 1, tally_met: true })
    );
    assert_eq!(db.is_receipted(Table::EscrowedReceiptsNt, 0, 1, &digest("d1"), b"W1"), Ok(false));
}

#[test]
fn receipt_for_an_unknown_identifier_is_refused() {
    let mut db = fresh_database("receipt_for_an_unknown_identifier_is_refused");
    let state = witnessed(1, &["W1"]);
    assert_eq!(
        db.add_non_transferable_receipt(
            &state,
            &IdentifierPrefix::new("ENobody"),
            0,
            &digest("d0"),
            &key("W1"),
            &signed("s1")
        ),
        Err(KeriError::NotIndexedError)
    );
}

#[test]
fn validator_must_be_known() {
    let mut db = with_event("validator_must_be_known");
    let alice = IdentifierPrefix::new("EAlice");
    let validator = IdentifierPrefix::new("EValidator");
    let sig = AttachedSignaturePrefix::new(0, b"vs");
    assert_eq!(
        db.add_transferable_receipt(&alice, 0, &digest("d0"), &validator, &sig),
        Err(KeriError::UnknownValidator)
    );
    assert_eq!(db.has_receipt(&alice, 0, &validator), Ok(false));
    db.set_identifier_id(&validator).unwrap();
    assert_eq!(db.add_transferable_receipt(&alice, 0, &digest("d0"), &validator, &sig), Ok(true));
    assert_eq!(db.has_receipt(&alice, 0, &validator), Ok(true));
    // of an event that is not finalised: set aside
    assert_eq!(db.add_transferable_receipt(&alice, 1, &digest("d1"), &validator, &sig), Ok(false));
    assert_eq!(db.has_receipt(&alice, 1, &validator), Ok(false));
    assert_eq!(db.scan(Table::EscrowedReceiptsT, &[]).unwrap().len(), 1);
    assert_eq!(
        db.add_transferable_receipt(
            &IdentifierPrefix::new("ENobody"),
            0,
            &digest("d0"),
            &validator,
            &sig
        ),
        Err(KeriError::NotIndexedError)
    );
}

#[test]
fn waiting_receipts_are_replayed_when_the_event_is_finalised() {
    let mut db = with_event("waiting_receipts_are_replayed_when_the_event_is_finalised");
    let alice = IdentifierPrefix::new("EAlice");
    let state = witnessed(2, &["W1", "W2", "W3"]);
    for (witness, event) in [("W1", "d1"), ("W2", "d1"), ("W3", "d1-rival")] {
        assert_eq!(
            db.add_non_transferable_receipt(
                &state,
                &alice,
                1,
                &digest(event),
                &key(witness),
                &signed(witness)
            ),
            Ok(ReceiptOutcome::Escrowed)
        );
    }
    // a receipt that waits at another position
    db.escrow_nt_receipt(&alice, 2, &digest("d1"), &key("W1"), &signed("W1")).unwrap();
    db.log_event_at(&alice, &digest("d1"), b"<1>", &[], b"t").unwrap();
    db.finalise_event(&alice, 1, &digest("d1")).unwrap();
    assert_eq!(db.count_witness_receipts(&alice, 1, &digest("d1"), &state.witnesses), Ok(0));
    assert_eq!(db.replay_receipts(ReceiptKind::NonTransferable, &alice, 1, &digest("d1")), Ok(()));
    assert_eq!(db.count_witness_receipts(&alice, 1, &digest("d1"), &state.witnesses), Ok(2));
    assert_eq!(db.is_receipted(Table::ReceiptsNt, 0, 1, &digest("d1"), b"W1"), Ok(true));
    assert_eq!(db.is_receipted(Table::ReceiptsNt, 0, 1, &digest("d1"), b"W2"), Ok(true));
    assert_eq!(db.is_receipted(Table::ReceiptsNt, 0, 1, &digest("d1"), b"W3"), Ok(false));
    // the receipt of the rival and the one at the other position still wait
    assert_eq!(
        db.is_receipted(Table::EscrowedReceiptsNt, 0, 1, &digest("d1-rival"), b"W3"),
        Ok(true)
    );
    assert_eq!(db.is_receipted(Table::EscrowedReceiptsNt, 0, 2, &digest("d1"), b"W1"), Ok(true));
    assert_eq!(db.scan(Table::EscrowedReceiptsNt, &[]).unwrap().len(), 2);
    // a second replay finds nothing to move
    let kept = db.scan(Table::ReceiptsNt, &[]).unwrap();
    assert_eq!(db.replay_receipts(ReceiptKind::NonTransferable, &alice, 1, &digest("d1")), Ok(()));
    assert_eq!(db.scan(Table::ReceiptsNt, &[]).unwrap(), kept);
    assert_eq!(
        db.replay_receipts(
            ReceiptKind::Transferable,
            &IdentifierPrefix::new("ENobody"),
            1,
            &digest("d1")
        ),
        Err(KeriError::NotIndexedError)
    );
}

#[test]
fn waiting_validator_receipts_are_replayed() {
    let mut db = with_event("waiting_validator_receipts_are_replayed");
    let alice = IdentifierPrefix::new("EAlice");
    let validator = IdentifierPrefix::new("EValidator");
    db.set_identifier_id(&validator).unwrap();
    let sig = AttachedSignaturePrefix::new(0, b"vs");
    assert_eq!(db.add_transferable_receipt(&alice, 1, &digest("d1"), &validator, &sig), Ok(false));
    db.finalise_event(&alice, 1, &digest("d1")).unwrap();
    assert_eq!(db.has_receipt(&alice, 1, &validator), Ok(false));
    assert_eq!(db.replay_receipts(ReceiptKind::Transferable, &alice, 1, &digest("d1")), Ok(()));
    assert_eq!(db.has_receipt(&alice, 1, &validator), Ok(true));
    assert_eq!(db.scan(Table::EscrowedReceiptsT, &[]).unwrap(), vec![]);
}
