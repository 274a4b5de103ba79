use keri::database::escrow::Escrow;
use keri::database::{SledEventDatabase, Table};
use keri::error::KeriError;
use keri::event::event_data::inception::InceptionEvent;
use keri::event::event_data::interaction::InteractionEvent;
use keri::event::event_data::receipt::EventReceipt;
use keri::event::event_data::rotation::RotationEvent;
use keri::event::event_data::EventData;
use keri::event::sections::{KeyConfig, WitnessConfig};
use keri::event::Event;
use keri::manager::{advance, decide, Disposition, Outcome, Progress};
use keri::prefix::{AttachedSignaturePrefix, BasicPrefix, IdentifierPrefix, SelfAddressingPrefix};
use keri::state::IdentifierState;

fn fresh_database(name: &str) -> SledEventDatabase {
    let stamp = std::time::SystemTime::now()
        .duration_since(std::time::UNIX_EPOCH)
        .unwrap()
        .as_nanos();
    let path = format!("/tmp/keri-databases/{}_{}", name, stamp);
    SledEventDatabase::new(&path).unwrap()
}

fn key(name: &str) -> BasicPrefix {
    BasicPrefix::from_bytes(name.as_bytes())
}

fn digest(name: &str) -> SelfAddressingPrefix {
    SelfAddressingPrefix::from_bytes(name.as_bytes())
}

fn alice() -> IdentifierPrefix {
    IdentifierPrefix::new("EAlice")
}

fn sig(index: u16) -> AttachedSignaturePrefix {
    AttachedSignaturePrefix::new(index, format!("signature-{}", index).as_bytes())
}

fn seeded() -> IdentifierState {
    let mut state = IdentifierState::default();
    state.prefix = alice();
    state
}

fn inception(threshold: usize, signers: &[&str], own: &str) -> Event {
    Event {
        prefix: alice(),
        sn: 0,
        digest: digest(own),
        event_data: EventData::Icp(InceptionEvent {
            key_config: KeyConfig {
                threshold,
                public_keys: signers.iter().map(|name| key(name)).collect(),
                threshold_key_digest: digest("commit-1"),
            },
            witness_config: WitnessConfig { tally: 0, witnesses: vec![] },
        }),
    }
}

fn interaction(sn: u64, own: &str, previous: &str) -> Event {
    Event {
        prefix: alice(),
        sn,
        digest: digest(own),
        event_data: EventData::Ixn(InteractionEvent {
            previous_event_hash: digest(previous),
            data: vec![],
        }),
    }
}

fn finalised(outcome: Result<Outcome, KeriError>) -> (IdentifierState, Vec<SelfAddressingPrefix>) {
    match outcome {
        Ok(Outcome::Finalised { state, waiting }) => (state, waiting),
        other => panic!("not finalised: {:?}", other),
    }
}

fn escrowed(outcome: Result<Outcome, KeriError>) -> Escrow {
    match outcome {
        Ok(Outcome::Escrowed(category)) => category,
        other => panic!("not escrowed: {:?}", other),
    }
}

fn in_escrow(db: &SledEventDatabase, category: Escrow, sn: u64, name: &str) -> bool {
    db.is_escrowed(category, &alice(), sn, &digest(name)).unwrap()
}

/// An identifier with one signer and the events `d0` .. `d<upto>` finalised.
fn grown(db: &mut SledEventDatabase, upto: u64) -> IdentifierState {
    let (mut state, _) =
        finalised(db.process_event_at(&seeded(), &inception(1, &["A"], "d0"), b"<0>", &[sig(0)], b"t"));
    for sn in 1..=upto {
        let event = interaction(sn, &format!("d{}", sn), &format!("d{}", sn - 1));
        let raw = format!("<{}>", sn);
        let (next, _) =
            finalised(db.process_event_at(&state, &event, raw.as_bytes(), &[sig(0)], b"t"));
        state = next;
    }
    state
}

#[test]
fn the_rule_of_the_manager() {
    let d = digest("d");
    let same = Some(digest("d"));
    let other = Some(digest("other"));
    for predecessor in [true, false] {
        for rival in [true, false] {
            for met in [true, false] {
                assert_eq!(decide(&same, &d, predecessor, rival, met), Disposition::AlreadyFinalised);
                assert_eq!(
                    decide(&other, &d, predecessor, rival, met),
                    if met { Disposition::Duplicitous } else { Disposition::LikelyDuplicitous }
                );
                assert_eq!(
                    decide(&None, &d, predecessor, rival, met),
                    if !predecessor {
                        Disposition::OutOfOrder
                    } else if met {
                        Disposition::Finalise
                    } else if rival {
                        Disposition::LikelyDuplicitous
                    } else {
                        Disposition::PartiallySigned
                    }
                );
            }
        }
    }
}

#[test]
fn threshold_promotion() {
    let mut db = fresh_database("threshold_promotion");
    let event = inception(2, &["A", "B", "C"], "d0");
    // signed by A alone: partially signed
    assert_eq!(
        escrowed(db.process_event_at(&seeded(), &event, b"<0>", &[sig(0)], b"t")),
        Escrow::PartiallySigned
    );
    assert!(in_escrow(&db, Escrow::PartiallySigned, 0, "d0"));
    assert_eq!(db.last_event_at_sn(&alice(), 0), Ok(None));
    // A again changes nothing
    assert_eq!(
        escrowed(db.process_event_at(&seeded(), &event, b"<0>", &[sig(0)], b"t")),
        Escrow::PartiallySigned
    );
    // B's signature promotes it
    let (state, waiting) =
        finalised(db.process_event_at(&seeded(), &event, b"<0>", &[sig(1)], b"t"));
    assert_eq!(state.sn, 0);
    assert_eq!(state.last, digest("d0"));
    assert_eq!(state.current.threshold, 2);
    assert_eq!(state.current.signers, vec![key("A"), key("B"), key("C")]);
    assert!(waiting.is_empty());
    assert!(!in_escrow(&db, Escrow::PartiallySigned, 0, "d0"));
    assert_eq!(db.last_event_at_sn(&alice(), 0), Ok(Some(b"<0>".to_vec())));
    assert_eq!(db.stored_signatures(0, &digest("d0")), Ok(vec![sig(0), sig(0), sig(1)]));
    // C afterwards: already finalised, nothing changes
    let kel = db.scan(Table::KeyEventLogs, &[]).unwrap();
    match db.process_event_at(&state, &event, b"<0>", &[sig(2)], b"t") {
        Ok(Outcome::AlreadyFinalised) => {}
        other => panic!("unexpected: {:?}", other),
    }
    assert_eq!(db.scan(Table::KeyEventLogs, &[]).unwrap(), kel);
    assert_eq!(db.scan(Table::PartiallySignedEvents, &[]).unwrap(), vec![]);
    assert_eq!(db.get_kerl(&alice()), Ok(Some(b"<0>".to_vec())));
}

#[test]
fn signatures_of_strangers_do_not_count() {
    let mut db = fresh_database("signatures_of_strangers_do_not_count");
    let event = inception(2, &["A", "B", "C"], "d0");
    assert_eq!(
        escrowed(db.process_event_at(&seeded(), &event, b"<0>", &[sig(0), sig(3), sig(9)], b"t")),
        Escrow::PartiallySigned
    );
    assert_eq!(
        escrowed(db.process_event_at(&seeded(), &event, b"<0>", &[sig(0)], b"t")),
        Escrow::PartiallySigned
    );
}

#[test]
fn duplicitous_detection() {
    let mut db = fresh_database("duplicitous_detection");
    let state = grown(&mut db, 3);
    assert_eq!(state.sn, 3);
    assert_eq!(db.last_event_at_sn(&alice(), 3), Ok(Some(b"<3>".to_vec())));
    // a second, validly signed event claims sn 3
    let rival = interaction(3, "d3-rival", "d2");
    assert_eq!(
        escrowed(db.process_event_at(&state, &rival, b"<3 rival>", &[sig(0)], b"t")),
        Escrow::Duplicitous
    );
    assert!(in_escrow(&db, Escrow::Duplicitous, 3, "d3"));
    assert!(in_escrow(&db, Escrow::Duplicitous, 3, "d3-rival"));
    // the event finalised before the conflict stays canonical
    assert_eq!(db.last_event_at_sn(&alice(), 3), Ok(Some(b"<3>".to_vec())));
    assert_eq!(db.get_kerl(&alice()), Ok(Some(b"<0><1><2><3>".to_vec())));
    assert_eq!(db.canonical_digest(0, 3), Ok(Some(digest("d3"))));
}

#[test]
fn unsigned_competitor_is_likely_duplicitous() {
    let mut db = fresh_database("unsigned_competitor_is_likely_duplicitous");
    let state = grown(&mut db, 2);
    let rival = interaction(2, "d2-rival", "d1");
    assert_eq!(
        escrowed(db.process_event_at(&state, &rival, b"<2 rival>", &[], b"t")),
        Escrow::LikelyDuplicitous
    );
    assert!(in_escrow(&db, Escrow::LikelyDuplicitous, 2, "d2-rival"));
    assert!(!in_escrow(&db, Escrow::Duplicitous, 2, "d2"));
    // once it is signed it is duplicitous, and leaves the other escrow
    assert_eq!(
        escrowed(db.process_event_at(&state, &rival, b"<2 rival>", &[sig(0)], b"t")),
        Escrow::Duplicitous
    );
    assert!(!in_escrow(&db, Escrow::LikelyDuplicitous, 2, "d2-rival"));
    assert!(in_escrow(&db, Escrow::Duplicitous, 2, "d2-rival"));
    assert!(in_escrow(&db, Escrow::Duplicitous, 2, "d2"));
    assert_eq!(db.last_event_at_sn(&alice(), 2), Ok(Some(b"<2>".to_vec())));
}

#[test]
fn second_waiting_event_is_likely_duplicitous() {
    let mut db = fresh_database("second_waiting_event_is_likely_duplicitous");
    let first = inception(2, &["A", "B"], "d0");
    let second = inception(2, &["A", "B"], "d0-other");
    assert_eq!(
        escrowed(db.process_event_at(&seeded(), &first, b"<first>", &[sig(0)], b"t")),
        Escrow::PartiallySigned
    );
    assert_eq!(
        escrowed(db.process_event_at(&seeded(), &second, b"<second>", &[sig(1)], b"t")),
        Escrow::LikelyDuplicitous
    );
    assert!(in_escrow(&db, Escrow::PartiallySigned, 0, "d0"));
    assert!(in_escrow(&db, Escrow::LikelyDuplicitous, 0, "d0-other"));
    assert_eq!(db.any_rival(0, 0, &digest("d0")), Ok(true));
    assert_eq!(db.any_rival(0, 0, &digest("d0-other")), Ok(true));
    assert_eq!(db.any_rival(0, 1, &digest("d0")), Ok(false));
    assert_eq!(db.holds_rival(Escrow::PartiallySigned, 0, 0, &digest("d0")), Ok(false));
    assert_eq!(db.holds_rival(Escrow::PartiallySigned, 0, 0, &digest("d0-other")), Ok(true));
    // the first to be validly signed is finalised
    let (state, _) =
        finalised(db.process_event_at(&seeded(), &second, b"<second>", &[sig(0)], b"t"));
    assert_eq!(state.last, digest("d0-other"));
    assert!(!in_escrow(&db, Escrow::LikelyDuplicitous, 0, "d0-other"));
    assert_eq!(db.last_event_at_sn(&alice(), 0), Ok(Some(b"<second>".to_vec())));
}

#[test]
fn rotation_commitment_check() {
    let mut db = fresh_database("rotation_commitment_check");
    let state = grown(&mut db, 0);
    let rotation = |revealed: &str| Event {
        prefix: alice(),
        sn: 1,
        digest: digest("d1"),
        event_data: EventData::Rot(RotationEvent {
            previous_event_hash: digest("d0"),
            key_config: KeyConfig {
                threshold: 1,
                public_keys: vec![key("N")],
                threshold_key_digest: digest("commit-2"),
            },
            key_set_digest: digest(revealed),
            witness_config: WitnessConfig { tally: 0, witnesses: vec![] },
        }),
    };
    assert_eq!(
        db.process_event_at(&state, &rotation("not-the-commitment"), b"<bad>", &[sig(0)], b"t")
            .map(|_| ()),
        Err(KeriError::CommitmentMismatch)
    );
    // never finalised, and in no escrow; it stays logged
    assert_eq!(db.last_event_at_sn(&alice(), 1), Ok(None));
    assert_eq!(db.canonical_digest(0, 1), Ok(None));
    assert_eq!(db.get_kerl(&alice()), Ok(Some(b"<0>".to_vec())));
    for category in [
        Escrow::PartiallySigned,
        Escrow::OutOfOrder,
        Escrow::LikelyDuplicitous,
        Escrow::Duplicitous,
    ] {
        assert!(!in_escrow(&db, category, 1, "d1"));
    }
    assert_eq!(db.stored_signatures(0, &digest("d1")), Ok(vec![sig(0)]));
    // the matching reveal is accepted
    let (next, _) =
        finalised(db.process_event_at(&state, &rotation("commit-1"), b"<1>", &[sig(0)], b"t"));
    assert_eq!(next.sn, 1);
    assert_eq!(next.current.signers, vec![key("N")]);
    assert_eq!(next.next, digest("commit-2"));
    assert_eq!(db.get_kerl(&alice()), Ok(Some(b"<0><1>".to_vec())));
}

#[test]
fn out_of_order_handling() {
    let mut db = fresh_database("out_of_order_handling");
    let state3 = grown(&mut db, 3);
    let five = interaction(5, "d5", "d4");
    // sn 5 arrives before sn 4
    assert_eq!(
        escrowed(db.process_event_at(&state3, &five, b"<5>", &[sig(0)], b"t")),
        Escrow::OutOfOrder
    );
    assert!(in_escrow(&db, Escrow::OutOfOrder, 5, "d5"));
    assert_eq!(db.waiting_at(0, 5), Ok(vec![digest("d5")]));
    assert_eq!(db.waiting_at(0, 4), Ok(vec![]));
    // finalising sn 4 names the waiting event
    let four = interaction(4, "d4", "d3");
    let (state4, waiting) = finalised(db.process_event_at(&state3, &four, b"<4>", &[sig(0)], b"t"));
    assert_eq!(waiting, vec![digest("d5")]);
    // presented again, with nothing new, it is promoted: its threshold was met
    let (state5, waiting) = finalised(db.process_event_at(&state4, &five, b"<5>", &[], b"t"));
    assert!(waiting.is_empty());
    assert_eq!(state5.sn, 5);
    assert_eq!(state5.last, digest("d5"));
    assert!(!in_escrow(&db, Escrow::OutOfOrder, 5, "d5"));
    assert_eq!(db.get_kerl(&alice()), Ok(Some(b"<0><1><2><3><4><5>".to_vec())));
}

#[test]
fn out_of_order_event_without_threshold_waits_for_signatures() {
    let mut db = fresh_database("out_of_order_event_without_threshold_waits_for_signatures");
    let state0 = grown(&mut db, 0);
    let two = interaction(2, "d2", "d1");
    assert_eq!(
        escrowed(db.process_event_at(&state0, &two, b"<2>", &[], b"t")),
        Escrow::OutOfOrder
    );
    let one = interaction(1, "d1", "d0");
    let (state1, waiting) = finalised(db.process_event_at(&state0, &one, b"<1>", &[sig(0)], b"t"));
    assert_eq!(waiting, vec![digest("d2")]);
    assert_eq!(
        escrowed(db.process_event_at(&state1, &two, b"<2>", &[], b"t")),
        Escrow::PartiallySigned
    );
    assert!(!in_escrow(&db, Escrow::OutOfOrder, 2, "d2"));
    assert!(in_escrow(&db, Escrow::PartiallySigned, 2, "d2"));
}

#[test]
fn first_event_of_an_unknown_identifier_indexes_it() {
    let mut db = fresh_database("first_event_of_an_unknown_identifier_indexes_it");
    assert_eq!(db.get_identifier_id(&alice()), Err(KeriError::NotIndexedError));
    let late = interaction(1, "d1", "d0");
    assert_eq!(
        escrowed(db.process_event_at(&seeded(), &late, b"<1>", &[sig(0)], b"t")),
        Escrow::OutOfOrder
    );
    assert_eq!(db.get_identifier_id(&alice()), Ok(0));
}

#[test]
fn event_that_does_not_fit_the_log_breaks_the_sequence() {
    let mut db = fresh_database("event_that_does_not_fit_the_log_breaks_the_sequence");
    let state = grown(&mut db, 1);
    // names a predecessor other than the state's last event
    let fork = interaction(2, "d2", "not-d1");
    assert_eq!(
        db.process_event_at(&state, &fork, b"<2>", &[sig(0)], b"t").map(|_| ()),
        Err(KeriError::SequenceError)
    );
    // a state that is not the log's tip
    let mut stale = state.clone();
    stale.last = digest("elsewhere");
    let next = interaction(2, "d2", "elsewhere");
    assert_eq!(
        db.process_event_at(&stale, &next, b"<2>", &[sig(0)], b"t").map(|_| ()),
        Err(KeriError::SequenceError)
    );
    assert_eq!(db.last_event_at_sn(&alice(), 2), Ok(None));
}

#[test]
fn malformed_inception_is_refused() {
    let mut db = fresh_database("malformed_inception_is_refused");
    let event = inception(3, &["A", "B"], "d0");
    assert_eq!(
        db.process_event_at(&seeded(), &event, b"<0>", &[sig(0), sig(1)], b"t").map(|_| ()),
        Err(KeriError::MalformedEvent)
    );
    assert_eq!(db.last_event_at_sn(&alice(), 0), Ok(None));
}

#[test]
fn receipt_is_not_a_key_event() {
    let mut db = fresh_database("receipt_is_not_a_key_event");
    let receipt = Event {
        prefix: alice(),
        sn: 0,
        digest: digest("r"),
        event_data: EventData::Rct(EventReceipt { receipted_event_digest: digest("d0") }),
    };
    assert_eq!(
        db.process_event_at(&seeded(), &receipt, b"<r>", &[], b"t").map(|_| ()),
        Err(KeriError::SequenceError)
    );
    // nothing was stored, not even the identifier
    assert_eq!(db.get_identifier_id(&alice()), Err(KeriError::NotIndexedError));
}

#[test]
fn process_event_uses_the_clock() {
    let mut db = fresh_database("process_event_uses_the_clock");
    let (state, _) =
        finalised(db.process_event(&seeded(), &inception(1, &["A"], "d0"), b"<0>", &[sig(0)]));
    assert_eq!(state.sn, 0);
    let stamps = db.scan(Table::DatetimeStamps, &[]).unwrap();
    assert_eq!(stamps.len(), 1);
    assert!(stamps[0].1.len() >= 20);
    assert_eq!(stamps[0].1[10], b'T');
}

#[test]
fn judge_reads_and_does_not_write() {
    let mut db = fresh_database("judge_reads_and_does_not_write");
    let state = grown(&mut db, 0);
    let one = interaction(1, "d1", "d0");
    db.log_event_at(&alice(), &digest("d1"), b"<1>", &[sig(0)], b"t").unwrap();
    let judgement = db.judge(0, &state, &one).unwrap();
    assert_eq!(judgement.disposition, Disposition::Finalise);
    assert_eq!(judgement.state.unwrap().sn, 1);
    assert_eq!(db.last_event_at_sn(&alice(), 1), Ok(None));
    assert_eq!(db.finalise_event(&alice(), 1, &digest("d1")), Ok(()));
    assert_eq!(db.last_event_at_sn(&alice(), 1), Ok(Some(b"<1>".to_vec())));
    assert_eq!(db.judge(0, &state, &one).unwrap().disposition, Disposition::AlreadyFinalised);
    let unsigned = interaction(2, "d2", "d1");
    db.log_event_at(&alice(), &digest("d2"), b"<2>", &[], b"t").unwrap();
    let next = db.judge(0, &state, &one).unwrap();
    assert!(next.state.is_none());
    let mut state1 = state.clone();
    state1.sn = 1;
    state1.last = digest("d1");
    assert_eq!(db.judge(0, &state1, &unsigned).unwrap().disposition, Disposition::PartiallySigned);
    let receipt = Event {
        prefix: alice(),
        sn: 0,
        digest: digest("r"),
        event_data: EventData::Rct(EventReceipt { receipted_event_digest: digest("d0") }),
    };
    assert_eq!(db.judge(0, &state, &receipt).map(|_| ()), Err(KeriError::SequenceError));
}

#[test]
fn presenting_goes_on_with_what_waited() {
    let mut db = fresh_database("presenting_goes_on_with_what_waited");
    let state3 = grown(&mut db, 3);
    // two events wait for sn 5, one for sn 6
    let five = interaction(5, "d5", "d4");
    let rival = interaction(5, "d5-rival", "d4");
    let six = interaction(6, "d6", "d5");
    for (event, raw) in [(&five, "<5>"), (&rival, "<5 rival>"), (&six, "<6>")] {
        assert_eq!(
            escrowed(db.process_event_at(&state3, event, raw.as_bytes(), &[sig(0)], b"t")),
            Escrow::OutOfOrder
        );
    }
    let four = interaction(4, "d4", "d3");
    let outcome = db.process_event_at(&state3, &four, b"<4>", &[sig(0)], b"t").unwrap();
    let mut progress = advance(outcome, state3.clone(), Vec::new());
    assert_eq!(progress.state.sn, 4);
    assert_eq!(progress.pending, vec![digest("d5"), digest("d5-rival")]);
    // the first that waited is finalised; the other stays on the list
    assert_eq!(progress.take_next(), Some(digest("d5")));
    assert_eq!(db.logged_event(&alice(), &digest("d5")), Ok(Some(b"<5>".to_vec())));
    let Progress { state, pending } = progress;
    let outcome = db.process_event_at(&state, &five, b"<5>", &[], b"t").unwrap();
    let mut progress = advance(outcome, state, pending);
    assert_eq!(progress.state.sn, 5);
    assert_eq!(progress.pending, vec![digest("d5-rival"), digest("d6")]);
    // the rival is presented again and leaves the out-of-order escrow
    assert_eq!(progress.take_next(), Some(digest("d5-rival")));
    let Progress { state, pending } = progress;
    let outcome = db.process_event_at(&state, &rival, b"<5 rival>", &[], b"t").unwrap();
    match &outcome {
        Outcome::Escrowed(Escrow::Duplicitous) => {}
        other => panic!("unexpected: {:?}", other),
    }
    assert!(!in_escrow(&db, Escrow::OutOfOrder, 5, "d5-rival"));
    let mut progress = advance(outcome, state, pending);
    assert_eq!(progress.state.sn, 5);
    assert_eq!(progress.pending, vec![digest("d6")]);
    assert_eq!(progress.take_next(), Some(digest("d6")));
    let Progress { state, pending } = progress;
    let outcome = db.process_event_at(&state, &six, b"<6>", &[], b"t").unwrap();
    let mut progress = advance(outcome, state, pending);
    assert_eq!(progress.state.sn, 6);
    assert_eq!(progress.take_next(), None);
    assert!(progress.pending.is_empty());
    assert_eq!(db.get_kerl(&alice()), Ok(Some(b"<0><1><2><3><4><5><6>".to_vec())));
    assert_eq!(db.scan(Table::OutOfOrderEvents, &[]).unwrap(), vec![]);
    assert_eq!(db.logged_event(&alice(), &digest("nothing")), Ok(None));
}
