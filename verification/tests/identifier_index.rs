use keri::database::SledEventDatabase;
use keri::error::KeriError;
use keri::prefix::IdentifierPrefix;

fn fresh_database(name: &str) -> SledEventDatabase {
    let stamp = std::time::SystemTime::now()
        .duration_since(std::time::UNIX_EPOCH)
        .unwrap()
        .as_nanos();
    let path = format!("/tmp/keri-databases/{}_{}", name, stamp);
    SledEventDatabase::new(&path).unwrap()
}

#[test]
fn ids_count_up_from_zero() {
    let mut db = fresh_database("ids_count_up_from_zero");
    let alice = IdentifierPrefix::new("EAlice");
    let bob = IdentifierPrefix::new("EBob");
    let carol = IdentifierPrefix::new("ECarol");
    assert_eq!(db.get_or_assign_identifier_id(&alice), Ok(0));
    assert_eq!(db.get_or_assign_identifier_id(&bob), Ok(1));
    assert_eq!(db.get_or_assign_identifier_id(&carol), Ok(2));
}

#[test]
fn same_prefix_keeps_its_id() {
    let mut db = fresh_database("same_prefix_keeps_its_id");
    let alice = IdentifierPrefix::new("EAlice");
    let bob = IdentifierPrefix::new("EBob");
    assert_eq!(db.get_or_assign_identifier_id(&alice), Ok(0));
    assert_eq!(db.get_or_assign_identifier_id(&bob), Ok(1));
    assert_eq!(db.get_or_assign_identifier_id(&alice), Ok(0));
    assert_eq!(db.get_identifier_id(&alice), Ok(0));
    assert_eq!(db.get_identifier_id(&bob), Ok(1));
}

#[test]
fn unknown_prefix_is_not_indexed() {
    let db = fresh_database("unknown_prefix_is_not_indexed");
    let nobody = IdentifierPrefix::new("ENobody");
    assert_eq!(db.get_identifier_id(&nobody), Err(KeriError::NotIndexedError));
}

#[test]
fn assigning_twice_is_refused() {
    let mut db = fresh_database("assigning_twice_is_refused");
    let alice = IdentifierPrefix::new("EAlice");
    assert_eq!(db.set_identifier_id(&alice), Ok(()));
    assert_eq!(db.set_identifier_id(&alice), Err(KeriError::IdentifierPresentError));
    assert_eq!(db.get_identifier_id(&alice), Ok(0));
}

#[test]
fn a_store_that_cannot_be_opened_is_a_storage_error() {
    match SledEventDatabase::new("/dev/null/not-a-directory") {
        Err(e) => assert_eq!(e, KeriError::StorageError),
        Ok(_) => panic!("opened a database under a file"),
    }
}
