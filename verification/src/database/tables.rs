//! The durable tables. Each table is a tree of the embedded store, a map from
//! byte strings to byte strings kept on disk. Nothing in this file is proved:
//! every function here hands one call to the store and states what the
//! store's documentation says of it.
//!
//! The database reaches each tree through one handle only: it opens each
//! tree once, never copies a handle and never reaches a tree through the
//! store. Writes therefore take the handle by `&mut`, and what a tree holds
//! changes only through them. A second process cannot open the store while
//! this one holds it.

use crate::bytes::starts_with;
use vstd::prelude::*;
use vstd::string::StringSliceAdditionalSpecFns;

verus! {

/// `sled::Db`, the store itself.
#[verifier::external_type_specification]
#[verifier::external_body]
pub struct ExDb(sled::Db);

/// `sled::Tree`, one table of the store.
#[verifier::external_type_specification]
#[verifier::external_body]
pub struct ExTree(sled::Tree);

/// `sled::Error`, the store's failure.
#[verifier::external_type_specification]
#[verifier::external_body]
pub struct ExStoreError(sled::Error);

/// What a table holds.
pub uninterp spec fn entries(tree: sled::Tree) -> Map<Seq<u8>, Seq<u8>>;

/// The name under which the store keeps a table: what `sled::Tree::name`
/// gives for it.
pub uninterp spec fn table_name(tree: sled::Tree) -> Seq<u8>;

/// What a lookup of `key` in a table holding `held` gives.
pub open spec fn lookup(held: Map<Seq<u8>, Seq<u8>>, key: Seq<u8>) -> Option<Seq<u8>> {
    if held.contains_key(key) {
        Some(held[key])
    } else {
        None
    }
}

/// The view of an optional byte string.
pub open spec fn optional_bytes(value: Option<Vec<u8>>) -> Option<Seq<u8>> {
    match value {
        Some(bytes) => Some(bytes@),
        None => None,
    }
}

/// `sled::open`: opens the store at `path`, creating it if it is not there.
/// Nothing is claimed of the result.
#[verifier::external_body]
pub(crate) fn open_store(path: &str) -> (opened: Result<sled::Db, sled::Error>) {
    sled::open(path)
}

/// `sled::Db::open_tree`: opens the table called `name`, creating it if it is
/// not there. On success the table is the one that the store keeps under
/// that name. Nothing is claimed of what the table holds.
#[verifier::external_body]
pub(crate) fn open_table(
    store: &sled::Db,
    name: &str,
) -> (opened: Result<sled::Tree, sled::Error>)
    ensures
        opened matches Ok(tree) ==> table_name(tree) == name.spec_bytes(),
{
    store.open_tree(name)
}

/// `sled::Tree::get`: on success, the value stored under `key`, if any.
#[verifier::external_body]
pub(crate) fn table_get(
    tree: &sled::Tree,
    key: &[u8],
) -> (found: Result<Option<Vec<u8>>, sled::Error>)
    ensures
        found matches Ok(value) ==> optional_bytes(value) == lookup(entries(*tree), key@),
{
    tree.get(key).map(|value| value.map(|bytes| bytes.to_vec()))
}

/// `sled::Tree::contains_key`: on success, whether a value is stored under
/// `key`.
#[verifier::external_body]
pub(crate) fn table_contains_key(
    tree: &sled::Tree,
    key: &[u8],
) -> (found: Result<bool, sled::Error>)
    ensures
        found matches Ok(present) ==> present == entries(*tree).contains_key(key@),
{
    tree.contains_key(key)
}

/// `sled::Tree::insert`: on success, `key` now maps to `value`, every other
/// key is as before, and the value that `key` had before is returned. On
/// failure nothing is claimed of the table.
#[verifier::external_body]
pub(crate) fn table_insert(tree: &mut sled::Tree, key: &[u8], value: &[u8]) -> (replaced: Result<
    Option<Vec<u8>>,
    sled::Error,
>)
    ensures
        replaced matches Ok(before) ==> {
            &&& entries(*final(tree)) == entries(*old(tree)).insert(key@, value@)
            &&& optional_bytes(before) == lookup(entries(*old(tree)), key@)
        },
{
    tree.insert(key, value).map(|before| before.map(|bytes| bytes.to_vec()))
}

/// `sled::Tree::remove`: on success, `key` has no value any more, every other
/// key is as before, and the value that `key` had before is returned. On
/// failure nothing is claimed of the table.
#[verifier::external_body]
pub(crate) fn table_remove(tree: &mut sled::Tree, key: &[u8]) -> (removed: Result<
    Option<Vec<u8>>,
    sled::Error,
>)
    ensures
        removed matches Ok(before) ==> {
            &&& entries(*final(tree)) == entries(*old(tree)).remove(key@)
            &&& optional_bytes(before) == lookup(entries(*old(tree)), key@)
        },
{
    tree.remove(key).map(|before| before.map(|bytes| bytes.to_vec()))
}

/// `sled::Tree::scan_prefix`, read to its end: on success, the entries whose
/// key starts with `prefix`, each once.
#[verifier::external_body]
pub(crate) fn table_scan_prefix(tree: &sled::Tree, prefix: &[u8]) -> (found: Result<
    Vec<(Vec<u8>, Vec<u8>)>,
    sled::Error,
>)
    ensures
        found matches Ok(pairs) ==> {
            &&& forall|i: int|
                0 <= i < pairs@.len() ==> {
                    &&& starts_with((#[trigger] pairs@[i]).0@, prefix@)
                    &&& lookup(entries(*tree), pairs@[i].0@) == Some(pairs@[i].1@)
                }
            &&& forall|key: Seq<u8>|
                #[trigger] entries(*tree).contains_key(key) && starts_with(key, prefix@)
                    ==> exists|i: int| 0 <= i < pairs@.len() && pairs@[i].0@ == key
            &&& forall|i: int, j: int|
                0 <= i < j < pairs@.len() ==> (#[trigger] pairs@[i]).0@ != (#[trigger] pairs@[j]).0@
        },
{
    tree.scan_prefix(prefix)
        .map(|item| item.map(|(key, value)| (key.to_vec(), value.to_vec())))
        .collect()
}

} // verus!
