//! The keys of the tables. Every key starts with the numeric id of the
//! identifier, eight bytes with the low byte first. Tables that hold one
//! value per event position add the sequence number in the same form; tables
//! that hold one value per digest or per signer add the digest or the signer
//! behind that.

use crate::bytes::{append_bytes, starts_with};
use vstd::bytes::{lemma_auto_spec_u64_to_from_le_bytes, spec_u64_to_le_bytes, u64_to_le_bytes};
use vstd::prelude::*;

verus! {

/// The key of the canonical event of identifier `id` at sequence number `sn`,
/// and the start of every key that belongs to that position.
pub open spec fn sn_key(id: u64, sn: u64) -> Seq<u8> {
    spec_u64_to_le_bytes(id) + spec_u64_to_le_bytes(sn)
}

/// The key of what is stored of identifier `id` under the digest `digest`.
pub open spec fn digest_key(id: u64, digest: Seq<u8>) -> Seq<u8> {
    spec_u64_to_le_bytes(id) + digest
}

/// The key of what is stored of identifier `id` at sequence number `sn` under
/// `tail`, a digest or a signer.
pub open spec fn entry_key(id: u64, sn: u64, tail: Seq<u8>) -> Seq<u8> {
    sn_key(id, sn) + tail
}

/// Keys of positions differ where the positions differ.
pub proof fn lemma_sn_key_injective(id1: u64, sn1: u64, id2: u64, sn2: u64)
    requires
        sn_key(id1, sn1) == sn_key(id2, sn2),
    ensures
        id1 == id2,
        sn1 == sn2,
{
    lemma_auto_spec_u64_to_from_le_bytes();
    let k1 = sn_key(id1, sn1);
    let k2 = sn_key(id2, sn2);
    assert(k1.subrange(0, 8) =~= spec_u64_to_le_bytes(id1));
    assert(k2.subrange(0, 8) =~= spec_u64_to_le_bytes(id2));
    assert(k1.subrange(8, 16) =~= spec_u64_to_le_bytes(sn1));
    assert(k2.subrange(8, 16) =~= spec_u64_to_le_bytes(sn2));
}

/// Keys under digests differ where the identifiers or the digests differ.
pub proof fn lemma_digest_key_injective(id1: u64, digest1: Seq<u8>, id2: u64, digest2: Seq<u8>)
    requires
        digest_key(id1, digest1) == digest_key(id2, digest2),
    ensures
        id1 == id2,
        digest1 == digest2,
{
    lemma_auto_spec_u64_to_from_le_bytes();
    let k1 = digest_key(id1, digest1);
    let k2 = digest_key(id2, digest2);
    assert(k1.subrange(0, 8) =~= spec_u64_to_le_bytes(id1));
    assert(k2.subrange(0, 8) =~= spec_u64_to_le_bytes(id2));
    assert(k1.subrange(8, k1.len() as int) =~= digest1);
    assert(k2.subrange(8, k2.len() as int) =~= digest2);
}

/// Keys of entries differ where the positions or the tails differ.
pub proof fn lemma_entry_key_injective(
    id1: u64,
    sn1: u64,
    tail1: Seq<u8>,
    id2: u64,
    sn2: u64,
    tail2: Seq<u8>,
)
    requires
        entry_key(id1, sn1, tail1) == entry_key(id2, sn2, tail2),
    ensures
        id1 == id2,
        sn1 == sn2,
        tail1 == tail2,
{
    lemma_auto_spec_u64_to_from_le_bytes();
    let k1 = entry_key(id1, sn1, tail1);
    let k2 = entry_key(id2, sn2, tail2);
    assert(k1.subrange(0, 16) =~= sn_key(id1, sn1));
    assert(k2.subrange(0, 16) =~= sn_key(id2, sn2));
    lemma_sn_key_injective(id1, sn1, id2, sn2);
    assert(k1.subrange(16, k1.len() as int) =~= tail1);
    assert(k2.subrange(16, k2.len() as int) =~= tail2);
}

/// The key of an entry starts with the key of its position, and what follows
/// is the tail.
pub proof fn lemma_entry_key_parts(id: u64, sn: u64, tail: Seq<u8>)
    ensures
        sn_key(id, sn).len() == 16,
        starts_with(entry_key(id, sn, tail), sn_key(id, sn)),
        entry_key(id, sn, tail).subrange(16, entry_key(id, sn, tail).len() as int) == tail,
{
    lemma_auto_spec_u64_to_from_le_bytes();
    let key = entry_key(id, sn, tail);
    assert(key.subrange(0, 16) =~= sn_key(id, sn));
    assert(key.subrange(16, key.len() as int) =~= tail);
}

/// A key that starts with the key of a position is the key of an entry
/// there.
pub proof fn lemma_key_at_position(id: u64, sn: u64, key: Seq<u8>)
    requires
        starts_with(key, sn_key(id, sn)),
    ensures
        key == entry_key(id, sn, key.subrange(16, key.len() as int)),
{
    lemma_auto_spec_u64_to_from_le_bytes();
    assert(key =~= key.subrange(0, 16) + key.subrange(16, key.len() as int));
}

/// Builds `sn_key`.
pub fn make_sn_key(id: u64, sn: u64) -> (key: Vec<u8>)
    ensures
        key@ == sn_key(id, sn),
{
    let mut key = u64_to_le_bytes(id);
    let tail = u64_to_le_bytes(sn);
    append_bytes(&mut key, tail.as_slice());
    key
}

/// Builds `digest_key`.
pub fn make_digest_key(id: u64, digest: &[u8]) -> (key: Vec<u8>)
    ensures
        key@ == digest_key(id, digest@),
{
    let mut key = u64_to_le_bytes(id);
    append_bytes(&mut key, digest);
    key
}

/// Builds `entry_key`.
pub fn make_entry_key(id: u64, sn: u64, tail: &[u8]) -> (key: Vec<u8>)
    ensures
        key@ == entry_key(id, sn, tail@),
{
    let mut key = make_sn_key(id, sn);
    append_bytes(&mut key, tail);
    key
}

} // verus!
