//! The encoding of identifier ids as stored in the identifier index. Nothing
//! in this file is proved: the two functions hand one call each to the CBOR
//! library.

use vstd::prelude::*;

verus! {

/// `serde_cbor::Error`, the CBOR library's failure.
#[verifier::external_type_specification]
#[verifier::external_body]
pub struct ExCborError(serde_cbor::Error);

/// The number that the CBOR library reads from `bytes` when asked for a
/// `u64`, if it reads one.
pub uninterp spec fn cbor_decoding(bytes: Seq<u8>) -> Option<u64>;

/// The byte of `value` that stands `place` bytes above the lowest.
pub open spec fn byte_at(value: u64, place: nat) -> u8 {
    ((value as nat / vstd::arithmetic::power::pow(256, place) as nat) % 256) as u8
}

/// The CBOR encoding of an unsigned number: the shortest of the five forms
/// of major type 0, the bytes of the number with the high byte first.
pub open spec fn cbor_u64(value: u64) -> Seq<u8> {
    if value <= 0x17 {
        seq![value as u8]
    } else if value <= 0xff {
        seq![0x18u8, value as u8]
    } else if value <= 0xffff {
        seq![0x19u8, byte_at(value, 1), byte_at(value, 0)]
    } else if value <= 0xffff_ffff {
        seq![0x1au8, byte_at(value, 3), byte_at(value, 2), byte_at(value, 1), byte_at(value, 0)]
    } else {
        seq![
            0x1bu8,
            byte_at(value, 7),
            byte_at(value, 6),
            byte_at(value, 5),
            byte_at(value, 4),
            byte_at(value, 3),
            byte_at(value, 2),
            byte_at(value, 1),
            byte_at(value, 0),
        ]
    }
}

/// `serde_cbor::to_vec` on a `u64`: the encoding is the shortest form of
/// major type 0, and the library reads the number back from it. Writing into
/// a vector cannot fail, so the call succeeds.
#[verifier::external_body]
pub(crate) fn cbor_from_u64(value: u64) -> (encoded: Result<Vec<u8>, serde_cbor::Error>)
    ensures
        encoded is Ok,
        encoded->Ok_0@ == cbor_u64(value),
        cbor_decoding(encoded->Ok_0@) == Some(value),
{
    serde_cbor::to_vec(&value)
}

/// `serde_cbor::from_slice` asked for a `u64`: what it reads depends on the
/// bytes alone.
#[verifier::external_body]
pub(crate) fn cbor_to_u64(bytes: &[u8]) -> (decoded: Result<u64, serde_cbor::Error>)
    ensures
        match decoded {
            Ok(value) => cbor_decoding(bytes@) == Some(value),
            Err(_) => cbor_decoding(bytes@) is None,
        },
{
    serde_cbor::from_slice::<u64>(bytes)
}

} // verus!
