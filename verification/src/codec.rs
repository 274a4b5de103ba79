//! The encoding of stored values that hold more than one byte string: each
//! string is written behind its length, eight bytes with the low byte first,
//! and the strings follow one another. A signature is written as the position
//! of its signer, two bytes with the low byte first, and the signature.

use crate::bytes::{append_bytes, copy_bytes};
use crate::prefix::{views, AttachedSignaturePrefix};
use vstd::bytes::{
    lemma_auto_spec_u16_to_from_le_bytes, lemma_auto_spec_u64_to_from_le_bytes,
    spec_u16_from_le_bytes, spec_u16_to_le_bytes, spec_u64_from_le_bytes, spec_u64_to_le_bytes,
    u16_from_le_bytes, u16_to_le_bytes, u64_from_le_bytes, u64_to_le_bytes,
};
use vstd::prelude::*;
use vstd::slice::slice_subrange;

verus! {

/// One byte string behind its length.
pub open spec fn frame(item: Seq<u8>) -> Seq<u8> {
    spec_u64_to_le_bytes(item.len() as u64) + item
}

/// The encoding of a list of byte strings.
pub open spec fn frames(items: Seq<Seq<u8>>) -> Seq<u8>
    decreases items.len(),
{
    if items.len() == 0 {
        Seq::empty()
    } else {
        frame(items[0]) + frames(items.drop_first())
    }
}

/// The list that `bytes` encodes, if it encodes one: no length may reach past
/// the end, and nothing may be left over.
pub open spec fn parse_frames(bytes: Seq<u8>) -> Option<Seq<Seq<u8>>>
    decreases bytes.len(),
{
    if bytes.len() == 0 {
        Some(Seq::empty())
    } else if bytes.len() < 8 {
        None
    } else {
        let n = spec_u64_from_le_bytes(bytes.subrange(0, 8)) as int;
        if n > bytes.len() - 8 {
            None
        } else {
            match parse_frames(bytes.subrange(8 + n, bytes.len() as int)) {
                Some(rest) => Some(seq![bytes.subrange(8, 8 + n)] + rest),
                None => None,
            }
        }
    }
}

/// Whether every string of the list has a length that eight bytes can hold.
pub open spec fn encodable(items: Seq<Seq<u8>>) -> bool {
    forall|i: int| 0 <= i < items.len() ==> (#[trigger] items[i]).len() <= u64::MAX
}

/// Adding a string at the end of a list adds its frame at the end of the
/// encoding.
pub proof fn lemma_frames_push(items: Seq<Seq<u8>>, item: Seq<u8>)
    ensures
        frames(items.push(item)) == frames(items) + frame(item),
    decreases items.len(),
{
    if items.len() == 0 {
        reveal_with_fuel(frames, 2);
        assert(items.push(item).drop_first() =~= Seq::<Seq<u8>>::empty());
        assert(items.push(item)[0] == item);
        assert(frames(items.push(item)) =~= frame(item) + Seq::<u8>::empty());
        assert(frames(items) + frame(item) =~= frame(item));
        assert(frame(item) + Seq::<u8>::empty() =~= frame(item));
    } else {
        lemma_frames_push(items.drop_first(), item);
        assert(items.push(item).drop_first() =~= items.drop_first().push(item));
        assert(items.push(item)[0] == items[0]);
        assert(frame(items[0]) + (frames(items.drop_first()) + frame(item)) =~= (frame(items[0])
            + frames(items.drop_first())) + frame(item));
    }
}

/// Decoding undoes encoding.
pub proof fn lemma_parse_frames_of_frames(items: Seq<Seq<u8>>)
    requires
        encodable(items),
    ensures
        parse_frames(frames(items)) == Some(items),
    decreases items.len(),
{
    if items.len() == 0 {
    } else {
        lemma_auto_spec_u64_to_from_le_bytes();
        let first = items[0];
        let rest = items.drop_first();
        let bytes = frames(items);
        let n = first.len() as int;
        assert(encodable(rest)) by {
            assert forall|i: int| 0 <= i < rest.len() implies (#[trigger] rest[i]).len()
                <= u64::MAX by {
                assert(rest[i] == items[i + 1]);
            }
        }
        lemma_parse_frames_of_frames(rest);
        assert(bytes.subrange(0, 8) =~= spec_u64_to_le_bytes(first.len() as u64));
        assert(spec_u64_from_le_bytes(bytes.subrange(0, 8)) as int == n);
        assert(bytes.subrange(8, 8 + n) =~= first);
        assert(bytes.subrange(8 + n, bytes.len() as int) =~= frames(rest));
        assert(seq![first] + rest =~= items);
    }
}

/// Encoding undoes decoding: a byte string encodes at most one list, and is
/// the encoding of the list that it decodes to.
pub proof fn lemma_frames_of_parse_frames(bytes: Seq<u8>)
    requires
        parse_frames(bytes) is Some,
    ensures
        frames(parse_frames(bytes)->0) == bytes,
        encodable(parse_frames(bytes)->0),
    decreases bytes.len(),
{
    if bytes.len() == 0 {
        assert(frames(Seq::<Seq<u8>>::empty()) =~= bytes);
    } else {
        lemma_auto_spec_u64_to_from_le_bytes();
        let n = spec_u64_from_le_bytes(bytes.subrange(0, 8)) as int;
        let tail = bytes.subrange(8 + n, bytes.len() as int);
        let first = bytes.subrange(8, 8 + n);
        let rest = parse_frames(tail)->0;
        lemma_frames_of_parse_frames(tail);
        let items = seq![first] + rest;
        assert(items.drop_first() =~= rest);
        assert(items[0] == first);
        assert(spec_u64_to_le_bytes(first.len() as u64) == bytes.subrange(0, 8));
        assert(frames(items) =~= bytes);
        assert forall|i: int| 0 <= i < items.len() implies (#[trigger] items[i]).len()
            <= u64::MAX by {
            if i > 0 {
                assert(items[i] == rest[i - 1]);
            }
        }
    }
}

/// Encodes a list of byte strings.
pub fn encode_frames(items: &Vec<Vec<u8>>) -> (bytes: Vec<u8>)
    ensures
        bytes@ == frames(views(items@)),
{
    let mut out: Vec<u8> = Vec::new();
    let mut i: usize = 0;
    assert(views(items@).subrange(0, 0) =~= Seq::<Seq<u8>>::empty());
    while i < items.len()
        invariant
            i <= items@.len(),
            out@ == frames(views(items@).subrange(0, i as int)),
        decreases items@.len() - i,
    {
        let length = u64_to_le_bytes(items[i].len() as u64);
        proof {
            let done = views(items@).subrange(0, i as int);
            lemma_frames_push(done, items@[i as int]@);
            assert(done.push(items@[i as int]@) =~= views(items@).subrange(0, i + 1));
        }
        append_bytes(&mut out, length.as_slice());
        append_bytes(&mut out, items[i].as_slice());
        assert(out@ =~= frames(views(items@).subrange(0, i as int)) + frame(items@[i as int]@));
        i += 1;
    }
    assert(views(items@).subrange(0, i as int) =~= views(items@));
    out
}

/// Decodes a list of byte strings, if `bytes` encodes one.
pub fn decode_frames(bytes: &[u8]) -> (items: Option<Vec<Vec<u8>>>)
    ensures
        match items {
            Some(list) => parse_frames(bytes@) == Some(views(list@)),
            None => parse_frames(bytes@) is None,
        },
{
    let mut out: Vec<Vec<u8>> = Vec::new();
    let mut at: usize = 0;
    assert(bytes@.subrange(0, bytes@.len() as int) =~= bytes@);
    assert(views(out@) =~= Seq::<Seq<u8>>::empty());
    while at < bytes.len()
        invariant
            at <= bytes@.len(),
            parse_frames(bytes@) == match parse_frames(
                bytes@.subrange(at as int, bytes@.len() as int),
            ) {
                Some(rest) => Some(views(out@) + rest),
                None => None,
            },
        decreases bytes@.len() - at,
    {
        let ghost left = bytes@.subrange(at as int, bytes@.len() as int);
        if bytes.len() - at < 8 {
            return None;
        }
        let length = u64_from_le_bytes(slice_subrange(bytes, at, at + 8));
        assert(bytes@.subrange(at as int, at + 8) =~= left.subrange(0, 8));
        if length > (bytes.len() - at - 8) as u64 {
            return None;
        }
        let from = at + 8;
        let to = from + length as usize;
        let item = copy_bytes(slice_subrange(bytes, from, to));
        proof {
            let n = length as int;
            assert(item@ =~= left.subrange(8, 8 + n));
            assert(bytes@.subrange(to as int, bytes@.len() as int) =~= left.subrange(
                8 + n,
                left.len() as int,
            ));
            let tail = parse_frames(bytes@.subrange(to as int, bytes@.len() as int));
            if tail is Some {
                assert(views(out@.push(item)) + tail->0 =~= views(out@) + (seq![item@] + tail->0));
            }
        }
        out.push(item);
        at = to;
    }
    assert(bytes@.subrange(at as int, bytes@.len() as int) =~= Seq::<u8>::empty());
    assert(views(out@) + Seq::<Seq<u8>>::empty() =~= views(out@));
    Some(out)
}

/// A signature as it is stored: the signer's position, then the signature.
pub open spec fn signature_record(attached: (u16, Seq<u8>)) -> Seq<u8> {
    spec_u16_to_le_bytes(attached.0) + attached.1
}

/// The signature that a stored record holds, if it is long enough to hold a
/// position.
pub open spec fn parse_signature_record(bytes: Seq<u8>) -> Option<(u16, Seq<u8>)> {
    if bytes.len() < 2 {
        None
    } else {
        Some((spec_u16_from_le_bytes(bytes.subrange(0, 2)), bytes.subrange(2, bytes.len() as int)))
    }
}

/// Reading a record back gives the signature that was written.
pub proof fn lemma_parse_signature_record(attached: (u16, Seq<u8>))
    ensures
        parse_signature_record(signature_record(attached)) == Some(attached),
{
    lemma_auto_spec_u16_to_from_le_bytes();
    let bytes = signature_record(attached);
    assert(bytes.subrange(0, 2) =~= spec_u16_to_le_bytes(attached.0));
    assert(bytes.subrange(2, bytes.len() as int) =~= attached.1);
}

/// Writes a signature as a record.
pub fn encode_signature(attached: &AttachedSignaturePrefix) -> (bytes: Vec<u8>)
    ensures
        bytes@ == signature_record(attached@),
{
    let mut out = u16_to_le_bytes(attached.index);
    append_bytes(&mut out, attached.signature.as_bytes());
    out
}

/// Reads a signature from a record.
pub fn decode_signature(bytes: &[u8]) -> (attached: Option<AttachedSignaturePrefix>)
    ensures
        match attached {
            Some(signature) => parse_signature_record(bytes@) == Some(signature@),
            None => parse_signature_record(bytes@) is None,
        },
{
    if bytes.len() < 2 {
        return None;
    }
    let index = u16_from_le_bytes(slice_subrange(bytes, 0, 2));
    Some(AttachedSignaturePrefix::new(index, slice_subrange(bytes, 2, bytes.len())))
}

} // verus!
