//! Lists of attached signatures: how they are stored, how newly presented
//! ones are added behind the stored ones, and how many signers they cover.

use crate::codec::{
    decode_frames, decode_signature, encodable, encode_frames, encode_signature, frames,
    lemma_parse_frames_of_frames, lemma_parse_signature_record, parse_frames,
    parse_signature_record, signature_record,
};
use crate::prefix::{views, AttachedSignaturePrefix};
use vstd::prelude::*;

verus! {

/// A signature as plain values: the signer's position and the signature.
pub type Signature = (u16, Seq<u8>);

/// Whether the list holds a signature of the signer at `index`.
pub open spec fn has_signer(list: Seq<Signature>, index: int) -> bool {
    exists|i: int| 0 <= i < list.len() && (#[trigger] list[i]).0 == index
}

/// The number of signers, among the first `signers`, of whom the list holds a
/// signature.
pub open spec fn signers_covered(list: Seq<Signature>, signers: nat) -> nat
    decreases signers,
{
    if signers == 0 {
        0
    } else {
        signers_covered(list, (signers - 1) as nat) + if has_signer(list, signers - 1) {
            1nat
        } else {
            0nat
        }
    }
}

/// Whether the list meets a threshold over `signers` signers.
pub open spec fn threshold_met(list: Seq<Signature>, signers: nat, threshold: nat) -> bool {
    signers_covered(list, signers) >= threshold
}

/// The records of a list of signatures.
pub open spec fn signature_records(list: Seq<Signature>) -> Seq<Seq<u8>> {
    list.map_values(|attached: Signature| signature_record(attached))
}

/// The stored form of a list of signatures.
pub open spec fn signature_frames(list: Seq<Signature>) -> Seq<u8> {
    frames(signature_records(list))
}

/// The list of signatures that `bytes` stores, if it stores one.
pub open spec fn parse_signatures(bytes: Seq<u8>) -> Option<Seq<Signature>> {
    match parse_frames(bytes) {
        Some(records) => if forall|i: int|
            0 <= i < records.len() ==> parse_signature_record(#[trigger] records[i]) is Some {
            Some(records.map_values(|record: Seq<u8>| parse_signature_record(record)->0))
        } else {
            None
        },
        None => None,
    }
}

/// Reading a stored list back gives the list that was written, as long as
/// the length of every record fits in eight bytes.
pub proof fn lemma_parse_signatures_of_frames(list: Seq<Signature>)
    requires
        encodable(signature_records(list)),
    ensures
        parse_signatures(signature_frames(list)) == Some(list),
{
    let records = signature_records(list);
    lemma_parse_frames_of_frames(records);
    assert forall|i: int| 0 <= i < records.len() implies parse_signature_record(
        #[trigger] records[i],
    ) == Some(list[i]) by {
        lemma_parse_signature_record(list[i]);
    }
    assert(records.map_values(|record: Seq<u8>| parse_signature_record(record)->0) =~= list);
}

/// A signer is covered by a list with more signatures added behind it if the
/// list covered it or the added signatures do.
pub proof fn lemma_appended_has_signer(
    stored: Seq<Signature>,
    presented: Seq<Signature>,
    index: int,
)
    ensures
        has_signer(stored + presented, index) <==> has_signer(stored, index) || has_signer(
            presented,
            index,
        ),
{
    let all = stored + presented;
    if has_signer(stored, index) {
        let i = choose|i: int| 0 <= i < stored.len() && (#[trigger] stored[i]).0 == index;
        assert(all[i].0 == index);
    }
    if has_signer(presented, index) {
        let i = choose|i: int| 0 <= i < presented.len() && (#[trigger] presented[i]).0 == index;
        assert(all[stored.len() + i].0 == index);
    }
    if has_signer(all, index) {
        let i = choose|i: int| 0 <= i < all.len() && (#[trigger] all[i]).0 == index;
        if i < stored.len() {
            assert(stored[i].0 == index);
        } else {
            assert(presented[i - stored.len()].0 == index);
        }
    }
}

/// Adding signatures never lowers the number of covered signers.
pub proof fn lemma_appended_covers_more(
    stored: Seq<Signature>,
    presented: Seq<Signature>,
    signers: nat,
)
    ensures
        signers_covered(stored + presented, signers) >= signers_covered(stored, signers),
    decreases signers,
{
    if signers > 0 {
        lemma_appended_covers_more(stored, presented, (signers - 1) as nat);
        lemma_appended_has_signer(stored, presented, signers - 1);
    }
}

/// Adding signatures of signers that are covered already leaves the number
/// of covered signers as it was: a signer counts once, however many
/// signatures of it are stored.
pub proof fn lemma_appended_again_covers_same(
    stored: Seq<Signature>,
    presented: Seq<Signature>,
    signers: nat,
)
    requires
        forall|i: int|
            0 <= i < presented.len() ==> has_signer(stored, (#[trigger] presented[i]).0 as int),
    ensures
        signers_covered(stored + presented, signers) == signers_covered(stored, signers),
    decreases signers,
{
    if signers > 0 {
        lemma_appended_again_covers_same(stored, presented, (signers - 1) as nat);
        lemma_appended_has_signer(stored, presented, signers - 1);
        if has_signer(presented, signers - 1) {
            let i = choose|i: int|
                0 <= i < presented.len() && (#[trigger] presented[i]).0 == signers - 1;
            assert(has_signer(stored, presented[i].0 as int));
        }
    }
}

/// Whether the list holds a signature of the signer at `index`.
pub fn holds_signer(list: &Vec<AttachedSignaturePrefix>, index: u16) -> (found: bool)
    ensures
        found == has_signer(views(list@), index as int),
{
    let mut i: usize = 0;
    while i < list.len()
        invariant
            i <= list@.len(),
            forall|j: int| 0 <= j < i ==> (#[trigger] views(list@)[j]).0 != index,
        decreases list@.len() - i,
    {
        if list[i].index == index {
            assert(views(list@)[i as int].0 == index);
            return true;
        }
        i += 1;
    }
    false
}

/// Adds every presented signature, in order, behind a stored list.
pub fn append_signatures(
    stored: Vec<AttachedSignaturePrefix>,
    presented: &[AttachedSignaturePrefix],
) -> (all: Vec<AttachedSignaturePrefix>)
    ensures
        views(all@) == views(stored@) + views(presented@),
{
    let mut out = stored;
    let mut i: usize = 0;
    assert(views(out@) =~= views(stored@) + views(presented@).subrange(0, 0));
    while i < presented.len()
        invariant
            i <= presented@.len(),
            views(out@) == views(stored@) + views(presented@).subrange(0, i as int),
        decreases presented@.len() - i,
    {
        let ghost before = out@;
        out.push(presented[i].clone());
        i += 1;
        assert(views(out@) =~= views(before).push(presented@[i - 1]@));
        assert(views(out@) =~= views(stored@) + views(presented@).subrange(0, i as int));
    }
    assert(views(presented@).subrange(0, i as int) =~= views(presented@));
    out
}

/// The number of signers, among the first `signers`, of whom the list holds a
/// signature.
pub fn count_signers(list: &Vec<AttachedSignaturePrefix>, signers: usize) -> (covered: usize)
    ensures
        covered == signers_covered(views(list@), signers as nat),
{
    let mut covered: usize = 0;
    let mut index: usize = 0;
    while index < signers
        invariant
            index <= signers,
            covered <= index,
            covered == signers_covered(views(list@), index as nat),
        decreases signers - index,
    {
        if index <= u16::MAX as usize {
            if holds_signer(list, index as u16) {
                covered += 1;
            }
        } else {
            assert(!has_signer(views(list@), index as int));
        }
        index += 1;
    }
    covered
}

/// Writes a list of signatures in its stored form. Reading it back gives
/// the list.
pub fn encode_signatures(list: &Vec<AttachedSignaturePrefix>) -> (bytes: Vec<u8>)
    ensures
        bytes@ == signature_frames(views(list@)),
        parse_signatures(bytes@) == Some(views(list@)),
{
    let mut records: Vec<Vec<u8>> = Vec::new();
    let mut i: usize = 0;
    while i < list.len()
        invariant
            i <= list@.len(),
            records@.len() == i,
            forall|j: int| 0 <= j < i ==> (#[trigger] records@[j])@ == signature_record(list@[j]@),
        decreases list@.len() - i,
    {
        records.push(encode_signature(&list[i]));
        i += 1;
    }
    assert(views(records@) =~= signature_records(views(list@)));
    proof {
        assert forall|j: int| 0 <= j < records@.len() implies (#[trigger] views(records@)[j]).len()
            <= u64::MAX by {
            assert(views(records@)[j] == records@[j]@);
            assert(records@[j]@.len() == records@[j].len());
        }
        lemma_parse_signatures_of_frames(views(list@));
    }
    encode_frames(&records)
}

/// Reads a list of signatures from its stored form.
pub fn decode_signatures(bytes: &[u8]) -> (list: Option<Vec<AttachedSignaturePrefix>>)
    ensures
        match list {
            Some(signatures) => parse_signatures(bytes@) == Some(views(signatures@)),
            None => parse_signatures(bytes@) is None,
        },
{
    let records = match decode_frames(bytes) {
        Some(records) => records,
        None => return None,
    };
    let mut out: Vec<AttachedSignaturePrefix> = Vec::new();
    let mut i: usize = 0;
    while i < records.len()
        invariant
            i <= records@.len(),
            out@.len() == i,
            parse_frames(bytes@) == Some(views(records@)),
            forall|j: int|
                0 <= j < i ==> parse_signature_record(#[trigger] views(records@)[j]) == Some(
                    out@[j]@,
                ),
        decreases records@.len() - i,
    {
        match decode_signature(records[i].as_slice()) {
            Some(signature) => {
                out.push(signature);
            },
            None => {
                assert(parse_signature_record(views(records@)[i as int]) is None);
                return None;
            },
        }
        i += 1;
    }
    assert(views(out@) =~= views(records@).map_values(
        |record: Seq<u8>| parse_signature_record(record)->0,
    ));
    Some(out)
}

} // verus!
