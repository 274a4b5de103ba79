use keri::bytes::{append_bytes, bytes_equal, copy_bytes};
use keri::codec::{
    decode_frames, decode_signature, encode_frames, encode_signature,
};
use keri::database::keys::{make_digest_key, make_entry_key, make_sn_key};
use keri::prefix::{
    clone_keys, AttachedSignaturePrefix, BasicPrefix, IdentifierPrefix, SelfAddressingPrefix,
    SelfSigningPrefix,
};
use keri::signatures::{
    append_signatures, count_signers, decode_signatures, encode_signatures, holds_signer,
};

#[test]
fn bytes_compare_and_copy() {
    assert!(bytes_equal(&[1, 2, 3], &[1, 2, 3]));
    assert!(!bytes_equal(&[1, 2, 3], &[1, 2, 4]));
    assert!(!bytes_equal(&[1, 2, 3], &[1, 2]));
    assert!(bytes_equal(&[], &[]));
    assert_eq!(copy_bytes(&[9, 8, 7]), vec![9, 8, 7]);
    let mut buffer = vec![1u8, 2];
    append_bytes(&mut buffer, &[3, 4, 5]);
    assert_eq!(buffer, vec![1, 2, 3, 4, 5]);
}

#[test]
fn frames_are_length_prefixed() {
    let items = vec![vec![0xaau8, 0xbb], vec![], vec![0x01]];
    let bytes = encode_frames(&items);
    assert_eq!(
        bytes,
        vec![
            2, 0, 0, 0, 0, 0, 0, 0, 0xaa, 0xbb, 0, 0, 0, 0, 0, 0, 0, 0, 1, 0, 0, 0, 0, 0, 0, 0,
            0x01
        ]
    );
    assert_eq!(decode_frames(&bytes), Some(items));
}

#[test]
fn empty_list_is_empty_bytes() {
    let items: Vec<Vec<u8>> = Vec::new();
    assert_eq!(encode_frames(&items), Vec::<u8>::new());
    assert_eq!(decode_frames(&[]), Some(Vec::new()));
}

#[test]
fn truncated_frames_are_refused() {
    assert_eq!(decode_frames(&[1, 0, 0]), None);
    assert_eq!(decode_frames(&[2, 0, 0, 0, 0, 0, 0, 0, 0xaa]), None);
    assert_eq!(decode_frames(&[0, 0, 0, 0, 0, 0, 0, 0, 7]), None);
    assert_eq!(
        decode_frames(&[0xff, 0xff, 0xff, 0xff, 0xff, 0xff, 0xff, 0xff, 1]),
        None
    );
}

#[test]
fn signature_record_holds_index_then_signature() {
    let attached = AttachedSignaturePrefix::new(0x0102, &[7, 7, 7]);
    let bytes = encode_signature(&attached);
    assert_eq!(bytes, vec![0x02, 0x01, 7, 7, 7]);
    assert_eq!(decode_signature(&bytes), Some(attached));
    assert_eq!(decode_signature(&[5]), None);
    assert_eq!(
        decode_signature(&[5, 0]),
        Some(AttachedSignaturePrefix::new(5, &[]))
    );
}

#[test]
fn signature_list_round_trip() {
    let list = vec![
        AttachedSignaturePrefix::new(0, b"sig-a"),
        AttachedSignaturePrefix::new(2, b"sig-c"),
    ];
    let bytes = encode_signatures(&list);
    assert_eq!(
        bytes,
        vec![
            7, 0, 0, 0, 0, 0, 0, 0, 0, 0, b's', b'i', b'g', b'-', b'a', 7, 0, 0, 0, 0, 0, 0, 0,
            2, 0, b's', b'i', b'g', b'-', b'c'
        ]
    );
    assert_eq!(decode_signatures(&bytes), Some(list));
    // a record too short to hold a signer's position
    assert_eq!(decode_signatures(&[1, 0, 0, 0, 0, 0, 0, 0, 9]), None);
}

#[test]
fn every_presented_signature_is_kept_in_order() {
    let stored = vec![AttachedSignaturePrefix::new(0, b"a")];
    let presented = vec![
        AttachedSignaturePrefix::new(1, b"b"),
        AttachedSignaturePrefix::new(0, b"other"),
        AttachedSignaturePrefix::new(1, b"again"),
    ];
    let all = append_signatures(stored, &presented);
    assert_eq!(
        all,
        vec![
            AttachedSignaturePrefix::new(0, b"a"),
            AttachedSignaturePrefix::new(1, b"b"),
            AttachedSignaturePrefix::new(0, b"other"),
            AttachedSignaturePrefix::new(1, b"again"),
        ]
    );
    // two signers are covered, however many signatures each has
    assert_eq!(count_signers(&all, 3), 2);
    let nothing: Vec<AttachedSignaturePrefix> = Vec::new();
    assert_eq!(append_signatures(nothing.clone(), &presented), presented);
    assert_eq!(append_signatures(all.clone(), &nothing), all);
}

#[test]
fn signers_are_counted_once_and_only_if_known() {
    let list = vec![
        AttachedSignaturePrefix::new(0, b"a"),
        AttachedSignaturePrefix::new(0, b"a2"),
        AttachedSignaturePrefix::new(2, b"c"),
        AttachedSignaturePrefix::new(7, b"stranger"),
    ];
    assert!(holds_signer(&list, 2));
    assert!(!holds_signer(&list, 1));
    assert_eq!(count_signers(&list, 3), 2);
    assert_eq!(count_signers(&list, 0), 0);
    assert_eq!(count_signers(&list, 8), 3);
    assert_eq!(count_signers(&Vec::new(), 3), 0);
}

#[test]
fn keys_start_with_id_then_sn() {
    assert_eq!(
        make_sn_key(1, 0x0203),
        vec![1, 0, 0, 0, 0, 0, 0, 0, 3, 2, 0, 0, 0, 0, 0, 0]
    );
    assert_eq!(
        make_digest_key(0x0100, b"dg"),
        vec![0, 1, 0, 0, 0, 0, 0, 0, b'd', b'g']
    );
    assert_eq!(
        make_entry_key(5, 6, b"x"),
        vec![5, 0, 0, 0, 0, 0, 0, 0, 6, 0, 0, 0, 0, 0, 0, 0, b'x']
    );
}

#[test]
fn prefixes_are_their_canonical_bytes() {
    let alice = IdentifierPrefix::new("EAlice");
    assert_eq!(alice.as_bytes(), b"EAlice");
    assert_eq!(alice, IdentifierPrefix::from_bytes(b"EAlice"));
    assert_ne!(alice, IdentifierPrefix::new("EAlicf"));
    assert_eq!(alice.clone(), alice);
    // a two-byte character
    let accented = IdentifierPrefix::new("\u{e9}");
    assert_eq!(accented.as_bytes(), &[0xc3, 0xa9]);
    let digest = SelfAddressingPrefix::from_bytes(&[1, 2]);
    assert_eq!(digest.as_bytes(), &[1, 2]);
    assert_eq!(digest.clone(), digest);
    let key = BasicPrefix::from_bytes(&[3]);
    assert_eq!(key.as_bytes(), &[3]);
    assert_ne!(key, BasicPrefix::from_bytes(&[3, 0]));
    let signature = SelfSigningPrefix::from_bytes(&[4, 5]);
    assert_eq!(signature.as_bytes(), &[4, 5]);
    let attached = AttachedSignaturePrefix::new(2, &[4, 5]);
    assert_eq!(attached.index, 2);
    assert_eq!(attached.signature, signature);
    assert_eq!(attached.clone(), attached);
    assert_ne!(attached, AttachedSignaturePrefix::new(3, &[4, 5]));
    let keys = vec![key.clone(), BasicPrefix::from_bytes(&[9])];
    assert_eq!(clone_keys(&keys), keys);
}
