//! Identifiers, digests, keys and signatures, each held in its canonical byte
//! form. The core never looks inside them: it compares them and uses them as
//! parts of table keys.

use crate::bytes::{bytes_equal, copy_bytes};
use vstd::prelude::*;
use vstd::std_specs::cmp::PartialEqSpecImpl;
use vstd::string::StringSliceAdditionalSpecFns;

verus! {

/// The stable identity of a controller, in its canonical textual form.
#[derive(Debug)]
pub struct IdentifierPrefix {
    pub text: Vec<u8>,
}

impl View for IdentifierPrefix {
    type V = Seq<u8>;

    open spec fn view(&self) -> Seq<u8> {
        self.text@
    }
}

impl IdentifierPrefix {
    /// The prefix whose canonical form is `text`.
    pub fn new(text: &str) -> (prefix: Self)
        ensures
            prefix@ == text.spec_bytes(),
    {
        IdentifierPrefix { text: copy_bytes(text.as_bytes()) }
    }

    /// The prefix whose canonical form is the given bytes.
    pub fn from_bytes(text: &[u8]) -> (prefix: Self)
        ensures
            prefix@ == text@,
    {
        IdentifierPrefix { text: copy_bytes(text) }
    }

    /// The canonical form.
    pub fn as_bytes(&self) -> (text: &[u8])
        ensures
            text@ == self@,
    {
        self.text.as_slice()
    }
}

impl Clone for IdentifierPrefix {
    fn clone(&self) -> (copy: Self)
        ensures
            copy@ == self@,
    {
        IdentifierPrefix { text: copy_bytes(self.text.as_slice()) }
    }
}

impl PartialEq for IdentifierPrefix {
    fn eq(&self, other: &Self) -> (same: bool) {
        bytes_equal(self.text.as_slice(), other.text.as_slice())
    }
}

impl PartialEqSpecImpl for IdentifierPrefix {
    open spec fn obeys_eq_spec() -> bool {
        true
    }

    open spec fn eq_spec(&self, other: &Self) -> bool {
        self@ == other@
    }
}

impl Eq for IdentifierPrefix {}

/// The digest of an event: the code of the digest algorithm followed by the
/// digest itself, in canonical form.
#[derive(Debug)]
pub struct SelfAddressingPrefix {
    pub digest: Vec<u8>,
}

impl View for SelfAddressingPrefix {
    type V = Seq<u8>;

    open spec fn view(&self) -> Seq<u8> {
        self.digest@
    }
}

impl SelfAddressingPrefix {
    /// The digest whose canonical form is the given bytes.
    pub fn from_bytes(digest: &[u8]) -> (prefix: Self)
        ensures
            prefix@ == digest@,
    {
        SelfAddressingPrefix { digest: copy_bytes(digest) }
    }

    /// The canonical form.
    pub fn as_bytes(&self) -> (digest: &[u8])
        ensures
            digest@ == self@,
    {
        self.digest.as_slice()
    }
}

impl Clone for SelfAddressingPrefix {
    fn clone(&self) -> (copy: Self)
        ensures
            copy@ == self@,
    {
        SelfAddressingPrefix { digest: copy_bytes(self.digest.as_slice()) }
    }
}

impl PartialEq for SelfAddressingPrefix {
    fn eq(&self, other: &Self) -> (same: bool) {
        bytes_equal(self.digest.as_slice(), other.digest.as_slice())
    }
}

impl PartialEqSpecImpl for SelfAddressingPrefix {
    open spec fn obeys_eq_spec() -> bool {
        true
    }

    open spec fn eq_spec(&self, other: &Self) -> bool {
        self@ == other@
    }
}

impl Eq for SelfAddressingPrefix {}

/// A public key in canonical form: the code of the key type followed by the
/// key material.
#[derive(Debug)]
pub struct BasicPrefix {
    pub key: Vec<u8>,
}

impl View for BasicPrefix {
    type V = Seq<u8>;

    open spec fn view(&self) -> Seq<u8> {
        self.key@
    }
}

impl BasicPrefix {
    /// The key whose canonical form is the given bytes.
    pub fn from_bytes(key: &[u8]) -> (prefix: Self)
        ensures
            prefix@ == key@,
    {
        BasicPrefix { key: copy_bytes(key) }
    }

    /// The canonical form.
    pub fn as_bytes(&self) -> (key: &[u8])
        ensures
            key@ == self@,
    {
        self.key.as_slice()
    }
}

impl Clone for BasicPrefix {
    fn clone(&self) -> (copy: Self)
        ensures
            copy@ == self@,
    {
        BasicPrefix { key: copy_bytes(self.key.as_slice()) }
    }
}

impl PartialEq for BasicPrefix {
    fn eq(&self, other: &Self) -> (same: bool) {
        bytes_equal(self.key.as_slice(), other.key.as_slice())
    }
}

impl PartialEqSpecImpl for BasicPrefix {
    open spec fn obeys_eq_spec() -> bool {
        true
    }

    open spec fn eq_spec(&self, other: &Self) -> bool {
        self@ == other@
    }
}

impl Eq for BasicPrefix {}

/// A signature in canonical form: the code of the signature scheme followed
/// by the signature.
#[derive(Debug)]
pub struct SelfSigningPrefix {
    pub signature: Vec<u8>,
}

impl View for SelfSigningPrefix {
    type V = Seq<u8>;

    open spec fn view(&self) -> Seq<u8> {
        self.signature@
    }
}

impl SelfSigningPrefix {
    /// The signature whose canonical form is the given bytes.
    pub fn from_bytes(signature: &[u8]) -> (prefix: Self)
        ensures
            prefix@ == signature@,
    {
        SelfSigningPrefix { signature: copy_bytes(signature) }
    }

    /// The canonical form.
    pub fn as_bytes(&self) -> (signature: &[u8])
        ensures
            signature@ == self@,
    {
        self.signature.as_slice()
    }
}

impl Clone for SelfSigningPrefix {
    fn clone(&self) -> (copy: Self)
        ensures
            copy@ == self@,
    {
        SelfSigningPrefix { signature: copy_bytes(self.signature.as_slice()) }
    }
}

impl PartialEq for SelfSigningPrefix {
    fn eq(&self, other: &Self) -> (same: bool) {
        bytes_equal(self.signature.as_slice(), other.signature.as_slice())
    }
}

impl PartialEqSpecImpl for SelfSigningPrefix {
    open spec fn obeys_eq_spec() -> bool {
        true
    }

    open spec fn eq_spec(&self, other: &Self) -> bool {
        self@ == other@
    }
}

impl Eq for SelfSigningPrefix {}

/// A signature attached to an event, with the position of its signer in the
/// list of current signers.
#[derive(Debug)]
pub struct AttachedSignaturePrefix {
    pub index: u16,
    pub signature: SelfSigningPrefix,
}

impl View for AttachedSignaturePrefix {
    type V = (u16, Seq<u8>);

    open spec fn view(&self) -> (u16, Seq<u8>) {
        (self.index, self.signature@)
    }
}

impl AttachedSignaturePrefix {
    /// The signature of the signer at position `index`.
    pub fn new(index: u16, signature: &[u8]) -> (attached: Self)
        ensures
            attached@ == (index, signature@),
    {
        AttachedSignaturePrefix { index, signature: SelfSigningPrefix::from_bytes(signature) }
    }
}

impl Clone for AttachedSignaturePrefix {
    fn clone(&self) -> (copy: Self)
        ensures
            copy@ == self@,
    {
        AttachedSignaturePrefix { index: self.index, signature: self.signature.clone() }
    }
}

impl PartialEq for AttachedSignaturePrefix {
    fn eq(&self, other: &Self) -> (same: bool) {
        self.index == other.index && bytes_equal(
            self.signature.as_bytes(),
            other.signature.as_bytes(),
        )
    }
}

impl PartialEqSpecImpl for AttachedSignaturePrefix {
    open spec fn obeys_eq_spec() -> bool {
        true
    }

    open spec fn eq_spec(&self, other: &Self) -> bool {
        self@ == other@
    }
}

impl Eq for AttachedSignaturePrefix {}

/// The canonical forms of a list of values.
pub open spec fn views<T: View>(items: Seq<T>) -> Seq<T::V> {
    items.map_values(|item: T| item@)
}

/// A fresh copy of a list of keys.
pub fn clone_keys(keys: &Vec<BasicPrefix>) -> (copy: Vec<BasicPrefix>)
    ensures
        views(copy@) == views(keys@),
{
    let mut out: Vec<BasicPrefix> = Vec::new();
    let mut i: usize = 0;
    while i < keys.len()
        invariant
            i <= keys@.len(),
            out@.len() == i,
            forall|j: int| 0 <= j < i ==> out@[j]@ == keys@[j]@,
        decreases keys@.len() - i,
    {
        out.push(keys[i].clone());
        i += 1;
    }
    assert(views(out@) =~= views(keys@));
    out
}

/// Whether `key` occurs in `keys`.
pub fn contains_key(keys: &Vec<BasicPrefix>, key: &BasicPrefix) -> (found: bool)
    ensures
        found == views(keys@).contains(key@),
{
    let mut i: usize = 0;
    while i < keys.len()
        invariant
            i <= keys@.len(),
            forall|j: int| 0 <= j < i ==> keys@[j]@ != key@,
        decreases keys@.len() - i,
    {
        if bytes_equal(keys[i].as_bytes(), key.as_bytes()) {
            assert(views(keys@)[i as int] == key@);
            return true;
        }
        i += 1;
    }
    false
}

} // verus!
