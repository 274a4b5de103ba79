//! Who may sign for an identifier, and how many of them must.

use crate::prefix::{clone_keys, views, BasicPrefix};
use vstd::prelude::*;

verus! {

/// The current signers of an identifier and the number of signatures that an
/// event needs.
#[derive(Debug, PartialEq, Eq)]
pub struct Signatory {
    pub threshold: usize,
    pub signers: Vec<BasicPrefix>,
}

/// A `Signatory` as plain values.
pub struct SignatoryView {
    pub threshold: usize,
    pub signers: Seq<Seq<u8>>,
}

impl View for Signatory {
    type V = SignatoryView;

    open spec fn view(&self) -> SignatoryView {
        SignatoryView { threshold: self.threshold, signers: views(self.signers@) }
    }
}

impl Default for Signatory {
    fn default() -> (empty: Self)
        ensures
            empty@ == (SignatoryView { threshold: 0, signers: Seq::empty() }),
    {
        let empty = Signatory { threshold: 0, signers: Vec::new() };
        assert(views(empty.signers@) =~= Seq::empty());
        empty
    }
}

impl Clone for Signatory {
    fn clone(&self) -> (copy: Self)
        ensures
            copy@ == self@,
    {
        Signatory { threshold: self.threshold, signers: clone_keys(&self.signers) }
    }
}

} // verus!
