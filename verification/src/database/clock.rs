//! The wall clock. Nothing in this file is proved.

use vstd::prelude::*;

verus! {

/// `chrono::Local::now` and `chrono::DateTime::to_rfc3339`: the local time of
/// the call, written as RFC 3339 text. Nothing is claimed of the result.
#[verifier::external_body]
pub(crate) fn now_rfc3339() -> (stamp: Vec<u8>) {
    chrono::Local::now().to_rfc3339().into_bytes()
}

} // verus!
