//! The receipt ledger: receipts are accepted from signers that may give
//! them, kept with the event if it is finalised and set aside if it is not,
//! and counted against the tally.

use crate::codec::signature_record;
use crate::database::log::is_canonical;
use crate::database::receipts::ReceiptKind;
use crate::database::{SledEventDatabase, Table};
use crate::error::KeriError;
use crate::prefix::{
    contains_key, AttachedSignaturePrefix, BasicPrefix, IdentifierPrefix, SelfAddressingPrefix,
    SelfSigningPrefix,
};
use crate::state::IdentifierState;
use vstd::prelude::*;

verus! {

/// What became of a receipt.
#[derive(Debug, Clone, Copy, PartialEq, Eq, Structural)]
pub enum ReceiptOutcome {
    /// It is kept with the receipts of its event, which is finalised.
    /// `receipts` is the number of witnesses that have receipted the event,
    /// and `tally_met` says whether that reaches the tally: if it does, an
    /// event that waits on this one can be presented again.
    Stored { receipts: usize, tally_met: bool },
    /// Its event is not finalised: the receipt is set aside.
    Escrowed,
}

impl SledEventDatabase {
    /// Accepts a witness's receipt of the event under `digest` of the
    /// identifier at `sn`. The witness must be one of the witnesses in
    /// `state`, the state of the identifier.
    pub fn add_non_transferable_receipt(
        &mut self,
        state: &IdentifierState,
        identifier: &IdentifierPrefix,
        sn: u64,
        digest: &SelfAddressingPrefix,
        witness: &BasicPrefix,
        sig: &SelfSigningPrefix,
    ) -> (result: Result<ReceiptOutcome, KeriError>)
        ensures
            match result {
                Ok(ReceiptOutcome::Stored { receipts, tally_met }) => {
                    &&& state@.witnesses.contains(witness@)
                    &&& old(self)@.id_of(identifier@) is Some
                    &&& old(self)@.canonical(old(self)@.id_of(identifier@)->0, sn) == Some(digest@)
                    &&& final(self)@ == old(self)@.with_receipt(
                        ReceiptKind::NonTransferable,
                        old(self)@.id_of(identifier@)->0,
                        sn,
                        digest@,
                        witness@,
                        sig@,
                    )
                    &&& receipts == final(self)@.witness_receipts(
                        old(self)@.id_of(identifier@)->0,
                        sn,
                        digest@,
                        state@.witnesses,
                    )
                    &&& tally_met == (receipts >= state.tally)
                    &&& old(self)@.sound() ==> final(self)@.sound()
                },
                Ok(ReceiptOutcome::Escrowed) => {
                    &&& state@.witnesses.contains(witness@)
                    &&& old(self)@.id_of(identifier@) is Some
                    &&& old(self)@.canonical(old(self)@.id_of(identifier@)->0, sn) != Some(digest@)
                    &&& final(self)@ == old(self)@.with_escrowed_receipt(
                        ReceiptKind::NonTransferable,
                        old(self)@.id_of(identifier@)->0,
                        sn,
                        digest@,
                        witness@,
                        sig@,
                    )
                    &&& old(self)@.sound() ==> final(self)@.sound()
                },
                Err(KeriError::UnknownWitness) => {
                    &&& !state@.witnesses.contains(witness@)
                    &&& final(self)@ == old(self)@
                },
                Err(KeriError::NotIndexedError) => {
                    &&& state@.witnesses.contains(witness@)
                    &&& !old(self)@.indexed(identifier@)
                    &&& final(self)@ == old(self)@
                },
                Err(KeriError::SerializationError) => {
                    &&& state@.witnesses.contains(witness@)
                    &&& old(self)@.indexed(identifier@)
                    &&& old(self)@.id_of(identifier@) is None
                    &&& final(self)@ == old(self)@
                },
                Err(KeriError::StorageError) => {
                    &&& state@.witnesses.contains(witness@)
                    &&& final(self)@.agrees_except(
                        old(self)@,
                        set![Table::ReceiptsNt, Table::EscrowedReceiptsNt],
                    )
                },
                Err(_) => false,
            },
    {
        if !contains_key(&state.witnesses, witness) {
            return Err(KeriError::UnknownWitness);
        }
        let id = self.get_identifier_id(identifier)?;
        let canonical = self.canonical_digest(id, sn)?;
        let finalised = is_canonical(&canonical, digest);
        if !finalised {
            return match self.escrow_nt_receipt(identifier, sn, digest, witness, sig) {
                Ok(()) => Ok(ReceiptOutcome::Escrowed),
                Err(e) => Err(e),
            };
        }
        self.add_nt_receipt_for_event(identifier, sn, digest, witness, sig)?;
        let receipts = self.count_witness_receipts(identifier, sn, digest, &state.witnesses)?;
        Ok(ReceiptOutcome::Stored { receipts, tally_met: receipts as u64 >= state.tally })
    }

    /// Accepts a validator's receipt of the event under `digest` of the
    /// identifier at `sn`. The validator must be an indexed identifier. The
    /// result says whether the receipt is kept with the receipts of its
    /// event, which is then finalised, or set aside.
    pub fn add_transferable_receipt(
        &mut self,
        identifier: &IdentifierPrefix,
        sn: u64,
        digest: &SelfAddressingPrefix,
        validator: &IdentifierPrefix,
        sig: &AttachedSignaturePrefix,
    ) -> (result: Result<bool, KeriError>)
        ensures
            match result {
                Ok(stored) => {
                    &&& old(self)@.indexed(validator@)
                    &&& old(self)@.id_of(identifier@) is Some
                    &&& stored == (old(self)@.canonical(old(self)@.id_of(identifier@)->0, sn)
                        == Some(digest@))
                    &&& final(self)@ == if stored {
                        old(self)@.with_receipt(
                            ReceiptKind::Transferable,
                            old(self)@.id_of(identifier@)->0,
                            sn,
                            digest@,
                            validator@,
                            signature_record(sig@),
                        )
                    } else {
                        old(self)@.with_escrowed_receipt(
                            ReceiptKind::Transferable,
                            old(self)@.id_of(identifier@)->0,
                            sn,
                            digest@,
                            validator@,
                            signature_record(sig@),
                        )
                    }
                    &&& old(self)@.sound() ==> final(self)@.sound()
                },
                Err(KeriError::UnknownValidator) => {
                    &&& !old(self)@.indexed(validator@)
                    &&& final(self)@ == old(self)@
                },
                Err(KeriError::NotIndexedError) => {
                    &&& old(self)@.indexed(validator@)
                    &&& !old(self)@.indexed(identifier@)
                    &&& final(self)@ == old(self)@
                },
                Err(KeriError::SerializationError) => {
                    &&& old(self)@.indexed(validator@)
                    &&& old(self)@.indexed(identifier@)
                    &&& old(self)@.id_of(identifier@) is None
                    &&& final(self)@ == old(self)@
                },
                Err(KeriError::StorageError) => final(self)@.agrees_except(
                    old(self)@,
                    set![Table::ReceiptsT, Table::EscrowedReceiptsT],
                ),
                Err(_) => false,
            },
    {
        let known = self.holds(Table::Identifiers, validator.as_bytes())?;
        if !known {
            return Err(KeriError::UnknownValidator);
        }
        let id = self.get_identifier_id(identifier)?;
        let canonical = self.canonical_digest(id, sn)?;
        let finalised = is_canonical(&canonical, digest);
        if finalised {
            match self.add_t_receipt_for_event(identifier, sn, digest, validator, sig) {
                Ok(()) => Ok(true),
                Err(e) => Err(e),
            }
        } else {
            match self.escrow_t_receipt(identifier, sn, digest, validator, sig) {
                Ok(()) => Ok(false),
                Err(e) => Err(e),
            }
        }
    }
}

} // verus!
